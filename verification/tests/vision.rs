use procon::double::Double;
use procon::vision::{
    check_name, default_count, default_step, segment_index, vision_get, vision_post, FrameOutcome,
    Job, JobState, Load, ModelKey, RequestError, RunError, RunRequest, Settings, SettingsError,
    Vision, VisionConfig, VisionRoute, WorkEnd, RUN_SUFFIX,
};
use procon::vision_results::{assign_ids, sent_counts, summarize, Found, FoundFrame};
use serde_json::Value;

fn double(value: f64) -> Double {
    Double { bits: value.to_bits() }
}

fn settings() -> Settings {
    Settings { results: "/r".to_string(), size: 'n', custom: None, confidence: double(0.25) }
}

fn no_config() -> VisionConfig {
    VisionConfig {
        results: None,
        size: None,
        weights: None,
        weights_size: None,
        classes: None,
        confidence: None,
    }
}

/// The run that a JSON text asks for.
fn request(json: &str) -> RunRequest {
    let v: Value = serde_json::from_str(json).unwrap();
    RunRequest {
        s: v["s"].as_str().unwrap().to_string(),
        seg: v["seg"].as_str().unwrap().to_string(),
        start: v["start"].as_u64().unwrap_or(0),
        step: v["step"].as_u64().unwrap_or_else(default_step),
        count: v["count"].as_u64().unwrap_or_else(default_count),
        model: v["model"].as_str().map(String::from),
        cpu: v["cpu"].as_bool().unwrap_or(false),
        track: v["track"].as_bool().unwrap_or(true),
    }
}

#[test]
fn settings_from_config() {
    let dir = "/cfg";
    let s = Settings::from_config(&no_config(), dir, "/d/Vision").unwrap();
    assert_eq!(s.results, "/d/Vision");
    assert_eq!(s.size, 'n');
    assert!(s.custom.is_none());
    assert_eq!(s.confidence, double(0.25));

    let config = VisionConfig {
        results: Some("out".into()),
        size: Some("s".into()),
        weights: Some("w.safetensors".into()),
        classes: Some("classes.json".into()),
        ..no_config()
    };
    let s = Settings::from_config(&config, dir, "").unwrap();
    assert_eq!(s.results, "/cfg/out");
    assert_eq!(s.size, 's');
    let custom = s.custom.unwrap();
    assert_eq!(custom.weights, "/cfg/w.safetensors");
    assert_eq!(custom.size, 'n');

    for bad in [
        VisionConfig { size: Some("x".into()), ..no_config() },
        VisionConfig { weights: Some("w".into()), ..no_config() },
        VisionConfig { confidence: Some(double(1.5)), ..no_config() },
    ] {
        assert!(Settings::from_config(&bad, dir, "").is_err());
    }
}

#[test]
fn refused_settings_say_why() {
    let error = |config: VisionConfig| Settings::from_config(&config, "/cfg", "").err();
    assert_eq!(
        error(VisionConfig { size: Some("nn".into()), ..no_config() }),
        Some(SettingsError::Size)
    );
    assert_eq!(
        error(VisionConfig { classes: Some("c".into()), ..no_config() }),
        Some(SettingsError::Apart)
    );
    assert_eq!(
        error(VisionConfig {
            weights: Some("w".into()),
            classes: Some("c".into()),
            weights_size: Some("q".into()),
            ..no_config()
        }),
        Some(SettingsError::WeightsSize)
    );
    for bad in [-0.1, 1.0, f64::NAN] {
        assert_eq!(
            error(VisionConfig { confidence: Some(double(bad)), ..no_config() }),
            Some(SettingsError::Confidence)
        );
    }
    assert_eq!(error(VisionConfig { confidence: Some(double(0.0)), ..no_config() }), None);
}

#[test]
fn run_requests() {
    let request_at_first = request(r#"{"s": "2026-09-25_11-26-22", "seg": "video-01.mkv"}"#);
    assert_eq!(
        (request_at_first.start, request_at_first.step, request_at_first.count),
        (0, 2, 300)
    );
    assert!(request_at_first.track && !request_at_first.cpu);
    let key = request_at_first.check(&settings()).unwrap();
    assert_eq!(key.model, "n");

    let with = |json: &str| {
        let mut value: Value =
            serde_json::from_str(r#"{"s": "a", "seg": "video-01.mkv"}"#).unwrap();
        for (k, v) in serde_json::from_str::<serde_json::Map<String, Value>>(json).unwrap() {
            value[k] = v;
        }
        request(&value.to_string()).check(&settings())
    };
    assert_eq!(with(r#"{"model": "m"}"#).unwrap().model, "m");
    assert!(with(r#"{"model": "x"}"#).is_err());
    assert!(with(r#"{"model": "custom"}"#).is_err());
    assert!(with(r#"{"step": 0}"#).is_err());
    assert!(with(r#"{"count": 0}"#).is_err());
    assert!(with(r#"{"s": "../etc"}"#).is_err());
    assert!(with(r#"{"seg": "a/b.mkv"}"#).is_err());

    assert_eq!(with(r#"{"model": "x"}"#).err(), Some(RequestError::UnknownModel));
    assert_eq!(with(r#"{"model": "custom"}"#).err(), Some(RequestError::NoCustom));
    assert_eq!(with(r#"{"step": 0}"#).err(), Some(RequestError::Step));
    assert_eq!(with(r#"{"count": 20001}"#).err(), Some(RequestError::Count));
    assert_eq!(with(r#"{"s": "../etc"}"#).err(), Some(RequestError::BadSession));
    assert_eq!(with(r#"{"seg": "a/b.mkv"}"#).err(), Some(RequestError::BadSegment));
    assert!(check_name("video-01.mkv").is_ok() && check_name(".x").is_err());
}

fn found(class: &str, id: Option<u64>, score: f64) -> Found {
    Found { class: class.to_string(), id, score: Some(double(score)) }
}

/// How much two boxes overlap: shared area over the area of both.
fn iou(a: [f64; 4], b: [f64; 4]) -> f64 {
    let w = (a[0] + a[2]).min(b[0] + b[2]) - a[0].max(b[0]);
    let h = (a[1] + a[3]).min(b[1] + b[3]) - a[1].max(b[1]);
    if w <= 0.0 || h <= 0.0 {
        return 0.0;
    }
    w * h / (a[2] * a[3] + b[2] * b[3] - w * h)
}

#[test]
fn detections_take_track_ids() {
    let rect = |x: f64| [x, 0.1, 0.1, 0.1];
    let mut detections =
        vec![found("clock", None, 0.9), found("boat", None, 0.9), found("boat", None, 0.9)];
    let places = [rect(0.8), rect(0.1), rect(0.5)];
    let tracks = vec![found("boat", Some(7), 0.9), found("clock", Some(8), 0.9)];
    let track_places = [rect(0.51), rect(0.3)];
    let overlaps: Vec<Vec<Double>> = track_places
        .iter()
        .map(|t| places.iter().map(|d| double(iou(*d, *t))).collect())
        .collect();
    assign_ids(&mut detections, &tracks, &overlaps);
    assert_eq!(
        detections.iter().map(|d| d.id).collect::<Vec<_>>(),
        [None, None, Some(7)]
    );
}

#[test]
fn a_track_takes_the_free_detection_it_overlaps_most() {
    let mut detections = vec![
        found("boat", Some(1), 0.9),
        found("boat", None, 0.8),
        found("boat", None, 0.7),
        found("boat", None, 0.6),
    ];
    let tracks = vec![found("boat", Some(7), 0.9), found("boat", Some(8), 0.9)];
    let row: Vec<Double> = [0.9, 0.2, 0.5, 0.5].map(double).to_vec();
    assign_ids(&mut detections, &tracks, &vec![row.clone(), row]);
    // Of two that overlap as much, the last
    assert_eq!(
        detections.iter().map(|d| d.id).collect::<Vec<_>>(),
        [Some(1), None, Some(8), Some(7)]
    );
}

#[test]
fn summaries() {
    let frames = vec![
        FoundFrame {
            frame: 10,
            boxes: vec![found("boat", Some(1), 0.5), found("boat", None, 0.7)],
        },
        FoundFrame { frame: 12, boxes: vec![] },
        FoundFrame {
            frame: 14,
            boxes: vec![found("boat", Some(1), 0.6), found("clock", Some(2), 0.9)],
        },
    ];
    let (classes, tracks) = summarize(&frames);
    assert_eq!(classes[0].class, "boat");
    assert_eq!((classes[0].boxes, classes[0].frames), (3, 2));
    let scores: Vec<f64> = classes[0].scores.iter().map(|s| f64::from_bits(s.bits)).collect();
    let mean = scores.iter().sum::<f64>() / classes[0].boxes as f64;
    assert_eq!((mean * 1000.0).round() / 1000.0, 0.6);
    assert_eq!(classes[1].class, "clock");
    assert_eq!(tracks[0].id, 1);
    assert_eq!(tracks[0].class, "boat");
    assert_eq!((tracks[0].frames, tracks[0].first, tracks[0].last), (2, 10, 14));
    assert_eq!(tracks[1].first, 14);
    assert_eq!((classes.len(), tracks.len()), (2, 2));
}

#[test]
fn tracks_count_frames() {
    let boat = || found("boat", Some(1), 0.5);
    let frames = vec![FoundFrame { frame: 5, boxes: vec![boat(), boat()] }];
    let (classes, tracks) = summarize(&frames);
    assert_eq!((classes[0].boxes, classes[0].frames), (2, 1));
    assert_eq!((tracks[0].frames, tracks[0].first, tracks[0].last), (1, 5, 5));
    assert_eq!(tracks.len(), 1);
}

#[test]
fn classes_with_as_many_boxes_stand_by_name() {
    let frames = vec![FoundFrame {
        frame: 1,
        boxes: vec![
            found("maws", Some(9), 0.5),
            Found { score: None, ..found("chum", Some(3), 0.0) },
        ],
    }];
    let (classes, tracks) = summarize(&frames);
    assert_eq!(classes[0].class, "chum");
    assert_eq!(classes[0].scores, [double(0.0)]);
    assert_eq!(tracks.iter().map(|t| t.id).collect::<Vec<_>>(), [3, 9]);
}

#[test]
fn sent_boxes_are_counted() {
    assert_eq!(sent_counts(&vec![0, 2, 3]), (5, Some(1)));
    assert_eq!(sent_counts(&vec![0, 0]), (0, None));
}

fn job(vision: &Vision) -> &Job {
    vision.job.as_ref().unwrap()
}

#[test]
fn runs_go_one_at_a_time() {
    let mut vision = Vision::new(settings());
    let wanted = request(r#"{"s": "a", "seg": "video-01.mkv", "start": 40}"#);
    let key = vision.run(&wanted, 1000).unwrap();
    assert_eq!(job(&vision).id, 1);
    assert_eq!(job(&vision).state, JobState::Loading);
    assert_eq!(job(&vision).model_name, "YOLOv8n \u{b7} COCO");
    assert_eq!(vision.run(&wanted, 1001).err(), Some(RunError::Busy));
    let bad = request(r#"{"s": "..", "seg": "v"}"#);
    // Whatever is asked for while a run is under way
    assert_eq!(vision.post_run(&bad, 1001).err(), Some(RunError::Busy));
    assert_eq!(
        vision.run(&bad, 1001).err(),
        Some(RunError::Request(RequestError::BadSession))
    );

    assert!(matches!(vision.detector(&key), Load::Coco('n')));
    vision.network_loaded(key.clone());
    assert!(matches!(vision.detector(&key), Load::Reuse));
    vision.work_started(true, Some(double(12.5)));
    assert_eq!(job(&vision).device.as_deref(), Some("cpu"));
    assert_eq!(job(&vision).state, JobState::Running);
    assert!(vision.wants_frame());
    assert!(vision.take_frame(FrameOutcome::Found(3)).is_none());
    assert_eq!((job(&vision).done, job(&vision).boxes), (1, 3));
    let end = vision.take_frame(FrameOutcome::End).unwrap();
    let (end, keep) = vision.work_end(end, 1, 40);
    assert!(keep);
    assert!(vision.finish(end, 2000));
    assert_eq!(job(&vision).state, JobState::Done);
    assert_eq!(job(&vision).finished_ms, Some(2000));
    vision.run(&wanted, 3000).unwrap();
    assert_eq!(job(&vision).id, 2);
}

#[test]
fn runs_are_cancelled_and_fail() {
    let mut vision = Vision::new(settings());
    let wanted = request(r#"{"s": "a", "seg": "video-01.mkv", "start": 40}"#);
    vision.run(&wanted, 0).unwrap();
    vision.cancel();
    assert!(!vision.wants_frame());
    let (end, keep) = vision.work_end(WorkEnd::Finished, 0, 40);
    assert!(!keep);
    assert!(!vision.finish(end, 5));
    assert_eq!(job(&vision).state, JobState::Cancelled);

    vision.run(&wanted, 0).unwrap();
    assert!(!vision.cancel);
    let (end, _) = vision.work_end(WorkEnd::Finished, 0, 40);
    vision.finish(end, 5);
    assert_eq!(job(&vision).state, JobState::Failed);
    assert_eq!(
        job(&vision).error.as_deref(),
        Some("no frames from frame 40: the segment is shorter")
    );
    assert!(matches!(
        vision.take_frame(FrameOutcome::Failed("x".to_string())),
        Some(WorkEnd::Failed(e)) if e == "x"
    ));
}

#[test]
fn our_own_network_is_loaded_from_its_file() {
    let config = VisionConfig {
        weights: Some("w.safetensors".into()),
        classes: Some("c.json".into()),
        weights_size: Some("x".into()),
        ..no_config()
    };
    let mut vision = Vision::new(Settings::from_config(&config, "/cfg", "/r").unwrap());
    assert_eq!(vision.model_name("custom"), "w.safetensors");
    assert_eq!(vision.model_name("s"), "YOLOv8s \u{b7} COCO");
    let mut bare = Vision::new(Settings::from_config(&config, "/cfg", "/r").unwrap());
    bare.settings.custom.as_mut().unwrap().weights = ".".to_string();
    assert_eq!(bare.model_name("custom"), "custom");
    let key = ModelKey { model: "custom".to_string(), cpu: true };
    assert!(matches!(
        vision.detector(&key),
        Load::File(m) if m.weights == "/cfg/w.safetensors" && m.size == 'x'
    ));
    vision.network_loaded(key);
    // Another device needs another network
    let gpu = ModelKey { model: "custom".to_string(), cpu: false };
    assert!(matches!(vision.detector(&gpu), Load::File(_)));
    assert!(vision.loaded.is_none());
    let none = ModelKey { model: String::new(), cpu: false };
    assert!(matches!(vision.detector(&none), Load::NoSize));
}

#[test]
fn results_have_their_files() {
    let vision = Vision::new(settings());
    assert_eq!(vision.results_path("s", "video-01", RUN_SUFFIX), "/r/s/video-01.run.json");
    let files = vec!["video-01.mkv".to_string(), "video-02.mkv".to_string()];
    assert_eq!(segment_index(&files, "video-02.mkv"), Some(1));
    assert_eq!(segment_index(&files, "x"), None);
    assert_eq!(vision_get("info"), VisionRoute::Info);
    assert_eq!(vision_get("job"), VisionRoute::Job);
    assert_eq!(vision_get("results"), VisionRoute::Results);
    assert_eq!(vision_get("run"), VisionRoute::Unknown);
    assert_eq!(vision_post("run"), VisionRoute::Run);
    assert_eq!(vision_post("cancel"), VisionRoute::Cancel);
    assert_eq!(vision_post("send"), VisionRoute::Send);
    assert_eq!(vision_post("info"), VisionRoute::Unknown);
}
