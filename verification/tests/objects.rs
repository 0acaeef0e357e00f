use procon::double::Double;
use procon::objects::{
    read_objects, starter_classes, temporary_name, user, Annotations, FrameObjects, MergeStats,
    ObjectBox, ObjectsLine, CLASSES_FILE, STARTER_CLASSES,
};

fn double(value: f64) -> Double {
    Double { bits: value.to_bits() }
}

fn a_box(class: &str, x: f64, by: &str) -> ObjectBox {
    ObjectBox {
        class: class.to_string(),
        x: double(x),
        y: double(0.25),
        w: double(0.1),
        h: double(0.2),
        id: None,
        by: by.to_string(),
        score: (by == "model").then_some(double(0.9)),
        rest: "{}".to_string(),
    }
}

fn frame(frame: u64, boxes: Vec<ObjectBox>) -> FrameObjects {
    FrameObjects { frame, boxes, rest: "{}".to_string() }
}

fn same(a: &[ObjectBox], b: &[ObjectBox]) -> bool {
    a.len() == b.len() && a.iter().zip(b).all(|(x, y)| x.same(y))
}

#[test]
fn names_stay_inside_the_folder() {
    let annotations = Annotations::new("/a".to_string());
    assert!(annotations.path("..", "v.mkv").is_err());
    assert!(annotations.path("s", "../v.mkv").is_err());
    assert!(annotations.path("", "v.mkv").is_err());
    assert_eq!(annotations.path("s", "v.mkv").unwrap(), "/a/s/v.objects.jsonl");
    assert_eq!(annotations.dir(), "/a");
}

#[test]
fn save_keeps_unseen_model_boxes() {
    let annotations = Annotations::new("/a".to_string());
    let (s, seg) = ("2026-09-25_11-26-22", "video-01.mkv");

    // The model labels frame 3 while the page shows frame 3 with one box
    let seen = a_box("chum", 0.1, "model");
    let saved =
        annotations.save_frame(s, seg, vec![], 3, vec![seen.copy()], &vec![]).unwrap();
    let unseen = a_box("maws", 0.5, "model");
    let saved = annotations
        .save_frame(s, seg, saved.frames, 3, vec![seen.copy(), unseen.copy()], &vec![])
        .unwrap();

    // The user, who loaded only `seen`, accepts it as their own
    let mut accepted = seen.copy();
    accepted.by = "user".to_string();
    let saved = annotations
        .save_frame(s, seg, saved.frames, 3, vec![accepted.copy()], &vec![seen.copy()])
        .unwrap();
    assert!(same(&saved.saved.boxes, &[accepted.copy(), unseen.copy()]));

    let saved = annotations
        .save_frame(s, seg, saved.frames, 1, vec![a_box("player", 0.3, "user")], &vec![])
        .unwrap();
    assert!(saved.path.ends_with("2026-09-25_11-26-22/video-01.objects.jsonl"));
    let frames: Vec<u64> = saved.frames.iter().map(|f| f.frame).collect();
    assert_eq!(frames, [1, 3]);

    // Deleting every box it saw leaves the frame to the unseen one; then
    // deleting that one too unlabels the frame
    let saved = annotations
        .save_frame(s, seg, saved.frames, 3, vec![], &vec![unseen.copy()])
        .unwrap();
    assert!(saved.frames.iter().all(|f| f.frame != 3));
    assert!(annotations.save_frame("..", seg, vec![], 3, vec![], &vec![]).is_err());
}

#[test]
fn classes_start_with_the_starter_list() {
    let classes = starter_classes();
    assert_eq!(classes.len(), STARTER_CLASSES.len());
    assert_eq!(classes[0].name, "smallfry");
    assert_eq!(classes[13].label, "Slammin' Lid");
    assert_eq!(classes[15].color, "#ff6fd8");
    assert_eq!(CLASSES_FILE, "classes.json");
}

#[test]
fn boxes_are_compared_key_by_key() {
    let a = a_box("chum", 0.1, "model");
    assert!(a.same(&a.copy()));
    assert!(!a.same(&a_box("chum", 0.2, "model")));
    assert!(!a.same(&a_box("chum", 0.1, "user")));
    // JSON values, not their texts
    let mut b = a.copy();
    b.id = Some("3".to_string());
    let mut c = a.copy();
    c.id = Some(" 3".to_string());
    assert!(b.same(&c));
    assert!(!b.same(&a));
    c.id = Some("4".to_string());
    assert!(!b.same(&c));
    let mut d = a.copy();
    d.rest = r#"{"a": 1, "b": [2]}"#.to_string();
    let mut e = a.copy();
    e.rest = r#"{"b":[2],"a":1}"#.to_string();
    assert!(d.same(&e));
    e.rest = r#"{"b":[2]}"#.to_string();
    assert!(!d.same(&e));
    let mut nan = a.copy();
    nan.x = double(f64::NAN);
    assert!(!nan.same(&nan.copy()));
    let zero = a_box("chum", 0.0, "model");
    assert!(zero.same(&a_box("chum", -0.0, "model")));
    assert!(a.by_model());
    assert_eq!(user(), "user");
}

#[test]
fn lines_are_read_by_frame() {
    let lines = vec![
        ObjectsLine::Decoded(frame(7, vec![a_box("chum", 0.1, "user")])),
        ObjectsLine::Blank,
        ObjectsLine::Decoded(frame(2, vec![])),
        ObjectsLine::Decoded(frame(7, vec![a_box("maws", 0.1, "user")])),
    ];
    let frames = read_objects(lines).unwrap();
    assert_eq!(frames.iter().map(|f| f.frame).collect::<Vec<_>>(), [2, 7]);
    assert_eq!(frames[1].boxes[0].class, "maws");
    let bad = vec![ObjectsLine::Blank, ObjectsLine::Unreadable];
    assert_eq!(read_objects(bad).err(), Some(2));
}

#[test]
fn a_model_never_touches_what_a_person_labeled() {
    let annotations = Annotations::new("/a".to_string());
    let person = a_box("chum", 0.2, "user");
    let lines = vec![
        frame(2, vec![person.copy(), a_box("maws", 0.4, "model")]),
        frame(4, vec![a_box("maws", 0.1, "model")]),
    ];
    let new = a_box("player", 0.1, "model");
    let predicted =
        vec![frame(0, vec![new.copy()]), frame(2, vec![new.copy()]), frame(4, vec![new.copy()])];
    let (path, merged, stats) =
        annotations.merge_model_boxes("s", "v.mkv", lines, predicted).unwrap();
    assert_eq!(path, "/a/s/v.objects.jsonl");
    assert_eq!(stats, MergeStats { added: 1, replaced: 1, kept: 1 });
    assert_eq!(merged.iter().map(|f| f.frame).collect::<Vec<_>>(), [0, 2, 4]);
    assert!(same(&merged[0].boxes, &[new.copy()]));
    assert!(merged[1].boxes[0].same(&person));
    assert_eq!(merged[1].boxes.len(), 2);
    assert!(same(&merged[2].boxes, &[new]));
}

#[test]
fn temporary_files_are_hidden() {
    assert_eq!(temporary_name("classes.json", 42), ".classes.json.42.tmp");
}
