use procon::audio::{grab_args, Audio, CHUNK_BYTES};
use procon::config::{
    affinity_enabled, level_of_lower, log_level, log_level_or_info, Config, ConfigError,
    ConsoleConfig, DumpConfig, LogLevel, LoggingConfig, PerformanceConfig, ProxyConfig,
    ReplayConfig, StreamConfig, VideoConfig,
};
use procon::double::Double;
use procon::frame::Frame;
use procon::keystate::Timestamp;
use procon::paths::{extension, file_name, join_path, prefix_parent, stem};
use procon::recorder::{
    expand_home, normalize_prefix, session_dir, session_dir_at, Recorder, RecorderError,
    RecorderState,
};
use procon::studio::{
    dropped_in_session, saved_settings, segment_name, start_settings, Command, Outside,
    SavedState, Studio, StudioError,
};
use procon::text::{
    decimal, hex16, lines, parse_decimal, parse_number, precedes, split_on, take_chars, trim,
    two_digits,
};
use procon::video::{
    ffmpeg_args, list_inputs, next_part, record_filter, start_text, Restart, Video, VideoError,
    VideoNode,
};
use procon::web::{
    all_sessions_bytes, disk_bytes, live_state, live_state_at, memory, recount_due, reply_status,
    ChunkKind, Client, ClientEvent, ClientStep, RateHistory, ReplyOutcome, Sample,
};
use procon::web_visualization::{
    is_device_connected, socket_step, stays, Greeting, SocketEvent, SocketStep,
    WebVisualizationServer,
};

#[test]
fn normalizes_prefixes() {
    let home = "/home/u";
    let temp = "/tmp";
    // An existing folder gets sessions inside it
    assert_eq!(normalize_prefix(temp, Some(home), true), "/tmp/");
    // A name prefix is kept as typed
    assert_eq!(normalize_prefix("/tmp/mk8-", Some(home), false), "/tmp/mk8-");
    assert_eq!(normalize_prefix("~/procon-", Some(home), false), "/home/u/procon-");
    assert_eq!(normalize_prefix(" ~ ", Some(home), true), "/home/u/");
    // Only a leading ~ that means home is expanded
    assert_eq!(normalize_prefix("~other/x-", Some(home), false), "~other/x-");
    assert_eq!(normalize_prefix("/tmp/", None, true), "/tmp/");
    assert_eq!(expand_home("~", None), "~");
    assert_eq!(session_dir_at("/tmp/mk8-", "2026-09-24_21-40-05"), "/tmp/mk8-2026-09-24_21-40-05");
    let dir = session_dir("/tmp/mk8-");
    assert!(dir.starts_with("/tmp/mk8-20") && dir.len() == 28);
}

#[test]
fn sessions_start_pause_resume_and_stop() {
    let mut recorder = Recorder::new("/tmp/mk8-".to_string());
    assert_eq!(recorder.check_start().unwrap(), "/tmp");
    assert_eq!(recorder.pause(5), Err(RecorderError::NotRecording));
    assert_eq!(recorder.stop(5), Err(RecorderError::NotRecording));
    recorder.start("/tmp/mk8-x".to_string(), 1_000_000).unwrap();
    assert_eq!(recorder.start("y".to_string(), 1), Err(RecorderError::AlreadyRecording));
    assert!(recorder.wants_frame());
    recorder.frame_written();
    assert_eq!(recorder.resume(2_000_000), Err(RecorderError::NotPaused));
    recorder.pause(3_000_000).unwrap();
    assert!(!recorder.wants_frame());
    recorder.resume(50_000_000).unwrap();
    let status = recorder.status("next".to_string(), 55_000_000);
    assert_eq!(status.state, RecorderState::Recording);
    assert_eq!((status.frames, status.bytes, status.elapsed_ms), (1, 80, 7));
    recorder.stop(60_000_000).unwrap();
    assert_eq!(recorder.status("n".to_string(), 99_000_000).elapsed_ms, 12);
    assert_eq!(recorder.status("n".to_string(), 0).session.as_deref(), Some("/tmp/mk8-x"));
    recorder.start("/tmp/mk8-y".to_string(), 0).unwrap();
    recorder.write_failed("write failed: disk full".to_string(), 1_000_000);
    let status = recorder.status("n".to_string(), 5_000_000);
    assert_eq!(status.state, RecorderState::Idle);
    assert_eq!(status.error.as_deref(), Some("write failed: disk full"));
}

#[test]
fn prefixes_need_their_folder() {
    let mut recorder = Recorder::new("/tmp/a-".to_string());
    assert_eq!(recorder.set_prefix(String::new(), true), Err(RecorderError::EmptyPrefix));
    assert_eq!(recorder.set_prefix("/x/b-".to_string(), false), Err(RecorderError::NoFolder));
    recorder.set_prefix("/tmp/b-".to_string(), true).unwrap();
    assert_eq!((recorder.prefix(), recorder.prefix_dir()), ("/tmp/b-".into(), "/tmp".into()));
    recorder.start("d".to_string(), 0).unwrap();
    assert_eq!(recorder.set_prefix("/tmp/c-".to_string(), true), Err(RecorderError::StopFirst));
}

#[test]
fn paths_are_taken_apart() {
    assert_eq!(join_path("/a", "b"), "/a/b");
    assert_eq!(join_path("/a/", "b"), "/a/b");
    assert_eq!(join_path("/a", "/b"), "/b");
    assert_eq!(join_path("", "b"), "b");
    assert_eq!(file_name("/a/b.mkv"), "b.mkv");
    assert_eq!(file_name("/a/b/"), "b");
    assert_eq!(file_name("a/."), "a");
    for bare in ["", ".", "./", "..", "a/..", "/", "/."] {
        assert_eq!(file_name(bare), "");
    }
    assert_eq!(extension("b.tar.gz").as_deref(), Some("gz"));
    assert_eq!(extension(".hidden"), None);
    assert_eq!(stem("b.tar.gz"), "b.tar");
    assert_eq!(stem(".hidden"), ".hidden");
    assert_eq!(prefix_parent("/data/procon/mk8-"), "/data/procon");
    assert_eq!(prefix_parent("/data/"), "/data");
    assert_eq!(prefix_parent("x-"), ".");
}

#[test]
fn texts_are_read_and_written() {
    assert_eq!(parse_number("fF", 16, 255), Some(255));
    assert_eq!(parse_number("+10", 10, 99), Some(10));
    assert_eq!(parse_number("256", 10, 255), None);
    assert_eq!(parse_decimal("", 9), None);
    assert_eq!((decimal(0), decimal(1024)), ("0".to_string(), "1024".to_string()));
    assert_eq!((two_digits(7), two_digits(123)), ("07".to_string(), "123".to_string()));
    assert_eq!(hex16(0x4986bb8954dfa5e), "04986bb8954dfa5e");
    assert_eq!(lines("a\r\nb\n\nc"), ["a", "b", "", "c"]);
    assert_eq!(split_on("a,,b", ','), ["a", "", "b"]);
    assert_eq!(trim("\u{a0} x\t\n"), "x");
    let spaces = "\u{b}\u{c}\r\u{85}\u{1680}\u{2000}\u{200a}\u{2028}\u{2029}\u{202f}\u{205f}\u{3000}";
    assert_eq!(trim(spaces), "");
    assert_eq!(trim("\u{200b}x"), "\u{200b}x");
    assert_eq!(take_chars("\u{e9}a\u{e9}", 2), "\u{e9}a");
    assert!(precedes("a", "b") && precedes("a", "ab") && !precedes("b", "ab"));
}

#[test]
fn log_levels_are_checked() {
    let config = |level: &str| Config {
        proxy: ProxyConfig {
            controller_read_timeout_ms: 5,
            frame_count_log_interval: 1000,
            hidg_retry_delay_ms: 1000,
        },
        dump: DumpConfig { autostart: false, prefix: "/tmp/procon-".to_string() },
        console: ConsoleConfig { enable: false },
        stream: StreamConfig { port: 7331 },
        replay: ReplayConfig { port: 7332 },
        performance: PerformanceConfig { enable_cpu_affinity: false },
        logging: LoggingConfig { level: level.to_string() },
    };
    assert!(config("info").validate().is_ok());
    assert!(config("WARN").validate().is_ok());
    assert!(matches!(
        config("loud").validate(),
        Err(ConfigError::InvalidLogLevel(l)) if l == "loud"
    ));
    assert_eq!(log_level("Debug"), Some(LogLevel::Debug));
    assert_eq!(level_of_lower("trace"), Some(LogLevel::Trace));
    assert_eq!(level_of_lower("TRACE"), None);
    assert_eq!(log_level_or_info("x"), LogLevel::Info);
    assert!(affinity_enabled(Some("1")) && affinity_enabled(Some("True")));
    assert!(!affinity_enabled(Some("0")) && !affinity_enabled(None));
}

#[test]
fn recordings_start_with_the_sound_of_their_first_frame() {
    let mut audio = Audio::new();
    assert!(!audio.live(5000));
    for i in 0..300u64 {
        audio.take_chunk(10_000 + i * 10, vec![i as u8; CHUNK_BYTES]);
    }
    // Two seconds are kept
    assert_eq!(audio.history.len(), 201);
    assert_eq!(audio.history[0].arrived_us, 10_990_000);
    let now = 12_990;
    assert!(audio.live(now));
    // Half of the chunk that arrived at 12.980 s is before 12.975 s
    let start = audio.begin(12_975, now).unwrap();
    assert_eq!(start.start_ms, 12_975);
    assert_eq!(start.pieces.len(), 2);
    assert_eq!(start.pieces[0].len(), CHUNK_BYTES / 2);
    assert_eq!(start.pieces[1].len(), CHUNK_BYTES);
    // What is older than the history starts with it
    assert_eq!(audio.begin(5_000, now).unwrap().start_ms, 10_980);
    assert!(audio.begin(12_975, now + 5000).is_none());
    audio.attach();
    assert!(audio.streaming);
    audio.end();
    audio.stop();
    assert!(!audio.streaming && audio.stopped);
    assert!(grab_args("card").join(" ").contains("-f pulse -fragment_size 1920 -i card"));
}

fn video_config() -> VideoConfig {
    VideoConfig {
        input: "/dev/video0".to_string(),
        fps: 60,
        v4l2_args: vec!["-input_format".to_string(), "nv12".to_string()],
        record_height: 720,
        record_fps: 30,
        encoder: vec!["-c:v".to_string(), "h264_nvenc".to_string()],
        extension: "mkv".to_string(),
        preview_height: 540,
        preview_fps: 15,
        preview_encoder: vec![],
    }
}

#[test]
fn inputs_are_listed() {
    let node = |file: &str, index: &str, name: &str| VideoNode {
        file_name: file.to_string(),
        index: Some(index.to_string()),
        name: Some(name.to_string()),
    };
    let nodes = vec![
        node("video2", "0\n", "4K X\n"),
        node("video1", "1\n", "Webcam"),
        node("video0", "0", "Webcam\n"),
        VideoNode { file_name: "video3".to_string(), index: None, name: None },
    ];
    let inputs = list_inputs(Some(":1"), &nodes);
    let ids: Vec<&str> = inputs.iter().map(|i| i.id.as_str()).collect();
    assert_eq!(ids, ["screen", "/dev/video0", "/dev/video2"]);
    assert_eq!(inputs[0].name, "Screen (:1)");
    assert_eq!(inputs[2].name, "4K X (/dev/video2)");
    assert!(list_inputs(None, &vec![]).is_empty());
}

#[test]
fn ffmpeg_gets_its_options() {
    let config = video_config();
    let preview = ffmpeg_args(&config, "screen", Some(":1"), "x", None).join(" ");
    assert!(preview.contains("-f x11grab -framerate 60 -i :1 -vf scale=-2:540,fps=15 -c:v mjpeg"));
    let record = ffmpeg_args(&config, "/dev/video0", None, "scale=-2:720", Some("/s/v.mkv"));
    let record = record.join(" ");
    assert!(record.contains("-f v4l2 -input_format nv12 -framerate 60 -i /dev/video0"));
    assert!(record.contains(
        "[0:v]split=2[rec][pv];[rec]scale=-2:720[r];[pv]scale=-2:540,fps=15[p] -map [r]"
    ));
    assert!(record.contains("-c:v h264_nvenc -y /s/v.mkv -map [p]"));
}

#[test]
fn recordings_get_their_height_and_rate() {
    let mut config = video_config();
    config.record_height = 720;
    config.record_fps = 30;
    assert_eq!(record_filter(&config), "scale=-2:720,fps=30");
    config.record_height = 0;
    assert_eq!(record_filter(&config), "fps=30");
}

#[test]
fn ffmpeg_is_restarted() {
    let mut video = Video::new(video_config(), Some("/dev/video0".to_string()));
    assert_eq!(video.restart(), Restart { end: None, start: true });
    video.spawned();
    let generation = video.generation;
    assert!(video.preview_frame(generation, 500));
    video.log_line(generation, "Duration: N/A, start: 1.5, bitrate", Some(1500));
    assert_eq!(video.started_at_ms, Some(1500));
    video.log_line(generation, " Device busy ", None);
    assert_eq!(video.error.as_deref(), Some("Device busy"));
    assert!(video.first_frame_due(generation, "/dev/video0").is_none());
    let restart = video.start_recording("/s/v.mkv".to_string()).unwrap();
    assert_eq!(restart, Restart { end: Some(true), start: true });
    assert!(!video.is_current(generation) && !video.preview_frame(generation, 600));
    assert!(matches!(video.set_input(None), Err(VideoError::StopFirst)));
    let status = video.status(vec![], 77, 600);
    assert_eq!((status.bytes, status.recording.as_deref()), (77, Some("/s/v.mkv")));
    video.spawned();
    video.log_line(video.generation, "start: 2", Some(2000));
    let (started, _) = video.stop_recording().unwrap();
    assert_eq!(started, Some(2000));
    assert!(video.stop_recording().is_none());
    video.spawn_failed("no ffmpeg".to_string());
    assert_eq!(video.status(vec![], 1, 9).error.as_deref(), Some("no ffmpeg"));
    let retry = video.first_frame_due(video.generation, "/dev/video0").unwrap();
    assert!(retry.start);
    assert!(video.error.as_deref().unwrap().starts_with("No frames from /dev/video0 yet"));
    assert!(video.exited(video.generation).is_some());
    assert!(video.exited(0).is_none());
    video.set_input(None).unwrap();
    assert!(video.exited(video.generation).is_some());
    assert_eq!(video.error.as_deref(), Some("ffmpeg exited"));
    assert_eq!((video.input(), video.extension()), (None, "mkv".to_string()));
    assert!(video.start_recording("x".to_string()).is_none());
}

#[test]
fn ffmpeg_output_is_read() {
    assert_eq!(start_text("Duration: N/A, start: 1.25 , bitrate").as_deref(), Some("1.25"));
    assert_eq!(start_text("frame=1"), None);
    let mut length = None;
    assert_eq!(next_part(&mut length, "Content-Length: 42\r"), None);
    assert_eq!(length, Some(42));
    assert_eq!(next_part(&mut length, "Content-type: image/jpeg"), None);
    assert_eq!(next_part(&mut length, "\r"), Some(42));
}

fn studio() -> Studio {
    let video = Video::new(video_config(), Some("/dev/video0".to_string()));
    Studio::new(Recorder::new("/tmp/s-".to_string()), video)
}

#[test]
fn sessions_record_controller_and_video_together() {
    let mut studio = studio();
    assert!(matches!(
        studio.pause(0),
        Err(StudioError::Recorder(RecorderError::NotRecording))
    ));
    let (session, effects) = studio.start("/tmp/s-1".to_string(), 0, 1000, 5).unwrap();
    assert!(effects.write_session && effects.restart.is_some() && !effects.save_state);
    assert_eq!(session.segments[0].file, "video-01.mkv");
    assert_eq!(studio.video.recording.as_deref(), Some("/tmp/s-1/video-01.mkv"));
    studio.adopt(session);
    assert!(studio.start("x".to_string(), 0, 0, 0).is_err());
    studio.video.started_at_ms = Some(1234);
    studio.pause(10).unwrap();
    assert_eq!(studio.session.as_ref().unwrap().segments[0].start_unix_ms, Some(1234));
    assert_eq!(studio.video.recording, None);
    studio.resume(20).unwrap();
    let segments = &studio.session.as_ref().unwrap().segments;
    assert_eq!(segments.len(), 2);
    assert_eq!(segments[1].file, "video-02.mkv");
    assert!(matches!(studio.set_video_input(String::new()), Err(StudioError::StopFirst)));
    assert!(studio.set_prefix("/tmp/t-".to_string(), true).is_err());
    studio.stop(30, 5000).unwrap();
    let session = studio.session.as_ref().unwrap();
    assert_eq!(session.stopped_at_ms, Some(5000));
    assert_eq!(dropped_in_session(9, session), 4);
    let effects = studio.set_video_input("screen".to_string()).unwrap();
    assert!(effects.save_state);
    assert_eq!(studio.video.input().as_deref(), Some("screen"));
    assert!(studio.set_prefix("/tmp/t-".to_string(), true).unwrap().save_state);
}

#[test]
fn saved_settings_win() {
    let nothing = SavedState {
        prefix: None,
        video_input: None,
        video_height: None,
        video_fps: None,
        preview_matches_recording: None,
        record_audio: None,
        replay_mix: None,
        replay_path: None,
    };
    let start = start_settings(nothing.clone(), "/tmp/p-".to_string(), &video_config());
    assert_eq!(start.prefix, "/tmp/p-");
    assert_eq!(start.input.as_deref(), Some("/dev/video0"));
    assert_eq!((start.record_height, start.record_fps), (720, 30));
    assert!(start.record_audio && !start.replay_mix && !start.preview_matches_recording);
    let saved = SavedState {
        prefix: Some("/data/x-".to_string()),
        video_input: Some(String::new()),
        video_height: Some(360),
        ..nothing
    };
    let start = start_settings(saved, "/tmp/p-".to_string(), &video_config());
    assert_eq!((start.prefix.as_str(), start.input), ("/data/x-", None));
    assert_eq!(start.record_height, 360);
    assert_eq!(
        saved_settings("/p-".to_string(), None),
        ("/p-".to_string(), String::new())
    );
    assert_eq!(segment_name(12, "mkv"), "video-12.mkv");
}

#[test]
fn browsers_get_frames_from_a_key_frame_on() {
    let mut client = Client::new();
    assert_eq!(client.step(ClientEvent::Chunk(ChunkKind::Init)), ClientStep::SendChunk);
    assert_eq!(client.step(ClientEvent::Chunk(ChunkKind::Delta)), ClientStep::Nothing);
    assert_eq!(client.step(ClientEvent::Chunk(ChunkKind::Key)), ClientStep::SendChunk);
    assert_eq!(client.step(ClientEvent::Chunk(ChunkKind::Delta)), ClientStep::SendChunk);
    assert_eq!(client.step(ClientEvent::Lagged), ClientStep::Nothing);
    assert_eq!(client.step(ClientEvent::Chunk(ChunkKind::Delta)), ClientStep::Nothing);
    assert_eq!(client.step(ClientEvent::StateChanged), ClientStep::SendState);
    assert_eq!(client.step(ClientEvent::StatusChanged), ClientStep::SendStatus);
    assert_eq!(client.step(ClientEvent::PingDue), ClientStep::SendPing);
    assert_eq!(client.step(ClientEvent::Gone), ClientStep::Close);
}

#[test]
fn rates_come_from_a_window() {
    let mut history = RateHistory::new();
    let sample = |n: u64| Sample {
        at_ns: n * 500,
        frames: n * 10,
        controller_bytes: n * 80,
        video_bytes: 7 * n,
    };
    assert_eq!(history.take(sample(1)).frames, 0);
    for n in 2..20 {
        history.take(sample(n));
    }
    assert_eq!(history.samples.len(), 7);
    let change = history.take(sample(20));
    assert_eq!((change.frames, change.at_ns), (70, 3500));
    // A new session starts its counters again
    assert_eq!(history.take(sample(0)).frames, 0);
}

#[test]
fn the_machine_is_described() {
    assert!(recount_due(None, 5) && !recount_due(Some(5), 9_000_000_000));
    assert!(recount_due(Some(0), 10_000_000_000));
    assert_eq!(all_sessions_bytes(Some(5), 6, 7), Some(18));
    assert_eq!(all_sessions_bytes(None, 6, 7), None);
    assert_eq!(disk_bytes(2, 10, 4096), Some((8192, 40960)));
    assert_eq!(disk_bytes(u64::MAX, 1, 2), None);
    let info = "MemTotal:       16000 kB\nMemFree: 1 kB\nMemAvailable:    8000 kB\n";
    assert_eq!(memory(info), Some((8000 * 1024, 16000 * 1024)));
    assert_eq!(memory("MemTotal: 5 kB"), None);
    assert_eq!(reply_status(ReplyOutcome::Whole), 200);
    assert_eq!(reply_status(ReplyOutcome::Part), 206);
    assert_eq!(reply_status(ReplyOutcome::Refused), 400);
    assert_eq!(reply_status(ReplyOutcome::Broken), 500);
}

#[test]
fn live_states_come_from_frames() {
    let mut report = [0u8; 64];
    report[0] = 0x30;
    report[3] = 1;
    let at = Timestamp { secs: 3, nanos: 4 };
    let state = live_state_at(&Frame::new(3000, 1, &report), at).unwrap();
    assert!(state.buttons.y);
    assert!(live_state(&Frame::new(3000, 1, &report)).is_some());
    report[0] = 0x81;
    assert!(live_state_at(&Frame::new(3000, 1, &report), at).is_none());
}

#[test]
fn the_visualization_follows_the_controller() {
    let mut server = WebVisualizationServer::new();
    let at = Timestamp { secs: 3, nanos: 4 };
    let mut report = [0u8; 64];
    report[0] = 0x30;
    assert!(server.update_from_hid(&report, at));
    assert!(server.controller_state.is_some());
    assert!(!server.update_from_hid(&report[..5], at));
    assert!(server.is_device_connected && !server.update_device_status(true));
    assert!(server.update_device_status(false) && !server.is_device_connected);
    assert!(is_device_connected(Some(2_999_999_999)) && is_device_connected(None));
    assert!(!is_device_connected(Some(3_000_000_000)));
    assert_eq!(socket_step(SocketEvent::Broadcast), SocketStep::Forward);
    assert_eq!(socket_step(SocketEvent::Ping), SocketStep::Pong);
    assert_eq!(socket_step(SocketEvent::PingDue), SocketStep::AskAlive);
    assert_eq!(socket_step(SocketEvent::Close), SocketStep::Leave);
    assert_eq!(socket_step(SocketEvent::Other), SocketStep::Nothing);
}

#[test]
fn new_browsers_are_greeted() {
    let mut server = WebVisualizationServer::new();
    assert_eq!(server.greeting(), [Greeting::Status(false)]);
    let mut data = [0u8; 64];
    data[0] = 0x30;
    assert!(server.update_from_hid(&data, Timestamp { secs: 1, nanos: 0 }));
    assert_eq!(server.greeting(), [Greeting::State, Greeting::Status(true)]);
    // A browser that cannot take something is left, but for an answer to its ping
    assert!(stays(SocketStep::Forward, true) && !stays(SocketStep::Forward, false));
    assert!(stays(SocketStep::AskAlive, true) && !stays(SocketStep::AskAlive, false));
    assert!(stays(SocketStep::Pong, false) && stays(SocketStep::Nothing, false));
    assert!(!stays(SocketStep::Leave, true));
}

#[test]
fn commands_are_applied() {
    let mut studio = studio();
    let at = |now_ns: u64| Outside {
        dir: "/tmp/s-1".to_string(),
        folder_exists: true,
        now_ns,
        now_ms: 1000,
        dropped: 5,
    };
    let refused = |error| Some(StudioError::Recorder(error));
    let stop = studio.run(Command::Stop, at(0));
    assert_eq!(stop.err(), refused(RecorderError::NotRecording));
    let prefix = Command::SetPrefix { prefix: "/tmp/t-".to_string() };
    let (started, effects) = studio.run(prefix, at(0)).unwrap();
    assert!(started.is_none() && effects.save_state);
    assert_eq!(studio.recorder.prefix(), "/tmp/t-");
    let (started, effects) = studio.run(Command::Start, at(0)).unwrap();
    let session = started.unwrap();
    assert_eq!((session.dir.as_str(), session.dropped_before), ("/tmp/s-1", 5));
    assert!(effects.write_session);
    studio.adopt(session);
    let input = Command::SetVideoInput { input: String::new() };
    assert_eq!(studio.run(input, at(1)).err(), Some(StudioError::StopFirst));
    assert!(studio.run(Command::Pause, at(2)).unwrap().1.write_session);
    let pause = studio.run(Command::Pause, at(3));
    assert_eq!(pause.err(), refused(RecorderError::NotRecording));
    assert!(studio.run(Command::Resume, at(4)).unwrap().0.is_none());
    studio.run(Command::Stop, at(5)).unwrap();
    assert_eq!(studio.session.as_ref().unwrap().stopped_at_ms, Some(1000));
}

#[test]
fn doubles_compare_as_numbers() {
    let d = |v: f64| Double { bits: v.to_bits() };
    let values = [f64::NEG_INFINITY, -2.5, -0.0, 0.0, 1e-300, 0.1, 7.0, f64::INFINITY, f64::NAN];
    for a in values {
        for b in values {
            assert_eq!(d(a).below(&d(b)), a < b);
            assert_eq!(d(a).at_most(&d(b)), a <= b);
            assert_eq!(d(a).equal(&d(b)), a == b);
        }
        assert_eq!(d(a).finite(), a.is_finite());
        assert_eq!(d(a).is_time(), a.is_finite() && a >= 0.0);
    }
}
