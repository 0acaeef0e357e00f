use procon::frame::Frame;
use procon::player::{Playback, Player, PlayerError, Step, STOP_CHECK_NS};
use procon::replay::{
    is_blank, is_lines_file, load_frames, load_lines, recording_in_order, replay_file, Action,
    ActionError, Line, LineProblem, LoadError, Replay,
};
use procon::report::{
    button, read_axes, read_axis, read_stick, read_stick_at, write_axes, write_axes_at,
    write_stick, write_stick_at, BUTTON_COUNT, IMU_OFFSET, IMU_SAMPLE, REPORT_FULL, REPORT_REPLY,
};
use serde_json::Value;

fn full_report() -> [u8; 64] {
    let mut report = [0u8; 64];
    report[0] = REPORT_FULL;
    report[3] = 0x80; // ZR
    write_stick(&mut report[6..9], [100, 4000]);
    write_stick(&mut report[9..12], [2048, 1]);
    for sample in 0..3 {
        let at = IMU_OFFSET + sample * IMU_SAMPLE;
        report[at + 6..at + 8].copy_from_slice(&(-300i16).to_le_bytes());
    }
    report
}

fn empty_action() -> Action {
    Action {
        t_ms: None,
        buttons: None,
        left_stick: None,
        right_stick: None,
        gyro: None,
        accel: None,
        mix: false,
    }
}

/// The JSON of an action line; nothing for a key that actions do not have.
fn decode(line: &str) -> Option<Action> {
    let value: Value = serde_json::from_str(line).ok()?;
    let mut action = empty_action();
    for (key, v) in value.as_object()? {
        match key.as_str() {
            "t_ms" => action.t_ms = v.as_u64(),
            "buttons" => {
                let names = v.as_array()?.iter().map(|b| b.as_str().map(String::from));
                action.buttons = Some(names.collect::<Option<Vec<String>>>()?);
            }
            "left_stick" => action.left_stick = pair(v),
            "right_stick" => action.right_stick = pair(v),
            "gyro" => action.gyro = triple(v),
            "accel" => action.accel = triple(v),
            "mix" => action.mix = v.as_bool()?,
            _ => return None,
        }
    }
    Some(action)
}

fn pair(v: &Value) -> Option<[u16; 2]> {
    let a = v.as_array()?;
    Some([a[0].as_u64()? as u16, a[1].as_u64()? as u16])
}

fn triple(v: &Value) -> Option<[i16; 3]> {
    let a = v.as_array()?;
    Some([a[0].as_i64()? as i16, a[1].as_i64()? as i16, a[2].as_i64()? as i16])
}

fn parse(line: &str) -> Option<Action> {
    Action::parse(decode(line)?).ok()
}

fn line(text: &str) -> Line {
    if is_blank(text) {
        return Line::Blank;
    }
    match decode(text) {
        Some(action) => Line::Decoded(action),
        None => Line::Unreadable,
    }
}

#[test]
fn report_round_trips() {
    let report = full_report();
    let action = Action::from_report(&report).unwrap();
    assert_eq!(action.buttons.as_deref(), Some(&["zr".to_string()][..]));
    assert_eq!(action.left_stick, Some([100, 4000]));
    assert_eq!(action.right_stick, Some([2048, 1]));
    assert_eq!(action.gyro, Some([-300, 0, 0]));

    let mut replayed = [0u8; 64];
    replayed[0] = REPORT_FULL;
    action.apply(&mut replayed);
    assert_eq!(replayed, report);
}

#[test]
fn missing_fields_keep_the_controller() {
    let mut report = full_report();
    parse(r#"{"buttons": ["a", "zl"]}"#).unwrap().apply(&mut report);
    assert_eq!(report[3..6], [0x08, 0x00, 0x80]);
    assert_eq!(read_stick(&report[6..9]), [100, 4000]);
}

#[test]
fn mix_combines_with_the_controller() {
    let mut report = full_report();
    // The controller holds ZR, left stick far out, gyro -300 on x
    parse(
        r#"{"mix": true, "buttons": ["a"], "left_stick": [2100, 2048], "right_stick": [0, 2048], "gyro": [10, 0, 0], "accel": [1, 2, 3]}"#,
    )
    .unwrap()
    .apply(&mut report);
    assert_eq!(report[3], 0x88); // ZR and A
    assert_eq!(read_stick(&report[6..9]), [100, 4000]); // controller moves more
    assert_eq!(read_stick(&report[9..12]), [0, 2048]); // replay moves more
    assert_eq!(read_axes(&report[IMU_OFFSET + 6..]), [-300, 0, 0]);
    assert_eq!(read_axes(&report[IMU_OFFSET..]), [0, 0, 0]); // accel untouched
}

#[test]
fn rejects_bad_lines() {
    assert!(parse(r#"{"buttons": ["turbo"]}"#).is_none());
    assert!(parse(r#"{"left_stick": [5000, 0]}"#).is_none());
    assert!(parse(r#"{"rumble": true}"#).is_none());
}

#[test]
fn bad_actions_say_why() {
    let turbo = decode(r#"{"buttons": ["a", "turbo"]}"#).unwrap();
    assert!(matches!(Action::parse(turbo), Err(ActionError::UnknownButton(b)) if b == "turbo"));
    let stick = decode(r#"{"right_stick": [7, 4096]}"#).unwrap();
    assert!(matches!(Action::parse(stick), Err(ActionError::StickRange(7, 4096))));
    let edge = decode(r#"{"left_stick": [4095, 4095]}"#).unwrap();
    assert_eq!(Action::parse(edge).unwrap().left_stick, Some([4095, 4095]));
}

#[test]
fn buttons_have_their_bits() {
    let mut names = Vec::new();
    for i in 0..BUTTON_COUNT {
        let (name, byte, mask) = button(i);
        let mut report = [0u8; 64];
        report[0] = REPORT_FULL;
        report[byte] = mask;
        let action = Action::from_report(&report).unwrap();
        assert_eq!(action.buttons, Some(vec![name.to_string()]));
        names.push(name);
    }
    names.sort_unstable();
    names.dedup();
    assert_eq!(names.len(), 22);
}

#[test]
fn other_reports_have_no_action() {
    let mut report = full_report();
    report[0] = REPORT_REPLY;
    let action = Action::from_report(&report).unwrap();
    assert_eq!(action.gyro, None);
    assert_eq!(action.left_stick, Some([100, 4000]));
    report[0] = 0x81;
    assert!(Action::from_report(&report).is_none());
    assert!(Action::from_report(&[REPORT_FULL, 0, 0]).is_none());
    // Nor does an action change them
    let before = report;
    parse(r#"{"buttons": ["a"]}"#).unwrap().apply(&mut report);
    assert_eq!(report, before);
}

#[test]
fn sticks_and_axes_pack_and_unpack() {
    let mut bytes = [0u8; 8];
    write_stick_at(&mut bytes, 2, [0x123, 0xabc]);
    assert_eq!(bytes, [0, 0, 0x23, 0xc1, 0xab, 0, 0, 0]);
    assert_eq!(read_stick_at(&bytes, 2), [0x123, 0xabc]);
    write_axes_at(&mut bytes, 1, [-2, 300, -32768]);
    assert_eq!(read_axis(&bytes, 1), -2);
    assert_eq!(read_axes(&bytes[1..]), [-2, 300, -32768]);
    let mut six = [0u8; 6];
    write_axes(&mut six, [1, -1, 256]);
    assert_eq!(six, [1, 0, 0xff, 0xff, 0, 1]);
}

#[test]
fn applying_twice_is_applying_once() {
    let action = parse(r#"{"buttons": ["b"], "left_stick": [1, 2], "gyro": [3, 4, 5]}"#).unwrap();
    let mut once = full_report();
    action.apply(&mut once);
    let mut twice = once;
    action.apply(&mut twice);
    assert_eq!(once, twice);
}

#[test]
fn action_files_load() {
    let lines = vec![
        line(r#"{"t_ms": 0, "buttons": ["a"]}"#),
        line("  "),
        line(r#"{"t_ms": 40}"#),
    ];
    let actions = load_lines(lines).unwrap();
    assert_eq!(actions.len(), 2);
    assert_eq!(actions[1].t_ms, Some(40));

    let bad = |texts: &[&str]| load_lines(texts.iter().map(|t| line(t)).collect());
    assert!(matches!(bad(&[]), Err(LoadError::Empty)));
    assert!(matches!(bad(&["", " "]), Err(LoadError::Empty)));
    assert!(matches!(bad(&["{}"]), Err(LoadError::Line(1, LineProblem::NoTime))));
    assert!(matches!(bad(&["", "x"]), Err(LoadError::Line(2, LineProblem::Unreadable))));
    assert!(matches!(
        bad(&[r#"{"t_ms": 5}"#, r#"{"t_ms": 4}"#]),
        Err(LoadError::Line(2, LineProblem::TimeGoesBack { from: 5, to: 4 }))
    ));
    assert!(matches!(
        bad(&[r#"{"t_ms": 5, "buttons": ["q"]}"#]),
        Err(LoadError::Line(1, LineProblem::Bad(ActionError::UnknownButton(_))))
    ));
}

#[test]
fn recordings_load() {
    let mut bytes = Vec::new();
    for (i, t) in [1000u64, 1015, 1030].iter().enumerate() {
        bytes.extend(Frame::new(*t, i as u32, &full_report()).to_bytes());
    }
    // A frame that is no input report is left out, an incomplete one too
    bytes.extend(Frame::new(1045, 3, &[0x81, 1]).to_bytes());
    bytes.extend([0u8; 30]);
    assert!(recording_in_order(&bytes));
    let actions = load_frames(&bytes).unwrap();
    let times: Vec<Option<u64>> = actions.iter().map(|a| a.t_ms).collect();
    assert_eq!(times, [Some(0), Some(15), Some(30)]);
    assert_eq!(actions[0].left_stick, Some([100, 4000]));
    assert!(matches!(load_frames(&[]), Err(LoadError::Empty)));

    let mut back = Frame::new(1000, 0, &full_report()).to_bytes();
    back.extend(Frame::new(999, 1, &full_report()).to_bytes());
    assert!(!recording_in_order(&back));
}

#[test]
fn replay_files_are_chosen_by_name() {
    assert_eq!(replay_file("/data/s", true), "/data/s/controller.bin");
    assert_eq!(replay_file("/data/s/a.jsonl", false), "/data/s/a.jsonl");
    assert!(is_lines_file("/data/s/a.jsonl"));
    assert!(!is_lines_file("/data/s/controller.bin"));
    assert!(!is_lines_file("/data/.jsonl"));
}

#[test]
fn a_replay_client_replaces_the_controller() {
    let mut replay = Replay::new();
    let mut report = full_report();
    replay.apply(&mut report);
    assert_eq!(report, full_report());
    replay.take_line(line(r#"{"buttons": ["a"]}"#)).unwrap();
    replay.take_line(Line::Blank).unwrap();
    assert!(replay.take_line(Line::Unreadable).is_err());
    replay.apply(&mut report);
    assert_eq!(report[3], 0x08);
    replay.disconnect();
    let mut report = full_report();
    replay.apply(&mut report);
    assert_eq!(report, full_report());
}

fn at(t_ms: u64) -> Action {
    Action { t_ms: Some(t_ms), ..empty_action() }
}

#[test]
fn a_player_plays_what_is_loaded() {
    let mut player = Player::new("pi:7332".to_string(), false);
    assert!(matches!(player.play(), Err(PlayerError::NothingLoaded)));
    assert!(matches!(player.set_paused(true), Err(PlayerError::NothingPlaying)));
    player.load("/a.jsonl".to_string(), vec![at(0), at(250)]).unwrap();
    assert_eq!(player.path().as_deref(), Some("/a.jsonl"));
    let status = player.status();
    assert_eq!((status.actions, status.duration_ms, status.playing), (2, 250, false));
    player.check_play().unwrap();
    player.play().unwrap();
    assert!(matches!(player.play(), Err(PlayerError::AlreadyPlaying)));
    assert!(matches!(player.load("x".to_string(), vec![]), Err(PlayerError::StopFirst)));
    assert!(player.is_playing());
    player.set_paused(true).unwrap();
    assert!(player.status().paused);
    player.set_mix(true);
    assert!(player.mix());
    let sent = player.outgoing(at(20));
    assert!(sent.mix && sent.t_ms == Some(20));
    player.set_mix(false);
    assert!(!player.outgoing(sent).mix);
    player.stop();
    assert!(player.stop);
    player.finished(Some("gone".to_string()));
    assert!(!player.is_playing());
    assert_eq!(player.status().error.as_deref(), Some("gone"));
}

#[test]
fn playback_sends_each_action_when_due() {
    let actions = vec![at(0), at(20)];
    let mut player = Player::new("pi:7332".to_string(), false);
    player.load("x".to_string(), vec![at(0), at(20)]).unwrap();
    player.play().unwrap();
    let mut playback = Playback::new(0);
    assert!(matches!(playback.step(&actions, false, false, 1), Step::Send(0)));
    playback.sent(&mut player, &actions[0]);
    assert!(matches!(playback.step(&actions, false, false, 1_000_000), Step::Wait(19_000_000)));
    // A pause holds the timeline and leaves the port
    assert!(matches!(playback.step(&actions, false, true, 2_000_000), Step::Disconnect));
    assert!(matches!(playback.step(&actions, false, true, 3_000_000), Step::Wait(STOP_CHECK_NS)));
    assert!(matches!(playback.step(&actions, false, false, 102_000_000), Step::Connect));
    playback.reconnected();
    assert!(matches!(playback.step(&actions, false, false, 103_000_000), Step::Wait(17_000_000)));
    assert!(matches!(playback.step(&actions, false, false, 120_000_001), Step::Send(1)));
    playback.sent(&mut player, &actions[1]);
    assert_eq!(player.status().position_ms, 20);
    assert!(matches!(playback.step(&actions, false, false, 120_000_002), Step::Finish));
    let mut stopped = Playback::new(0);
    assert!(matches!(stopped.step(&actions, true, false, 5), Step::Finish));
}
