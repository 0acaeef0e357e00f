use procon::downloads::download_request;
use procon::double::Double;
use procon::inspector::{
    delay_request, objects_request, packet_times, probe_header, video_probe, ChangeError,
    ProbeError,
};
use procon::json::{fields, Field};
use procon::knowledge::{ask_request, asked, translate_request, translation, AskError};
use procon::review_routes::{ai_request, AiError};
use procon::vision::{send_request, sending, SendError};

fn double(value: f64) -> Double {
    Double { bits: value.to_bits() }
}

#[test]
fn documents_are_asked_at_pointers() {
    let document = br#"{"a": [1, -2, 2.5, "x"], "b": {"c": true, "d": null}}"#;
    let at = |pointer: &str| fields(document, &[pointer]).unwrap().remove(0);
    assert!(matches!(at("/a"), Field::List(4)));
    assert!(matches!(at("/a/0"), Field::Number(Some(1), Some(d)) if d == double(1.0)));
    assert!(matches!(at("/a/1"), Field::Number(None, Some(d)) if d == double(-2.0)));
    assert!(matches!(at("/a/2"), Field::Number(None, Some(d)) if d == double(2.5)));
    assert_eq!(at("/a/3").text().as_deref(), Some("x"));
    assert!(matches!(at("/b"), Field::Table));
    assert!(matches!(at("/b/c"), Field::Truth(true)));
    assert!(matches!(at("/b/d"), Field::Nothing));
    assert!(matches!(at("/b/e"), Field::Nothing));
    assert_eq!((at("/a/0").whole(), at("/a/3").whole()), (Some(1), None));
    assert_eq!((at("/a/2").double(), at("/b/c").double()), (Some(double(2.5)), None));
    assert!(fields(b"{", &["/a"]).is_none());
}

#[test]
fn questions_come_with_their_number() {
    let body = br#"{"question": " where? ", "k": 3}"#;
    assert_eq!(ask_request(body), Ok(("where?".to_string(), 3)));
    assert_eq!(ask_request(br#"{"question": "a"}"#), Ok(("a".to_string(), 8)));
    assert_eq!(ask_request(br#"{"question": "a", "k": 0}"#), Ok(("a".to_string(), 1)));
    assert_eq!(ask_request(br#"{"question": "a", "k": 999}"#), Ok(("a".to_string(), 50)));
    assert_eq!(ask_request(br#"{"question": "a", "k": -1}"#), Ok(("a".to_string(), 8)));
    assert_eq!(ask_request(br#"{"question": " "}"#), Err(AskError::Empty));
    assert_eq!(ask_request(b"[]"), Err(AskError::Empty));
    assert_eq!(ask_request(b"{"), Err(AskError::BadJson));
    assert_eq!(asked(Some(u64::MAX), Some("a".to_string())), Ok(("a".to_string(), 50)));
    assert_eq!(asked(None, None), Err(AskError::Empty));
}

#[test]
fn translations_need_a_text_and_a_language() {
    let body = br#"{"text": " maws ", "to": "ja "}"#;
    assert_eq!(translate_request(body), Ok(("maws".to_string(), "ja".to_string())));
    assert_eq!(translate_request(br#"{"text": "maws"}"#), Err(AskError::Empty));
    assert_eq!(translate_request(br#"{"to": "ja"}"#), Err(AskError::Empty));
    assert_eq!(translate_request(b""), Err(AskError::BadJson));
    assert_eq!(translation(None, Some("ja".to_string())), Err(AskError::Empty));
}

#[test]
fn results_are_sent_by_plain_names() {
    let body = br#"{"s": "a", "seg": "video-01.mkv", "map": "person=player"}"#;
    let sent = send_request(body).unwrap();
    assert_eq!((sent.s.as_str(), sent.seg.as_str()), ("a", "video-01.mkv"));
    assert_eq!(sent.map, "person=player");
    assert_eq!(send_request(b"x").err(), Some(SendError::BadJson));
    assert_eq!(send_request(br#"{"s": "a/b"}"#).err(), Some(SendError::BadSession));
    assert_eq!(send_request(br#"{"s": "a"}"#).err(), Some(SendError::BadSegment));
    assert_eq!(sending(None, None, None).err(), Some(SendError::BadSession));
}

#[test]
fn downloads_are_asked_for_by_range() {
    let body = br#"{"url": "https://youtu.be/x", "start_s": 60, "end_s": 90.5}"#;
    let (url, start_s, end_s) = download_request(body).unwrap();
    assert_eq!(url, "https://youtu.be/x");
    assert_eq!((start_s, end_s), (Some(double(60.0)), Some(double(90.5))));
    assert_eq!(download_request(b"{}"), Some((String::new(), None, None)));
    assert_eq!(download_request(br#"{"start_s": "60"}"#), Some((String::new(), None, None)));
    assert_eq!(download_request(b"{,}"), None);
}

#[test]
fn the_coach_is_asked_about_a_time() {
    let body = br#"{"t_s": 5, "t_end_s": 6.5, "question": " why? ", "review": "r"}"#;
    let asked = ai_request(body, true).unwrap();
    assert_eq!((asked.t_s, asked.t_end_s), (double(5.0), Some(double(6.5))));
    assert_eq!(asked.question.as_deref(), Some("why?"));
    assert_eq!(asked.review.as_deref(), Some("r"));
    let bare = ai_request(br#"{"t_s": 5, "question": " ", "review": ""}"#, true).unwrap();
    assert_eq!((bare.t_end_s, bare.question, bare.review), (None, None, None));
    assert_eq!(ai_request(b"", false).err(), Some(AiError::BadJson));
    assert_eq!(ai_request(b"{}", false).err(), Some(AiError::NoVideo));
    assert_eq!(ai_request(b"{}", true).err(), Some(AiError::NoTime));
}

#[test]
fn video_facts_come_from_the_first_stream() {
    let output = br#"{"streams": [{"width": 1280, "height": 720, "r_frame_rate": "60/1",
        "avg_frame_rate": "30000/1001", "tags": {"DURATION": "00:07:07.766000000"}}],
        "format": {"duration": "427.8"}}"#;
    let header = probe_header(output).unwrap();
    assert_eq!((header.width, header.height), (1280, 720));
    assert_eq!(header.rate, ("60".to_string(), "1".to_string()));
    assert_eq!(header.duration.as_deref(), Some("00:07:07.766000000"));
    let probe = video_probe(output).unwrap();
    assert_eq!(probe.average_rate, Some(("30000".to_string(), "1001".to_string())));
    assert_eq!(probe.rate, Some(("60".to_string(), "1".to_string())));
    assert_eq!(probe.duration.as_deref(), Some("427.8"));
    assert_eq!((probe.width.whole(), probe.height.whole()), (Some(1280), Some(720)));
    let bare = probe_header(br#"{"streams": [{"width": 4294967297, "r_frame_rate": "1/2"}]}"#);
    let bare = bare.unwrap();
    assert_eq!((bare.width, bare.height, bare.duration), (1, 0, None));
    assert_eq!(probe_header(b"x").err(), Some(ProbeError::BadJson));
    assert_eq!(probe_header(b"{}").err(), Some(ProbeError::NoRate));
    let no_list = br#"{"streams": {"0": {"width": 5, "r_frame_rate": "60/1"}}}"#;
    assert_eq!(probe_header(no_list).err(), Some(ProbeError::NoRate));
    let probe = video_probe(no_list).unwrap();
    assert!(probe.rate.is_none() && matches!(probe.width, Field::Nothing));
    assert!(video_probe(b"").is_none());
}

#[test]
fn packets_have_their_times() {
    let output = br#"{"packets": [{"pts_time": "0.000"}, {}, {"pts_time": "0.016"}, 7]}"#;
    assert_eq!(packet_times(output).unwrap(), ["0.000", "0.016"]);
    assert!(packet_times(br#"{"packets": []}"#).unwrap().is_empty());
    assert_eq!(packet_times(br#"{"packets": {}}"#), Err(ProbeError::NoPackets));
    assert_eq!(packet_times(b"["), Err(ProbeError::BadJson));
}

#[test]
fn changes_name_their_session() {
    let asked = objects_request(br#"{"s": "a", "seg": "v.mkv", "frame": 7}"#).unwrap();
    assert_eq!((asked.session.as_str(), asked.seg.as_deref()), ("a", Some("v.mkv")));
    assert_eq!(asked.frame, Some(7));
    let bare = objects_request(br#"{"s": "a", "seg": ""}"#).unwrap();
    assert_eq!((bare.seg, bare.frame), (None, None));
    assert_eq!(objects_request(b"{}").err(), Some(ChangeError::NoSession));
    assert_eq!(objects_request(b"{").err(), Some(ChangeError::BadJson));
    let set = delay_request(br#"{"s": "a", "video_delay_ms": 85.5}"#);
    assert_eq!(set, Ok(("a".to_string(), Some(double(85.5)))));
    let removed = delay_request(br#"{"s": "a", "remove": true, "video_delay_ms": 1}"#);
    assert_eq!(removed, Ok(("a".to_string(), None)));
    assert_eq!(delay_request(br#"{"s": "a", "remove": false}"#), Err(ChangeError::NoDelay));
    assert_eq!(delay_request(b"{}"), Err(ChangeError::NoSession));
    assert_eq!(delay_request(b""), Err(ChangeError::BadJson));
}
