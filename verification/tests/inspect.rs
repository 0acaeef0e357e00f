use procon::inspect::{
    decode_window, pick_at, pick_below, random_below, ranged, session_name_ok, split_jpegs,
    Alignments, FrameCache, OpenSegments, Reply, CACHED_ALIGNMENTS, CACHED_FRAMES, OPEN_SEGMENTS,
};
use procon::inspector::{
    audio_args, audio_file, candidates, clamped_range, decode_args, delay_reason, ffprobe_args,
    filled_value, find_segment, frame_to_save, header_needed, is_predictions_file, parse_request,
    picked_frame, predicted, probe_serves, random_frame, set_by_hand, sort_newest_first, value,
    Request, RequestError, SaveError, SegmentEntry, SegmentError,
};
use procon::ranges::{asked, content_range};

fn query(pairs: &[(&str, &str)]) -> Vec<(String, String)> {
    pairs.iter().map(|(k, v)| (k.to_string(), v.to_string())).collect()
}

#[test]
fn jpegs_split_at_end_markers() {
    let bytes = [0xFF, 0xD8, 1, 0xFF, 0x00, 0xFF, 0xD9, 0xFF, 0xD8, 2, 0xFF, 0xD9];
    let jpegs = split_jpegs(&bytes);
    assert_eq!(jpegs.len(), 2);
    assert_eq!(jpegs[0], [0xFF, 0xD8, 1, 0xFF, 0x00, 0xFF, 0xD9]);
    assert_eq!(jpegs[1], [0xFF, 0xD8, 2, 0xFF, 0xD9]);
}

#[test]
fn inspect_byte_ranges() {
    let bytes = [0, 1, 2, 3, 4];
    let part = ranged(&bytes, Some("bytes=1-2"), "audio/webm");
    assert_eq!(part.body, [1, 2]);
    assert_eq!(part.content_range.as_deref(), Some("bytes 1-2/5"));
    assert_eq!(ranged(&bytes, Some("bytes=3-"), "").body, [3, 4]);
    assert_eq!(ranged(&bytes, Some("bytes=2-99"), "").body, [2, 3, 4]);
    let whole = ranged(&bytes, None, "");
    assert_eq!((whole.body.len(), whole.content_range), (5, None));
    assert!(ranged(&bytes, Some("bytes=4-1"), "").content_range.is_none());
}

#[test]
fn random_is_below_bound() {
    assert!((0..100).all(|_| random_below(7) < 7));
    assert_eq!(random_below(0), 0);
}

#[test]
fn picks_follow_the_clock() {
    let spread = |nanos: u64| {
        let mut x = nanos ^ 0x9E37_79B9_7F4A_7C15;
        x ^= x << 13;
        x ^= x >> 7;
        x ^= x << 17;
        x
    };
    for nanos in [0u64, 1, 1_790_000_000_123_456_789, u64::MAX] {
        assert_eq!(pick_below(nanos, 1000), (spread(nanos) % 1000) as usize);
    }
    assert_eq!(pick_below(5, 0), 0);
    assert_eq!(pick_at(Some((1 << 64) + 9), 1000), pick_below(9, 1000));
    assert_eq!(pick_at(None, 1000), pick_below(0, 1000));
}

#[test]
fn unfinished_images_are_left_out() {
    assert!(split_jpegs(&[]).is_empty());
    assert!(split_jpegs(&[0xFF, 0xD8, 1]).is_empty());
    assert_eq!(split_jpegs(&[1, 0xFF, 0xD9, 7]), [[1, 0xFF, 0xD9]]);
}

#[test]
fn ranges_are_asked_for() {
    assert_eq!(asked("bytes=0-0", 10), Some((0, 0)));
    assert_eq!(asked("bytes=0-", 0), None);
    assert_eq!(asked("items=0-1", 10), None);
    assert_eq!(asked("bytes=x-1", 10), None);
    assert_eq!(content_range(3, 9, 10), "bytes 3-9/10");
    let reply = Reply::whole(vec![1, 2], "text/plain".to_string());
    assert_eq!((reply.body.len(), reply.content_range), (2, None));
}

#[test]
fn session_names_have_no_path() {
    for bad in ["", "a/b", "a\\b", ".."] {
        assert!(!session_name_ok(bad), "{bad:?}");
    }
    assert!(session_name_ok("2026-09-25_11-26-22"));
    assert!(session_name_ok(".hidden"));
}

#[test]
fn open_segments_are_bounded() {
    let mut open: OpenSegments<u32> = OpenSegments::new();
    for i in 0..4u32 {
        open.add(format!("s{i}"), "video-01.mkv".to_string(), i);
    }
    assert_eq!(open.open.len(), OPEN_SEGMENTS);
    assert!(!open.find("s0", None));
    // Looking at one makes it the latest
    assert!(open.find("s1", Some("video-01.mkv")));
    assert_eq!(open.latest(), Some(&1));
    assert!(!open.find("s1", Some("video-02.mkv")));
    open.forget("s1");
    assert!(!open.find("s1", None));
    assert_eq!(open.open.len(), 2);
}

#[test]
fn alignments_are_kept_by_delay() {
    let mut kept: Alignments<usize> = Alignments::new();
    for i in 0..CACHED_ALIGNMENTS + 1 {
        kept.add((i as f64).to_bits(), i);
    }
    assert_eq!(kept.get(0.0f64.to_bits()), None);
    assert_eq!(kept.get(8.0f64.to_bits()), Some(&8));
    assert_eq!(kept.entries.len(), CACHED_ALIGNMENTS);
}

#[test]
fn frames_far_away_are_forgotten() {
    let mut cache: FrameCache<usize> = FrameCache::new();
    for n in 0..CACHED_FRAMES + 50 {
        cache.insert(n, n * 2);
    }
    cache.insert(3, 7);
    assert_eq!(cache.get(3), Some(&7));
    cache.evict(10);
    assert_eq!(cache.frames.len(), CACHED_FRAMES);
    assert_eq!(cache.get(10), Some(&20));
    assert_eq!(cache.get(0), Some(&0));
    assert_eq!(cache.get(CACHED_FRAMES + 49), None);
    cache.insert(1000, 1);
    cache.evict(1000);
    assert_eq!(cache.get(0), None);
    assert_eq!(cache.get(1000), Some(&1));
}

#[test]
fn frames_are_decoded_in_windows() {
    assert_eq!(decode_window(0, 100), (0, 45));
    assert_eq!(decode_window(10, 100), (8, 47));
    assert_eq!(decode_window(99, 100), (97, 3));
}

#[test]
fn requests_are_read() {
    assert!(matches!(parse_request("sessions", &query(&[])), Ok(Request::Sessions)));
    assert!(matches!(parse_request("classes", &query(&[])), Ok(Request::Classes)));
    let q = query(&[("s", "a"), ("seg", ""), ("n", "12")]);
    assert!(matches!(
        parse_request("frame", &q),
        Ok(Request::Frame { session, seg: None, n: 12 }) if session == "a"
    ));
    let q = query(&[
        ("s", "a"),
        ("seg", "video-01.mkv"),
        ("start", "1"),
        ("stop", "9"),
        ("delay", "33.5"),
        ("pred", ""),
    ]);
    assert!(matches!(
        parse_request("labels", &q),
        Ok(Request::Labels { seg: Some(seg), start: 1, stop: 9, delay: Some(delay), pred: None, .. })
            if seg == "video-01.mkv" && delay == "33.5"
    ));
    let q = query(&[("s", "a"), ("active", "0")]);
    assert!(matches!(parse_request("random", &q), Ok(Request::Random { active: false, .. })));
    let q = query(&[("s", "a")]);
    assert!(matches!(parse_request("random", &q), Ok(Request::Random { active: true, .. })));
    assert!(matches!(parse_request("info", &q), Ok(Request::Info { .. })));
    assert!(matches!(parse_request("audio", &q), Ok(Request::Audio { .. })));
    assert!(matches!(parse_request("objects", &q), Ok(Request::Objects { .. })));

    let refused = |endpoint: &str, pairs: &[(&str, &str)]| {
        parse_request(endpoint, &query(pairs)).err()
    };
    assert_eq!(refused("nothing", &[]), Some(RequestError::NoEndpoint));
    assert_eq!(refused("info", &[]), Some(RequestError::NoSession));
    assert_eq!(refused("frame", &[("s", "a")]), Some(RequestError::NoFrame));
    assert_eq!(refused("frame", &[("s", "a"), ("n", "-1")]), Some(RequestError::BadNumber));
    assert_eq!(refused("labels", &[("s", "a")]), Some(RequestError::NoStart));
    assert_eq!(refused("labels", &[("s", "a"), ("start", "1")]), Some(RequestError::NoStop));
    assert_eq!(value(&query(&[("k", "1"), ("k", "2")]), "k").as_deref(), Some("1"));
    assert_eq!(filled_value(&query(&[("k", "")]), "k"), None);
}

#[test]
fn segments_are_found() {
    let entries = vec![
        SegmentEntry { file: "video-01.mkv".to_string(), start_unix_ms: Some(7) },
        SegmentEntry { file: "video-02.mkv".to_string(), start_unix_ms: None },
    ];
    assert_eq!(find_segment("s", &entries, None), Ok((0, 7)));
    assert_eq!(find_segment("s", &entries, Some("video-01.mkv")), Ok((0, 7)));
    assert_eq!(
        find_segment("s", &entries, Some("video-02.mkv")),
        Err(SegmentError::NoFrames)
    );
    assert_eq!(find_segment("s", &entries, Some("x")), Err(SegmentError::NoSegment));
    assert_eq!(find_segment("s", &vec![], None), Err(SegmentError::NoSegment));
    assert_eq!(find_segment("../s", &entries, None), Err(SegmentError::BadName));
    assert_eq!(clamped_range(5, 20, 10), (5, 10));
    assert_eq!(clamped_range(15, 20, 10), (10, 10));
}

#[test]
fn predictions_are_looked_up() {
    assert!(is_predictions_file("/x/labels.jsonl"));
    assert!(!is_predictions_file("/x/labels.json"));
    // Of two labels for a frame the last counts
    assert_eq!(predicted(&vec![4, 5, 4], 3, 6), [None, Some(2), Some(1)]);
    assert!(predicted(&vec![4], 6, 3).is_empty());
}

#[test]
fn random_frames_are_active_ones() {
    let active = candidates(&vec![0, 0, 1, 1, 1], &vec![false, true, false, false, false]);
    assert_eq!(active, [1, 2]);
    for _ in 0..20 {
        assert!(active.contains(&random_frame(5, &active).unwrap()));
        assert!(random_frame(5, &vec![]).unwrap() < 5);
    }
    assert_eq!(random_frame(0, &vec![]), None);
    assert_eq!(picked_frame(&active, 1), 2);
    assert_eq!(picked_frame(&vec![], 4), 4);
}

#[test]
fn sessions_are_listed_newest_first() {
    let names = ["2026-09-24", "2026-09-26", "2026-09-25"].map(String::from).to_vec();
    assert_eq!(sort_newest_first(names), ["2026-09-26", "2026-09-25", "2026-09-24"]);
}

#[test]
fn delays_say_why_none_applies() {
    assert_eq!(delay_reason(true, true), None);
    assert_eq!(
        delay_reason(false, false).as_deref(),
        Some("not calibrated yet (agentzero-calibrate)")
    );
    assert!(delay_reason(true, false).unwrap().starts_with("too little aiming"));
    assert!(set_by_hand(Some("manual")));
    assert!(!set_by_hand(Some("computed")));
    assert!(!set_by_hand(None));
}

#[test]
fn tools_get_their_options() {
    assert_eq!(
        decode_args("1.5000", "/v.mkv", 3, 640, 360).join(" "),
        "-v error -ss 1.5000 -i /v.mkv -frames:v 3 -an -fps_mode passthrough -f image2pipe \
         -c:v mjpeg -q:v 3 -"
    );
    assert!(decode_args("0", "/v", 1, 1920, 1080).join(" ").contains("-vf scale=640:360 -an"));
    assert_eq!(
        ffprobe_args("/v.mkv", "packet=pts_time").join(" "),
        "-v error -select_streams v:0 -show_entries packet=pts_time -of json /v.mkv"
    );
    assert_eq!(
        audio_args("/v.mkv", "/t.webm").join(" "),
        "-v error -y -i /v.mkv -vn -c:a copy -f webm /t.webm"
    );
    assert_eq!(audio_file(12, 34), "procon-inspect-12-34.webm");
    assert!(probe_serves(false, false) && !probe_serves(false, true) && probe_serves(true, true));
    assert!(header_needed(false, true, 1) && !header_needed(true, true, 1));
    assert!(!header_needed(false, false, 0));
}

#[test]
fn only_frames_of_the_segment_are_saved() {
    assert_eq!(frame_to_save(Some(4), 5), Ok(4));
    assert_eq!(frame_to_save(Some(5), 5), Err(SaveError::NoFrame));
    assert_eq!(frame_to_save(None, 5), Err(SaveError::NotGiven));
}
