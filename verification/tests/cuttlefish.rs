use procon::cuttlefish::{
    byte_range, cache_id, content_type, for_each_line, image_args, meta_from, parse_meta,
    progress_in, section, split_jpegs, video_part, LineReader, Progress, VIDEO_CHUNK,
};
use procon::double::Double;
use procon::downloads::{
    already_there, candidate_id, check_download, download_end, downloaded_review, is_error_line, new_stamp,
    output_line, starting, youtube_video, ytdlp_args, Answer, DownloadError, DownloadState,
    Downloads, OutputLine,
};
use procon::review::{
    check_file_name, check_id, page_comment, review_dir, review_path, AiComment, AiShape,
    AiShapeKind, Comment, CommentProblem, Point, Review, ReviewError, Shape, ShapeKind, SourceRef,
    VideoKind, VideoRef,
};
use procon::review_routes::{
    change_route, check_change, check_copy, check_get, check_review, copied_name, get_route,
    is_plain, is_video_file, may_be_cached, migrated, migration, near_comments, old_id, parse_kind, question_asked, review_with_video, sort_newest,
    video_label, video_place, video_query, ChangeMethod, ChangeRoute, CopyError, GetRoute,
    Migration, PlaceError, VideoPlace, VideoQueryError,
};
use serde_json::Value;

const REVIEW: &str = r##"{
        "video": {"kind": "youtube", "ref": "https://youtu.be/x", "start_s": 60.0, "end_s": 90.5},
        "comments": [
            {"id": "c1", "t_s": 12.5, "t_end_s": 14.0, "author": "user", "text": "Too far forward",
             "shapes": [{"kind": "arrow", "points": [[0.2, 0.3], [0.5, 0.5]], "color": "#ff5c8a"},
                        {"kind": "freehand", "points": [[0.1, 0.1], [0.2, 0.15], [0.3, 0.1]]}],
             "created_ms": 1790000000000},
            {"id": "c2", "t_s": 20.0, "author": "Cuttlefish", "text": "Nice splat",
             "created_ms": 1790000000001}
        ]
    }"##;

fn double(value: f64) -> Double {
    Double { bits: value.to_bits() }
}

fn number(v: &Value) -> Option<Double> {
    v.as_f64().map(double)
}

fn text(v: &Value) -> Option<String> {
    v.as_str().map(String::from)
}

fn read_shape(v: &Value) -> Shape {
    let points = v["points"].as_array().unwrap();
    Shape {
        kind: match v["kind"].as_str().unwrap() {
            "rect" => ShapeKind::Rect,
            "ellipse" => ShapeKind::Ellipse,
            "arrow" => ShapeKind::Arrow,
            _ => ShapeKind::Freehand,
        },
        points: points
            .iter()
            .map(|p| Point { x: number(&p[0]).unwrap(), y: number(&p[1]).unwrap() })
            .collect(),
        color: text(&v["color"]),
    }
}

fn read_review(json: &str) -> Review {
    let v: Value = serde_json::from_str(json).unwrap();
    let video = &v["video"];
    Review {
        video: VideoRef {
            kind: parse_kind(video["kind"].as_str().unwrap()).unwrap(),
            reference: text(&video["ref"]).unwrap(),
            start_s: number(&video["start_s"]),
            end_s: number(&video["end_s"]),
            file: text(&video["file"]),
            title: None,
            channel: None,
            upload_date: None,
        },
        comments: v["comments"]
            .as_array()
            .unwrap()
            .iter()
            .map(|c| Comment {
                id: text(&c["id"]).unwrap(),
                t_s: number(&c["t_s"]).unwrap(),
                t_end_s: number(&c["t_end_s"]),
                author: text(&c["author"]).unwrap(),
                text: text(&c["text"]).unwrap(),
                shapes: c["shapes"]
                    .as_array()
                    .map(|s| s.iter().map(read_shape).collect())
                    .unwrap_or_default(),
                created_ms: c["created_ms"].as_u64().unwrap(),
            })
            .collect(),
    }
}

fn file_video(path: &str) -> VideoRef {
    VideoRef { kind: VideoKind::File, ..youtube_video(path.to_string(), None, None) }
}

#[test]
fn review_round_trip() {
    let review = read_review(REVIEW);
    review.validate().unwrap();
    assert_eq!(review.video.kind, VideoKind::Youtube);
    assert_eq!(review.comments[0].shapes[0].kind, ShapeKind::Arrow);
    assert!(review.comments[1].shapes.is_empty());
    assert_eq!(review.video.reference, "https://youtu.be/x");
}

#[test]
fn reviews_are_checked() {
    let with = |change: &dyn Fn(&mut Review)| {
        let mut review = read_review(REVIEW);
        change(&mut review);
        review.validate()
    };
    assert_eq!(
        with(&|r| r.comments[0].t_end_s = Some(double(1.0))),
        Err(ReviewError::Comment(0, CommentProblem::EndsEarly))
    );
    assert_eq!(
        with(&|r| r.comments[1].t_s = double(f64::NAN)),
        Err(ReviewError::Comment(1, CommentProblem::BadTime))
    );
    assert_eq!(
        with(&|r| r.comments[0].shapes[0].points.truncate(1)),
        Err(ReviewError::Comment(0, CommentProblem::TooFewPoints(ShapeKind::Arrow)))
    );
    assert_eq!(
        with(&|r| r.comments[0].shapes[1].points[2].x = double(f64::INFINITY)),
        Err(ReviewError::Comment(0, CommentProblem::BadPoint))
    );
    assert_eq!(
        with(&|r| r.video.file = Some("../../etc/passwd".to_string())),
        Err(ReviewError::BadVideoFile)
    );
    assert_eq!(with(&|r| r.video.file = Some("video.mp4".to_string())), Ok(()));
}

#[test]
fn review_names_stay_inside_the_folder() {
    for bad in ["", "../video.mp4", "a/b.mp4", "..", ".hidden.mp4", "review.json", "a\\b"] {
        assert!(check_file_name(bad).is_err(), "{bad:?}");
    }
    check_file_name("video.mp4").unwrap();
    assert_eq!(review_dir("/reviews", "r-1").unwrap(), "/reviews/r-1");
    assert_eq!(review_path("/reviews", "r-1").unwrap(), "/reviews/r-1/review.json");
    assert!(review_dir("/reviews", "../x").is_err());
    assert!(check_id("2026-09-26_00-38-20").is_ok());
    assert!(check_id("").is_err());
    assert!(is_plain("a.b") && !is_plain(".a"));
}

#[test]
fn videos_are_looked_for_in_their_place() {
    let mut video = read_review(REVIEW).video;
    let place = |v: &VideoRef, id: Option<&str>| video_place("/reviews", "/sessions", v, id);
    video.file = Some("../../etc/passwd".to_string());
    assert!(matches!(place(&video, Some("r")), Err(PlaceError::BadVideoFile)));
    video.file = Some("video.mp4".to_string());
    assert!(matches!(
        place(&video, Some("r")),
        Ok(VideoPlace::InReview(p)) if p == "/reviews/r/video.mp4"
    ));
    assert!(matches!(place(&video, Some("../r")), Err(PlaceError::BadReviewId)));
    // A YouTube range without its file does not play
    assert!(matches!(place(&video, None), Err(PlaceError::NotDownloaded)));
    assert!(matches!(
        place(&file_video("/a/clip.MKV"), None),
        Ok(VideoPlace::AtPath(p)) if p == "/a/clip.MKV"
    ));
    assert!(matches!(place(&file_video("clip.mkv"), None), Err(PlaceError::NotAbsolute)));
    assert!(matches!(place(&file_video("/etc/passwd"), None), Err(PlaceError::NotAVideo)));
    let session = |reference: &str| VideoRef {
        kind: VideoKind::Session,
        ..file_video(reference)
    };
    assert!(matches!(
        place(&session("s/video-01.mkv"), Some("")),
        Ok(VideoPlace::InSession { dir, file: Some(f) })
            if dir == "/sessions/s" && f == "video-01.mkv"
    ));
    assert!(matches!(
        place(&session("s"), None),
        Ok(VideoPlace::InSession { file: None, .. })
    ));
    assert!(matches!(place(&session("../s/v.mkv"), None), Err(PlaceError::BadSession)));
}

#[test]
fn old_reviews_are_told_by_name() {
    assert_eq!(old_id("2026-09-26_00-38-20.json").as_deref(), Some("2026-09-26_00-38-20"));
    assert_eq!(old_id("notes.txt"), None);
    assert_eq!(old_id(".json"), None);
    assert!(may_be_cached(&read_review(REVIEW).video));
    assert!(!may_be_cached(&file_video("/a.mp4")));
}

#[test]
fn old_cache_names_match() {
    // The one video of the real data in the old cache
    assert_eq!(
        cache_id("https://www.youtube.com/watch?v=2W4CstCiuAE", Some("296.0"), Some("356.0")),
        "yt-04986bb8954dfa5e"
    );
}

#[test]
fn files_are_copied_under_a_plain_name() {
    assert_eq!(copied_name("/a/clip.MKV"), "video.mkv");
    assert_eq!(copied_name("/a/clip"), "video.mp4");
    assert_eq!(check_copy(&file_video("/a/clip.mkv")), Ok(()));
    let copied = VideoRef { file: Some("video.mkv".to_string()), ..file_video("/a/clip.mkv") };
    assert_eq!(check_copy(&copied), Err(CopyError::AlreadyThere));
    assert_eq!(check_copy(&read_review(REVIEW).video), Err(CopyError::NotAFile));
    assert!(is_video_file("webm") && !is_video_file("txt"));
    assert_eq!(content_type("webm"), "video/webm");
}

#[test]
fn video_meta_from_ytdlp() {
    let meta =
        parse_meta(r#"cuttlefish-meta "Big Run \"tips\"" "Some Channel" "20260901""#).unwrap();
    assert_eq!(meta.title.as_deref(), Some("Big Run \"tips\""));
    assert_eq!(meta.channel.as_deref(), Some("Some Channel"));
    assert_eq!(meta.upload_date.as_deref(), Some("2026-09-01"));
    let meta = parse_meta(r#"cuttlefish-meta "x" null "NA""#).unwrap();
    assert_eq!(meta.title.as_deref(), Some("x"));
    assert_eq!((meta.channel, meta.upload_date), (None, None));
    assert!(parse_meta("[download] 50%").is_none());
}

#[test]
fn meta_needs_three_values() {
    assert!(parse_meta(r#"cuttlefish-meta "x" null"#).is_none());
    let values = vec![Some("t".to_string()), Some(String::new()), Some("2026".to_string())];
    let meta = meta_from(&values).unwrap();
    assert_eq!(meta.title.as_deref(), Some("t"));
    assert_eq!(meta.channel, None);
}

#[test]
fn cuttlefish_byte_ranges() {
    assert_eq!(byte_range(None, 10), Some((0, 9)));
    assert_eq!(byte_range(Some("bytes=0-"), 10), Some((0, 9)));
    assert_eq!(byte_range(Some("bytes=2-4"), 10), Some((2, 4)));
    assert_eq!(byte_range(Some("bytes=5-99"), 10), Some((5, 9)));
    assert_eq!(byte_range(Some("bytes=-3"), 10), Some((7, 9)));
    assert_eq!(byte_range(Some("bytes=8-2"), 10), None);
    assert_eq!(byte_range(Some("bytes=0-"), 0), None);
}

#[test]
fn videos_are_sent_in_chunks() {
    let total = 3 * VIDEO_CHUNK;
    assert_eq!(video_part(None, total), Some((0, VIDEO_CHUNK - 1)));
    assert_eq!(video_part(Some("bytes=5-"), total), Some((5, VIDEO_CHUNK + 4)));
    assert_eq!(video_part(Some("bytes=5-9"), total), Some((5, 9)));
    assert_eq!(video_part(Some("bytes=9-5"), total), None);
}

/// How much of a range a line says is done, in percent.
fn progress_percent(line: &str, span_s: Option<f64>) -> Option<f64> {
    match progress_in(line)? {
        Progress::Percent(p) => p.parse().ok(),
        Progress::Time(parts) => {
            let mut seconds = 0.0;
            for part in parts {
                seconds = seconds * 60.0 + part.parse::<f64>().ok()?;
            }
            Some(seconds / span_s? * 100.0)
        }
    }
}

#[test]
fn download_progress() {
    assert_eq!(
        progress_percent("[download]  42.5% of ~ 12.30MiB at 1MiB/s", None),
        Some(42.5)
    );
    assert_eq!(
        progress_percent(
            "frame=  300 fps=0 q=-1.0 size=1kB time=00:00:15.00 bitrate=1",
            Some(30.0)
        ),
        Some(50.0)
    );
    assert_eq!(progress_percent("[youtube] x: Downloading webpage", None), None);
    assert_eq!(section(Some("60"), Some("90.5")).as_deref(), Some("*60-90.5"));
    assert_eq!(section(None, Some("30")).as_deref(), Some("*0-30"));
    assert_eq!(section(Some("5"), None).as_deref(), Some("*5-inf"));
    assert_eq!(section(None, None), None);
    // Stable, and different for another range
    assert_eq!(cache_id("u", None, None), cache_id("u", None, None));
    assert_ne!(cache_id("u", Some("1.0"), None), cache_id("u", None, None));
}

#[test]
fn lines_split_at_carriage_returns() {
    let lines = for_each_line(&b"a\rb\nc"[..]);
    assert_eq!(lines, ["a", "b", "c"]);
}

#[test]
fn lines_come_piece_by_piece() {
    let mut reader = LineReader::new();
    assert!(reader.feed(b"ab").is_empty());
    assert_eq!(reader.feed(b"c\r\nd"), ["abc", ""]);
    assert_eq!(reader.finish().as_deref(), Some("d"));
    assert_eq!(reader.finish(), None);
    // UTF-8 reads back, also where a piece ends within a character
    assert_eq!(for_each_line("caf\u{e9} \u{1f991}\n".as_bytes()), ["caf\u{e9} \u{1f991}"]);
    let text = "\u{e9}\n".as_bytes();
    assert!(reader.feed(&text[..1]).is_empty());
    assert_eq!(reader.feed(&text[1..]), ["\u{e9}"]);
    // Bytes that are no UTF-8 are replaced
    assert_eq!(for_each_line(b"a\xffb\n"), ["a\u{fffd}b"]);
}

#[test]
fn jpegs_split_at_each_start() {
    let stream = [0xff, 0xd8, 0xff, 1, 2, 0xff, 0xd9, 0xff, 0xd8, 0xff, 3, 0xff, 0xd9];
    let parts = split_jpegs(&stream);
    assert_eq!(parts.len(), 2);
    assert_eq!(parts[0], &stream[..7]);
    assert_eq!(parts[1], &stream[7..]);
    assert!(split_jpegs(b"no images").is_empty());
}

#[test]
fn reviewer_comments_become_page_comments() {
    let comment = AiComment {
        t_s: double(3.0),
        t_end_s: None,
        text: String::from("Bank the eggs"),
        shapes: vec![AiShape {
            kind: AiShapeKind::Box,
            from: Point { x: double(0.25), y: double(0.5) },
            to: Point { x: double(0.75), y: double(1.0) },
        }],
        sources: vec![SourceRef {
            title: String::from("Guide"),
            heading: String::from("Eggs"),
            url: Some(String::from("https://example.com")),
        }],
    };
    let page = page_comment(comment);
    assert_eq!(page.t_s, double(3.0));
    assert_eq!(
        page.text,
        "Bank the eggs\n\nSources: Guide \u{203a} Eggs (https://example.com)"
    );
    assert_eq!(page.shapes[0].kind, ShapeKind::Rect);
    assert_eq!(
        page.shapes[0].points,
        vec![
            Point { x: double(0.25), y: double(0.5) },
            Point { x: double(0.75), y: double(1.0) }
        ]
    );
}

#[test]
fn images_are_taken_for_a_question() {
    assert_eq!(
        image_args("1.000", "6.000", "/v.mp4", 12).join(" "),
        "-v error -ss 1.000 -t 6.000 -i /v.mp4 -vf fps=2,scale=-2:720 -frames:v 12 \
         -f image2pipe -c:v mjpeg -q:v 4 -"
    );
    assert_eq!(question_asked(Some(" why? ")).as_deref(), Some("why?"));
    assert_eq!(question_asked(Some("  ")), None);
    assert_eq!(question_asked(None), None);
    assert_eq!(video_label(&read_review(REVIEW).video, "60"), "https://youtu.be/x (from 60 s)");
    assert_eq!(video_label(&file_video("/a.mp4"), "60"), "/a.mp4");
    let times = vec![double(1.0), double(5.0), double(9.0)];
    assert_eq!(near_comments(&times, double(5.0), double(8.5)), [1]);
}

#[test]
fn downloads_are_checked() {
    assert_eq!(
        check_download(" https://youtu.be/x ", None, Some(double(3.0))).as_deref(),
        Ok("https://youtu.be/x")
    );
    assert_eq!(check_download("file:///x", None, None), Err(DownloadError::BadUrl));
    assert_eq!(
        check_download("https://x", Some(double(-1.0)), None),
        Err(DownloadError::BadTime)
    );
    assert_eq!(
        check_download("https://x", Some(double(3.0)), Some(double(3.0))),
        Err(DownloadError::EmptyRange)
    );
}

#[test]
fn downloads_are_followed() {
    let mut downloads = Downloads::new();
    let one = starting("b".to_string(), "https://x".to_string(), None, Some(double(9.0)));
    downloads.add(one);
    downloads.add(already_there("a".to_string(), "https://y".to_string(), None, None));
    assert_eq!(downloads.list[0].id, "a");
    assert!(downloads.contains("b") && !downloads.contains("c"));
    assert_eq!(downloads.running("https://x", None, Some(double(9.0))), Some(1));
    assert_eq!(downloads.running("https://x", None, None), None);
    downloads.progress("b", Some(double(42.5)), "[download] 42.5%");
    assert_eq!(downloads.list[1].percent, Some(double(42.5)));
    assert_eq!(downloads.list[1].message, "[download] 42.5%");
    downloads.finish("b", None);
    assert_eq!(downloads.list[1].state, DownloadState::Done);
    assert_eq!(downloads.list[1].percent, Some(double(100.0)));
    let mut failed = Downloads::new();
    failed.add(starting("z".to_string(), "https://z".to_string(), None, None));
    failed.finish("z", Some("ERROR: gone".to_string()));
    assert_eq!(failed.list[0].state, DownloadState::Failed);
    assert_eq!(failed.list[0].message, "ERROR: gone");
}

#[test]
fn ytdlp_is_run_and_read() {
    let args = ytdlp_args("/r/video.mp4", Some("*60-90"), "https://x");
    assert_eq!(args.last().map(String::as_str), Some("https://x"));
    assert!(args.join(" ").ends_with("-o /r/video.mp4 --download-sections *60-90 -- https://x"));
    assert!(!ytdlp_args("/r", None, "u").contains(&"--download-sections".to_string()));
    assert!(matches!(output_line("  "), OutputLine::Blank));
    assert!(matches!(output_line(" [download] 5% "), OutputLine::Words(w) if w == "[download] 5%"));
    assert!(matches!(
        output_line(r#"cuttlefish-meta "a" "b" "20260901""#),
        OutputLine::Meta(m) if m.title.as_deref() == Some("a")
    ));
    assert!(is_error_line("ERROR: x") && !is_error_line("error"));
    let meta = parse_meta(r#"cuttlefish-meta "a" "b" "20260901""#).unwrap();
    let review = downloaded_review(youtube_video("u".to_string(), None, None), meta);
    assert_eq!(review.video.title.as_deref(), Some("a"));
    assert_eq!(review.video.upload_date.as_deref(), Some("2026-09-01"));
    assert!(review.comments.is_empty());
}

#[test]
fn new_reviews_have_ids_of_their_own() {
    assert_eq!(candidate_id("2026-09-26_00-38-20", 1), "2026-09-26_00-38-20");
    assert_ne!(candidate_id("x", 2), candidate_id("x", 3));
    let stamp = new_stamp();
    assert!(check_id(&candidate_id(&stamp, 1)).is_ok());
    assert!(check_id(&candidate_id(&stamp, u64::MAX)).is_ok());
    assert_eq!(stamp.len(), 19);
    assert!(check_id(&stamp).is_ok());
}

#[test]
fn requests_name_a_video() {
    let query = |pairs: &[(&str, &str)]| -> Vec<(String, String)> {
        pairs.iter().map(|(k, v)| (k.to_string(), v.to_string())).collect()
    };
    let found = video_query(&query(&[("kind", "file"), ("ref", "/a.mp4")])).unwrap();
    assert_eq!((found.kind, found.reference.as_str()), (VideoKind::File, "/a.mp4"));
    assert_eq!(video_query(&query(&[])).err(), Some(VideoQueryError::NoKind));
    assert_eq!(video_query(&query(&[("kind", "x")])).err(), Some(VideoQueryError::BadKind));
    assert_eq!(
        video_query(&query(&[("kind", "session")])).err(),
        Some(VideoQueryError::NoReference)
    );
    assert_eq!(parse_kind("youtube"), Some(VideoKind::Youtube));
    assert_eq!(parse_kind("YouTube"), None);
}

#[test]
fn routes_are_told_apart() {
    assert!(matches!(get_route("reviews"), GetRoute::Reviews));
    assert!(matches!(get_route("downloads"), GetRoute::Downloads));
    assert!(matches!(get_route("video"), GetRoute::Video));
    assert!(matches!(get_route("meta"), GetRoute::Meta));
    assert!(matches!(get_route("reviews/r-1"), GetRoute::Review(id) if id == "r-1"));
    assert!(matches!(get_route("knowledge/stats"), GetRoute::Knowledge(p) if p == "stats"));
    assert!(matches!(get_route("x"), GetRoute::Unknown));
    assert!(matches!(
        change_route(ChangeMethod::Put, "reviews/r-1"),
        ChangeRoute::Save(id) if id == "r-1"
    ));
    assert!(matches!(
        change_route(ChangeMethod::Delete, "reviews/r-1"),
        ChangeRoute::Delete(id) if id == "r-1"
    ));
    assert!(matches!(change_route(ChangeMethod::Post, "download"), ChangeRoute::Download));
    assert!(matches!(
        change_route(ChangeMethod::Post, "reviews/r-1/copy"),
        ChangeRoute::Copy(id) if id == "r-1"
    ));
    // Only one ending is the route's
    assert!(matches!(
        change_route(ChangeMethod::Post, "reviews/r-1/copy/copy"),
        ChangeRoute::Copy(id) if id == "r-1/copy"
    ));
    assert!(matches!(
        change_route(ChangeMethod::Post, "knowledge/ask"),
        ChangeRoute::Knowledge(p) if p == "ask"
    ));
    assert!(matches!(change_route(ChangeMethod::Post, "ai"), ChangeRoute::Ask));
    assert!(matches!(change_route(ChangeMethod::Other, "ai"), ChangeRoute::Unknown));
}

#[test]
fn the_newest_review_of_a_video_is_found() {
    assert_eq!(sort_newest(&vec![5, 9, 9, 1]), [1, 2, 0, 3]);
    let video = read_review(REVIEW).video;
    let other = file_video("/a.mp4");
    let reviews = vec![(other.clone(), true), (video.clone(), false), (video.clone(), true)];
    assert_eq!(review_with_video(&reviews, &video), Some(2));
    assert!(video.same(&video) && !video.same(&other));
}

#[test]
fn downloads_start_once() {
    let mut downloads = Downloads::new();
    let names = vec!["s".to_string(), "other".to_string()];
    let url = " https://youtu.be/x ";
    let end = Some(Double { bits: 90.0f64.to_bits() });
    assert_eq!(downloads.new_id("s", &names), "s-2");
    assert!(matches!(
        downloads.download("ftp://x", None, None, None, "s", &names),
        Err(DownloadError::BadUrl)
    ));
    assert!(downloads.list.is_empty());
    let there = downloads.download(url, None, end, Some("old".to_string()), "s", &names).unwrap();
    let Answer::There(there) = there else { panic!("not there") };
    assert_eq!((there.id.as_str(), there.state), ("old", DownloadState::Done));
    assert_eq!(there.message, "in a review already");
    assert!(downloads.list.is_empty());
    let started = downloads.download(url, None, end, None, "s", &names).unwrap();
    let Answer::Started(started) = started else { panic!("not started") };
    assert_eq!((started.id.as_str(), started.url.as_str()), ("s-2", "https://youtu.be/x"));
    assert_eq!((started.state, started.message.as_str()), (DownloadState::Running, "starting yt-dlp"));
    // The same range again is the one that is under way
    let again = downloads.download(url, None, end, Some("old".to_string()), "s", &names).unwrap();
    assert!(matches!(again, Answer::UnderWay(d) if d.id == "s-2"));
    // Another range gets another review
    let other = downloads.download(url, None, None, None, "s", &names).unwrap();
    assert!(matches!(other, Answer::Started(d) if d.id == "s-3"));
    downloads.finish("s-2", Some("no network".to_string()));
    let retry = downloads.download(url, None, end, None, "s", &names).unwrap();
    assert!(matches!(retry, Answer::Started(d) if d.id == "s-4"));
    assert_eq!(downloads.list.len(), 3);
}

#[test]
fn old_reviews_move_unless_there_is_a_folder() {
    assert!(matches!(migration("a.json", true, false), Migration::Move(id) if id == "a"));
    assert!(matches!(migration("a.json", true, true), Migration::Exists(id) if id == "a"));
    assert!(matches!(migration("a.json", false, false), Migration::Leave));
    assert!(matches!(migration("a", true, false), Migration::Leave));
    assert!(matches!(migration(".a.json", true, false), Migration::Leave));
}

#[test]
fn moved_reviews_name_their_cached_video() {
    let review = read_review(REVIEW);
    let moved = migrated(review.clone(), true);
    assert_eq!(moved.video.file.as_deref(), Some("video.mp4"));
    assert!(moved.video.same(&review.video));
    assert_eq!(moved.comments.len(), 2);
    assert_eq!(migrated(review, false).video.file, None);
    assert_eq!(migrated(moved, false).video.file.as_deref(), Some("video.mp4"));
}

#[test]
fn missing_reviews_are_not_found() {
    assert_eq!(check_review("a", true), None);
    assert_eq!(check_review("a", false), Some(404));
    assert_eq!(check_review("../a", true), Some(400));
    assert_eq!(check_get(&get_route("reviews/a"), false), Some(404));
    assert_eq!(check_get(&get_route("reviews/a"), true), None);
    assert_eq!(check_get(&get_route("reviews"), false), None);
    assert_eq!(check_get(&get_route("other"), true), Some(404));
    let change = |method, path: &str, there| check_change(&change_route(method, path), there);
    assert_eq!(change(ChangeMethod::Delete, "reviews/a", false), Some(404));
    assert_eq!(change(ChangeMethod::Delete, "reviews/a", true), None);
    assert_eq!(change(ChangeMethod::Delete, "reviews/.a", false), Some(400));
    assert_eq!(change(ChangeMethod::Post, "reviews/a/copy", false), Some(404));
    assert_eq!(change(ChangeMethod::Put, "reviews/a", false), None);
    assert_eq!(change(ChangeMethod::Other, "reviews/a", true), Some(404));
}

#[test]
fn downloads_say_how_they_ended() {
    let errors = vec!["ERROR: a".to_string(), "ERROR: b".to_string()];
    assert_eq!(download_end(true, &errors, true), Ok(()));
    assert_eq!(download_end(false, &errors, true), Err("yt-dlp failed: ERROR: b".to_string()));
    let nothing = Err("yt-dlp failed: see the studio's log".to_string());
    assert_eq!(download_end(false, &vec![], false), nothing);
    assert_eq!(download_end(true, &errors, false), Err("yt-dlp did not write an MP4".to_string()));
}
