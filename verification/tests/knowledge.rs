use procon::double::Double;
use procon::knowledge::{
    chunk_counts, clamp_k, is_set, is_url, knowledge_get, knowledge_post, millis_or_zero, now_ms,
    required, terms_asked, unsaved_after, yes, ImportResult, IngestError, IngestJob,
    IngestRequest, JobState, Jobs, KnowledgeGet, KnowledgePost, Meta, Source, TermsAsked, Web,
    LOG_LINES,
};
use serde_json::Value;

fn texts(v: &Value) -> Vec<String> {
    v.as_array()
        .map(|a| a.iter().map(|s| s.as_str().unwrap().to_string()).collect())
        .unwrap_or_default()
}

fn text(v: &Value) -> Option<String> {
    v.as_str().map(String::from)
}

/// The import that a JSON text asks for.
fn request(json: &str) -> Option<IngestRequest> {
    let v: Value = serde_json::from_str(json).ok()?;
    let source = match v["kind"].as_str()? {
        "web" => Source::Web(Web {
            urls: texts(&v["urls"]),
            sitemap: text(&v["sitemap"]),
            mediawiki: text(&v["mediawiki"]),
            categories: texts(&v["categories"]),
            max_pages: v["max_pages"].as_u64().unwrap_or(200) as usize,
            delay_s: Double { bits: v["delay_s"].as_f64().unwrap_or(1.0).to_bits() },
        }),
        "youtube" => Source::Youtube {
            url: text(&v["url"])?,
            max: v["max"].as_u64().map(|n| n as usize),
        },
        "file" => Source::File { paths: texts(&v["paths"]), url: text(&v["url"]) },
        "discord-export" => Source::DiscordExport {
            paths: texts(&v["paths"]),
            whole: v["whole"].as_bool().unwrap_or(false),
        },
        "discord-bot" => Source::DiscordBot {
            channels: texts(&v["channels"]),
            threads: v["threads"].as_bool().unwrap_or(yes()),
        },
        _ => return None,
    };
    let meta = Meta {
        source: text(&v["meta"]["source"]),
        license: text(&v["meta"]["license"]),
    };
    Some(IngestRequest { source, meta })
}

fn error(json: &str) -> Option<IngestError> {
    request(json).unwrap().check().err()
}

#[test]
fn ingest_requests() {
    let mut r = request(
        r#"{"kind": "web", "urls": [" https://a.example/x ", ""], "meta": {"source": "guide", "license": "CC BY"}}"#,
    )
    .unwrap();
    assert_eq!(r.check().unwrap(), "Page https://a.example/x");
    let Source::Web(web) = &r.source else {
        panic!("not web")
    };
    assert_eq!(web.urls, ["https://a.example/x"]);
    assert_eq!(web.max_pages, 200);
    assert_eq!(r.meta.license.as_deref(), Some("CC BY"));

    let mut wiki = request(
        r#"{"kind": "web", "mediawiki": "https://wiki.example/w/api.php", "categories": ["Category:Salmon Run"], "max_pages": 20}"#,
    )
    .unwrap();
    assert!(wiki.check().unwrap().starts_with("MediaWiki Category:Salmon Run"));
    assert!(request(r#"{"kind": "web", "mediawiki": "https://w/api.php"}"#)
        .unwrap()
        .check()
        .is_err());
    assert!(request(r#"{"kind": "web"}"#).unwrap().check().is_err());
    assert!(request(r#"{"kind": "web", "urls": ["file:///etc/passwd"]}"#)
        .unwrap()
        .check()
        .is_err());

    let mut yt = request(r#"{"kind": "youtube", "url": "https://youtu.be/x"}"#).unwrap();
    assert_eq!(yt.check().unwrap(), "YouTube https://youtu.be/x");
    assert!(matches!(
        &yt.source,
        Source::Youtube { url, max: None } if url == "https://youtu.be/x"
    ));

    let mut files = request(r#"{"kind": "file", "paths": ["/a/guide.md"]}"#).unwrap();
    assert_eq!(files.check().unwrap(), "Files guide.md");
    assert!(request(r#"{"kind": "file", "paths": ["guide.md"]}"#)
        .unwrap()
        .check()
        .is_err());
    let mut export =
        request(r#"{"kind": "discord-export", "paths": ["/x/vod.json"], "whole": true}"#)
            .unwrap();
    assert!(export.check().is_ok());

    let mut bot = request(r#"{"kind": "discord-bot", "channels": ["123", " "]}"#).unwrap();
    assert!(bot.check().is_ok());
    assert!(matches!(
        &bot.source,
        Source::DiscordBot { channels, threads: true } if *channels == ["123"]
    ));
    assert!(request(r#"{"kind": "discord-bot", "channels": ["abc"]}"#)
        .unwrap()
        .check()
        .is_err());
    assert!(request(r#"{"kind": "twitter"}"#).is_none());
}

#[test]
fn refused_imports_say_why() {
    let web = |rest: &str| error(&format!(r#"{{"kind": "web"{rest}}}"#));
    assert!(matches!(web(""), Some(IngestError::NothingGiven)));
    assert!(matches!(
        web(r#", "urls": ["x"]"#),
        Some(IngestError::NotWebAddress(u)) if u == "x"
    ));
    assert!(matches!(
        web(r#", "mediawiki": "https://w/api.php""#),
        Some(IngestError::NoCategory)
    ));
    assert!(matches!(
        web(r#", "urls": ["https://x"], "max_pages": 0"#),
        Some(IngestError::BadLimit)
    ));
    assert!(matches!(
        error(r#"{"kind": "youtube", "url": "x"}"#),
        Some(IngestError::NotYoutube)
    ));
    assert!(matches!(error(r#"{"kind": "file", "paths": []}"#), Some(IngestError::NoFile)));
    assert!(matches!(
        error(r#"{"kind": "file", "paths": ["a.md"]}"#),
        Some(IngestError::NotFullPath(p)) if p == "a.md"
    ));
    assert!(matches!(
        error(r#"{"kind": "discord-bot", "channels": []}"#),
        Some(IngestError::NoChannel)
    ));
    assert!(matches!(
        error(r#"{"kind": "discord-bot", "channels": ["1a"]}"#),
        Some(IngestError::BadChannel(c)) if c == "1a"
    ));
    assert!(is_url("http://x") && !is_url("ftp://x"));
}

#[test]
fn checking_again_changes_nothing() {
    let mut r = request(r#"{"kind": "web", "urls": [" https://a ", "", "https://b"]}"#).unwrap();
    let first = r.check().unwrap();
    assert_eq!(r.check().unwrap(), first);
    let Source::Web(web) = &r.source else {
        panic!("not web")
    };
    assert_eq!(web.urls, ["https://a", "https://b"]);
}

#[test]
fn jobs_run_one_at_a_time() {
    let mut jobs = Jobs::new();
    jobs.jobs.push(IngestJob {
        id: 1,
        what: "x".into(),
        state: JobState::Running,
        added: 0,
        done: 0,
        total: None,
        lines: Vec::new(),
        error: None,
        started_ms: 0,
        finished_ms: None,
    });
    assert!(jobs.start("YouTube https://youtu.be/x".to_string(), 5).is_err());
    for i in 0..LOG_LINES + 5 {
        jobs.note(1, &i.to_string());
    }
    assert_eq!(jobs.jobs[0].lines.len(), LOG_LINES);
    assert_eq!(jobs.jobs[0].lines[0], "5");
}

#[test]
fn jobs_are_followed() {
    let mut jobs = Jobs::new();
    let id = jobs.start("Files a.md".to_string(), 10).unwrap();
    assert_eq!(id, 1);
    assert_eq!(jobs.jobs[0].lines, ["loading the knowledge store"]);
    jobs.progress(1, 1, 3);
    jobs.added(1);
    jobs.added(7);
    assert_eq!((jobs.jobs[0].done, jobs.jobs[0].total, jobs.jobs[0].added), (1, Some(3), 1));
    jobs.note(1, &"y".repeat(500));
    assert_eq!(jobs.jobs[0].lines[1].len(), 400);
    jobs.finish(1, ImportResult::Added(1), 20);
    assert_eq!(jobs.jobs[0].state, JobState::Done);
    assert_eq!(jobs.jobs[0].done, 3);
    assert_eq!(jobs.jobs[0].lines[2], "done: 1 documents added");
    assert_eq!(jobs.jobs[0].finished_ms, Some(20));

    assert_eq!(jobs.start("two".to_string(), 30), Ok(2));
    jobs.cancel();
    jobs.finish(2, ImportResult::Failed("cancelled".to_string()), 40);
    assert_eq!(jobs.jobs[1].state, JobState::Cancelled);
    assert_eq!(jobs.jobs[1].lines[1], "cancelled");
    assert_eq!(jobs.jobs[1].error, None);
    assert_eq!(jobs.start("three".to_string(), 50), Ok(3));
    jobs.finish(3, ImportResult::Failed("no network".to_string()), 60);
    assert_eq!(jobs.jobs[2].state, JobState::Failed);
    assert_eq!(jobs.jobs[2].error.as_deref(), Some("no network"));
    assert_eq!(jobs.newest_first(), [2, 1, 0]);
    assert!(!jobs.running());
}

#[test]
fn knowledge_requests_are_read() {
    let query = |pairs: &[(&str, &str)]| -> Vec<(String, String)> {
        pairs.iter().map(|(k, v)| (k.to_string(), v.to_string())).collect()
    };
    assert!(matches!(
        knowledge_get("search", &query(&[("q", "eggs"), ("k", "3")])),
        KnowledgeGet::Search { q, k: 3 } if q == "eggs"
    ));
    assert!(matches!(
        knowledge_get("search", &query(&[("k", "x")])),
        KnowledgeGet::Search { q, k: 8 } if q.is_empty()
    ));
    assert!(matches!(knowledge_get("stats", &query(&[])), KnowledgeGet::Stats));
    assert!(matches!(knowledge_get("documents", &query(&[])), KnowledgeGet::Documents));
    assert!(matches!(knowledge_get("glossary", &query(&[])), KnowledgeGet::Glossary { .. }));
    assert!(matches!(knowledge_get("jobs", &query(&[])), KnowledgeGet::Jobs));
    assert!(matches!(knowledge_get("x", &query(&[])), KnowledgeGet::Unknown));
    assert_eq!(knowledge_post("ask"), KnowledgePost::Ask);
    assert_eq!(knowledge_post("translate"), KnowledgePost::Translate);
    assert_eq!(knowledge_post("ingest"), KnowledgePost::Ingest);
    assert_eq!(knowledge_post("cancel"), KnowledgePost::Cancel);
    assert_eq!(knowledge_post("stats"), KnowledgePost::Unknown);
    assert_eq!((clamp_k(0), clamp_k(9), clamp_k(500)), (1, 9, 50));
    assert_eq!(required("  x "), Some("x".to_string()));
    assert_eq!(required("  "), None);
    assert!(is_set(Some("k")) && !is_set(Some(" ")) && !is_set(None));
}

#[test]
fn documents_know_their_chunks() {
    let list = |names: &[&str]| -> Vec<String> { names.iter().map(|s| s.to_string()).collect() };
    assert_eq!(chunk_counts(&list(&["a", "b", "c"]), &list(&["b", "a", "b"])), [1, 2, 0]);
    assert!(matches!(terms_asked("Steelhead", true), TermsAsked::Named));
    assert!(matches!(terms_asked(" ", false), TermsAsked::Nothing));
    assert!(matches!(terms_asked("the Stinger", false), TermsAsked::Mentioned));
}

#[test]
fn the_index_is_written_every_tenth_document() {
    assert_eq!(unsaved_after(0), (false, 1));
    assert_eq!(unsaved_after(8), (false, 9));
    assert_eq!(unsaved_after(9), (true, 0));
}

#[test]
fn times_before_the_epoch_are_zero() {
    assert_eq!(millis_or_zero(None), 0);
    assert_eq!(millis_or_zero(Some(1_234_567_890)), 1234);
    assert!(now_ms() > 1_600_000_000_000);
}
