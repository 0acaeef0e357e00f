//! What the knowledge page's requests and imports do, said of their own values.
use vstd::prelude::*;

use crate::double;
use crate::json;
use crate::knowledge;
use crate::knowledge::{AskError, ImportResult, IngestJob, Jobs, KnowledgeGet, Problem, Source, Web};
use crate::text;

verus! {

/// A list is cleaned by trimming every entry and leaving the empty ones out.
pub proof fn law_lists_are_cleaned(list: Seq<Seq<char>>, n: int)
    requires
        0 <= n <= list.len(),
    ensures
        knowledge::cleaned(list, n) == list.take(n).map_values(
            |s: Seq<char>| text::trimmed(s),
        ).filter(|s: Seq<char>| s.len() > 0),
    decreases n,
{
    let trim = |s: Seq<char>| text::trimmed(s);
    let filled = |s: Seq<char>| s.len() > 0;
    reveal(Seq::filter);
    if n > 0 {
        law_lists_are_cleaned(list, n - 1);
        let all = list.take(n).map_values(trim);
        assert(all.drop_last() =~= list.take(n - 1).map_values(trim));
        assert(all.last() == text::trimmed(list[n - 1]));
        assert(all.filter(filled) =~= knowledge::cleaned(list, n));
    } else {
        assert(list.take(n).map_values(trim).filter(filled) =~= Seq::empty());
    }
}

/// A web address starts with `http`, with or without an `s`, a colon and two
/// slashes.
pub proof fn law_web_addresses(s: Seq<char>)
    ensures
        knowledge::web_address(s) == (seq!['h', 't', 't', 'p', ':', '/', '/'].is_prefix_of(s)
            || seq!['h', 't', 't', 'p', 's', ':', '/', '/'].is_prefix_of(s)),
        crate::downloads::is_web_address(s) == knowledge::web_address(s),
{
    reveal_strlit("http://");
    reveal_strlit("https://");
    assert("http://"@ =~= seq!['h', 't', 't', 'p', ':', '/', '/']);
    assert("https://"@ =~= seq!['h', 't', 't', 'p', 's', ':', '/', '/']);
}

/// The address that is complained of is the first that is none.
pub proof fn law_first_bad_address(list: Seq<Seq<char>>, from: int)
    requires
        0 <= from <= list.len(),
    ensures
        match knowledge::first_bad_url(list, from) {
            Some(s) => exists|i: int|
                from <= i < list.len() && #[trigger] list[i] == s && !knowledge::web_address(s)
                    && forall|j: int|
                    from <= j < i ==> knowledge::web_address(#[trigger] list[j]),
            None => forall|j: int|
                from <= j < list.len() ==> knowledge::web_address(#[trigger] list[j]),
        },
    decreases list.len() - from,
{
    if from < list.len() {
        if knowledge::web_address(list[from]) {
            law_first_bad_address(list, from + 1);
        } else {
            assert(list[from] == knowledge::first_bad_url(list, from)->0);
        }
    }
}

/// The path that is complained of is the first that does not start at the root.
pub proof fn law_first_short_path(list: Seq<Seq<char>>, from: int)
    requires
        0 <= from <= list.len(),
    ensures
        match knowledge::first_short_path(list, from) {
            Some(s) => exists|i: int|
                from <= i < list.len() && #[trigger] list[i] == s && (s.len() == 0 || s[0] != '/')
                    && forall|j: int|
                    from <= j < i ==> (#[trigger] list[j]).len() > 0 && list[j][0] == '/',
            None => forall|j: int|
                from <= j < list.len() ==> (#[trigger] list[j]).len() > 0 && list[j][0] == '/',
        },
    decreases list.len() - from,
{
    if from < list.len() {
        if knowledge::is_full(list[from]) {
            law_first_short_path(list, from + 1);
        } else {
            assert(list[from] == knowledge::first_short_path(list, from)->0);
        }
    }
}

/// The channel that is complained of is the first with anything but digits.
pub proof fn law_first_bad_channel(list: Seq<Seq<char>>, from: int)
    requires
        0 <= from <= list.len(),
    ensures
        match knowledge::first_bad_channel(list, from) {
            Some(s) => exists|i: int|
                from <= i < list.len() && #[trigger] list[i] == s && !(forall|k: int|
                    0 <= k < s.len() ==> '0' <= #[trigger] s[k] <= '9'),
            None => forall|j: int, k: int|
                #![trigger list[j][k]]
                from <= j < list.len() && 0 <= k < list[j].len() ==> '0' <= list[j][k] <= '9',
        },
    decreases list.len() - from,
{
    if from < list.len() {
        if knowledge::all_decimal(list[from]) {
            law_first_bad_channel(list, from + 1);
        } else {
            assert(list[from] == knowledge::first_bad_channel(list, from)->0);
        }
    }
}

/// Web pages are imported when every address is one, a wiki has a category, at
/// least one page may be read at a finite pace, and there is anything to read;
/// otherwise the first of these that fails is complained of.
pub proof fn law_web_imports(w: Web)
    ensures
        ({
            let bad_url = exists|i: int|
                0 <= i < w.urls@.len() && !knowledge::web_address((#[trigger] w.urls@[i])@);
            let bad = bad_url || (w.sitemap matches Some(s) && !knowledge::web_address(s@)) || (
            w.mediawiki matches Some(m) && !knowledge::web_address(m@));
            let uncategorised = w.mediawiki is Some && w.categories@.len() == 0;
            let unlimited = w.max_pages == 0 || !double::is_finite(w.delay_s);
            let nothing = w.mediawiki is None && w.sitemap is None && w.urls@.len() == 0;
            match knowledge::web_problem(w) {
                None => !bad && !uncategorised && !unlimited && !nothing,
                Some(Problem::NotWebAddress(_)) => bad,
                Some(Problem::NoCategory) => !bad && uncategorised,
                Some(Problem::BadLimit) => !bad && !uncategorised && unlimited,
                Some(Problem::NothingGiven) => !bad && !uncategorised && !unlimited && nothing,
                Some(_) => false,
            }
        }),
{
    let urls = text::texts(w.urls@);
    let a = knowledge::as_list(text::opt_text(w.sitemap));
    let b = knowledge::as_list(text::opt_text(w.mediawiki));
    let all = urls + a + b;
    law_first_bad_address(all, 0);
    if let Some(s) = knowledge::first_bad_url(all, 0) {
        let i = choose|i: int| 0 <= i < all.len() && #[trigger] all[i] == s;
        if i < urls.len() {
            assert(all[i] == w.urls@[i]@);
        } else if i < urls.len() + a.len() {
            assert(all[i] == a[i - urls.len()]);
        } else {
            assert(all[i] == b[i - urls.len() - a.len()]);
        }
    } else {
        assert forall|i: int| 0 <= i < w.urls@.len() implies knowledge::web_address(
            (#[trigger] w.urls@[i])@,
        ) by {
            assert(all[i] == w.urls@[i]@);
        }
        if w.sitemap is Some {
            assert(all[urls.len() as int] == a[0]);
        }
        if w.mediawiki is Some {
            assert(all[(urls.len() + a.len()) as int] == b[0]);
        }
    }
}

/// The other sources: a video's address is one, there are files and each path
/// starts at the root, there are channels and each is a number.
pub proof fn law_other_imports(s: Source)
    ensures
        match s {
            Source::Web(w) => knowledge::source_problem(s) == knowledge::web_problem(w),
            Source::Youtube { url, max: _ } => (knowledge::source_problem(s) is None)
                == knowledge::web_address(url@),
            Source::File { paths, url } => (knowledge::source_problem(s) is None) == (
            paths@.len() > 0 && (forall|i: int|
                0 <= i < paths@.len() ==> (#[trigger] paths@[i])@.len() > 0 && paths@[i]@[0] == '/')
                && (url matches Some(u) ==> knowledge::web_address(text::trimmed(u@)))),
            Source::DiscordExport { paths, whole: _ } => (knowledge::source_problem(s) is None) == (
            paths@.len() > 0 && (forall|i: int|
                0 <= i < paths@.len() ==> (#[trigger] paths@[i])@.len() > 0 && paths@[i]@[0]
                    == '/')),
            Source::DiscordBot { channels, threads: _ } => (knowledge::source_problem(s) is None)
                == (channels@.len() > 0 && (forall|i: int, k: int|
                #![trigger channels@[i]@[k]]
                0 <= i < channels@.len() && 0 <= k < channels@[i]@.len() ==> '0'
                    <= channels@[i]@[k] <= '9')),
        },
{
    match s {
        Source::File { paths, url } => {
            lemma_paths(paths@);
        },
        Source::DiscordExport { paths, whole: _ } => {
            lemma_paths(paths@);
        },
        Source::DiscordBot { channels, threads: _ } => {
            let list = text::texts(channels@);
            law_first_bad_channel(list, 0);
            if knowledge::first_bad_channel(list, 0) is None {
                assert forall|i: int, k: int|
                    #![trigger channels@[i]@[k]]
                    0 <= i < channels@.len() && 0 <= k < channels@[i]@.len() implies '0'
                    <= channels@[i]@[k] <= '9' by {
                    assert(list[i][k] == channels@[i]@[k]);
                }
            } else {
                let c = knowledge::first_bad_channel(list, 0)->0;
                let i = choose|i: int| 0 <= i < list.len() && #[trigger] list[i] == c;
                let k = choose|k: int| 0 <= k < c.len() && !('0' <= #[trigger] c[k] <= '9');
                assert(channels@[i]@[k] == c[k]);
            }
        },
        _ => {},
    }
}

proof fn lemma_paths(paths: Seq<String>)
    ensures
        (knowledge::paths_problem(text::texts(paths)) is None) == (paths.len() > 0 && (forall|i: int|
            0 <= i < paths.len() ==> (#[trigger] paths[i])@.len() > 0 && paths[i]@[0] == '/')),
{
    let list = text::texts(paths);
    law_first_short_path(list, 0);
    match knowledge::first_short_path(list, 0) {
        None => {
            assert forall|i: int| 0 <= i < paths.len() implies (#[trigger] paths[i])@.len() > 0
                && paths[i]@[0] == '/' by {
                assert(list[i] == paths[i]@);
            }
        },
        Some(s) => {
            let i = choose|i: int|
                0 <= i < list.len() && #[trigger] list[i] == s && (s.len() == 0 || s[0] != '/');
            assert(list[i] == paths[i]@);
        },
    }
}

/// The last two hundred lines of a log are kept.
pub proof fn law_log_keeps_the_last(lines: Seq<Seq<char>>, i: int)
    requires
        0 <= i < knowledge::last_lines(lines).len(),
    ensures
        knowledge::last_lines(lines).len() == (if lines.len() < 200 {
            lines.len() as int
        } else {
            200
        }),
        knowledge::last_lines(lines)[i] == lines[lines.len() - knowledge::last_lines(lines).len()
            + i],
{
}

/// A job is found under its number, and a new one gets the number behind the
/// last, or one.
pub proof fn law_jobs_have_numbers(jobs: Seq<IngestJob>, id: u64, from: int)
    requires
        0 <= from <= jobs.len(),
    ensures
        ({
            let p = knowledge::job_place(jobs, id, from);
            &&& from <= p <= jobs.len()
            &&& p < jobs.len() ==> jobs[p].id == id
            &&& forall|i: int| from <= i < p ==> (#[trigger] jobs[i]).id != id
        }),
        jobs.len() == 0 ==> knowledge::next_id(jobs) == 1,
        jobs.len() > 0 ==> knowledge::next_id(jobs) == jobs[jobs.len() - 1].id + 1,
    decreases jobs.len() - from,
{
    if from < jobs.len() && jobs[from].id != id {
        law_jobs_have_numbers(jobs, id, from + 1);
    }
}

/// News of a job changes no other job, and none where its number is not known.
pub proof fn law_news_of_one_job(before: Jobs, after: Jobs, id: u64, i: int)
    requires
        knowledge::updated(before, after, id),
        0 <= i < before.jobs@.len(),
        before.jobs@[i].id != id,
    ensures
        after.jobs@.len() == before.jobs@.len(),
        after.jobs@[i] == before.jobs@[i],
        after.cancel == before.cancel,
{
    law_jobs_have_numbers(before.jobs@, id, 0);
}

/// An import that added its documents is done, with all of its work; one that
/// failed tells why, unless it was told to stop.
pub proof fn law_imports_end(
    before: IngestJob,
    after: IngestJob,
    result: ImportResult,
    cancelled: bool,
    now_ms: u64,
)
    requires
        knowledge::is_ended(before, after, result, cancelled, now_ms),
    ensures
        after.id == before.id && after.what == before.what && after.started_ms
            == before.started_ms,
        after.added == before.added,
        after.finished_ms == Some(now_ms),
        (after.state is Done) == (result is Added),
        (after.state is Cancelled) == (result is Failed && cancelled),
        (after.state is Failed) == (result is Failed && !cancelled),
        result is Added && before.total is Some ==> after.done == before.total->0,
        result is Failed ==> after.done == before.done,
        result matches ImportResult::Failed(m) ==> (!cancelled ==> after.error == Some(m)),
{
}

/// Between one and fifty passages are asked for, and eight where no number is
/// given.
pub proof fn law_passages_asked_for(k: u64)
    ensures
        knowledge::k_of(None) == 8,
        1 <= k <= 50 ==> knowledge::k_of(Some(k)) == k,
        k > 50 ==> knowledge::k_of(Some(k)) == 50,
        knowledge::k_of(Some(0)) == 1,
{
}

/// A document has as many passages as entries that name it.
pub proof fn law_passages_of_a_document(entries: Seq<String>, id: Seq<char>, n: int)
    requires
        0 <= n <= entries.len(),
    ensures
        knowledge::entries_of(entries, id, n) == entries.take(n).filter(
            |e: String| e@ == id,
        ).len(),
    decreases n,
{
    reveal(Seq::filter);
    if n > 0 {
        law_passages_of_a_document(entries, id, n - 1);
        assert(entries.take(n).drop_last() =~= entries.take(n - 1));
        assert(entries.take(n).last() == entries[n - 1]);
    }
}

/// How an import is named: by what kind it is and what it reads.
pub proof fn law_imports_are_named(s: Source)
    ensures
        match s {
            Source::Web(w) => match (w.mediawiki, w.sitemap) {
                (Some(m), _) => knowledge::description(s) == "MediaWiki "@ + text::joined(
                    text::texts(w.categories@),
                    ", "@,
                ) + " · "@ + m@,
                (None, Some(m)) => knowledge::description(s) == "Sitemap "@ + m@,
                (None, None) => {
                    &&& w.urls@.len() == 1 ==> knowledge::description(s) == "Page "@ + w.urls@[0]@
                    &&& w.urls@.len() != 1 ==> knowledge::description(s) == text::decimal_text(
                        w.urls@.len(),
                    ) + " pages"@
                },
            },
            Source::Youtube { url, max: _ } => knowledge::description(s) == "YouTube "@ + url@,
            Source::DiscordBot { channels, threads: _ } => knowledge::description(s)
                == "Discord channels "@ + text::joined(text::texts(channels@), ", "@),
            Source::File { paths, url: _ } => "Files "@.is_prefix_of(knowledge::description(s)),
            Source::DiscordExport { paths, whole: _ } => "Discord export "@.is_prefix_of(
                knowledge::description(s),
            ),
        },
{
    match s {
        Source::File { paths, url: _ } => {
            let d = knowledge::description(s);
            assert("Files "@ =~= d.subrange(0, "Files "@.len() as int));
        },
        Source::DiscordExport { paths, whole: _ } => {
            let d = knowledge::description(s);
            assert("Discord export "@ =~= d.subrange(0, "Discord export "@.len() as int));
        },
        _ => {},
    }
}

/// Five paths of the page are known.
pub proof fn law_knowledge_paths(path: Seq<char>, query: Seq<(String, String)>, r: KnowledgeGet)
    requires
        knowledge::is_knowledge_get(path, query, r),
    ensures
        (r is Stats) == (path == "stats"@),
        (r is Search) == (path == "search"@),
        (r is Documents) == (path == "documents"@),
        (r is Glossary) == (path == "glossary"@),
        (r is Jobs) == (path == "jobs"@),
{
    reveal_strlit("stats");
    reveal_strlit("search");
    reveal_strlit("documents");
    reveal_strlit("glossary");
    reveal_strlit("jobs");
    assert("stats"@.len() == 5 && "search"@.len() == 6 && "documents"@.len() == 9
        && "glossary"@.len() == 8 && "jobs"@.len() == 4);
}

/// Checking trims what was typed and leaves empty entries out; what was chosen
/// stays.
pub proof fn law_requests_are_cleaned(before: Source, after: Source)
    requires
        knowledge::is_cleaned(before, after),
    ensures
        before matches Source::Web(b) ==> (after matches Source::Web(a) && a.max_pages
            == b.max_pages && a.delay_s == b.delay_s && a.sitemap == b.sitemap && a.mediawiki
            == b.mediawiki && text::texts(a.urls@) == text::texts(b.urls@).map_values(
            |s: Seq<char>| text::trimmed(s),
        ).filter(|s: Seq<char>| s.len() > 0) && text::texts(a.categories@) == text::texts(
            b.categories@,
        ).map_values(|s: Seq<char>| text::trimmed(s)).filter(|s: Seq<char>| s.len() > 0)),
        before matches Source::Youtube { url, max } ==> (after matches Source::Youtube {
            url: u,
            max: m,
        } && u@ == text::trimmed(url@) && m == max),
        before is File || before is DiscordExport ==> after == before,
        before matches Source::DiscordBot { channels, threads } ==> (after matches
            Source::DiscordBot { channels: c, threads: t } && t == threads && text::texts(c@)
            == text::texts(channels@).map_values(|s: Seq<char>| text::trimmed(s)).filter(
            |s: Seq<char>| s.len() > 0,
        )),
{
    if let Source::DiscordBot { channels, threads: _ } = before {
        let list = text::texts(channels@);
        law_lists_are_cleaned(list, list.len() as int);
        assert(list.take(list.len() as int) =~= list);
    }
    if let Source::Web(b) = before {
        let urls = text::texts(b.urls@);
        let categories = text::texts(b.categories@);
        law_lists_are_cleaned(urls, urls.len() as int);
        law_lists_are_cleaned(categories, categories.len() as int);
        assert(urls.take(urls.len() as int) =~= urls);
        assert(categories.take(categories.len() as int) =~= categories);
    }
}

/// A question is trimmed, and refused where nothing is left of it.
pub proof fn law_questions_are_trimmed(
    k: Option<u64>,
    question: Option<Seq<char>>,
    r: Result<(String, usize), AskError>,
)
    requires
        knowledge::is_asked(k, question, r),
    ensures
        (r is Ok) == (question is Some && text::trimmed(question->0).len() > 0),
        r is Err ==> r->Err_0 is Empty,
        r matches Ok(a) ==> a.0@ == text::trimmed(question->0),
        r matches Ok(a) ==> (k is None ==> a.1 == 8) && (k matches Some(n) ==> (1 <= n <= 50
            ==> a.1 == n) && (n > 50 ==> a.1 == 50) && (n == 0 ==> a.1 == 1)),
{
    lemma_nothing_trimmed();
}

proof fn lemma_nothing_trimmed()
    ensures
        text::trimmed(Seq::empty()).len() == 0,
{
    crate::text_laws::law_blank_trims_to_nothing(Seq::empty());
}

/// A translation needs a text and a language, neither of them blank.
pub proof fn law_translations_need_both(
    given: Option<Seq<char>>,
    to: Option<Seq<char>>,
    r: Result<(String, String), AskError>,
)
    requires
        knowledge::is_translation(given, to, r),
    ensures
        (r is Ok) == (given is Some && text::trimmed(given->0).len() > 0 && to is Some
            && text::trimmed(to->0).len() > 0),
        r is Err ==> r->Err_0 is Empty,
        r matches Ok(a) ==> a.0@ == text::trimmed(given->0) && a.1@ == text::trimmed(to->0),
{
    lemma_nothing_trimmed();
}

/// The fields of the three requests, each under its own name.
pub proof fn law_request_fields(body: Seq<u8>)
    ensures
        (knowledge::json_ask(body) is Some) == json::is_json(body),
        (knowledge::json_translate(body) is Some) == json::is_json(body),
        (crate::downloads::json_download(body) is Some) == json::is_json(body),
        knowledge::json_ask(body) matches Some(a) ==> a.1 == json::text_in(
            json::json_at(body, "/question"@),
        ) && a.0 == json::whole_in(json::json_at(body, "/k"@)),
        knowledge::json_translate(body) matches Some(a) ==> a.0 == json::text_in(
            json::json_at(body, "/text"@),
        ) && a.1 == json::text_in(json::json_at(body, "/to"@)),
        crate::downloads::json_download(body) matches Some(d) ==> d.0 == json::text_in(
            json::json_at(body, "/url"@),
        ) && d.1 == json::double_in(json::json_at(body, "/start_s"@)) && d.2 == json::double_in(
            json::json_at(body, "/end_s"@),
        ),
{
}

/// News of a job changes only what it tells: the counts, the total and the log,
/// of which the last two hundred lines stay.
pub proof fn law_news_changes_only_what_it_tells(
    before: IngestJob,
    after: IngestJob,
    added: usize,
    done: usize,
    total: Option<usize>,
    lines: Seq<Seq<char>>,
)
    requires
        knowledge::only_changed(before, after, added, done, total, lines),
    ensures
        after.id == before.id && after.what == before.what && after.started_ms
            == before.started_ms,
        after.state == before.state && after.error == before.error && after.finished_ms
            == before.finished_ms,
        after.added == added && after.done == done && after.total == total,
        lines.len() <= 200 ==> text::texts(after.lines@) == lines,
        lines.len() > 200 ==> text::texts(after.lines@) == lines.skip(lines.len() - 200),
{
}

/// A search asks for the number that its query gives, and for eight where that is
/// no number.
pub proof fn law_searches_ask_for_a_number(query: Seq<(String, String)>, n: usize)
    ensures
        crate::inspector::given(query, "k"@, 0) == Some(text::decimal_text(n as nat))
            ==> knowledge::k_asked(query) == n,
        crate::inspector::given(query, "k"@, 0) is None ==> knowledge::k_asked(query) == 8,
{
    text::law_decimal_reads_back(n as nat, usize::MAX as nat);
}

} // verus!
