//! The knowledge view: what is imported, and how imports run.
use crate::clock;
use crate::double;
use crate::double::Double;
use crate::inspector;
use crate::json;
use crate::paths;
use crate::text;
use vstd::prelude::*;

verus! {

/// Knowledge excerpts retrieved per question.
pub const K: usize = 8;

/// Most search results.
pub const MAX_K: usize = 50;

/// Log lines kept per import.
pub const LOG_LINES: usize = 200;

/// Imported documents between two writes of the index.
pub const SAVE_EVERY: usize = 10;

/// Characters kept of a log line.
pub const NOTE_LIMIT: usize = 400;

/// Web pages to import.
#[derive(Clone, Debug)]
pub struct Web {
    pub urls: Vec<String>,
    pub sitemap: Option<String>,
    /// Address of a wiki's API, whose categories are imported.
    pub mediawiki: Option<String>,
    pub categories: Vec<String>,
    /// Most pages.
    pub max_pages: usize,
    /// Seconds between two requests to a site.
    pub delay_s: Double,
}

/// What to import.
#[derive(Clone, Debug)]
pub enum Source {
    /// Web pages, a sitemap or wiki categories.
    Web(Web),
    /// Transcripts of a YouTube video, playlist or channel.
    Youtube { url: String, max: Option<usize> },
    /// Local text files.
    File { paths: Vec<String>, url: Option<String> },
    /// Discord exports.
    DiscordExport { paths: Vec<String>, whole: bool },
    /// Discord channels through the bot API.
    DiscordBot { channels: Vec<String>, threads: bool },
}

/// Metadata that an import sets.
#[derive(Clone, Debug)]
pub struct Meta {
    pub source: Option<String>,
    pub license: Option<String>,
}

/// An import: its source and metadata overrides.
#[derive(Clone, Debug)]
pub struct IngestRequest {
    pub source: Source,
    pub meta: Meta,
}

/// Why an import is refused.
#[derive(Clone, Debug)]
pub enum IngestError {
    NotWebAddress(String),
    /// A wiki needs a category.
    NoCategory,
    /// The page limit or the delay cannot be.
    BadLimit,
    /// There is neither an address nor a sitemap nor a wiki.
    NothingGiven,
    NotYoutube,
    NoFile,
    NotFullPath(String),
    NoChannel,
    BadChannel(String),
}

/// The default of a flag that is on.
pub fn yes() -> (r: bool)
    ensures
        r,
{
    true
}

/// An address of the web.
pub open spec fn web_address(s: Seq<char>) -> bool {
    "https://"@.is_prefix_of(s) || "http://"@.is_prefix_of(s)
}

/// Whether a text is an address of the web.
pub fn is_url(s: &str) -> (r: bool)
    ensures
        r == web_address(s@),
{
    text::starts_with(s, "https://") || text::starts_with(s, "http://")
}

/// The texts among the first `n` without white space around them, and without
/// those that are nothing else.
pub open spec fn cleaned(list: Seq<Seq<char>>, n: int) -> Seq<Seq<char>>
    decreases n,
{
    if n <= 0 {
        Seq::empty()
    } else if text::trimmed(list[n - 1]).len() > 0 {
        cleaned(list, n - 1).push(text::trimmed(list[n - 1]))
    } else {
        cleaned(list, n - 1)
    }
}

/// The first text from `i` on that is no address of the web.
pub open spec fn first_bad_url(list: Seq<Seq<char>>, i: int) -> Option<Seq<char>>
    decreases list.len() - i,
{
    if i < 0 || i >= list.len() {
        None
    } else if !web_address(list[i]) {
        Some(list[i])
    } else {
        first_bad_url(list, i + 1)
    }
}

/// A list of none or one.
pub open spec fn as_list(s: Option<Seq<char>>) -> Seq<Seq<char>> {
    match s {
        Some(t) => seq![t],
        None => Seq::empty(),
    }
}

/// A full path.
pub open spec fn is_full(path: Seq<char>) -> bool {
    path.len() > 0 && path[0] == '/'
}

/// The first path from `i` on that is not a full one.
pub open spec fn first_short_path(list: Seq<Seq<char>>, i: int) -> Option<Seq<char>>
    decreases list.len() - i,
{
    if i < 0 || i >= list.len() {
        None
    } else if !is_full(list[i]) {
        Some(list[i])
    } else {
        first_short_path(list, i + 1)
    }
}

/// The names of the paths' files.
pub open spec fn shown_names(list: Seq<Seq<char>>) -> Seq<Seq<char>> {
    list.map_values(|p: Seq<char>| paths::last_name(p))
}

/// All characters are decimal digits.
pub open spec fn all_decimal(s: Seq<char>) -> bool {
    forall|i: int| 0 <= i < s.len() ==> '0' <= #[trigger] s[i] <= '9'
}

/// The first text from `i` on that is no number.
pub open spec fn first_bad_channel(list: Seq<Seq<char>>, i: int) -> Option<Seq<char>>
    decreases list.len() - i,
{
    if i < 0 || i >= list.len() {
        None
    } else if !all_decimal(list[i]) {
        Some(list[i])
    } else {
        first_bad_channel(list, i + 1)
    }
}

/// An error by its text.
pub enum Problem {
    NotWebAddress(Seq<char>),
    NoCategory,
    BadLimit,
    NothingGiven,
    NotYoutube,
    NoFile,
    NotFullPath(Seq<char>),
    NoChannel,
    BadChannel(Seq<char>),
}

/// An error by its text.
pub open spec fn problem_of(e: IngestError) -> Problem {
    match e {
        IngestError::NotWebAddress(s) => Problem::NotWebAddress(s@),
        IngestError::NoCategory => Problem::NoCategory,
        IngestError::BadLimit => Problem::BadLimit,
        IngestError::NothingGiven => Problem::NothingGiven,
        IngestError::NotYoutube => Problem::NotYoutube,
        IngestError::NoFile => Problem::NoFile,
        IngestError::NotFullPath(s) => Problem::NotFullPath(s@),
        IngestError::NoChannel => Problem::NoChannel,
        IngestError::BadChannel(s) => Problem::BadChannel(s@),
    }
}

/// A web import but for its addresses and categories.
pub open spec fn same_rest(a: Web, b: Web) -> bool {
    a.sitemap == b.sitemap && a.mediawiki == b.mediawiki && a.max_pages == b.max_pages && a.delay_s
        == b.delay_s
}

/// What is wrong with a cleaned web import.
pub open spec fn web_problem(w: Web) -> Option<Problem> {
    let addresses = text::texts(w.urls@) + as_list(text::opt_text(w.sitemap)) + as_list(
        text::opt_text(w.mediawiki),
    );
    if first_bad_url(addresses, 0) is Some {
        Some(Problem::NotWebAddress(first_bad_url(addresses, 0)->0))
    } else if w.mediawiki is Some && w.categories@.len() == 0 {
        Some(Problem::NoCategory)
    } else if w.max_pages < 1 || !double::is_finite(w.delay_s) {
        Some(Problem::BadLimit)
    } else if w.mediawiki is None && w.sitemap is None && w.urls@.len() == 0 {
        Some(Problem::NothingGiven)
    } else {
        None
    }
}

/// What the job list says of a cleaned web import.
pub open spec fn web_description(w: Web) -> Seq<char> {
    match (w.mediawiki, w.sitemap) {
        (Some(api), _) => "MediaWiki "@ + text::joined(text::texts(w.categories@), ", "@) + " · "@
            + api@,
        (None, Some(sitemap)) => "Sitemap "@ + sitemap@,
        (None, None) => if w.urls@.len() == 1 {
            "Page "@ + w.urls@[0]@
        } else {
            text::decimal_text(w.urls@.len()) + " pages"@
        },
    }
}

/// What is wrong with paths.
pub open spec fn paths_problem(list: Seq<Seq<char>>) -> Option<Problem> {
    if list.len() == 0 {
        Some(Problem::NoFile)
    } else {
        match first_short_path(list, 0) {
            Some(p) => Some(Problem::NotFullPath(p)),
            None => None,
        }
    }
}

/// A source after it was checked: cleaned of white space where that is done.
pub open spec fn is_cleaned(before: Source, after: Source) -> bool {
    match (before, after) {
        (Source::Web(b), Source::Web(a)) => {
            &&& same_rest(a, b)
            &&& text::texts(a.urls@) == cleaned(text::texts(b.urls@), b.urls@.len() as int)
            &&& text::texts(a.categories@) == cleaned(
                text::texts(b.categories@),
                b.categories@.len() as int,
            )
        },
        (Source::Youtube { url: u, max: m }, Source::Youtube { url: v, max: n }) => v@
            == text::trimmed(u@) && n == m,
        (
            Source::DiscordBot { channels: c, threads: t },
            Source::DiscordBot { channels: d, threads: u },
        ) => text::texts(d@) == cleaned(text::texts(c@), c@.len() as int) && u == t,
        (b, a) => a == b,
    }
}

/// What is wrong with a cleaned source.
pub open spec fn source_problem(s: Source) -> Option<Problem> {
    match s {
        Source::Web(w) => web_problem(w),
        Source::Youtube { url, max: _ } => if web_address(url@) {
            None
        } else {
            Some(Problem::NotYoutube)
        },
        Source::File { paths, url } => if url is Some && !web_address(text::trimmed(url->0@)) {
            Some(Problem::NotWebAddress(url->0@))
        } else {
            paths_problem(text::texts(paths@))
        },
        Source::DiscordExport { paths, whole: _ } => paths_problem(text::texts(paths@)),
        Source::DiscordBot { channels, threads: _ } => if channels@.len() == 0 {
            Some(Problem::NoChannel)
        } else {
            match first_bad_channel(text::texts(channels@), 0) {
                Some(c) => Some(Problem::BadChannel(c)),
                None => None,
            }
        },
    }
}

/// What the job list says of a cleaned source.
pub open spec fn description(s: Source) -> Seq<char> {
    match s {
        Source::Web(w) => web_description(w),
        Source::Youtube { url, max: _ } => "YouTube "@ + url@,
        Source::File { paths, url: _ } => "Files "@ + text::joined(
            shown_names(text::texts(paths@)),
            ", "@,
        ),
        Source::DiscordExport { paths, whole: _ } => "Discord export "@ + text::joined(
            shown_names(text::texts(paths@)),
            ", "@,
        ),
        Source::DiscordBot { channels, threads: _ } => "Discord channels "@ + text::joined(
            text::texts(channels@),
            ", "@,
        ),
    }
}

/// Texts without white space around them, and without those that are nothing
/// else.
fn clean(list: &Vec<String>) -> (r: Vec<String>)
    ensures
        text::texts(r@) == cleaned(text::texts(list@), list@.len() as int),
{
    let mut out: Vec<String> = Vec::new();
    let mut i: usize = 0;
    assert(text::texts(out@) =~= Seq::empty());
    while i < list.len()
        invariant
            i <= list@.len(),
            text::texts(out@) == cleaned(text::texts(list@), i as int),
        decreases list@.len() - i,
    {
        assert(text::texts(list@)[i as int] == list@[i as int]@);
        let t = text::trim(list[i].as_str());
        if t.as_str().unicode_len() > 0 {
            text::push_text(&mut out, t.as_str());
        }
        i += 1;
    }
    out
}

/// The first text of a list that is no address of the web.
fn find_bad_url(list: &Vec<String>) -> (r: Option<String>)
    ensures
        text::opt_text(r) == first_bad_url(text::texts(list@), 0),
{
    let mut i: usize = 0;
    while i < list.len()
        invariant
            i <= list@.len(),
            first_bad_url(text::texts(list@), 0) == first_bad_url(text::texts(list@), i as int),
        decreases list@.len() - i,
    {
        assert(text::texts(list@)[i as int] == list@[i as int]@);
        if !is_url(list[i].as_str()) {
            return Some(list[i].clone());
        }
        i += 1;
    }
    None
}

/// Check a web import whose lists are cleaned.
fn check_web(web: &Web) -> (r: Result<String, IngestError>)
    ensures
        match r {
            Ok(d) => web_problem(*web) is None && d@ == web_description(*web),
            Err(e) => web_problem(*web) == Some(problem_of(e)),
        },
{
    let mut addresses: Vec<String> = Vec::new();
    text::push_texts(&mut addresses, &web.urls);
    if let Some(s) = &web.sitemap {
        text::push_text(&mut addresses, s.as_str());
    }
    if let Some(m) = &web.mediawiki {
        text::push_text(&mut addresses, m.as_str());
    }
    assert(text::texts(addresses@) =~= text::texts(web.urls@) + as_list(
        text::opt_text(web.sitemap),
    ) + as_list(text::opt_text(web.mediawiki)));
    if let Some(bad) = find_bad_url(&addresses) {
        return Err(IngestError::NotWebAddress(bad));
    }
    if web.mediawiki.is_some() && web.categories.len() == 0 {
        return Err(IngestError::NoCategory);
    }
    if web.max_pages < 1 || !web.delay_s.finite() {
        return Err(IngestError::BadLimit);
    }
    match (&web.mediawiki, &web.sitemap) {
        (Some(api), _) => {
            let names = text::join(&web.categories, ", ");
            let mut out = text::concat("MediaWiki ", names.as_str());
            out.append(" · ");
            out.append(api.as_str());
            Ok(out)
        },
        (None, Some(sitemap)) => Ok(text::concat("Sitemap ", sitemap.as_str())),
        (None, None) => if web.urls.len() == 0 {
            Err(IngestError::NothingGiven)
        } else if web.urls.len() == 1 {
            Ok(text::concat("Page ", web.urls[0].as_str()))
        } else {
            let count = text::decimal(web.urls.len() as u64);
            Ok(text::concat(count.as_str(), " pages"))
        },
    }
}

/// Check paths; the names of their files.
fn check_paths(list: &Vec<String>) -> (r: Result<String, IngestError>)
    ensures
        match r {
            Ok(names) => paths_problem(text::texts(list@)) is None && names@ == text::joined(
                shown_names(text::texts(list@)),
                ", "@,
            ),
            Err(e) => paths_problem(text::texts(list@)) == Some(problem_of(e)),
        },
{
    if list.len() == 0 {
        return Err(IngestError::NoFile);
    }
    let mut i: usize = 0;
    while i < list.len()
        invariant
            i <= list@.len(),
            first_short_path(text::texts(list@), 0) == first_short_path(
                text::texts(list@),
                i as int,
            ),
        decreases list@.len() - i,
    {
        assert(text::texts(list@)[i as int] == list@[i as int]@);
        let path = list[i].as_str();
        if path.unicode_len() == 0 || path.get_char(0) != '/' {
            return Err(IngestError::NotFullPath(list[i].clone()));
        }
        i += 1;
    }
    let mut names: Vec<String> = Vec::new();
    let mut k: usize = 0;
    assert(text::texts(names@) =~= shown_names(text::texts(list@)).take(0));
    while k < list.len()
        invariant
            k <= list@.len(),
            text::texts(names@) == shown_names(text::texts(list@)).take(k as int),
        decreases list@.len() - k,
    {
        assert(text::texts(list@)[k as int] == list@[k as int]@);
        let name = paths::file_name(list[k].as_str());
        text::push_text(&mut names, name.as_str());
        k += 1;
        assert(text::texts(names@) =~= shown_names(text::texts(list@)).take(k as int));
    }
    assert(shown_names(text::texts(list@)).take(k as int) =~= shown_names(text::texts(list@)));
    Ok(text::join(&names, ", "))
}

/// Whether all characters are decimal digits.
fn is_number(s: &str) -> (r: bool)
    ensures
        r == all_decimal(s@),
{
    let a = text::chars_of(s);
    let mut i: usize = 0;
    while i < a.len()
        invariant
            i <= a@.len(),
            a@ == s@,
            forall|j: int| 0 <= j < i ==> '0' <= #[trigger] s@[j] <= '9',
        decreases a@.len() - i,
    {
        if a[i] < '0' || a[i] > '9' {
            return false;
        }
        i += 1;
    }
    true
}

/// Check cleaned channel ids.
fn check_channels(list: &Vec<String>) -> (r: Result<String, IngestError>)
    ensures
        match r {
            Ok(d) => list@.len() > 0 && first_bad_channel(text::texts(list@), 0) is None && d@
                == "Discord channels "@ + text::joined(text::texts(list@), ", "@),
            Err(IngestError::NoChannel) => list@.len() == 0,
            Err(e) => list@.len() > 0 && first_bad_channel(text::texts(list@), 0) is Some
                && problem_of(e) == Problem::BadChannel(
                first_bad_channel(text::texts(list@), 0)->0,
            ),
        },
{
    if list.len() == 0 {
        return Err(IngestError::NoChannel);
    }
    let mut i: usize = 0;
    while i < list.len()
        invariant
            i <= list@.len(),
            list@.len() > 0,
            first_bad_channel(text::texts(list@), 0) == first_bad_channel(
                text::texts(list@),
                i as int,
            ),
        decreases list@.len() - i,
    {
        assert(text::texts(list@)[i as int] == list@[i as int]@);
        if !is_number(list[i].as_str()) {
            return Err(IngestError::BadChannel(list[i].clone()));
        }
        i += 1;
    }
    let names = text::join(list, ", ");
    Ok(text::concat("Discord channels ", names.as_str()))
}

impl IngestRequest {
    /// Check the request, cleaning what the page sent; a short description for
    /// the job list.
    pub fn check(&mut self) -> (r: Result<String, IngestError>)
        ensures
            final(self).meta == old(self).meta,
            is_cleaned(old(self).source, final(self).source),
            match r {
                Ok(d) => source_problem(final(self).source) is None && d@ == description(
                    final(self).source),
                Err(e) => source_problem(final(self).source) == Some(problem_of(e)),
            },
    {
        match &mut self.source {
            Source::Web(web) => {
                web.urls = clean(&web.urls);
                web.categories = clean(&web.categories);
                check_web(web)
            },
            Source::Youtube { url, .. } => {
                *url = text::trim(url.as_str());
                if !is_url(url.as_str()) {
                    return Err(IngestError::NotYoutube);
                }
                Ok(text::concat("YouTube ", url.as_str()))
            },
            Source::File { paths, url } => {
                if let Some(u) = url {
                    let t = text::trim(u.as_str());
                    if !is_url(t.as_str()) {
                        return Err(IngestError::NotWebAddress(u.clone()));
                    }
                }
                match check_paths(paths) {
                    Ok(names) => Ok(text::concat("Files ", names.as_str())),
                    Err(e) => Err(e),
                }
            },
            Source::DiscordExport { paths, .. } => match check_paths(paths) {
                Ok(names) => Ok(text::concat("Discord export ", names.as_str())),
                Err(e) => Err(e),
            },
            Source::DiscordBot { channels, .. } => {
                *channels = clean(channels);
                check_channels(channels)
            },
        }
    }
}

/// Cleaned texts stay as they are when they are cleaned again.
pub proof fn law_clean_twice(list: Seq<Seq<char>>, n: int)
    requires
        0 <= n <= list.len(),
    ensures
        cleaned(cleaned(list, n), cleaned(list, n).len() as int) == cleaned(list, n),
    decreases n,
{
    if n > 0 {
        law_clean_twice(list, n - 1);
        let t = text::trimmed(list[n - 1]);
        text::law_trim_twice(list[n - 1]);
        if t.len() > 0 {
            let c = cleaned(list, n - 1);
            let d = c.push(t);
            lemma_clean_part(c, d, c.len() as int);
            assert(cleaned(d, d.len() as int) == cleaned(d, d.len() - 1).push(t));
        }
    }
}

/// Cleaning the first texts of a list does not depend on those after them.
proof fn lemma_clean_part(a: Seq<Seq<char>>, b: Seq<Seq<char>>, n: int)
    requires
        0 <= n <= a.len(),
        n <= b.len(),
        forall|i: int| 0 <= i < n ==> a[i] == b[i],
    ensures
        cleaned(a, n) == cleaned(b, n),
    decreases n,
{
    if n > 0 {
        lemma_clean_part(a, b, n - 1);
    }
}

/// State of an import.
#[derive(Clone, Copy, Debug, PartialEq, Eq, Structural)]
pub enum JobState {
    Running,
    Done,
    Failed,
    Cancelled,
}

/// An import, as the page sees it.
#[derive(Clone, Debug)]
pub struct IngestJob {
    pub id: u64,
    /// What is imported, for the list.
    pub what: String,
    pub state: JobState,
    /// Documents added.
    pub added: usize,
    /// Items handled.
    pub done: usize,
    /// Items to handle, once known.
    pub total: Option<usize>,
    /// The last lines of its log.
    pub lines: Vec<String>,
    pub error: Option<String>,
    pub started_ms: u64,
    pub finished_ms: Option<u64>,
}

/// The imports of this run, oldest first.
#[derive(Clone, Debug)]
pub struct Jobs {
    pub jobs: Vec<IngestJob>,
    /// The running import is to stop after its document.
    pub cancel: bool,
}

/// An import is running; wait for it or cancel it.
#[derive(Clone, Copy, Debug, PartialEq, Eq, Structural)]
pub struct Busy;

/// How an import ended.
#[derive(Clone, Debug)]
pub enum ImportResult {
    /// With this many documents added.
    Added(usize),
    Failed(String),
}

/// Whether an import runs.
pub open spec fn any_running(jobs: Seq<IngestJob>) -> bool {
    exists|i: int| 0 <= i < jobs.len() && (#[trigger] jobs[i]).state == JobState::Running
}

/// At most one import runs, and ids count up.
pub open spec fn jobs_ok(jobs: Seq<IngestJob>) -> bool {
    &&& forall|i: int, j: int|
        0 <= i < j < jobs.len() ==> (#[trigger] jobs[i]).id < (#[trigger] jobs[j]).id
    &&& forall|i: int, j: int|
        0 <= i < j < jobs.len() ==> !((#[trigger] jobs[i]).state == JobState::Running
            && (#[trigger] jobs[j]).state == JobState::Running)
}

/// The id that the next import gets.
pub open spec fn next_id(jobs: Seq<IngestJob>) -> int {
    if jobs.len() == 0 {
        1
    } else {
        jobs.last().id + 1
    }
}

/// The place of an import, from `i` on; the length when there is none.
pub open spec fn job_place(jobs: Seq<IngestJob>, id: u64, i: int) -> int
    decreases jobs.len() - i,
{
    if i < 0 || i >= jobs.len() {
        jobs.len() as int
    } else if jobs[i].id == id {
        i
    } else {
        job_place(jobs, id, i + 1)
    }
}

/// The last lines of a log.
pub open spec fn last_lines(lines: Seq<Seq<char>>) -> Seq<Seq<char>> {
    if lines.len() > LOG_LINES {
        lines.skip(lines.len() - LOG_LINES)
    } else {
        lines
    }
}

/// An import but for what changes while it runs.
pub open spec fn same_job(a: IngestJob, b: IngestJob) -> bool {
    a.id == b.id && a.what == b.what && a.started_ms == b.started_ms
}

/// What changes in an import's log and numbers, nothing else.
pub open spec fn only_changed(
    before: IngestJob,
    after: IngestJob,
    added: usize,
    done: usize,
    total: Option<usize>,
    lines: Seq<Seq<char>>,
) -> bool {
    &&& same_job(after, before)
    &&& after.state == before.state
    &&& after.error == before.error
    &&& after.finished_ms == before.finished_ms
    &&& after.added == added
    &&& after.done == done
    &&& after.total == total
    &&& text::texts(after.lines@) == last_lines(lines)
}

/// What an import is when it ended.
pub open spec fn is_ended(
    before: IngestJob,
    after: IngestJob,
    result: ImportResult,
    cancelled: bool,
    now_ms: u64,
) -> bool {
    let lines = text::texts(before.lines@);
    &&& same_job(after, before)
    &&& after.added == before.added
    &&& after.total == before.total
    &&& after.finished_ms == Some(now_ms)
    &&& match result {
        ImportResult::Added(n) => {
            &&& after.state == JobState::Done
            &&& after.done == (match before.total {
                Some(t) => t,
                None => before.done,
            })
            &&& after.error == before.error
            &&& text::texts(after.lines@) == last_lines(
                lines.push("done: "@ + text::decimal_text(n as nat) + " documents added"@),
            )
        },
        ImportResult::Failed(message) => {
            &&& after.done == before.done
            &&& if cancelled {
                &&& after.state == JobState::Cancelled
                &&& after.error == before.error
                &&& text::texts(after.lines@) == last_lines(lines.push(message@))
            } else {
                &&& after.state == JobState::Failed
                &&& after.error == Some(message)
                &&& text::texts(after.lines@) == last_lines(lines)
            }
        },
    }
}

/// Where an import is.
proof fn lemma_job_place(jobs: Seq<IngestJob>, id: u64, i: int)
    requires
        0 <= i <= jobs.len(),
    ensures
        i <= job_place(jobs, id, i) <= jobs.len(),
        job_place(jobs, id, i) < jobs.len() ==> jobs[job_place(jobs, id, i)].id == id,
    decreases jobs.len() - i,
{
    if i < jobs.len() && jobs[i].id != id {
        lemma_job_place(jobs, id, i + 1);
    }
}

/// Keep the last lines of a log.
fn shorten_log(lines: &mut Vec<String>)
    ensures
        text::texts(final(lines)@) == last_lines(text::texts(old(lines)@)),
{
    let n: usize = lines.len();
    if n > LOG_LINES {
        let kept = lines.split_off(n - LOG_LINES);
        *lines = kept;
        assert(text::texts(lines@) =~= last_lines(text::texts(old(lines)@)));
    }
}

impl Jobs {
    pub fn new() -> (r: Jobs)
        ensures
            r.jobs@.len() == 0,
            jobs_ok(r.jobs@),
            !r.cancel,
    {
        Jobs { jobs: Vec::new(), cancel: false }
    }

    /// Whether an import runs.
    pub fn running(&self) -> (r: bool)
        ensures
            r == any_running(self.jobs@),
    {
        let mut i: usize = 0;
        while i < self.jobs.len()
            invariant
                i <= self.jobs@.len(),
                forall|j: int| 0 <= j < i ==> (#[trigger] self.jobs@[j]).state != JobState::Running,
            decreases self.jobs@.len() - i,
        {
            if self.jobs[i].state == JobState::Running {
                return true;
            }
            i += 1;
        }
        false
    }

    /// Start an import, unless one runs; its id.
    pub fn start(&mut self, what: String, now_ms: u64) -> (r: Result<u64, Busy>)
        requires
            jobs_ok(old(self).jobs@),
            next_id(old(self).jobs@) <= u64::MAX,
        ensures
            jobs_ok(final(self).jobs@),
            match r {
                Ok(id) => {
                    &&& !any_running(old(self).jobs@)
                    &&& id == next_id(old(self).jobs@)
                    &&& !final(self).cancel
                    &&& final(self).jobs@.len() == old(self).jobs@.len() + 1
                    &&& final(self).jobs@.drop_last() == old(self).jobs@
                    &&& ({
                        let j = final(self).jobs@.last();
                        &&& j.id == id
                        &&& j.what == what
                        &&& j.state == JobState::Running
                        &&& j.added == 0
                        &&& j.done == 0
                        &&& j.total is None
                        &&& text::texts(j.lines@) == seq!["loading the knowledge store"@]
                        &&& j.error is None
                        &&& j.started_ms == now_ms
                        &&& j.finished_ms is None
                    })
                },
                Err(_) => any_running(old(self).jobs@) && *final(self) == *old(self),
            },
    {
        if self.running() {
            return Err(Busy);
        }
        let n: usize = self.jobs.len();
        let id: u64 = if n == 0 {
            1
        } else {
            self.jobs[n - 1].id + 1
        };
        let mut lines: Vec<String> = Vec::new();
        text::push_text(&mut lines, "loading the knowledge store");
        assert(text::texts(lines@) =~= seq!["loading the knowledge store"@]);
        self.jobs.push(
            IngestJob {
                id,
                what,
                state: JobState::Running,
                added: 0,
                done: 0,
                total: None,
                lines,
                error: None,
                started_ms: now_ms,
                finished_ms: None,
            },
        );
        self.cancel = false;
        proof {
            let jobs = self.jobs@;
            assert(jobs.drop_last() =~= old(self).jobs@);
            assert forall|i: int, j: int| 0 <= i < j < jobs.len() implies (#[trigger] jobs[i]).id
                < (#[trigger] jobs[j]).id by {
                if j == jobs.len() - 1 && i < n - 1 {
                    assert(old(self).jobs@[i].id < old(self).jobs@[n - 1].id);
                }
            }
        }
        Ok(id)
    }

    /// Stop the running import after its document.
    pub fn cancel(&mut self)
        ensures
            final(self).jobs@ == old(self).jobs@,
            final(self).cancel,
    {
        self.cancel = true;
    }

    /// Take out the import with an id.
    fn take(&mut self, id: u64) -> (r: Option<(usize, IngestJob)>)
        ensures
            final(self).cancel == old(self).cancel,
            ({
                let i = job_place(old(self).jobs@, id, 0);
                match r {
                    Some(p) => i < old(self).jobs@.len() && p.0 == i && p.1 == old(self).jobs@[i]
                        && final(self).jobs@ == old(self).jobs@.remove(i),
                    None => i == old(self).jobs@.len() && final(self).jobs@ == old(self).jobs@,
                }
            }),
    {
        let mut i: usize = 0;
        while i < self.jobs.len()
            invariant
                i <= self.jobs@.len(),
                self.jobs@ == old(self).jobs@,
                self.cancel == old(self).cancel,
                job_place(self.jobs@, id, 0) == job_place(self.jobs@, id, i as int),
            decreases self.jobs@.len() - i,
        {
            if self.jobs[i].id == id {
                let job = self.jobs.remove(i);
                return Some((i, job));
            }
            i += 1;
        }
        None
    }

    /// Put an import back in its place.
    fn put_back(&mut self, i: usize, job: IngestJob)
        requires
            i <= old(self).jobs@.len(),
        ensures
            final(self).jobs@ == old(self).jobs@.insert(i as int, job),
            final(self).cancel == old(self).cancel,
    {
        self.jobs.insert(i, job);
    }

    /// A document was added.
    pub fn added(&mut self, id: u64)
        requires
            forall|i: int|
                0 <= i < old(self).jobs@.len() ==> (#[trigger] old(self).jobs@[i]).added
                    < usize::MAX,
        ensures
            jobs_ok(old(self).jobs@) ==> jobs_ok(final(self).jobs@),
            updated(*old(self), *final(self), id),
            ({
                let i = job_place(old(self).jobs@, id, 0);
                let b = old(self).jobs@[i];
                i < old(self).jobs@.len() ==> only_changed(
                    b,
                    final(self).jobs@[i],
                    (b.added + 1) as usize,
                    b.done,
                    b.total,
                    text::texts(b.lines@),
                )
            }),
    {
        proof {
            lemma_job_place(self.jobs@, id, 0);
        }
        if let Some((i, mut job)) = self.take(id) {
            job.added = job.added + 1;
            shorten_log(&mut job.lines);
            self.put_back(i, job);
            assert(self.jobs@ =~= old(self).jobs@.update(i as int, self.jobs@[i as int]));
        }
        proof {
            if jobs_ok(old(self).jobs@) {
                law_imports_stay_single(*old(self), *self, id);
            }
        }
    }

    /// A line for the import's log, shortened.
    pub fn note(&mut self, id: u64, line: &str)
        ensures
            jobs_ok(old(self).jobs@) ==> jobs_ok(final(self).jobs@),
            updated(*old(self), *final(self), id),
            ({
                let i = job_place(old(self).jobs@, id, 0);
                let b = old(self).jobs@[i];
                i < old(self).jobs@.len() ==> only_changed(
                    b,
                    final(self).jobs@[i],
                    b.added,
                    b.done,
                    b.total,
                    text::texts(b.lines@).push(text::shortened(line@, NOTE_LIMIT as int)),
                )
            }),
    {
        proof {
            lemma_job_place(self.jobs@, id, 0);
        }
        let short = text::take_chars(line, NOTE_LIMIT);
        if let Some((i, mut job)) = self.take(id) {
            text::push_text(&mut job.lines, short.as_str());
            shorten_log(&mut job.lines);
            self.put_back(i, job);
            assert(self.jobs@ =~= old(self).jobs@.update(i as int, self.jobs@[i as int]));
        }
        proof {
            if jobs_ok(old(self).jobs@) {
                law_imports_stay_single(*old(self), *self, id);
            }
        }
    }

    /// How far the import is.
    pub fn progress(&mut self, id: u64, done: usize, total: usize)
        ensures
            jobs_ok(old(self).jobs@) ==> jobs_ok(final(self).jobs@),
            updated(*old(self), *final(self), id),
            ({
                let i = job_place(old(self).jobs@, id, 0);
                let b = old(self).jobs@[i];
                i < old(self).jobs@.len() ==> only_changed(
                    b,
                    final(self).jobs@[i],
                    b.added,
                    done,
                    Some(total),
                    text::texts(b.lines@),
                )
            }),
    {
        proof {
            lemma_job_place(self.jobs@, id, 0);
        }
        if let Some((i, mut job)) = self.take(id) {
            job.done = done;
            job.total = Some(total);
            shorten_log(&mut job.lines);
            self.put_back(i, job);
            assert(self.jobs@ =~= old(self).jobs@.update(i as int, self.jobs@[i as int]));
        }
        proof {
            if jobs_ok(old(self).jobs@) {
                law_imports_stay_single(*old(self), *self, id);
            }
        }
    }

    /// The import ended: done, cancelled, or failed.
    pub fn finish(&mut self, id: u64, result: ImportResult, now_ms: u64)
        ensures
            jobs_ok(old(self).jobs@) ==> jobs_ok(final(self).jobs@),
            updated(*old(self), *final(self), id),
            ({
                let i = job_place(old(self).jobs@, id, 0);
                i < old(self).jobs@.len() ==> is_ended(
                    old(self).jobs@[i],
                    final(self).jobs@[i],
                    result,
                    old(self).cancel,
                    now_ms,
                )
            }),
    {
        proof {
            lemma_job_place(self.jobs@, id, 0);
        }
        let cancelled = self.cancel;
        if let Some((i, mut job)) = self.take(id) {
            job.finished_ms = Some(now_ms);
            match result {
                ImportResult::Added(n) => {
                    job.state = JobState::Done;
                    if let Some(t) = job.total {
                        job.done = t;
                    }
                    let count = text::decimal(n as u64);
                    let mut line = text::concat("done: ", count.as_str());
                    line.append(" documents added");
                    text::push_text(&mut job.lines, line.as_str());
                },
                ImportResult::Failed(message) => if cancelled {
                    job.state = JobState::Cancelled;
                    text::push_text(&mut job.lines, message.as_str());
                } else {
                    job.state = JobState::Failed;
                    job.error = Some(message);
                },
            }
            shorten_log(&mut job.lines);
            self.put_back(i, job);
            assert(self.jobs@ =~= old(self).jobs@.update(i as int, self.jobs@[i as int]));
        }
        proof {
            if jobs_ok(old(self).jobs@) {
                law_imports_stay_single(*old(self), *self, id);
            }
        }
    }

    /// The places of the imports, newest first.
    pub fn newest_first(&self) -> (r: Vec<usize>)
        ensures
            r@.len() == self.jobs@.len(),
            forall|i: int| 0 <= i < r@.len() ==> #[trigger] r@[i] == self.jobs@.len() - 1 - i,
    {
        let mut out: Vec<usize> = Vec::new();
        let mut i: usize = self.jobs.len();
        while i > 0
            invariant
                i <= self.jobs@.len(),
                out@.len() == self.jobs@.len() - i,
                forall|k: int| 0 <= k < out@.len() ==> #[trigger] out@[k] == self.jobs@.len() - 1 - k,
            decreases i,
        {
            i -= 1;
            out.push(i);
        }
        out
    }
}

/// Only the import with an id may have changed.
pub open spec fn updated(before: Jobs, after: Jobs, id: u64) -> bool {
    let i = job_place(before.jobs@, id, 0);
    &&& after.cancel == before.cancel
    &&& if i < before.jobs@.len() {
        after.jobs@ == before.jobs@.update(i, after.jobs@[i])
    } else {
        after.jobs@ == before.jobs@
    }
}

/// What an import logs or counts leaves the list as it was: ids and states stay,
/// so that at most one import runs; one that ends frees the way for another.
pub proof fn law_imports_stay_single(before: Jobs, after: Jobs, id: u64)
    requires
        jobs_ok(before.jobs@),
        updated(before, after, id),
        ({
            let i = job_place(before.jobs@, id, 0);
            i < before.jobs@.len() ==> after.jobs@[i].id == before.jobs@[i].id && (
            after.jobs@[i].state == before.jobs@[i].state || after.jobs@[i].state
                != JobState::Running)
        }),
    ensures
        jobs_ok(after.jobs@),
{
    lemma_job_place(before.jobs@, id, 0);
    let a = after.jobs@;
    let b = before.jobs@;
    assert forall|i: int| 0 <= i < a.len() implies (#[trigger] a[i]).id == b[i].id && (a[i].state
        == b[i].state || a[i].state != JobState::Running) by {}
    assert forall|i: int, j: int| 0 <= i < j < a.len() implies (#[trigger] a[i]).id < (
    #[trigger] a[j]).id by {
        assert(b[i].id < b[j].id);
    }
    assert forall|i: int, j: int| 0 <= i < j < a.len() implies !((#[trigger] a[i]).state
        == JobState::Running && (#[trigger] a[j]).state == JobState::Running) by {
        assert(!(b[i].state == JobState::Running && b[j].state == JobState::Running));
    }
}

/// When only the running import ends, none runs.
pub proof fn law_end_frees_the_way(before: Jobs, after: Jobs, id: u64)
    requires
        jobs_ok(before.jobs@),
        updated(before, after, id),
        job_place(before.jobs@, id, 0) < before.jobs@.len(),
        before.jobs@[job_place(before.jobs@, id, 0)].state == JobState::Running,
        after.jobs@[job_place(before.jobs@, id, 0)].state != JobState::Running,
    ensures
        !any_running(after.jobs@),
{
    lemma_job_place(before.jobs@, id, 0);
    let p = job_place(before.jobs@, id, 0);
    assert forall|i: int| 0 <= i < after.jobs@.len() implies (#[trigger] after.jobs@[i]).state
        != JobState::Running by {
        if i < p {
            assert(before.jobs@[i].id < before.jobs@[p].id);
        } else if i > p {
            assert(before.jobs@[p].id < before.jobs@[i].id);
        }
    }
}

/// The Unix time in milliseconds of a clock reading; 0 without one.
pub fn millis_or_zero(nanos: Option<u128>) -> (r: u64)
    ensures
        r == (match nanos {
            Some(n) => clock::millis_of(n),
            None => 0,
        }),
{
    match nanos {
        Some(n) => clock::millis(n),
        None => 0,
    }
}

/// Unix time in milliseconds; 0 when the clock is set before 1970.
pub fn now_ms() -> (r: u64) {
    millis_or_zero(clock::clock_nanos())
}

/// A document was added since the index was last written: whether to write it
/// now, and how many are unwritten then.
pub fn unsaved_after(unsaved: usize) -> (r: (bool, usize))
    requires
        unsaved < usize::MAX,
    ensures
        r.0 == (unsaved + 1 >= SAVE_EVERY),
        r.0 == (unsaved >= 9),
        r.1 == (if r.0 {
            0
        } else {
            unsaved + 1
        }),
{
    if unsaved + 1 >= SAVE_EVERY {
        (true, 0)
    } else {
        (false, unsaved + 1)
    }
}

/// Whether an environment variable holds something.
pub fn is_set(value: Option<&str>) -> (r: bool)
    ensures
        r == (match value {
            Some(v) => text::trimmed(v@).len() > 0,
            None => false,
        }),
{
    match value {
        Some(v) => text::trim(v).as_str().unicode_len() > 0,
        None => false,
    }
}

/// A number of results within its limits.
pub fn clamp_k(k: usize) -> (r: usize)
    ensures
        r == (if k < 1 {
            1
        } else if k > MAX_K {
            MAX_K
        } else {
            k
        }),
        1 <= r <= 50,
        1 <= k <= 50 ==> r == k,
        k > 50 ==> r == 50,
{
    if k < 1 {
        1
    } else if k > MAX_K {
        MAX_K
    } else {
        k
    }
}

/// A text that must say something, without white space around it.
pub fn required(s: &str) -> (r: Option<String>)
    ensures
        text::opt_text(r) == inspector::filled(Some(text::trimmed(s@))),
{
    crate::studio::non_empty(text::trim(s))
}

/// Why a question or a translation is refused.
#[derive(Clone, Copy, Debug, PartialEq, Eq, Structural)]
pub enum AskError {
    /// The body is no JSON.
    BadJson,
    /// What must be given says nothing.
    Empty,
}

/// How many results are asked for, within the limits; [`K`] where none is given.
pub open spec fn k_of(k: Option<u64>) -> int {
    match k {
        Some(n) => if n < 1 {
            1
        } else if n > MAX_K {
            MAX_K as int
        } else {
            n as int
        },
        None => K as int,
    }
}

/// What a question comes to.
pub open spec fn is_asked(
    k: Option<u64>,
    question: Option<Seq<char>>,
    r: Result<(String, usize), AskError>,
) -> bool {
    let q = text::trimmed(or_empty(question));
    match r {
        Ok(a) => q.len() > 0 && a.0@ == q && a.1 == k_of(k),
        Err(e) => q.len() == 0 && e == AskError::Empty,
    }
}

/// A question without white space around it, and the number of excerpts for it.
pub fn asked(k: Option<u64>, question: Option<String>) -> (r: Result<(String, usize), AskError>)
    ensures
        is_asked(k, text::opt_text(question), r),
{
    let count: usize = match k {
        Some(n) => if n < 1 {
            1
        } else if n > MAX_K as u64 {
            MAX_K
        } else {
            n as usize
        },
        None => K,
    };
    let given = text_or_empty(question);
    match required(given.as_str()) {
        Some(q) => Ok((q, count)),
        None => Err(AskError::Empty),
    }
}

/// What the body of a question gives: the number of excerpts and the question.
pub open spec fn json_ask(body: Seq<u8>) -> Option<(Option<u64>, Option<Seq<char>>)> {
    if json::is_json(body) {
        Some(
            (
                json::whole_in(json::json_at(body, "/k"@)),
                json::text_in(json::json_at(body, "/question"@)),
            ),
        )
    } else {
        None
    }
}

/// The question in the body of a request.
pub fn ask_request(body: &[u8]) -> (r: Result<(String, usize), AskError>)
    ensures
        match json_ask(body@) {
            Some(a) => is_asked(a.0, a.1, r),
            None => r == Err::<(String, usize), AskError>(AskError::BadJson),
        },
{
    match json::fields(body, &["/k", "/question"]) {
        Some(f) => asked(f[0].whole(), f[1].text()),
        None => Err(AskError::BadJson),
    }
}

/// What a translation comes to: the text and the language.
pub open spec fn is_translation(
    given: Option<Seq<char>>,
    to: Option<Seq<char>>,
    r: Result<(String, String), AskError>,
) -> bool {
    let t = text::trimmed(or_empty(given));
    let l = text::trimmed(or_empty(to));
    match r {
        Ok(a) => t.len() > 0 && l.len() > 0 && a.0@ == t && a.1@ == l,
        Err(e) => (t.len() == 0 || l.len() == 0) && e == AskError::Empty,
    }
}

/// A text and the language to translate it to, without white space around them.
pub fn translation(given: Option<String>, to: Option<String>) -> (r: Result<
    (String, String),
    AskError,
>)
    ensures
        is_translation(text::opt_text(given), text::opt_text(to), r),
{
    let given = text_or_empty(given);
    let to = text_or_empty(to);
    match (required(given.as_str()), required(to.as_str())) {
        (Some(t), Some(l)) => Ok((t, l)),
        _ => Err(AskError::Empty),
    }
}

/// What the body of a translation gives: the text and the language.
pub open spec fn json_translate(body: Seq<u8>) -> Option<(Option<Seq<char>>, Option<Seq<char>>)> {
    if json::is_json(body) {
        Some(
            (
                json::text_in(json::json_at(body, "/text"@)),
                json::text_in(json::json_at(body, "/to"@)),
            ),
        )
    } else {
        None
    }
}

/// The translation that the body of a request asks for.
pub fn translate_request(body: &[u8]) -> (r: Result<(String, String), AskError>)
    ensures
        match json_translate(body@) {
            Some(a) => is_translation(a.0, a.1, r),
            None => r == Err::<(String, String), AskError>(AskError::BadJson),
        },
{
    match json::fields(body, &["/text", "/to"]) {
        Some(f) => translation(f[0].text(), f[1].text()),
        None => Err(AskError::BadJson),
    }
}

/// What a `GET` asks the knowledge view for.
#[derive(Clone, Debug)]
pub enum KnowledgeGet {
    Stats,
    Search { q: String, k: usize },
    Documents,
    Glossary { q: String },
    Jobs,
    Unknown,
}

/// A value of a query; nothing when it is not given.
pub open spec fn or_empty(v: Option<Seq<char>>) -> Seq<char> {
    match v {
        Some(s) => s,
        None => Seq::empty(),
    }
}

/// How many results a query asks for.
pub open spec fn k_asked(query: Seq<(String, String)>) -> nat {
    match text::number(or_empty(inspector::given(query, "k"@, 0)), 10, usize::MAX as nat) {
        Some(n) => n,
        None => K as nat,
    }
}

/// What a `GET` asks for.
pub open spec fn is_knowledge_get(
    path: Seq<char>,
    query: Seq<(String, String)>,
    r: KnowledgeGet,
) -> bool {
    let q = or_empty(inspector::given(query, "q"@, 0));
    if path == "stats"@ {
        r is Stats
    } else if path == "search"@ {
        r matches KnowledgeGet::Search { q: t, k } && t@ == q && k == k_asked(query)
    } else if path == "documents"@ {
        r is Documents
    } else if path == "glossary"@ {
        r matches KnowledgeGet::Glossary { q: t } && t@ == q
    } else if path == "jobs"@ {
        r is Jobs
    } else {
        r is Unknown
    }
}

/// A value of a query; nothing when it is not given.
fn value_or_empty(query: &Vec<(String, String)>, key: &str) -> (r: String)
    ensures
        r@ == or_empty(inspector::given(query@, key@, 0)),
{
    text_or_empty(inspector::value(query, key))
}

/// A text; nothing when it is not given.
pub(crate) fn text_or_empty(s: Option<String>) -> (r: String)
    ensures
        r@ == or_empty(text::opt_text(s)),
{
    match s {
        Some(t) => t,
        None => {
            let none = String::new();
            assert(none@ =~= Seq::empty());
            none
        },
    }
}

/// What a `GET` asks the knowledge view for.
pub fn knowledge_get(path: &str, query: &Vec<(String, String)>) -> (r: KnowledgeGet)
    ensures
        is_knowledge_get(path@, query@, r),
{
    if text::same(path, "stats") {
        KnowledgeGet::Stats
    } else if text::same(path, "search") {
        let wanted = value_or_empty(query, "k");
        let k: usize = match text::parse_decimal(wanted.as_str(), usize::MAX as u64) {
            Some(n) => n as usize,
            None => K,
        };
        KnowledgeGet::Search { q: value_or_empty(query, "q"), k }
    } else if text::same(path, "documents") {
        KnowledgeGet::Documents
    } else if text::same(path, "glossary") {
        KnowledgeGet::Glossary { q: value_or_empty(query, "q") }
    } else if text::same(path, "jobs") {
        KnowledgeGet::Jobs
    } else {
        KnowledgeGet::Unknown
    }
}

/// What a `POST` asks the knowledge view for.
#[derive(Clone, Copy, Debug, PartialEq, Eq, Structural)]
pub enum KnowledgePost {
    Ask,
    Translate,
    Ingest,
    Cancel,
    Unknown,
}

/// What a `POST` asks the knowledge view for.
pub fn knowledge_post(path: &str) -> (r: KnowledgePost)
    ensures
        r == (if path@ == "ask"@ {
            KnowledgePost::Ask
        } else if path@ == "translate"@ {
            KnowledgePost::Translate
        } else if path@ == "ingest"@ {
            KnowledgePost::Ingest
        } else if path@ == "cancel"@ {
            KnowledgePost::Cancel
        } else {
            KnowledgePost::Unknown
        }),
{
    if text::same(path, "ask") {
        KnowledgePost::Ask
    } else if text::same(path, "translate") {
        KnowledgePost::Translate
    } else if text::same(path, "ingest") {
        KnowledgePost::Ingest
    } else if text::same(path, "cancel") {
        KnowledgePost::Cancel
    } else {
        KnowledgePost::Unknown
    }
}

/// How many of the first entries belong to a document.
pub open spec fn entries_of(entries: Seq<String>, id: Seq<char>, n: int) -> nat
    decreases n,
{
    if n <= 0 {
        0
    } else {
        entries_of(entries, id, n - 1) + if entries[n - 1]@ == id {
            1nat
        } else {
            0
        }
    }
}

/// How many chunks each document has; an entry of the index names its document.
pub fn chunk_counts(documents: &Vec<String>, entries: &Vec<String>) -> (r: Vec<usize>)
    ensures
        r@.len() == documents@.len(),
        forall|i: int|
            0 <= i < r@.len() ==> #[trigger] r@[i] == entries_of(
                entries@,
                documents@[i]@,
                entries@.len() as int,
            ),
{
    let mut out: Vec<usize> = Vec::new();
    let mut i: usize = 0;
    while i < documents.len()
        invariant
            i <= documents@.len(),
            out@.len() == i,
            forall|k: int|
                0 <= k < i ==> #[trigger] out@[k] == entries_of(
                    entries@,
                    documents@[k]@,
                    entries@.len() as int,
                ),
        decreases documents@.len() - i,
    {
        let mut count: usize = 0;
        let mut j: usize = 0;
        while j < entries.len()
            invariant
                i < documents@.len(),
                j <= entries@.len(),
                count <= j,
                count == entries_of(entries@, documents@[i as int]@, j as int),
            decreases entries@.len() - j,
        {
            if text::same(entries[j].as_str(), documents[i].as_str()) {
                count += 1;
            }
            j += 1;
        }
        out.push(count);
        i += 1;
    }
    out
}

/// Which terms answer a question about the glossary.
#[derive(Clone, Debug)]
pub enum TermsAsked {
    /// The term that the question names.
    Named,
    /// None: nothing is asked.
    Nothing,
    /// Those that the text mentions.
    Mentioned,
}

/// Which terms answer: the one that is named, or else those that a text mentions.
pub fn terms_asked(question: &str, named: bool) -> (r: TermsAsked)
    ensures
        if named {
            r is Named
        } else if text::trimmed(question@).len() == 0 {
            r is Nothing
        } else {
            r is Mentioned
        },
{
    if named {
        TermsAsked::Named
    } else if text::trim(question).as_str().unicode_len() == 0 {
        TermsAsked::Nothing
    } else {
        TermsAsked::Mentioned
    }
}

} // verus!
