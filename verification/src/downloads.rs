//! YouTube ranges downloaded into reviews.
use crate::cuttlefish;
use crate::double;
use crate::double::Double;
use crate::json;
use crate::knowledge;
use crate::recorder;
use crate::review;
use crate::review::{Review, VideoKind, VideoRef};
use crate::text;
use vstd::prelude::*;

verus! {

/// State of a download.
#[derive(Clone, Copy, Debug, PartialEq, Eq, Structural)]
pub enum DownloadState {
    Running,
    Done,
    Failed,
}

/// A range being downloaded into its review.
#[derive(Clone, Debug)]
pub struct Download {
    /// The review it goes into.
    pub id: String,
    pub url: String,
    pub start_s: Option<Double>,
    pub end_s: Option<Double>,
    pub state: DownloadState,
    /// How much is done, 0 to 100, when known.
    pub percent: Option<Double>,
    /// yt-dlp's last words: its error, or what it is doing.
    pub message: String,
}

/// A download by its texts.
pub open spec fn download_view(d: Download) -> (
    Seq<char>,
    Seq<char>,
    Option<Double>,
    Option<Double>,
    DownloadState,
    Option<Double>,
    Seq<char>,
) {
    (d.id@, d.url@, d.start_s, d.end_s, d.state, d.percent, d.message@)
}

impl Download {
    /// The same download.
    pub fn copy(&self) -> (r: Download)
        ensures
            r == *self,
    {
        Download {
            id: self.id.clone(),
            url: self.url.clone(),
            start_s: self.start_s,
            end_s: self.end_s,
            state: self.state,
            percent: self.percent,
            message: self.message.clone(),
        }
    }
}

/// Why a download is refused.
#[derive(Clone, Copy, Debug, PartialEq, Eq, Structural)]
pub enum DownloadError {
    /// The address is none of the web.
    BadUrl,
    BadTime,
    /// The range ends before it starts.
    EmptyRange,
}

/// An address of the web.
pub open spec fn is_web_address(url: Seq<char>) -> bool {
    "https://"@.is_prefix_of(url) || "http://"@.is_prefix_of(url)
}

/// A time that is given can be one.
pub open spec fn time_ok(t: Option<Double>) -> bool {
    t matches Some(v) ==> double::is_time(v)
}

/// Why a download is refused, if it is.
pub open spec fn refusal(
    url: Seq<char>,
    start_s: Option<Double>,
    end_s: Option<Double>,
) -> Option<DownloadError> {
    if !is_web_address(text::trimmed(url)) {
        Some(DownloadError::BadUrl)
    } else if !time_ok(start_s) || !time_ok(end_s) {
        Some(DownloadError::BadTime)
    } else if start_s is Some && end_s is Some && !double::below(start_s->0, end_s->0) {
        Some(DownloadError::EmptyRange)
    } else {
        None
    }
}

/// Check what is to be downloaded: the address without white space around it.
pub fn check_download(url: &str, start_s: Option<Double>, end_s: Option<Double>) -> (r: Result<
    String,
    DownloadError,
>)
    ensures
        match r {
            Ok(u) => refusal(url@, start_s, end_s) is None && u@ == text::trimmed(url@),
            Err(e) => refusal(url@, start_s, end_s) == Some(e),
        },
{
    let u = text::trim(url);
    if !text::starts_with(u.as_str(), "https://") && !text::starts_with(u.as_str(), "http://") {
        return Err(DownloadError::BadUrl);
    }
    let start_ok = match &start_s {
        Some(t) => t.is_time(),
        None => true,
    };
    let end_ok = match &end_s {
        Some(t) => t.is_time(),
        None => true,
    };
    if !start_ok || !end_ok {
        return Err(DownloadError::BadTime);
    }
    if let (Some(s), Some(e)) = (&start_s, &end_s) {
        if !s.below(e) {
            return Err(DownloadError::EmptyRange);
        }
    }
    Ok(u)
}

/// The video of a range.
pub fn youtube_video(url: String, start_s: Option<Double>, end_s: Option<Double>) -> (r: VideoRef)
    ensures
        r == (VideoRef {
            kind: VideoKind::Youtube,
            reference: url,
            start_s,
            end_s,
            file: None,
            title: None,
            channel: None,
            upload_date: None,
        }),
{
    VideoRef {
        kind: VideoKind::Youtube,
        reference: url,
        start_s,
        end_s,
        file: None,
        title: None,
        channel: None,
        upload_date: None,
    }
}

/// This run's downloads, in order of id.
#[derive(Clone, Debug)]
pub struct Downloads {
    pub list: Vec<Download>,
}

/// Each id once, in order.
pub open spec fn ids_in_order(list: Seq<Download>) -> bool {
    forall|i: int, j: int|
        0 <= i < j < list.len() ==> text::comes_before(
            (#[trigger] list[i]).id@,
            (#[trigger] list[j]).id@,
        )
}

/// Whether a download of a range is under way.
pub open spec fn is_running(
    d: Download,
    url: Seq<char>,
    start_s: Option<Double>,
    end_s: Option<Double>,
) -> bool {
    d.state == DownloadState::Running && d.url@ == url && double::opt_equal(d.start_s, start_s)
        && double::opt_equal(d.end_s, end_s)
}

/// The place of an id, from `i` on; the length when there is none.
pub open spec fn id_place(list: Seq<Download>, id: Seq<char>, i: int) -> int
    decreases list.len() - i,
{
    if i < 0 || i >= list.len() {
        list.len() as int
    } else if list[i].id@ == id {
        i
    } else {
        id_place(list, id, i + 1)
    }
}

/// Where an id is.
proof fn lemma_id_place(list: Seq<Download>, id: Seq<char>, i: int)
    requires
        0 <= i <= list.len(),
    ensures
        i <= id_place(list, id, i) <= list.len(),
        id_place(list, id, i) < list.len() ==> list[id_place(list, id, i)].id@ == id,
        forall|j: int| i <= j < id_place(list, id, i) ==> (#[trigger] list[j]).id@ != id,
    decreases list.len() - i,
{
    if i < list.len() && list[i].id@ != id {
        lemma_id_place(list, id, i + 1);
    }
}

/// How many downloads come before an id, of the first `n`.
pub open spec fn count_before(list: Seq<Download>, id: Seq<char>, n: int) -> int
    decreases n,
{
    if n <= 0 {
        0
    } else if text::comes_before(list[n - 1].id@, id) {
        n
    } else {
        count_before(list, id, n - 1)
    }
}

/// A list with one more download, in its place.
pub open spec fn with_download(list: Seq<Download>, d: Download) -> Seq<Download> {
    list.insert(count_before(list, d.id@, list.len() as int), d)
}

/// A download that is done.
pub open spec fn is_done(before: Download, after: Download) -> bool {
    &&& download_view(after) == (
        before.id@,
        before.url@,
        before.start_s,
        before.end_s,
        DownloadState::Done,
        Some(Double { bits: double::HUNDRED }),
        "downloaded"@,
    )
}

/// A download that failed.
pub open spec fn is_failed(before: Download, after: Download, message: Seq<char>) -> bool {
    &&& download_view(after) == (
        before.id@,
        before.url@,
        before.start_s,
        before.end_s,
        DownloadState::Failed,
        before.percent,
        message,
    )
}

impl Downloads {
    pub fn new() -> (r: Downloads)
        ensures
            r.list@.len() == 0,
            ids_in_order(r.list@),
    {
        Downloads { list: Vec::new() }
    }

    /// The place of an id.
    fn place(&self, id: &str) -> (r: usize)
        ensures
            r == id_place(self.list@, id@, 0),
            r <= self.list@.len(),
    {
        let mut i: usize = 0;
        while i < self.list.len()
            invariant
                i <= self.list@.len(),
                id_place(self.list@, id@, 0) == id_place(self.list@, id@, i as int),
            decreases self.list@.len() - i,
        {
            if text::same(self.list[i].id.as_str(), id) {
                return i;
            }
            i += 1;
        }
        i
    }

    /// Whether a review is being downloaded into, or was in this run.
    pub fn contains(&self, id: &str) -> (r: bool)
        ensures
            r == (exists|i: int| 0 <= i < self.list@.len() && (#[trigger] self.list@[i]).id@ == id@),
    {
        proof {
            lemma_id_place(self.list@, id@, 0);
        }
        self.place(id) < self.list.len()
    }

    /// The download of a range that is under way, if any: the first in order.
    pub fn running(&self, url: &str, start_s: Option<Double>, end_s: Option<Double>) -> (r: Option<
        usize,
    >)
        ensures
            match r {
                Some(i) => i < self.list@.len() && is_running(
                    self.list@[i as int],
                    url@,
                    start_s,
                    end_s,
                ) && forall|j: int|
                    0 <= j < i ==> !is_running(#[trigger] self.list@[j], url@, start_s, end_s),
                None => forall|j: int|
                    0 <= j < self.list@.len() ==> !is_running(
                        #[trigger] self.list@[j],
                        url@,
                        start_s,
                        end_s,
                    ),
            },
    {
        let mut i: usize = 0;
        while i < self.list.len()
            invariant
                i <= self.list@.len(),
                forall|j: int|
                    0 <= j < i ==> !is_running(#[trigger] self.list@[j], url@, start_s, end_s),
            decreases self.list@.len() - i,
        {
            let d = &self.list[i];
            if d.state == DownloadState::Running && text::same(d.url.as_str(), url)
                && double::same_option(d.start_s, start_s) && double::same_option(d.end_s, end_s) {
                return Some(i);
            }
            i += 1;
        }
        None
    }

    /// Add a download under an id that none has.
    pub fn add(&mut self, download: Download)
        requires
            ids_in_order(old(self).list@),
            forall|i: int|
                0 <= i < old(self).list@.len() ==> (#[trigger] old(self).list@[i]).id@
                    != download.id@,
        ensures
            final(self).list@ == with_download(old(self).list@, download),
            ids_in_order(final(self).list@),
    {
        let mut at: usize = self.list.len();
        while at > 0 && !text::precedes(self.list[at - 1].id.as_str(), download.id.as_str())
            invariant
                at <= self.list@.len(),
                self.list@ == old(self).list@,
                count_before(self.list@, download.id@, at as int) == count_before(
                    self.list@,
                    download.id@,
                    self.list@.len() as int,
                ),
            ensures
                at <= self.list@.len(),
                self.list@ == old(self).list@,
                at == count_before(self.list@, download.id@, self.list@.len() as int),
            decreases at,
        {
            at -= 1;
        }
        proof {
            lemma_added(self.list@, download);
        }
        self.list.insert(at, download);
    }

    /// yt-dlp said something about a download: how far it is, when that is
    /// known, and its words, shortened.
    pub fn progress(&mut self, id: &str, percent: Option<Double>, line: &str)
        ensures
            ids_in_order(old(self).list@) ==> ids_in_order(final(self).list@),
            ({
                let i = id_place(old(self).list@, id@, 0);
                if i < old(self).list@.len() {
                    let d = old(self).list@[i];
                    &&& final(self).list@.len() == old(self).list@.len()
                    &&& final(self).list@ == old(self).list@.update(i, final(self).list@[i])
                    &&& download_view(final(self).list@[i]) == (
                        d.id@,
                        d.url@,
                        d.start_s,
                        d.end_s,
                        d.state,
                        if percent is Some {
                            percent
                        } else {
                            d.percent
                        },
                        text::shortened(line@, cuttlefish::MESSAGE_LIMIT as int),
                    )
                } else {
                    final(self).list@ == old(self).list@
                }
            }),
    {
        proof {
            lemma_id_place(self.list@, id@, 0);
        }
        let i = self.place(id);
        if i < self.list.len() {
            let ghost before = self.list@;
            let mut d = self.list.remove(i);
            if percent.is_some() {
                d.percent = percent;
            }
            d.message = text::take_chars(line, cuttlefish::MESSAGE_LIMIT);
            self.list.insert(i, d);
            assert(self.list@ =~= before.update(i as int, self.list@[i as int]));
        }
    }

    /// A download ended: done, or failed with a message.
    pub fn finish(&mut self, id: &str, failure: Option<String>)
        ensures
            ids_in_order(old(self).list@) ==> ids_in_order(final(self).list@),
            ({
                let i = id_place(old(self).list@, id@, 0);
                if i < old(self).list@.len() {
                    &&& final(self).list@.len() == old(self).list@.len()
                    &&& final(self).list@ == old(self).list@.update(i, final(self).list@[i])
                    &&& match failure {
                        None => is_done(old(self).list@[i], final(self).list@[i]),
                        Some(m) => is_failed(old(self).list@[i], final(self).list@[i], m@),
                    }
                } else {
                    final(self).list@ == old(self).list@
                }
            }),
    {
        proof {
            lemma_id_place(self.list@, id@, 0);
        }
        let i = self.place(id);
        if i < self.list.len() {
            let ghost before = self.list@;
            let mut d = self.list.remove(i);
            match failure {
                None => {
                    d.state = DownloadState::Done;
                    d.percent = Some(Double { bits: double::HUNDRED });
                    d.message = "downloaded".to_owned();
                },
                Some(m) => {
                    d.state = DownloadState::Failed;
                    d.message = m;
                },
            }
            self.list.insert(i, d);
            assert(self.list@ =~= before.update(i as int, self.list@[i as int]));
        }
    }
}

/// Where a new id belongs.
proof fn lemma_count_before(list: Seq<Download>, id: Seq<char>, n: int)
    requires
        ids_in_order(list),
        0 <= n <= list.len(),
    ensures
        0 <= count_before(list, id, n) <= n,
        forall|i: int|
            0 <= i < count_before(list, id, n) ==> text::comes_before((#[trigger] list[i]).id@, id),
        forall|i: int|
            count_before(list, id, n) <= i < n ==> !text::comes_before(
                (#[trigger] list[i]).id@,
                id,
            ),
    decreases n,
{
    if n > 0 && !text::comes_before(list[n - 1].id@, id) {
        lemma_count_before(list, id, n - 1);
    } else if n > 0 {
        assert forall|i: int| 0 <= i < n implies text::comes_before(
            (#[trigger] list[i]).id@,
            id,
        ) by {
            if i < n - 1 {
                text::law_order_transitive(list[i].id@, list[n - 1].id@, id);
            }
        }
    }
}

/// Adding keeps the order.
proof fn lemma_added(list: Seq<Download>, d: Download)
    requires
        ids_in_order(list),
        forall|i: int| 0 <= i < list.len() ==> (#[trigger] list[i]).id@ != d.id@,
    ensures
        ids_in_order(with_download(list, d)),
{
    let at = count_before(list, d.id@, list.len() as int);
    lemma_count_before(list, d.id@, list.len() as int);
    let all = with_download(list, d);
    assert forall|i: int, j: int| 0 <= i < j < all.len() implies text::comes_before(
        (#[trigger] all[i]).id@,
        (#[trigger] all[j]).id@,
    ) by {
        if i == at {
            assert(all[j] == list[j - 1]);
            text::law_order_total(d.id@, list[j - 1].id@);
        } else if j == at {
            assert(all[i] == list[i]);
        } else {
            let a = if i < at {
                i
            } else {
                i - 1
            };
            let b = if j < at {
                j
            } else {
                j - 1
            };
            assert(all[i] == list[a] && all[j] == list[b]);
        }
    }
}

/// A download that starts.
pub fn starting(id: String, url: String, start_s: Option<Double>, end_s: Option<Double>) -> (r:
    Download)
    ensures
        download_view(r) == (
            id@,
            url@,
            start_s,
            end_s,
            DownloadState::Running,
            None::<Double>,
            "starting yt-dlp"@,
        ),
{
    Download {
        id,
        url,
        start_s,
        end_s,
        state: DownloadState::Running,
        percent: None,
        message: "starting yt-dlp".to_owned(),
    }
}

/// A download that a review has already.
pub fn already_there(id: String, url: String, start_s: Option<Double>, end_s: Option<Double>) -> (r:
    Download)
    ensures
        download_view(r) == (
            id@,
            url@,
            start_s,
            end_s,
            DownloadState::Done,
            Some(Double { bits: double::HUNDRED }),
            "in a review already"@,
        ),
{
    Download {
        id,
        url,
        start_s,
        end_s,
        state: DownloadState::Done,
        percent: Some(Double { bits: double::HUNDRED }),
        message: "in a review already".to_owned(),
    }
}

/// The review of a video that was downloaded.
pub fn downloaded_review(video: VideoRef, meta: cuttlefish::VideoMeta) -> (r: Review)
    ensures
        r.comments@.len() == 0,
        r.video.kind == video.kind,
        r.video.reference == video.reference,
        r.video.start_s == video.start_s,
        r.video.end_s == video.end_s,
        text::opt_text(r.video.file) == Some("video.mp4"@),
        r.video.title == meta.title,
        r.video.channel == meta.channel,
        r.video.upload_date == meta.upload_date,
{
    Review {
        video: VideoRef {
            kind: video.kind,
            reference: video.reference,
            start_s: video.start_s,
            end_s: video.end_s,
            file: Some(crate::review::VIDEO_FILE.to_owned()),
            title: meta.title,
            channel: meta.channel,
            upload_date: meta.upload_date,
        },
        comments: Vec::new(),
    }
}

/// The n-th id to try for a new review, from 1: a time stamp, then with a number
/// behind it.
pub open spec fn candidate_of(stamp: Seq<char>, n: nat) -> Seq<char> {
    if n == 1 {
        stamp
    } else {
        stamp + "-"@ + text::decimal_text(n)
    }
}

/// The n-th id to try for a new review, from 1.
pub fn candidate_id(stamp: &str, n: u64) -> (r: String)
    ensures
        r@ == candidate_of(stamp@, n as nat),
{
    if n == 1 {
        return stamp.to_owned();
    }
    let number = text::decimal(n);
    let mut out = text::concat(stamp, "-");
    out.append(number.as_str());
    out
}

/// No two ids that are tried are the same, so that one of them is free.
pub proof fn law_candidates_differ(stamp: Seq<char>, a: nat, b: nat)
    requires
        a != b,
        a >= 1,
        b >= 1,
    ensures
        candidate_of(stamp, a) != candidate_of(stamp, b),
{
    reveal_strlit("-");
    let x = candidate_of(stamp, a);
    let y = candidate_of(stamp, b);
    if a == 1 || b == 1 {
        assert(x.len() != y.len());
    } else if x == y {
        text::lemma_decimal(a);
        text::lemma_decimal(b);
        assert(text::decimal_text(a) =~= x.skip(stamp.len() as int + 1));
        assert(text::decimal_text(b) =~= y.skip(stamp.len() as int + 1));
    }
}

/// Whether an id is that of a folder or of one of this run's downloads.
pub open spec fn is_taken(list: Seq<Download>, names: Seq<Seq<char>>, id: Seq<char>) -> bool {
    names.contains(id) || exists|i: int| 0 <= i < list.len() && (#[trigger] list[i]).id@ == id
}

/// The first id with a stamp that is not taken.
pub open spec fn is_free_id(
    list: Seq<Download>,
    names: Seq<Seq<char>>,
    stamp: Seq<char>,
    id: Seq<char>,
) -> bool {
    &&& !is_taken(list, names, id)
    &&& exists|n: nat|
        n >= 1 && id == #[trigger] candidate_of(stamp, n) && forall|m: nat|
            1 <= m < n ==> is_taken(list, names, #[trigger] candidate_of(stamp, m))
}

/// There are not more ids taken than there are folders and downloads.
proof fn lemma_taken_ids(list: Seq<Download>, names: Seq<Seq<char>>, stamp: Seq<char>, k: nat)
    requires
        forall|m: nat| 1 <= m <= k ==> is_taken(list, names, #[trigger] candidate_of(stamp, m)),
    ensures
        k <= names.len() + list.len(),
{
    let ids = Seq::new(list.len(), |i: int| list[i].id@);
    let all = names + ids;
    let tried = Seq::new(k, |i: int| candidate_of(stamp, (i + 1) as nat));
    assert forall|i: int, j: int| 0 <= i < tried.len() && 0 <= j < tried.len() && i != j implies tried[i]
        != tried[j] by {
        law_candidates_differ(stamp, (i + 1) as nat, (j + 1) as nat);
    }
    assert forall|x: Seq<char>| tried.to_set().contains(x) implies all.to_set().contains(x) by {
        let i = choose|i: int| 0 <= i < tried.len() && tried[i] == x;
        assert(is_taken(list, names, candidate_of(stamp, (i + 1) as nat)));
        if names.contains(x) {
            let j = choose|j: int| 0 <= j < names.len() && names[j] == x;
            assert(all[j] == x);
        } else {
            let j = choose|j: int| 0 <= j < list.len() && (#[trigger] list[j]).id@ == x;
            assert(all[names.len() + j] == ids[j]);
        }
    }
    tried.unique_seq_to_set();
    all.lemma_cardinality_of_set();
    vstd::seq_lib::seq_to_set_is_finite(all);
    vstd::set_lib::lemma_len_subset(tried.to_set(), all.to_set());
}

/// What becomes of a request to download a range.
#[derive(Clone, Debug)]
pub enum Answer {
    /// It is under way.
    UnderWay(Download),
    /// A review has it.
    There(Download),
    /// It goes into a new review.
    Started(Download),
}

impl Downloads {
    /// An id for a new review, which neither a folder nor a download has.
    pub fn new_id(&self, stamp: &str, names: &Vec<String>) -> (r: String)
        requires
            names@.len() + self.list@.len() < u64::MAX,
        ensures
            is_free_id(self.list@, text::texts(names@), stamp@, r@),
    {
        let ghost taken = text::texts(names@);
        let mut n: u64 = 1;
        let mut id = candidate_id(stamp, 1);
        while text::has_text(names, id.as_str()) || self.contains(id.as_str())
            invariant
                taken == text::texts(names@),
                1 <= n <= names@.len() + self.list@.len() + 1,
                names@.len() + self.list@.len() < u64::MAX,
                id@ == candidate_of(stamp@, n as nat),
                forall|m: nat|
                    1 <= m < n ==> is_taken(
                        self.list@,
                        taken,
                        #[trigger] candidate_of(stamp@, m),
                    ),
            decreases names@.len() + self.list@.len() + 1 - n,
        {
            assert(is_taken(self.list@, taken, id@));
            proof {
                lemma_taken_ids(self.list@, taken, stamp@, n as nat);
            }
            n += 1;
            id = candidate_id(stamp, n);
        }
        id
    }

    /// Take a request to download a range: it may be under way, or in a review,
    /// whose id is then given; else it starts, into a new review. `names` are those
    /// in the reviews' folder.
    pub fn download(
        &mut self,
        url: &str,
        start_s: Option<Double>,
        end_s: Option<Double>,
        review: Option<String>,
        stamp: &str,
        names: &Vec<String>,
    ) -> (r: Result<Answer, DownloadError>)
        requires
            ids_in_order(old(self).list@),
            names@.len() + old(self).list@.len() < u64::MAX,
        ensures
            ids_in_order(final(self).list@),
            ({
                let list = old(self).list@;
                let u = text::trimmed(url@);
                let none_runs = forall|j: int|
                    0 <= j < list.len() ==> !is_running(#[trigger] list[j], u, start_s, end_s);
                match r {
                    Err(e) => refusal(url@, start_s, end_s) == Some(e) && final(self).list@ == list,
                    Ok(Answer::UnderWay(d)) => {
                        &&& refusal(url@, start_s, end_s) is None
                        &&& exists|i: int|
                            0 <= i < list.len() && is_running(list[i], u, start_s, end_s) && (
                            forall|j: int|
                                0 <= j < i ==> !is_running(
                                    #[trigger] list[j],
                                    u,
                                    start_s,
                                    end_s,
                                )) && d == #[trigger] list[i]
                        &&& final(self).list@ == list
                    },
                    Ok(Answer::There(d)) => {
                        &&& refusal(url@, start_s, end_s) is None
                        &&& none_runs
                        &&& review is Some
                        &&& download_view(d) == (
                            review->0@,
                            u,
                            start_s,
                            end_s,
                            DownloadState::Done,
                            Some(Double { bits: double::HUNDRED }),
                            "in a review already"@,
                        )
                        &&& final(self).list@ == list
                    },
                    Ok(Answer::Started(d)) => {
                        &&& refusal(url@, start_s, end_s) is None
                        &&& none_runs
                        &&& review is None
                        &&& is_free_id(list, text::texts(names@), stamp@, d.id@)
                        &&& download_view(d) == (
                            d.id@,
                            u,
                            start_s,
                            end_s,
                            DownloadState::Running,
                            None::<Double>,
                            "starting yt-dlp"@,
                        )
                        &&& final(self).list@ == with_download(list, d)
                    },
                }
            }),
    {
        let url = check_download(url, start_s, end_s)?;
        if let Some(i) = self.running(url.as_str(), start_s, end_s) {
            return Ok(Answer::UnderWay(self.list[i].copy()));
        }
        if let Some(id) = review {
            return Ok(Answer::There(already_there(id, url, start_s, end_s)));
        }
        let id = self.new_id(stamp, names);
        let download = starting(id, url, start_s, end_s);
        let started = download.copy();
        self.add(download);
        Ok(Answer::Started(started))
    }
}

/// A download that was started is under way for whoever asks for the same range
/// again.
pub proof fn law_started_is_under_way(list: Seq<Download>, d: Download)
    requires
        ids_in_order(list),
        d.state == DownloadState::Running,
        time_ok(d.start_s),
        time_ok(d.end_s),
    ensures
        exists|i: int|
            0 <= i < with_download(list, d).len() && is_running(
                #[trigger] with_download(list, d)[i],
                d.url@,
                d.start_s,
                d.end_s,
            ),
{
    let at = count_before(list, d.id@, list.len() as int);
    lemma_count_before(list, d.id@, list.len() as int);
    assert(with_download(list, d)[at] == d);
}

/// The time stamp that a new review's id starts with.
pub fn new_stamp() -> (r: String)
    ensures
        recorder::is_stamp(r@),
{
    recorder::local_stamp()
}

/// A number below a power of ten has no more digits than that.
proof fn lemma_decimal_len(n: nat, digits: nat)
    requires
        digits >= 1,
        n < vstd::arithmetic::power::pow(10, digits),
    ensures
        text::decimal_text(n).len() <= digits,
    decreases digits,
{
    reveal_with_fuel(vstd::arithmetic::power::pow, 2);
    if n >= 10 {
        lemma_decimal_len(n / 10, (digits - 1) as nat);
    }
}

/// Every id that is tried for a new review is one that a review can have, until
/// the year needs a plus sign.
pub proof fn law_new_ids_are_ids(stamp: Seq<char>, n: nat)
    requires
        recorder::is_stamp(stamp),
        stamp[0] != '+',
        n <= u64::MAX,
    ensures
        review::id_ok(candidate_of(stamp, n)),
{
    reveal_strlit("-");
    let number = text::decimal_text(n);
    assert(vstd::arithmetic::power::pow(10, 20) == 100_000_000_000_000_000_000) by {
        reveal_with_fuel(vstd::arithmetic::power::pow, 21);
    }
    lemma_decimal_len(n, 20);
    let id = candidate_of(stamp, n);
    assert forall|i: int| 0 <= i < id.len() implies text::is_ascii_alnum(#[trigger] id[i]) || id[i]
        == '-' || id[i] == '_' || id[i] == '.' by {
        if i < stamp.len() {
            assert(id[i] == stamp[i]);
        } else if i > stamp.len() {
            lemma_decimal_digits(n, i - stamp.len() - 1);
            assert(id[i] == number[i - stamp.len() - 1]);
        }
    }
}

/// A decimal text is made of digits.
proof fn lemma_decimal_digits(n: nat, i: int)
    requires
        0 <= i < text::decimal_text(n).len(),
    ensures
        '0' <= text::decimal_text(n)[i] <= '9',
    decreases n,
{
    if n >= 10 && i < text::decimal_text(n).len() - 1 {
        lemma_decimal_digits(n / 10, i);
    }
}

/// What becomes of a line of yt-dlp's output.
#[derive(Clone, Debug)]
pub enum OutputLine {
    /// Nothing.
    Blank,
    /// What the video is.
    Meta(cuttlefish::VideoMeta),
    /// Its last words, perhaps with progress.
    Words(String),
}

/// What becomes of a line of yt-dlp's output, without white space around it.
pub fn output_line(line: &str) -> (r: OutputLine)
    ensures
        ({
            let t = text::trimmed(line@);
            match r {
                OutputLine::Blank => t.len() == 0,
                OutputLine::Meta(m) => t.len() > 0 && cuttlefish::meta_row(t) is Some
                    && cuttlefish::meta_of(
                    cuttlefish::json_strings(cuttlefish::meta_row(t)->0),
                    m,
                ),
                OutputLine::Words(w) => t.len() > 0 && w@ == t && (match cuttlefish::meta_row(t) {
                    Some(row) => cuttlefish::json_strings(row).len() < 3,
                    None => true,
                }),
            }
        }),
{
    let t = text::trim(line);
    if t.as_str().unicode_len() == 0 {
        return OutputLine::Blank;
    }
    match cuttlefish::parse_meta(t.as_str()) {
        Some(m) => OutputLine::Meta(m),
        None => OutputLine::Words(t),
    }
}

/// Whether a line of output is an error's.
pub fn is_error_line(line: &str) -> (r: bool)
    ensures
        r == "ERROR"@.is_prefix_of(line@),
{
    text::starts_with(line, "ERROR")
}

/// Why a run of yt-dlp brought no video, if it did not: it failed, with the last
/// error that it printed, or there is no file.
pub open spec fn download_fault(
    success: bool,
    last_error: Option<Seq<char>>,
    has_file: bool,
) -> Option<Seq<char>> {
    if !success {
        Some(
            "yt-dlp failed: "@ + match last_error {
                Some(e) => e,
                None => "see the studio's log"@,
            },
        )
    } else if !has_file {
        Some("yt-dlp did not write an MP4"@)
    } else {
        None
    }
}

/// How a run of yt-dlp ended: `success` says whether it exited well, `errors` are
/// the error lines that it printed, and `has_file` says whether the video is there.
pub fn download_end(success: bool, errors: &Vec<String>, has_file: bool) -> (r: Result<(), String>)
    ensures
        match r {
            Ok(_) => success && has_file,
            Err(e) => Some(e@) == download_fault(
                success,
                if errors@.len() > 0 {
                    Some(errors@.last()@)
                } else {
                    None
                },
                has_file,
            ),
        },
{
    if !success {
        let last = if errors.len() > 0 {
            errors[errors.len() - 1].as_str()
        } else {
            "see the studio's log"
        };
        return Err(text::concat("yt-dlp failed: ", last));
    }
    if !has_file {
        return Err("yt-dlp did not write an MP4".to_owned());
    }
    Ok(())
}

/// What the body of a download gives: the address and the range.
pub open spec fn json_download(body: Seq<u8>) -> Option<
    (Option<Seq<char>>, Option<Double>, Option<Double>),
> {
    if json::is_json(body) {
        Some(
            (
                json::text_in(json::json_at(body, "/url"@)),
                json::double_in(json::json_at(body, "/start_s"@)),
                json::double_in(json::json_at(body, "/end_s"@)),
            ),
        )
    } else {
        None
    }
}

/// The address, empty where none is given, and the range that the body of a request
/// asks for; `None` when it is no JSON.
pub fn download_request(body: &[u8]) -> (r: Option<(String, Option<Double>, Option<Double>)>)
    ensures
        match (json_download(body@), r) {
            (Some(d), Some(q)) => q.0@ == knowledge::or_empty(d.0) && q.1 == d.1 && q.2 == d.2,
            (None, None) => true,
            _ => false,
        },
{
    match json::fields(body, &["/url", "/start_s", "/end_s"]) {
        Some(f) => Some((knowledge::text_or_empty(f[0].text()), f[1].double(), f[2].double())),
        None => None,
    }
}

/// yt-dlp's options.
pub open spec fn ytdlp_args_of(
    output: Seq<char>,
    section: Option<Seq<char>>,
    url: Seq<char>,
) -> Seq<Seq<char>> {
    seq![
        "--newline"@,
        "--no-playlist"@,
        "--no-mtime"@,
        "--progress"@,
        "-f"@,
        "bv*[height<=1080]+ba/b[height<=1080]/bv*+ba/b"@,
        "-S"@,
        "vcodec:h264,acodec:aac"@,
        "--merge-output-format"@,
        "mp4"@,
        "--no-simulate"@,
        "--print"@,
        "before_dl:cuttlefish-meta %(title)j %(channel)j %(upload_date)j"@,
        "-o"@,
        output,
    ] + (match section {
        Some(s) => seq!["--download-sections"@, s],
        None => Seq::empty(),
    }) + seq!["--"@, url]
}

/// yt-dlp's options for downloading a section of an address into `output`.
pub fn ytdlp_args(output: &str, section: Option<&str>, url: &str) -> (r: Vec<String>)
    ensures
        text::texts(r@) == ytdlp_args_of(output@, crate::video::opt_str(section), url@),
{
    let mut args: Vec<String> = Vec::new();
    text::push_text(&mut args, "--newline");
    text::push_text(&mut args, "--no-playlist");
    text::push_text(&mut args, "--no-mtime");
    text::push_text(&mut args, "--progress");
    text::push_text(&mut args, "-f");
    text::push_text(&mut args, "bv*[height<=1080]+ba/b[height<=1080]/bv*+ba/b");
    text::push_text(&mut args, "-S");
    text::push_text(&mut args, "vcodec:h264,acodec:aac");
    text::push_text(&mut args, "--merge-output-format");
    text::push_text(&mut args, "mp4");
    text::push_text(&mut args, "--no-simulate");
    text::push_text(&mut args, "--print");
    text::push_text(&mut args, "before_dl:cuttlefish-meta %(title)j %(channel)j %(upload_date)j");
    text::push_text(&mut args, "-o");
    text::push_text(&mut args, output);
    if let Some(s) = section {
        text::push_text(&mut args, "--download-sections");
        text::push_text(&mut args, s);
    }
    text::push_text(&mut args, "--");
    text::push_text(&mut args, url);
    assert(text::texts(args@) =~= ytdlp_args_of(output@, crate::video::opt_str(section), url@));
    args
}

} // verus!
