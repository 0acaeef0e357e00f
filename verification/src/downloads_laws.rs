//! What downloading does, said of the requests and the list themselves.
use vstd::prelude::*;

use crate::double;
use crate::double::Double;
use crate::downloads;
use crate::downloads::{Download, DownloadError, DownloadState};
use crate::text;

verus! {

/// A download is refused for its address first, then for a time that is none,
/// then for a part that ends where it starts or before.
pub proof fn law_refused_downloads(url: Seq<char>, start: Option<Double>, end: Option<Double>)
    ensures
        ({
            let a = downloads::is_web_address(text::trimmed(url));
            let t = (start matches Some(s) ==> double::is_time(s)) && (end matches Some(e)
                ==> double::is_time(e));
            let o = start is Some && end is Some ==> double::below(start->0, end->0);
            match downloads::refusal(url, start, end) {
                None => a && t && o,
                Some(DownloadError::BadUrl) => !a,
                Some(DownloadError::BadTime) => a && !t,
                Some(DownloadError::EmptyRange) => a && t && !o,
            }
        }),
{
}

/// A download is found under its name.
pub proof fn law_downloads_are_found(list: Seq<Download>, id: Seq<char>, from: int)
    requires
        0 <= from <= list.len(),
    ensures
        ({
            let p = downloads::id_place(list, id, from);
            &&& from <= p <= list.len()
            &&& p < list.len() ==> list[p].id@ == id
            &&& forall|i: int| from <= i < p ==> (#[trigger] list[i]).id@ != id
        }),
    decreases list.len() - from,
{
    if from < list.len() && list[from].id@ != id {
        law_downloads_are_found(list, id, from + 1);
    }
}

proof fn lemma_count_before(list: Seq<Download>, id: Seq<char>, n: int)
    requires
        0 <= n <= list.len(),
    ensures
        0 <= downloads::count_before(list, id, n) <= n,
        downloads::count_before(list, id, n) > 0 ==> text::comes_before(
            list[downloads::count_before(list, id, n) - 1].id@,
            id,
        ),
        forall|i: int|
            downloads::count_before(list, id, n) <= i < n ==> !text::comes_before(
                (#[trigger] list[i]).id@,
                id,
            ),
    decreases n,
{
    if n > 0 && !text::comes_before(list[n - 1].id@, id) {
        lemma_count_before(list, id, n - 1);
    }
}

/// A new download joins the others, which keep their order, behind all whose
/// names come before its own and in front of all the others.
pub proof fn law_new_downloads_join(list: Seq<Download>, d: Download) -> (i: int)
    requires
        downloads::ids_in_order(list),
        forall|k: int| 0 <= k < list.len() ==> (#[trigger] list[k]).id@ != d.id@,
    ensures
        0 <= i <= list.len(),
        downloads::with_download(list, d) == list.take(i) + seq![d] + list.skip(i),
        forall|k: int|
            0 <= k < i ==> text::comes_before((#[trigger] list[k]).id@, d.id@),
        forall|k: int|
            i <= k < list.len() ==> text::comes_before(d.id@, (#[trigger] list[k]).id@),
{
    let i = downloads::count_before(list, d.id@, list.len() as int);
    lemma_count_before(list, d.id@, list.len() as int);
    assert(list.insert(i, d) =~= list.take(i) + seq![d] + list.skip(i));
    assert forall|k: int| 0 <= k < i implies text::comes_before((#[trigger] list[k]).id@, d.id@) by {
        if k < i - 1 {
            text::law_order_transitive(list[k].id@, list[i - 1].id@, d.id@);
        }
    }
    assert forall|k: int| i <= k < list.len() implies text::comes_before(
        d.id@,
        (#[trigger] list[k]).id@,
    ) by {
        text::law_order_total(d.id@, list[k].id@);
    }
    i
}

/// A download that is done is at a hundred per cent; one that failed stays where
/// it was and tells why. Neither changes what was asked for.
pub proof fn law_downloads_end(before: Download, done: Download, failed: Download, why: Seq<char>)
    requires
        downloads::is_done(before, done),
        downloads::is_failed(before, failed, why),
    ensures
        done.id@ == before.id@ && done.url@ == before.url@ && done.start_s == before.start_s
            && done.end_s == before.end_s,
        failed.id@ == before.id@ && failed.url@ == before.url@ && failed.start_s == before.start_s
            && failed.end_s == before.end_s,
        done.state == DownloadState::Done,
        done.percent == Some(Double { bits: 0x4059_0000_0000_0000 }),
        done.message@ == "downloaded"@,
        failed.state == DownloadState::Failed,
        failed.percent == before.percent,
        failed.message@ == why,
{
}

/// One is under way for a request with the same address and the same times, and
/// for no other.
pub proof fn law_under_way(
    d: Download,
    url: Seq<char>,
    start: Option<Double>,
    end: Option<Double>,
)
    ensures
        downloads::is_running(d, url, start, end) ==> d.state == DownloadState::Running && d.url@
            == url && (d.start_s is Some == start is Some) && (d.end_s is Some == end is Some) && (
        start is Some ==> double::equal(d.start_s->0, start->0)) && (end is Some
            ==> double::equal(d.end_s->0, end->0)),
        d.state == DownloadState::Running && d.url@ == url && (d.start_s is Some == start is Some)
            && (d.end_s is Some == end is Some) && (start is Some ==> double::equal(
            d.start_s->0,
            start->0,
        )) && (end is Some ==> double::equal(d.end_s->0, end->0)) ==> downloads::is_running(
            d,
            url,
            start,
            end,
        ),
{
}

/// The first name tried is the stamp, and the next ones number it from two on.
pub proof fn law_names_tried(stamp: Seq<char>, n: nat)
    requires
        n >= 2,
    ensures
        downloads::candidate_of(stamp, 1) == stamp,
        downloads::candidate_of(stamp, n) == stamp + seq!['-'] + text::decimal_text(n),
{
    reveal_strlit("-");
    assert("-"@ =~= seq!['-']);
}

/// A name is taken by a folder or by a download of that name; the one chosen is
/// free, and every one tried before it was taken.
pub proof fn law_free_names(
    list: Seq<Download>,
    names: Seq<Seq<char>>,
    stamp: Seq<char>,
    id: Seq<char>,
)
    requires
        downloads::is_free_id(list, names, stamp, id),
    ensures
        !names.contains(id),
        forall|i: int| 0 <= i < list.len() ==> (#[trigger] list[i]).id@ != id,
        id != stamp ==> names.contains(stamp) || exists|i: int|
            0 <= i < list.len() && (#[trigger] list[i]).id@ == stamp,
{
    if id != stamp {
        let n = choose|n: nat|
            n >= 1 && id == #[trigger] downloads::candidate_of(stamp, n) && forall|m: nat|
                1 <= m < n ==> downloads::is_taken(
                    list,
                    names,
                    #[trigger] downloads::candidate_of(stamp, m),
                );
        assert(downloads::is_taken(list, names, downloads::candidate_of(stamp, 1)));
    }
}

/// What a download failed of: the downloader, with its last words, or the file
/// that it did not write.
pub proof fn law_download_faults(error: Seq<char>, has_file: bool)
    ensures
        downloads::download_fault(true, Some(error), true) is None,
        downloads::download_fault(true, None, true) is None,
        downloads::download_fault(true, Some(error), false) is Some,
        downloads::download_fault(false, Some(error), has_file) == Some(
            "yt-dlp failed: "@ + error,
        ),
        downloads::download_fault(false, None, has_file) is Some,
{
}

/// The downloader writes to the file that was named, takes the part that was
/// asked for if there is one, and gets the address last, where nothing in it can
/// be an option.
pub proof fn law_downloader_arguments(output: Seq<char>, section: Option<Seq<char>>, url: Seq<char>)
    ensures
        ({
            let a = downloads::ytdlp_args_of(output, section, url);
            let n = a.len() as int;
            &&& a[13] == seq!['-', 'o'] && a[14] == output
            &&& a[n - 2] == seq!['-', '-'] && a[n - 1] == url
            &&& section is None ==> n == 17
            &&& section matches Some(s) ==> n == 19 && a[15] == "--download-sections"@ && a[16] == s
        }),
{
    reveal_strlit("-o");
    reveal_strlit("--");
    assert("-o"@ =~= seq!['-', 'o']);
    assert("--"@ =~= seq!['-', '-']);
}

} // verus!
