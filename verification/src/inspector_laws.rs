//! What the inspector's requests and choices mean, said of the queries and lists
//! themselves.
use vstd::prelude::*;

use crate::inspector;
use crate::inspector::{ProbeError, Request, RequestError, SegmentEntry};
use crate::json;
use crate::json::Datum;
use crate::text;

verus! {

/// A key has the value of the first pair that names it.
pub proof fn law_first_value_counts(query: Seq<(String, String)>, key: Seq<char>, from: int)
    requires
        0 <= from <= query.len(),
    ensures
        match inspector::given(query, key, from) {
            Some(v) => exists|i: int|
                from <= i < query.len() && (#[trigger] query[i]).0@ == key && query[i].1@ == v
                    && forall|j: int| from <= j < i ==> (#[trigger] query[j]).0@ != key,
            None => forall|j: int| from <= j < query.len() ==> (#[trigger] query[j]).0@ != key,
        },
    decreases query.len() - from,
{
    if from < query.len() {
        if query[from].0@ != key {
            law_first_value_counts(query, key, from + 1);
        } else {
            assert(query[from].1@ == inspector::given(query, key, from)->0);
        }
    }
}

/// An empty value is none.
pub proof fn law_empty_values(v: Seq<char>)
    ensures
        inspector::filled(None) is None,
        inspector::filled(Some(Seq::empty())) is None,
        v.len() > 0 ==> inspector::filled(Some(v)) == Some(v),
{
}

/// A number that is not given is missed by its own error, one that is none is a
/// bad number, and one that is given in decimals is read.
pub proof fn law_numbers_in_queries(v: Seq<char>, n: usize, missing: RequestError)
    ensures
        inspector::index_of(None, missing) == Err::<usize, RequestError>(missing),
        inspector::index_of(Some(text::decimal_text(n as nat)), missing) == Ok::<
            usize,
            RequestError,
        >(n),
        text::number(v, 10, usize::MAX as nat) is None ==> inspector::index_of(Some(v), missing)
            == Err::<usize, RequestError>(RequestError::BadNumber),
{
    text::law_decimal_reads_back(n as nat, usize::MAX as nat);
}

/// Six endpoints speak of a session, two do not, and there is no other. A
/// session that is not named is missed first, then a frame, then the start and
/// the stop of labels.
pub proof fn law_refused_requests(endpoint: Seq<char>, query: Seq<(String, String)>)
    ensures
        ({
            let r = inspector::refusal(endpoint, query);
            let free = endpoint == "sessions"@ || endpoint == "classes"@;
            let bound = endpoint == "info"@ || endpoint == "frame"@ || endpoint == "audio"@
                || endpoint == "labels"@ || endpoint == "objects"@ || endpoint == "random"@;
            let named = inspector::given(query, "s"@, 0) is Some;
            &&& free ==> r is None
            &&& !free && !bound ==> r == Some(RequestError::NoEndpoint)
            &&& !free && bound && !named ==> r == Some(RequestError::NoSession)
            &&& !free && bound && named && endpoint != "frame"@ && endpoint != "labels"@ ==> r
                is None
            &&& !free && bound && named && endpoint == "frame"@ ==> (r is None) == (
            inspector::given(query, "n"@, 0) matches Some(n) && text::number(
                n,
                10,
                usize::MAX as nat,
            ) is Some)
            &&& !free && bound && named && endpoint == "labels"@ && endpoint != "frame"@ ==> (r
                is None) == ((inspector::given(query, "start"@, 0) matches Some(a) && text::number(
                a,
                10,
                usize::MAX as nat,
            ) is Some) && (inspector::given(query, "stop"@, 0) matches Some(b) && text::number(
                b,
                10,
                usize::MAX as nat,
            ) is Some))
        }),
{
}

/// A request asks for the session and the frames that its query names.
pub proof fn law_requests_ask_for_what_is_named(
    endpoint: Seq<char>,
    query: Seq<(String, String)>,
    r: Request,
    a: usize,
    b: usize,
)
    requires
        inspector::asks(endpoint, query, r),
    ensures
        r matches Request::Frame { session, seg: _, n } ==> inspector::given(query, "s"@, 0)
            == Some(session@) && (inspector::given(query, "n"@, 0) == Some(
            text::decimal_text(a as nat),
        ) ==> n == a),
        r matches Request::Labels { session, seg: _, start, stop, delay: _, pred: _ }
            ==> inspector::given(query, "s"@, 0) == Some(session@) && (inspector::given(
            query,
            "start"@,
            0,
        ) == Some(text::decimal_text(a as nat)) ==> start == a) && (inspector::given(
            query,
            "stop"@,
            0,
        ) == Some(text::decimal_text(b as nat)) ==> stop == b),
        r matches Request::Random { session, seg: _, delay: _, active } ==> inspector::given(
            query,
            "s"@,
            0,
        ) == Some(session@) && (!active == (inspector::given(query, "active"@, 0) == Some("0"@))),
        r matches Request::Info { session, seg: _ } ==> inspector::given(query, "s"@, 0) == Some(
            session@,
        ),
        r matches Request::Audio { session, seg: _ } ==> inspector::given(query, "s"@, 0) == Some(
            session@,
        ),
        r matches Request::Objects { session, seg: _ } ==> inspector::given(query, "s"@, 0) == Some(
            session@,
        ),
{
    text::law_decimal_reads_back(a as nat, usize::MAX as nat);
    text::law_decimal_reads_back(b as nat, usize::MAX as nat);
}

/// The segment that is meant is the first, or the first of the file where one is
/// named.
pub proof fn law_segment_meant(entries: Seq<SegmentEntry>, file: Option<Seq<char>>, from: int)
    requires
        0 <= from <= entries.len(),
    ensures
        ({
            let p = inspector::wanted_place(entries, file, from);
            &&& from <= p <= entries.len()
            &&& file is None && from < entries.len() ==> p == from
            &&& file matches Some(f) ==> (p < entries.len() ==> entries[p].file@ == f) && forall|
                i: int,
            | from <= i < p ==> (#[trigger] entries[i]).file@ != f
        }),
    decreases entries.len() - from,
{
    if from < entries.len() && !inspector::is_wanted(entries[from], file) {
        law_segment_meant(entries, file, from + 1);
    }
}

/// Of several labels of one frame the last one counts.
pub proof fn law_last_label_counts(frames: Seq<u64>, n: int, k: int)
    requires
        0 <= k <= frames.len(),
    ensures
        ({
            let p = inspector::last_label(frames, n, k);
            &&& -1 <= p < k
            &&& p >= 0 ==> frames[p] == n
            &&& forall|j: int| p < j < k ==> #[trigger] frames[j] != n
        }),
    decreases k,
{
    if k > 0 && frames[k - 1] != n {
        law_last_label_counts(frames, n, k - 1);
    }
}

/// The active frames are, in order, those at which the controller turns or a
/// button differs from the frame before.
pub proof fn law_active_frames(buttons: Seq<u32>, turning: Seq<bool>, n: int)
    requires
        0 <= n <= buttons.len(),
        n <= usize::MAX,
    ensures
        ({
            let r = inspector::active_frames(buttons, turning, n);
            &&& forall|i: int, j: int|
                0 <= i < j < r.len() ==> #[trigger] r[i] < #[trigger] r[j]
            &&& forall|i: int| 0 <= i < r.len() ==> #[trigger] r[i] < n
            &&& forall|f: usize|
                #![trigger r.contains(f)]
                f < n ==> r.contains(f) == (turning[f as int] || (f > 0 && buttons[f as int]
                    != buttons[f - 1]))
        }),
    decreases n,
{
    if n > 0 {
        law_active_frames(buttons, turning, n - 1);
        let b = inspector::active_frames(buttons, turning, n - 1);
        let r = inspector::active_frames(buttons, turning, n);
        let last = (n - 1) as usize;
        assert(r == b || r == b.push(last));
        assert forall|f: usize|
            #![trigger r.contains(f)]
            f < n implies r.contains(f) == (turning[f as int] || (f > 0 && buttons[f as int]
            != buttons[f - 1])) by {
            if f == last {
                if r == b.push(last) {
                    assert(r[b.len() as int] == last);
                }
                if b.contains(f) {
                    let k = choose|k: int| 0 <= k < b.len() && b[k] == f;
                    assert(b[k] < n - 1);
                }
            } else {
                if b.contains(f) {
                    let k = choose|k: int| 0 <= k < b.len() && b[k] == f;
                    assert(r[k] == f);
                }
                if r.contains(f) {
                    let k = choose|k: int| 0 <= k < r.len() && r[k] == f;
                    assert(k < b.len());
                    assert(b[k] == f);
                }
            }
        }
    }
}

/// The decoder starts at the place that was asked for, in the file, and stops
/// after so many frames; only frames of another size are scaled.
pub proof fn law_decoder_arguments(seek: Seq<char>, video: Seq<char>, count: nat, scaled: bool)
    ensures
        ({
            let a = inspector::decode_args_of(seek, video, count, scaled);
            &&& a[2] == seq!['-', 's', 's'] && a[3] == seek
            &&& a[4] == seq!['-', 'i'] && a[5] == video
            &&& a[7] == text::decimal_text(count)
            &&& a.len() == (if scaled {
                20int
            } else {
                18
            })
            &&& scaled ==> a[8] == seq!['-', 'v', 'f'] && a[9] == "scale=640:360"@
            &&& a.last() == seq!['-']
        }),
{
    reveal_strlit("-ss");
    reveal_strlit("-i");
    reveal_strlit("-vf");
    reveal_strlit("-");
    assert("-ss"@ =~= seq!['-', 's', 's']);
    assert("-i"@ =~= seq!['-', 'i']);
    assert("-vf"@ =~= seq!['-', 'v', 'f']);
    assert("-"@ =~= seq!['-']);
}

/// Of fields the texts are kept, in order.
pub proof fn law_texts_are_kept(fields: Seq<Datum>)
    ensures
        inspector::texts_among(fields) == fields.filter(|d: Datum| d is Text).map_values(
            |d: Datum| d->Text_0,
        ),
    decreases fields.len(),
{
    let is_text = |d: Datum| d is Text;
    let inner = |d: Datum| d->Text_0;
    reveal(Seq::filter);
    if fields.len() > 0 {
        law_texts_are_kept(fields.drop_last());
        let before = fields.drop_last().filter(is_text);
        if fields.last() is Text {
            assert(fields.filter(is_text) =~= before.push(fields.last()));
            assert(before.push(fields.last()).map_values(inner) =~= before.map_values(inner).push(
                fields.last()->Text_0,
            ));
        } else {
            assert(fields.filter(is_text) =~= before);
        }
    } else {
        assert(fields.filter(is_text).map_values(inner) =~= Seq::empty());
    }
}

/// The times of a probe are those of its packets, one after the other.
pub proof fn law_packets_one_by_one(output: Seq<u8>, n: nat)
    ensures
        inspector::packet_texts(output, 0).len() == 0,
        ({
            let pointer = "/packets/"@ + text::decimal_text(n) + "/pts_time"@;
            match json::json_at(output, pointer) {
                Datum::Text(t) => inspector::packet_texts(output, n + 1) == inspector::packet_texts(
                    output,
                    n,
                ).push(t),
                _ => inspector::packet_texts(output, n + 1) == inspector::packet_texts(output, n),
            }
        }),
{
}

/// A probe's header is the rate as a quotient, and sizes that fit, or no size.
pub proof fn law_probe_headers(
    width: Datum,
    height: Datum,
    rate: Datum,
    duration: Datum,
    r: Result<inspector::ProbeHeader, ProbeError>,
    a: Seq<char>,
    b: Seq<char>,
    w: u64,
)
    requires
        inspector::is_probe_header(Datum::List(1), width, height, rate, duration, r),
        rate == Datum::Text(a + seq!['/'] + b),
        !a.contains('/'),
        width == Datum::Number(Some(w), None),
    ensures
        r matches Ok(h) && h.rate.0@ == a && h.rate.1@ == b && h.width == w % 0x1_0000_0000,
{
    let s = a + seq!['/'] + b;
    crate::text_laws::law_parted_rejoins(s, '/');
    assert(s[a.len() as int] == '/');
    assert(s.contains(s[a.len() as int]));
    let p = text::parted(s, '/')->0;
    let t = p.0.push('/') + p.1;
    let n = p.0.len() as int;
    if n < a.len() {
        assert(s[n] == a[n]);
        assert(t[n] == '/');
        assert(a.contains(a[n]));
    } else if n > a.len() {
        assert(t[a.len() as int] == p.0[a.len() as int]);
        assert(p.0.contains(p.0[a.len() as int]));
    }
    assert(p.0 =~= a) by {
        assert forall|i: int| 0 <= i < n implies p.0[i] == a[i] by {
            assert(t[i] == p.0[i]);
            assert(s[i] == a[i]);
        }
    }
    assert(p.1 =~= b) by {
        assert(p.1.len() == b.len());
        assert forall|i: int| 0 <= i < b.len() implies p.1[i] == b[i] by {
            assert(t[n + 1 + i] == p.1[i]);
            assert(s[n + 1 + i] == b[i]);
        }
    }
}

/// Names are sorted so that none comes before one further up.
pub proof fn law_newest_names_first(names: Seq<Seq<char>>, i: int, j: int)
    requires
        inspector::newest_first(names),
        0 <= i < j < names.len(),
    ensures
        names[i] == names[j] || text::comes_before(names[j], names[i]),
{
    text::law_order_total(names[i], names[j]);
}

/// What is known of a stream is read only where streams are listed, and a rate
/// only where it is a text with a slash.
pub proof fn law_streams_are_listed(output: Seq<u8>, pointer: Seq<char>, a: Seq<char>, b: Seq<char>)
    requires
        !a.contains('/'),
    ensures
        !(json::json_at(output, "/streams"@) is List) ==> inspector::in_stream(output, pointer)
            is Nothing,
        json::json_at(output, "/streams"@) is List ==> inspector::in_stream(output, pointer)
            == json::json_at(output, pointer),
        inspector::quotient_in(Datum::Text(a + seq!['/'] + b)) == Some((a, b)),
        inspector::quotient_in(Datum::Text(a)) is None,
        inspector::quotient_in(Datum::Nothing) is None,
{
    crate::review_laws::lemma_parted_at(a, '/', b);
}

/// A request takes the segment, the delay and the predictions from its query; an
/// empty segment, and an empty name of predictions, is none.
pub proof fn law_requests_take_the_rest(
    endpoint: Seq<char>,
    query: Seq<(String, String)>,
    r: Request,
)
    requires
        inspector::asks(endpoint, query, r),
    ensures
        ({
            let seg = inspector::given(query, "seg"@, 0);
            let none = seg is None || seg->0.len() == 0;
            &&& r matches Request::Info { session: _, seg: g } ==> (g is None) == none && (!none
                ==> g->0@ == seg->0)
            &&& r matches Request::Frame { session: _, seg: g, n: _ } ==> (g is None) == none && (
            !none ==> g->0@ == seg->0)
            &&& r matches Request::Audio { session: _, seg: g } ==> (g is None) == none && (!none
                ==> g->0@ == seg->0)
            &&& r matches Request::Objects { session: _, seg: g } ==> (g is None) == none && (!none
                ==> g->0@ == seg->0)
            &&& r matches Request::Labels { session: _, seg: g, start: _, stop: _, delay, pred }
                ==> (g is None) == none && (!none ==> g->0@ == seg->0) && text::opt_text(delay)
                == inspector::given(query, "delay"@, 0) && (pred is Some ==> pred->0@.len() > 0
                && inspector::given(query, "pred"@, 0) == Some(pred->0@))
            &&& r matches Request::Random { session: _, seg: g, delay, active: _ } ==> (g is None)
                == none && (!none ==> g->0@ == seg->0) && text::opt_text(delay) == inspector::given(
                query,
                "delay"@,
                0,
            )
            &&& (r is Sessions) == (endpoint == "sessions"@)
            &&& (r is Classes) == (endpoint == "classes"@)
            &&& (r is Info) == (endpoint == "info"@)
            &&& (r is Frame) == (endpoint == "frame"@)
            &&& (r is Audio) == (endpoint == "audio"@)
            &&& (r is Labels) == (endpoint == "labels"@)
            &&& (r is Objects) == (endpoint == "objects"@)
            &&& (r is Random) == (endpoint == "random"@)
        }),
{
    reveal_strlit("sessions");
    reveal_strlit("classes");
    reveal_strlit("info");
    reveal_strlit("frame");
    reveal_strlit("audio");
    reveal_strlit("labels");
    reveal_strlit("objects");
    reveal_strlit("random");
    assert("sessions"@.len() == 8 && "classes"@.len() == 7 && "info"@.len() == 4 && "frame"@.len()
        == 5 && "audio"@.len() == 5 && "labels"@.len() == 6 && "objects"@.len() == 7
        && "random"@.len() == 6);
    assert("frame"@[0] == 'f' && "audio"@[0] == 'a' && "labels"@[0] == 'l' && "random"@[0] == 'r'
        && "classes"@[0] == 'c' && "objects"@[0] == 'o');
}

} // verus!
