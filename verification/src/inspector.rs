//! Requests of the frame browser and what answers them.
use crate::double::Double;
use crate::inspect;
use crate::json;
use crate::json::{Datum, Field};
use crate::paths;
use crate::text;
use vstd::prelude::*;

verus! {

/// What a request asks for. A delay is still the text it was given as.
#[derive(Clone, Debug)]
pub enum Request {
    Sessions,
    Info { session: String, seg: Option<String> },
    Frame { session: String, seg: Option<String>, n: usize },
    Audio { session: String, seg: Option<String> },
    Labels {
        session: String,
        seg: Option<String>,
        start: usize,
        stop: usize,
        delay: Option<String>,
        pred: Option<String>,
    },
    Classes,
    Objects { session: String, seg: Option<String> },
    Random { session: String, seg: Option<String>, delay: Option<String>, active: bool },
}

/// Why a request is refused.
#[derive(Clone, Copy, Debug, PartialEq, Eq, Structural)]
pub enum RequestError {
    NoSession,
    /// The frame number is not given.
    NoFrame,
    NoStart,
    NoStop,
    /// A number is not one.
    BadNumber,
    NoEndpoint,
}

/// The value given for a key: that of its first pair.
pub open spec fn given(query: Seq<(String, String)>, key: Seq<char>, i: int) -> Option<Seq<char>>
    decreases query.len() - i,
{
    if i < 0 || i >= query.len() {
        None
    } else if query[i].0@ == key {
        Some(query[i].1@)
    } else {
        given(query, key, i + 1)
    }
}

/// A value unless it is empty.
pub open spec fn filled(v: Option<Seq<char>>) -> Option<Seq<char>> {
    match v {
        Some(s) => if s.len() > 0 {
            Some(s)
        } else {
            None
        },
        None => None,
    }
}

/// The number given for a key.
pub open spec fn number_given(v: Option<Seq<char>>) -> Option<nat> {
    match v {
        Some(s) => text::number(s, 10, usize::MAX as nat),
        None => None,
    }
}

/// The value given for a key.
pub fn value(query: &Vec<(String, String)>, key: &str) -> (r: Option<String>)
    ensures
        text::opt_text(r) == given(query@, key@, 0),
{
    let mut i: usize = 0;
    while i < query.len()
        invariant
            i <= query@.len(),
            given(query@, key@, 0) == given(query@, key@, i as int),
        decreases query@.len() - i,
    {
        if text::same(query[i].0.as_str(), key) {
            return Some(query[i].1.clone());
        }
        i += 1;
    }
    None
}

/// The value given for a key unless it is empty.
pub fn filled_value(query: &Vec<(String, String)>, key: &str) -> (r: Option<String>)
    ensures
        text::opt_text(r) == filled(given(query@, key@, 0)),
{
    match value(query, key) {
        Some(s) => crate::studio::non_empty(s),
        None => None,
    }
}

/// The number given for a key, or which of two errors.
fn index(query: &Vec<(String, String)>, key: &str, missing: RequestError) -> (r: Result<
    usize,
    RequestError,
>)
    ensures
        r == index_of(given(query@, key@, 0), missing),
{
    match value(query, key) {
        Some(s) => match text::parse_decimal(s.as_str(), usize::MAX as u64) {
            Some(n) => Ok(n as usize),
            None => Err(RequestError::BadNumber),
        },
        None => Err(missing),
    }
}

/// The number of a value, or which of two errors.
pub open spec fn index_of(v: Option<Seq<char>>, missing: RequestError) -> Result<
    usize,
    RequestError,
> {
    match v {
        None => Err(missing),
        Some(s) => match text::number(s, 10, usize::MAX as nat) {
            Some(n) => Ok(n as usize),
            None => Err(RequestError::BadNumber),
        },
    }
}

/// The endpoints that need a session.
pub open spec fn needs_session(endpoint: Seq<char>) -> bool {
    endpoint == "info"@ || endpoint == "frame"@ || endpoint == "audio"@ || endpoint == "labels"@
        || endpoint == "objects"@ || endpoint == "random"@
}

/// Why a request is refused, if it is.
pub open spec fn refusal(endpoint: Seq<char>, query: Seq<(String, String)>) -> Option<RequestError> {
    let session = given(query, "s"@, 0);
    if endpoint == "sessions"@ || endpoint == "classes"@ {
        None
    } else if !needs_session(endpoint) {
        Some(RequestError::NoEndpoint)
    } else if session is None {
        Some(RequestError::NoSession)
    } else if endpoint == "frame"@ {
        match index_of(given(query, "n"@, 0), RequestError::NoFrame) {
            Ok(_) => None,
            Err(e) => Some(e),
        }
    } else if endpoint == "labels"@ {
        match index_of(given(query, "start"@, 0), RequestError::NoStart) {
            Err(e) => Some(e),
            Ok(_) => match index_of(given(query, "stop"@, 0), RequestError::NoStop) {
                Err(e) => Some(e),
                Ok(_) => None,
            },
        }
    } else {
        None
    }
}

/// What an endpoint's request asks for.
pub open spec fn asks(endpoint: Seq<char>, query: Seq<(String, String)>, r: Request) -> bool {
    let session = given(query, "s"@, 0);
    let seg = filled(given(query, "seg"@, 0));
    match r {
        Request::Sessions => endpoint == "sessions"@,
        Request::Classes => endpoint == "classes"@,
        Request::Info { session: s, seg: g } => endpoint == "info"@ && session == Some(s@)
            && text::opt_text(g) == seg,
        Request::Frame { session: s, seg: g, n } => endpoint == "frame"@ && session == Some(s@)
            && text::opt_text(g) == seg && number_given(given(query, "n"@, 0)) == Some(n as nat),
        Request::Audio { session: s, seg: g } => endpoint == "audio"@ && session == Some(s@)
            && text::opt_text(g) == seg,
        Request::Labels { session: s, seg: g, start, stop, delay, pred } => endpoint == "labels"@
            && session == Some(s@) && text::opt_text(g) == seg && number_given(
            given(query, "start"@, 0),
        ) == Some(start as nat) && number_given(given(query, "stop"@, 0)) == Some(stop as nat)
            && text::opt_text(delay) == given(query, "delay"@, 0) && text::opt_text(pred) == filled(
            given(query, "pred"@, 0),
        ),
        Request::Objects { session: s, seg: g } => endpoint == "objects"@ && session == Some(s@)
            && text::opt_text(g) == seg,
        Request::Random { session: s, seg: g, delay, active } => endpoint == "random"@ && session
            == Some(s@) && text::opt_text(g) == seg && text::opt_text(delay) == given(
            query,
            "delay"@,
            0,
        ) && active == (given(query, "active"@, 0) != Some("0"@)),
    }
}

/// All endpoints have different names.
proof fn lemma_endpoints()
    ensures
        !needs_session("sessions"@),
        !needs_session("classes"@),
        "frame"@ != "labels"@,
        "info"@ != "frame"@,
        "info"@ != "labels"@,
        "audio"@ != "frame"@,
        "audio"@ != "labels"@,
        "objects"@ != "frame"@,
        "objects"@ != "labels"@,
        "random"@ != "frame"@,
        "random"@ != "labels"@,
{
    reveal_strlit("sessions");
    reveal_strlit("classes");
    reveal_strlit("info");
    reveal_strlit("frame");
    reveal_strlit("audio");
    reveal_strlit("labels");
    reveal_strlit("objects");
    reveal_strlit("random");
    assert("classes"@[0] != "objects"@[0]);
    assert("info"@[0] != "frame"@[0]);
    assert("audio"@[0] != "frame"@[0]);
    assert("random"@[0] != "labels"@[0]);
}

/// What `GET /api/inspect/<endpoint>?<query>` asks for.
pub fn parse_request(endpoint: &str, query: &Vec<(String, String)>) -> (r: Result<
    Request,
    RequestError,
>)
    ensures
        match r {
            Ok(request) => refusal(endpoint@, query@) is None && asks(endpoint@, query@, request),
            Err(e) => refusal(endpoint@, query@) == Some(e),
        },
{
    proof {
        lemma_endpoints();
    }
    if text::same(endpoint, "sessions") {
        return Ok(Request::Sessions);
    }
    if text::same(endpoint, "classes") {
        return Ok(Request::Classes);
    }
    let info = text::same(endpoint, "info");
    let frame = text::same(endpoint, "frame");
    let audio = text::same(endpoint, "audio");
    let labels = text::same(endpoint, "labels");
    let objects = text::same(endpoint, "objects");
    let random = text::same(endpoint, "random");
    if !(info || frame || audio || labels || objects || random) {
        return Err(RequestError::NoEndpoint);
    }
    let session = match value(query, "s") {
        Some(s) => s,
        None => {
            return Err(RequestError::NoSession);
        },
    };
    let seg = filled_value(query, "seg");
    if info {
        return Ok(Request::Info { session, seg });
    }
    if frame {
        return match index(query, "n", RequestError::NoFrame) {
            Ok(n) => Ok(Request::Frame { session, seg, n }),
            Err(e) => Err(e),
        };
    }
    if audio {
        return Ok(Request::Audio { session, seg });
    }
    if labels {
        let start = match index(query, "start", RequestError::NoStart) {
            Ok(n) => n,
            Err(e) => {
                return Err(e);
            },
        };
        let stop = match index(query, "stop", RequestError::NoStop) {
            Ok(n) => n,
            Err(e) => {
                return Err(e);
            },
        };
        return Ok(
            Request::Labels {
                session,
                seg,
                start,
                stop,
                delay: value(query, "delay"),
                pred: filled_value(query, "pred"),
            },
        );
    }
    if objects {
        return Ok(Request::Objects { session, seg });
    }
    let active = match value(query, "active") {
        Some(a) => !text::same(a.as_str(), "0"),
        None => true,
    };
    Ok(Request::Random { session, seg, delay: value(query, "delay"), active })
}

/// A segment as a session lists it: its file and when it starts.
#[derive(Clone, Debug)]
pub struct SegmentEntry {
    pub file: String,
    pub start_unix_ms: Option<u64>,
}

/// Why a segment cannot be opened.
#[derive(Clone, Copy, Debug, PartialEq, Eq, Structural)]
pub enum SegmentError {
    BadName,
    NoSegment,
    /// It has no first frame.
    NoFrames,
}

/// Whether a segment is the one asked for; without a file the first is.
pub open spec fn is_wanted(e: SegmentEntry, file: Option<Seq<char>>) -> bool {
    match file {
        Some(f) => e.file@ == f,
        None => true,
    }
}

/// The place of the segment asked for, from `i` on; the length when there is
/// none.
pub open spec fn wanted_place(entries: Seq<SegmentEntry>, file: Option<Seq<char>>, i: int) -> int
    decreases entries.len() - i,
{
    if i < 0 || i >= entries.len() {
        entries.len() as int
    } else if is_wanted(entries[i], file) {
        i
    } else {
        wanted_place(entries, file, i + 1)
    }
}

/// The segment of a session to open, and when it starts.
pub fn find_segment(name: &str, entries: &Vec<SegmentEntry>, file: Option<&str>) -> (r: Result<
    (usize, u64),
    SegmentError,
>)
    ensures
        ({
            let i = wanted_place(entries@, crate::video::opt_str(file), 0);
            match r {
                Ok(p) => inspect::name_ok(name@) && p.0 == i && i < entries@.len()
                    && entries@[i].start_unix_ms == Some(p.1),
                Err(SegmentError::BadName) => !inspect::name_ok(name@),
                Err(SegmentError::NoSegment) => inspect::name_ok(name@) && i == entries@.len(),
                Err(SegmentError::NoFrames) => inspect::name_ok(name@) && i < entries@.len()
                    && entries@[i].start_unix_ms is None,
            }
        }),
{
    if !inspect::session_name_ok(name) {
        return Err(SegmentError::BadName);
    }
    let mut i: usize = 0;
    while i < entries.len()
        invariant
            i <= entries@.len(),
            inspect::name_ok(name@),
            wanted_place(entries@, crate::video::opt_str(file), 0) == wanted_place(
                entries@,
                crate::video::opt_str(file),
                i as int,
            ),
        decreases entries@.len() - i,
    {
        let here = match file {
            Some(f) => text::same(entries[i].file.as_str(), f),
            None => true,
        };
        if here {
            return match entries[i].start_unix_ms {
                Some(t) => Ok((i, t)),
                None => Err(SegmentError::NoFrames),
            };
        }
        i += 1;
    }
    Err(SegmentError::NoSegment)
}

/// The frames of a range that a segment has.
pub fn clamped_range(start: usize, stop: usize, frames: usize) -> (r: (usize, usize))
    ensures
        r.0 == (if start < frames {
            start
        } else {
            frames
        }),
        r.1 == (if stop < frames {
            stop
        } else {
            frames
        }),
{
    (
        if start < frames {
            start
        } else {
            frames
        },
        if stop < frames {
            stop
        } else {
            frames
        },
    )
}

/// Whether a predictions file has the right extension.
pub fn is_predictions_file(path: &str) -> (r: bool)
    ensures
        r == (paths::extension_of(paths::last_name(path@)) == Some("jsonl"@)),
{
    let name = paths::file_name(path);
    match paths::extension(name.as_str()) {
        Some(e) => text::same(e.as_str(), "jsonl"),
        None => false,
    }
}

/// The place of the last label of a frame among the first `k`; -1 without one.
pub open spec fn last_label(frames: Seq<u64>, n: int, k: int) -> int
    decreases k,
{
    if k <= 0 {
        -1
    } else if frames[k - 1] == n {
        k - 1
    } else {
        last_label(frames, n, k - 1)
    }
}

/// Which predicted label each frame of a range has, if any; of several for one
/// frame the last counts. `frames` gives each label's frame.
pub fn predicted(frames: &Vec<u64>, start: usize, stop: usize) -> (r: Vec<Option<usize>>)
    ensures
        r@.len() == (if start < stop {
            stop - start
        } else {
            0
        }),
        forall|i: int|
            0 <= i < r@.len() ==> (match #[trigger] r@[i] {
                Some(k) => k == last_label(frames@, start + i, frames@.len() as int),
                None => last_label(frames@, start + i, frames@.len() as int) == -1,
            }),
{
    let mut out: Vec<Option<usize>> = Vec::new();
    let mut n: usize = start;
    while n < stop
        invariant
            start <= n,
            start < stop ==> n <= stop,
            start >= stop ==> n == start,
            out@.len() == n - start,
            forall|i: int|
                0 <= i < out@.len() ==> (match #[trigger] out@[i] {
                    Some(k) => k == last_label(frames@, start + i, frames@.len() as int),
                    None => last_label(frames@, start + i, frames@.len() as int) == -1,
                }),
        decreases stop - n,
    {
        let mut k: usize = frames.len();
        while k > 0 && frames[k - 1] != n as u64
            invariant
                k <= frames@.len(),
                last_label(frames@, n as int, k as int) == last_label(
                    frames@,
                    n as int,
                    frames@.len() as int,
                ),
            decreases k,
        {
            k -= 1;
        }
        out.push(
            if k > 0 {
                Some((k - 1) as usize)
            } else {
                None
            },
        );
        n += 1;
    }
    out
}

/// A frame where a button changes or the gyro turns.
pub open spec fn is_active(buttons: Seq<u32>, turning: Seq<bool>, n: int) -> bool {
    (n > 0 && buttons[n] != buttons[n - 1]) || turning[n]
}

/// The active frames among the first `n`.
pub open spec fn active_frames(buttons: Seq<u32>, turning: Seq<bool>, n: int) -> Seq<usize>
    decreases n,
{
    if n <= 0 {
        Seq::empty()
    } else if is_active(buttons, turning, n - 1) {
        active_frames(buttons, turning, n - 1).push((n - 1) as usize)
    } else {
        active_frames(buttons, turning, n - 1)
    }
}

/// The frames where a button changes or the gyro turns faster than the limit.
pub fn candidates(buttons: &Vec<u32>, turning: &Vec<bool>) -> (r: Vec<usize>)
    requires
        buttons@.len() == turning@.len(),
    ensures
        r@ == active_frames(buttons@, turning@, buttons@.len() as int),
        forall|i: int| 0 <= i < r@.len() ==> #[trigger] r@[i] < buttons@.len(),
{
    let mut out: Vec<usize> = Vec::new();
    let mut n: usize = 0;
    while n < buttons.len()
        invariant
            n <= buttons@.len(),
            buttons@.len() == turning@.len(),
            out@ == active_frames(buttons@, turning@, n as int),
            forall|i: int| 0 <= i < out@.len() ==> #[trigger] out@[i] < n,
        decreases buttons@.len() - n,
    {
        let changed = n > 0 && buttons[n] != buttons[n - 1];
        if changed || turning[n] {
            out.push(n);
        }
        n += 1;
    }
    out
}

/// The frame that a picked number means: one of the candidates, or any frame
/// when there are none.
pub fn picked_frame(candidates: &Vec<usize>, pick: usize) -> (r: usize)
    ensures
        r == (if pick < candidates@.len() {
            candidates@[pick as int]
        } else {
            pick
        }),
{
    if pick < candidates.len() {
        candidates[pick]
    } else {
        pick
    }
}

/// A random frame: one of the candidates, or any when there are none; `None`
/// for a segment without frames.
pub fn random_frame(frames: usize, candidates: &Vec<usize>) -> (r: Option<usize>)
    requires
        forall|i: int| 0 <= i < candidates@.len() ==> #[trigger] candidates@[i] < frames,
    ensures
        r is Some == (frames > 0),
        r matches Some(n) ==> n < frames && (candidates@.len() > 0 ==> candidates@.contains(n)),
{
    if frames == 0 {
        return None;
    }
    let bound: usize = if candidates.len() == 0 {
        frames
    } else {
        candidates.len()
    };
    let pick = inspect::random_below(bound);
    Some(picked_frame(candidates, pick))
}

/// Texts from the last to the first.
pub open spec fn newest_first(names: Seq<Seq<char>>) -> bool {
    forall|i: int, j: int|
        0 <= i < j < names.len() ==> !text::comes_before(
            #[trigger] names[i],
            #[trigger] names[j],
        )
}

/// Inserting adds just the inserted one.
proof fn lemma_insert_multiset(s: Seq<Seq<char>>, at: int, x: Seq<char>)
    requires
        0 <= at <= s.len(),
    ensures
        s.insert(at, x).to_multiset() == s.to_multiset().insert(x),
{
    broadcast use vstd::seq_lib::group_to_multiset_ensures;

    let t = s.insert(at, x);
    assert(t.remove(at) =~= s);
    assert(t[at] == x);
    assert(t.contains(x));
    assert(t.to_multiset().remove(x).insert(x) =~= t.to_multiset());
}

/// Put a name in its place.
fn insert_name(names: &mut Vec<String>, name: String)
    requires
        newest_first(text::texts(old(names)@)),
    ensures
        newest_first(text::texts(final(names)@)),
        text::texts(final(names)@).to_multiset() == text::texts(old(names)@).to_multiset().insert(
            name@,
        ),
{
    let ghost before = text::texts(names@);
    let mut at: usize = names.len();
    while at > 0 && text::precedes(names[at - 1].as_str(), name.as_str())
        invariant
            at <= names@.len(),
            before == text::texts(names@),
            forall|j: int|
                at <= j < names@.len() ==> text::comes_before(#[trigger] before[j], name@),
        ensures
            at <= names@.len(),
            before == text::texts(names@),
            forall|j: int|
                at <= j < names@.len() ==> text::comes_before(#[trigger] before[j], name@),
            at > 0 ==> !text::comes_before(before[at - 1], name@),
        decreases at,
    {
        assert(before[at - 1] == names@[at - 1]@);
        at -= 1;
    }
    let ghost added = name@;
    names.insert(at, name);
    proof {
        let after = text::texts(names@);
        assert(after =~= before.insert(at as int, added));
        lemma_insert_multiset(before, at as int, added);
        assert forall|i: int, j: int| 0 <= i < j < after.len() implies !text::comes_before(
            #[trigger] after[i],
            #[trigger] after[j],
        ) by {
            if j < at {
                assert(after[i] == before[i] && after[j] == before[j]);
            } else if j == at {
                assert(after[i] == before[i]);
                if i < at - 1 {
                    assert(!text::comes_before(before[i], before[at - 1]));
                    if text::comes_before(before[i], added) {
                        text::law_order_total(before[i], before[at - 1]);
                        if before[i] != before[at - 1] {
                            text::law_order_transitive(before[at - 1], before[i], added);
                        }
                    }
                }
            } else if i < at {
                assert(after[i] == before[i] && after[j] == before[j - 1]);
            } else if i == at {
                assert(after[j] == before[j - 1]);
                text::law_order_total(before[j - 1], added);
            } else {
                assert(after[i] == before[i - 1] && after[j] == before[j - 1]);
            }
        }
    }
}

/// Session names, newest first: from the last to the first in order of text.
pub fn sort_newest_first(names: Vec<String>) -> (r: Vec<String>)
    ensures
        newest_first(text::texts(r@)),
        text::texts(r@).to_multiset() == text::texts(names@).to_multiset(),
{
    let ghost all = text::texts(names@);
    let mut out: Vec<String> = Vec::new();
    let mut i: usize = 0;
    assert(text::texts(out@) =~= all.take(0));
    while i < names.len()
        invariant
            i <= names@.len(),
            all == text::texts(names@),
            newest_first(text::texts(out@)),
            text::texts(out@).to_multiset() == all.take(i as int).to_multiset(),
        decreases names@.len() - i,
    {
        insert_name(&mut out, names[i].clone());
        proof {
            assert(all.take(i + 1) =~= all.take(i as int).push(all[i as int]));
            all.take(i as int).to_multiset_ensures();
        }
        i += 1;
    }
    assert(all.take(i as int) =~= all);
    out
}

/// Why no delay applies to a session; nothing when one does.
pub fn delay_reason(calibrated: bool, applied: bool) -> (r: Option<String>)
    ensures
        text::opt_text(r) == (if applied {
            None
        } else if !calibrated {
            Some("not calibrated yet (agentzero-calibrate)"@)
        } else {
            Some(
                "too little aiming or jumping to measure, and no measured session of this setup"@,
            )
        }),
{
    if applied {
        None
    } else if !calibrated {
        Some("not calibrated yet (agentzero-calibrate)".to_owned())
    } else {
        Some(
            "too little aiming or jumping to measure, and no measured session of this setup".to_owned(),
        )
    }
}

/// Whether a session's own estimate is the one kept next to a delay set by hand.
pub fn set_by_hand(source: Option<&str>) -> (r: bool)
    ensures
        r == (match source {
            Some(s) => s@ == "manual"@,
            None => false,
        }),
{
    match source {
        Some(s) => text::same(s, "manual"),
        None => false,
    }
}

/// The options of the ffmpeg that decodes a run of frames.
pub open spec fn decode_args_of(
    seek: Seq<char>,
    video: Seq<char>,
    count: nat,
    scaled: bool,
) -> Seq<Seq<char>> {
    seq!["-v"@, "error"@, "-ss"@, seek, "-i"@, video, "-frames:v"@, text::decimal_text(count)] + (
    if scaled {
        seq!["-vf"@, "scale=640:360"@]
    } else {
        Seq::empty()
    }) + seq![
        "-an"@,
        "-fps_mode"@,
        "passthrough"@,
        "-f"@,
        "image2pipe"@,
        "-c:v"@,
        "mjpeg"@,
        "-q:v"@,
        "3"@,
        "-"@,
    ]
}

/// The options of the ffmpeg that decodes `count` frames of a video of this size
/// from a moment on, given as text.
pub fn decode_args(seek: &str, video: &str, count: usize, width: u32, height: u32) -> (r: Vec<
    String,
>)
    ensures
        text::texts(r@) == decode_args_of(
            seek@,
            video@,
            count as nat,
            width != inspect::FRAME_WIDTH || height != inspect::FRAME_HEIGHT,
        ),
{
    let scaled = width != inspect::FRAME_WIDTH || height != inspect::FRAME_HEIGHT;
    let number = text::decimal(count as u64);
    let mut args: Vec<String> = Vec::new();
    text::push_text(&mut args, "-v");
    text::push_text(&mut args, "error");
    text::push_text(&mut args, "-ss");
    text::push_text(&mut args, seek);
    text::push_text(&mut args, "-i");
    text::push_text(&mut args, video);
    text::push_text(&mut args, "-frames:v");
    text::push_text(&mut args, number.as_str());
    if scaled {
        text::push_text(&mut args, "-vf");
        text::push_text(&mut args, "scale=640:360");
    }
    text::push_text(&mut args, "-an");
    text::push_text(&mut args, "-fps_mode");
    text::push_text(&mut args, "passthrough");
    text::push_text(&mut args, "-f");
    text::push_text(&mut args, "image2pipe");
    text::push_text(&mut args, "-c:v");
    text::push_text(&mut args, "mjpeg");
    text::push_text(&mut args, "-q:v");
    text::push_text(&mut args, "3");
    text::push_text(&mut args, "-");
    assert(text::texts(args@) =~= decode_args_of(seek@, video@, count as nat, scaled));
    args
}

/// The options of the ffprobe that reads facts of a video's first video stream.
pub fn ffprobe_args(video: &str, entries: &str) -> (r: Vec<String>)
    ensures
        text::texts(r@) == seq![
            "-v"@,
            "error"@,
            "-select_streams"@,
            "v:0"@,
            "-show_entries"@,
            entries@,
            "-of"@,
            "json"@,
            video@,
        ],
{
    let mut args: Vec<String> = Vec::new();
    text::push_text(&mut args, "-v");
    text::push_text(&mut args, "error");
    text::push_text(&mut args, "-select_streams");
    text::push_text(&mut args, "v:0");
    text::push_text(&mut args, "-show_entries");
    text::push_text(&mut args, entries);
    text::push_text(&mut args, "-of");
    text::push_text(&mut args, "json");
    text::push_text(&mut args, video);
    args
}

/// The options of the ffmpeg that copies a video's sound track into a file.
pub fn audio_args(video: &str, file: &str) -> (r: Vec<String>)
    ensures
        text::texts(r@) == seq![
            "-v"@,
            "error"@,
            "-y"@,
            "-i"@,
            video@,
            "-vn"@,
            "-c:a"@,
            "copy"@,
            "-f"@,
            "webm"@,
            file@,
        ],
{
    let mut args: Vec<String> = Vec::new();
    text::push_text(&mut args, "-v");
    text::push_text(&mut args, "error");
    text::push_text(&mut args, "-y");
    text::push_text(&mut args, "-i");
    text::push_text(&mut args, video);
    text::push_text(&mut args, "-vn");
    text::push_text(&mut args, "-c:a");
    text::push_text(&mut args, "copy");
    text::push_text(&mut args, "-f");
    text::push_text(&mut args, "webm");
    text::push_text(&mut args, file);
    args
}

/// The temporary file that a sound track is copied into.
pub fn audio_file(process: u32, number: usize) -> (r: String)
    ensures
        r@ == "procon-inspect-"@ + text::decimal_text(process as nat) + "-"@ + text::decimal_text(
            number as nat,
        ) + ".webm"@,
{
    let id = text::decimal(process as u64);
    let n = text::decimal(number as u64);
    let mut out = text::concat("procon-inspect-", id.as_str());
    out.append("-");
    out.append(n.as_str());
    out.append(".webm");
    out
}

/// Whether a video's facts that were read before serve: when its frame times are
/// asked for, they must be among them.
pub fn probe_serves(has_times: bool, packets: bool) -> (r: bool)
    ensures
        r == (packets ==> has_times),
{
    !packets || has_times
}

/// Whether a session's first video is looked at for its height and frame rate: only
/// where the session does not record both.
pub fn header_needed(has_height: bool, has_rate: bool, segments: usize) -> (r: bool)
    ensures
        r == (!(has_height && has_rate) && segments > 0),
{
    (!has_height || !has_rate) && segments > 0
}

/// The frame whose boxes are replaced.
pub fn frame_to_save(frame: Option<u64>, frames: usize) -> (r: Result<usize, SaveError>)
    ensures
        match r {
            Ok(n) => frame == Some(n as u64) && n < frames,
            Err(SaveError::NotGiven) => frame is None,
            Err(SaveError::NoFrame) => frame matches Some(n) && n >= frames,
        },
{
    match frame {
        None => Err(SaveError::NotGiven),
        Some(n) => if n < frames as u64 {
            Ok(n as usize)
        } else {
            Err(SaveError::NoFrame)
        },
    }
}

/// Why boxes are not saved.
#[derive(Clone, Copy, Debug, PartialEq, Eq, Structural)]
pub enum SaveError {
    /// No frame is given.
    NotGiven,
    /// The segment has no such frame.
    NoFrame,
}

/// Why what ffprobe printed says nothing of a video.
#[derive(Clone, Copy, Debug, PartialEq, Eq, Structural)]
pub enum ProbeError {
    /// It is no JSON.
    BadJson,
    NoRate,
    NoPackets,
}

/// The facts of a video, its frame rate and duration still as texts.
#[derive(Debug)]
pub struct ProbeHeader {
    pub width: u32,
    pub height: u32,
    /// The frame rate as a quotient.
    pub rate: (String, String),
    pub duration: Option<String>,
}

/// What stands at a place in the first of the streams that ffprobe lists.
pub open spec fn in_stream(output: Seq<u8>, pointer: Seq<char>) -> Datum {
    if json::json_at(output, "/streams"@) is List {
        json::json_at(output, pointer)
    } else {
        Datum::Nothing
    }
}

/// A text, parted at its first slash.
pub open spec fn quotient_in(d: Datum) -> Option<(Seq<char>, Seq<char>)> {
    match json::text_in(d) {
        Some(s) => text::parted(s, '/'),
        None => None,
    }
}

/// The texts of a quotient.
pub open spec fn opt_quotient(q: Option<(String, String)>) -> Option<(Seq<char>, Seq<char>)> {
    match q {
        Some(p) => Some((p.0@, p.1@)),
        None => None,
    }
}

/// A size in 32 bits; 0 where none is given.
pub open spec fn size_in(d: Datum) -> int {
    match json::whole_in(d) {
        Some(n) => n as int % 0x1_0000_0000,
        None => 0,
    }
}

/// What ffprobe's fields come to; `listed` says what stands where the streams do.
pub open spec fn is_probe_header(
    listed: Datum,
    width: Datum,
    height: Datum,
    rate: Datum,
    duration: Datum,
    r: Result<ProbeHeader, ProbeError>,
) -> bool {
    let quotient = if listed is List {
        quotient_in(rate)
    } else {
        None
    };
    match r {
        Ok(h) => {
            &&& quotient == Some((h.rate.0@, h.rate.1@))
            &&& h.width == size_in(width)
            &&& h.height == size_in(height)
            &&& text::opt_text(h.duration) == json::text_in(duration)
        },
        Err(e) => quotient is None && e == ProbeError::NoRate,
    }
}

/// A text, parted at its first slash.
fn quotient(f: &Field) -> (r: Option<(String, String)>)
    ensures
        opt_quotient(r) == quotient_in(json::datum(*f)),
{
    match f.text() {
        Some(s) => text::split_once(s.as_str(), '/'),
        None => None,
    }
}

/// A size in 32 bits; 0 where none is given.
fn size(f: &Field) -> (r: u32)
    ensures
        r == size_in(json::datum(*f)),
{
    match f.whole() {
        Some(n) => (n % 0x1_0000_0000) as u32,
        None => 0,
    }
}

/// The facts of a video by ffprobe's fields.
pub fn header_of(
    listed: &Field,
    width: &Field,
    height: &Field,
    rate: &Field,
    duration: &Field,
) -> (r: Result<ProbeHeader, ProbeError>)
    ensures
        is_probe_header(
            json::datum(*listed),
            json::datum(*width),
            json::datum(*height),
            json::datum(*rate),
            json::datum(*duration),
            r,
        ),
{
    match listed {
        Field::List(_) => {},
        _ => {
            return Err(ProbeError::NoRate);
        },
    }
    match quotient(rate) {
        Some(rate) => Ok(
            ProbeHeader {
                width: size(width),
                height: size(height),
                rate,
                duration: duration.text(),
            },
        ),
        None => Err(ProbeError::NoRate),
    }
}

/// The facts of a video that ffprobe printed.
pub fn probe_header(output: &[u8]) -> (r: Result<ProbeHeader, ProbeError>)
    ensures
        if json::is_json(output@) {
            is_probe_header(
                json::json_at(output@, "/streams"@),
                json::json_at(output@, "/streams/0/width"@),
                json::json_at(output@, "/streams/0/height"@),
                json::json_at(output@, "/streams/0/r_frame_rate"@),
                json::json_at(output@, "/streams/0/tags/DURATION"@),
                r,
            )
        } else {
            r == Err::<ProbeHeader, ProbeError>(ProbeError::BadJson)
        },
{
    match json::fields(
        output,
        &[
            "/streams",
            "/streams/0/width",
            "/streams/0/height",
            "/streams/0/r_frame_rate",
            "/streams/0/tags/DURATION",
        ],
    ) {
        Some(f) => header_of(&f[0], &f[1], &f[2], &f[3], &f[4]),
        None => Err(ProbeError::BadJson),
    }
}

/// Where the time of a packet stands.
pub open spec fn packet_pointer(i: nat) -> Seq<char> {
    "/packets/"@ + text::decimal_text(i) + "/pts_time"@
}

/// The times of the first packets, as far as they are texts.
pub open spec fn packet_texts(output: Seq<u8>, n: nat) -> Seq<Seq<char>>
    decreases n,
{
    if n == 0 {
        Seq::empty()
    } else {
        let before = packet_texts(output, (n - 1) as nat);
        match json::text_in(json::json_at(output, packet_pointer((n - 1) as nat))) {
            Some(t) => before.push(t),
            None => before,
        }
    }
}

/// The texts among fields, in order.
pub open spec fn texts_among(fields: Seq<Datum>) -> Seq<Seq<char>>
    decreases fields.len(),
{
    if fields.len() == 0 {
        Seq::empty()
    } else {
        let before = texts_among(fields.drop_last());
        match json::text_in(fields.last()) {
            Some(t) => before.push(t),
            None => before,
        }
    }
}

/// The fields with their characters.
pub open spec fn data(fields: Seq<Field>) -> Seq<Datum> {
    fields.map_values(|f: Field| json::datum(f))
}

/// The texts among fields, in order.
pub fn given_texts(fields: &Vec<Field>) -> (r: Vec<String>)
    ensures
        text::texts(r@) == texts_among(data(fields@)),
{
    let mut out: Vec<String> = Vec::new();
    let mut i: usize = 0;
    assert(text::texts(out@) =~= texts_among(data(fields@).take(0)));
    while i < fields.len()
        invariant
            i <= fields@.len(),
            text::texts(out@) == texts_among(data(fields@).take(i as int)),
        decreases fields@.len() - i,
    {
        let ghost next = data(fields@).take(i + 1);
        assert(next.drop_last() =~= data(fields@).take(i as int));
        assert(next.last() == json::datum(fields@[i as int]));
        if let Some(t) = fields[i].text() {
            text::push_text(&mut out, t.as_str());
        }
        i += 1;
    }
    assert(data(fields@).take(i as int) =~= data(fields@));
    out
}

/// The texts among what stands at the packets' places are the packets' times.
proof fn lemma_packet_texts(output: Seq<u8>, fields: Seq<Datum>)
    requires
        forall|i: int|
            0 <= i < fields.len() ==> #[trigger] fields[i] == json::json_at(
                output,
                packet_pointer(i as nat),
            ),
    ensures
        texts_among(fields) == packet_texts(output, fields.len()),
    decreases fields.len(),
{
    if fields.len() > 0 {
        let rest = fields.drop_last();
        assert forall|i: int| 0 <= i < rest.len() implies #[trigger] rest[i] == json::json_at(
            output,
            packet_pointer(i as nat),
        ) by {
            assert(rest[i] == fields[i]);
        }
        lemma_packet_texts(output, rest);
        assert(fields.last() == fields[fields.len() - 1]);
    }
}

/// The times of a video's packets that ffprobe printed, still as texts.
pub fn packet_times(output: &[u8]) -> (r: Result<Vec<String>, ProbeError>)
    ensures
        if json::is_json(output@) {
            match (json::json_at(output@, "/packets"@), r) {
                (Datum::List(n), Ok(times)) => text::texts(times@) == packet_texts(output@, n),
                (Datum::List(_), Err(_)) => false,
                (_, r) => r == Err::<Vec<String>, ProbeError>(ProbeError::NoPackets),
            }
        } else {
            r == Err::<Vec<String>, ProbeError>(ProbeError::BadJson)
        },
{
    let n: usize = match json::fields(output, &["/packets"]) {
        Some(f) => match f[0] {
            Field::List(n) => n,
            _ => {
                return Err(ProbeError::NoPackets);
            },
        },
        None => {
            return Err(ProbeError::BadJson);
        },
    };
    let mut pointers: Vec<String> = Vec::new();
    let mut i: usize = 0;
    while i < n
        invariant
            i <= n,
            pointers@.len() == i,
            forall|k: int| 0 <= k < i ==> (#[trigger] pointers@[k])@ == packet_pointer(k as nat),
        decreases n - i,
    {
        let number = text::decimal(i as u64);
        let mut pointer = text::concat("/packets/", number.as_str());
        pointer.append("/pts_time");
        pointers.push(pointer);
        i += 1;
    }
    match json::read_json(output, &pointers) {
        Some(f) => {
            proof {
                lemma_packet_texts(output@, data(f@));
            }
            Ok(given_texts(&f))
        },
        None => Err(ProbeError::BadJson),
    }
}

/// What a video is, for the page: its numbers still as texts, and its size as it is
/// given.
#[derive(Debug)]
pub struct VideoProbe {
    pub average_rate: Option<(String, String)>,
    pub rate: Option<(String, String)>,
    pub duration: Option<String>,
    pub width: Field,
    pub height: Field,
}

/// What ffprobe printed of a video for the page; `None` when it is no JSON.
pub fn video_probe(output: &[u8]) -> (r: Option<VideoProbe>)
    ensures
        r is Some == json::is_json(output@),
        r matches Some(p) ==> {
            &&& opt_quotient(p.average_rate) == quotient_in(
                in_stream(output@, "/streams/0/avg_frame_rate"@),
            )
            &&& opt_quotient(p.rate) == quotient_in(
                in_stream(output@, "/streams/0/r_frame_rate"@),
            )
            &&& text::opt_text(p.duration) == json::text_in(
                json::json_at(output@, "/format/duration"@),
            )
            &&& json::datum(p.width) == in_stream(output@, "/streams/0/width"@)
            &&& json::datum(p.height) == in_stream(output@, "/streams/0/height"@)
        },
{
    let mut f = match json::fields(
        output,
        &[
            "/streams",
            "/streams/0/avg_frame_rate",
            "/streams/0/r_frame_rate",
            "/format/duration",
            "/streams/0/width",
            "/streams/0/height",
        ],
    ) {
        Some(f) => f,
        None => {
            return None;
        },
    };
    let duration = f[3].text();
    match f[0] {
        Field::List(_) => {
            let average_rate = quotient(&f[1]);
            let rate = quotient(&f[2]);
            let height = f.remove(5);
            let width = f.remove(4);
            Some(VideoProbe { average_rate, rate, duration, width, height })
        },
        _ => Some(
            VideoProbe {
                average_rate: None,
                rate: None,
                duration,
                width: Field::Nothing,
                height: Field::Nothing,
            },
        ),
    }
}

/// Why a change to a session is refused at once.
#[derive(Clone, Copy, Debug, PartialEq, Eq, Structural)]
pub enum ChangeError {
    /// The body is no JSON.
    BadJson,
    NoSession,
    /// Neither a delay nor its removal is asked for.
    NoDelay,
}

/// The frame whose boxes are to be replaced, as a request names it.
#[derive(Clone, Debug)]
pub struct ObjectsRequest {
    pub session: String,
    /// The first segment where none is given.
    pub seg: Option<String>,
    pub frame: Option<u64>,
}

/// The frame whose boxes the body of a request replaces.
pub fn objects_request(body: &[u8]) -> (r: Result<ObjectsRequest, ChangeError>)
    ensures
        ({
            let session = json::text_in(json::json_at(body@, "/s"@));
            match r {
                Ok(q) => {
                    &&& json::is_json(body@)
                    &&& session == Some(q.session@)
                    &&& text::opt_text(q.seg) == filled(
                        json::text_in(json::json_at(body@, "/seg"@)),
                    )
                    &&& q.frame == json::whole_in(json::json_at(body@, "/frame"@))
                },
                Err(ChangeError::BadJson) => !json::is_json(body@),
                Err(ChangeError::NoSession) => json::is_json(body@) && session is None,
                Err(ChangeError::NoDelay) => false,
            }
        }),
{
    let f = match json::fields(body, &["/s", "/seg", "/frame"]) {
        Some(f) => f,
        None => {
            return Err(ChangeError::BadJson);
        },
    };
    let session = match f[0].text() {
        Some(s) => s,
        None => {
            return Err(ChangeError::NoSession);
        },
    };
    let seg = match f[1].text() {
        Some(s) => crate::studio::non_empty(s),
        None => None,
    };
    Ok(ObjectsRequest { session, seg, frame: f[2].whole() })
}

/// The session whose delay the body of a request sets, and the delay; without one,
/// the delay that was set by hand is removed.
pub fn delay_request(body: &[u8]) -> (r: Result<(String, Option<Double>), ChangeError>)
    ensures
        ({
            let session = json::text_in(json::json_at(body@, "/s"@));
            let remove = json::json_at(body@, "/remove"@) == Datum::Truth(true);
            let delay = json::double_in(json::json_at(body@, "/video_delay_ms"@));
            match r {
                Ok(q) => {
                    &&& json::is_json(body@)
                    &&& session == Some(q.0@)
                    &&& remove || delay is Some
                    &&& q.1 == (if remove {
                        None
                    } else {
                        delay
                    })
                },
                Err(ChangeError::BadJson) => !json::is_json(body@),
                Err(ChangeError::NoSession) => json::is_json(body@) && session is None,
                Err(ChangeError::NoDelay) => json::is_json(body@) && session is Some && !remove
                    && delay is None,
            }
        }),
{
    let f = match json::fields(body, &["/s", "/remove", "/video_delay_ms"]) {
        Some(f) => f,
        None => {
            return Err(ChangeError::BadJson);
        },
    };
    let session = match f[0].text() {
        Some(s) => s,
        None => {
            return Err(ChangeError::NoSession);
        },
    };
    if let Field::Truth(true) = f[1] {
        return Ok((session, None));
    }
    match f[2].double() {
        Some(d) => Ok((session, Some(d))),
        None => Err(ChangeError::NoDelay),
    }
}

} // verus!
