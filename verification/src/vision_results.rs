//! What a run found: ids from tracks, and summaries per class and per track.
use crate::double;
use crate::double::Double;
use crate::text;
use vstd::prelude::*;

verus! {

/// A box that was found on a frame.
#[derive(Clone, Debug)]
pub struct Found {
    pub class: String,
    /// The track it belongs to.
    pub id: Option<u64>,
    pub score: Option<Double>,
}

/// The boxes that were found on a frame.
#[derive(Clone, Debug)]
pub struct FoundFrame {
    pub frame: u64,
    pub boxes: Vec<Found>,
}

/// A detection that a track may take: free, of its class, and overlapping it.
pub open spec fn may_take(d: Found, track: Found, overlap: Double) -> bool {
    &&& d.id is None
    &&& d.class@ == track.class@
    &&& double::below(Double { bits: double::ZERO }, overlap)
}

/// The detection among the first `n` that overlaps a track most, the last of those
/// that overlap it as much; the length when none may be taken.
pub open spec fn best_match(
    detections: Seq<Found>,
    track: Found,
    overlaps: Seq<Double>,
    n: int,
) -> int
    decreases n,
{
    if n <= 0 {
        detections.len() as int
    } else {
        let before = best_match(detections, track, overlaps, n - 1);
        if may_take(detections[n - 1], track, overlaps[n - 1]) && (before == detections.len()
            || double::at_most(overlaps[before], overlaps[n - 1])) {
            n - 1
        } else {
            before
        }
    }
}

/// The detection that a track takes overlaps it at least as much as any other that
/// it may take.
pub proof fn law_best_match(
    detections: Seq<Found>,
    track: Found,
    overlaps: Seq<Double>,
    n: int,
    i: int,
)
    requires
        0 <= i < n <= detections.len(),
        overlaps.len() == detections.len(),
        may_take(detections[i], track, overlaps[i]),
    ensures
        ({
            let b = best_match(detections, track, overlaps, n);
            &&& 0 <= b < n
            &&& may_take(detections[b], track, overlaps[b])
            &&& double::at_most(overlaps[i], overlaps[b])
        }),
    decreases n,
{
    lemma_best_match(detections, track, overlaps, n - 1);
    if i < n - 1 {
        law_best_match(detections, track, overlaps, n - 1, i);
    }
}

/// The best match is one that may be taken.
proof fn lemma_best_match(detections: Seq<Found>, track: Found, overlaps: Seq<Double>, n: int)
    requires
        0 <= n <= detections.len(),
        overlaps.len() == detections.len(),
    ensures
        ({
            let b = best_match(detections, track, overlaps, n);
            b == detections.len() || 0 <= b < n && may_take(detections[b], track, overlaps[b])
        }),
    decreases n,
{
    if n > 0 {
        lemma_best_match(detections, track, overlaps, n - 1);
    }
}

/// The ids of the detections after the first tracks took theirs.
pub open spec fn with_ids(
    detections: Seq<Found>,
    tracks: Seq<Found>,
    overlaps: Seq<Vec<Double>>,
    n: int,
) -> Seq<Found>
    decreases n,
{
    if n <= 0 {
        detections
    } else {
        let before = with_ids(detections, tracks, overlaps, n - 1);
        let b = best_match(before, tracks[n - 1], overlaps[n - 1]@, before.len() as int);
        if b < before.len() {
            before.update(b, Found { id: tracks[n - 1].id, ..before[b] })
        } else {
            before
        }
    }
}

/// Give detections the ids of the tracks that matched them: each track takes
/// the free detection of its class that it overlaps most. `overlaps[t][d]` is how
/// much track `t` and detection `d` overlap.
pub fn assign_ids(
    detections: &mut Vec<Found>,
    tracks: &Vec<Found>,
    overlaps: &Vec<Vec<Double>>,
)
    requires
        overlaps@.len() == tracks@.len(),
        forall|t: int|
            0 <= t < overlaps@.len() ==> (#[trigger] overlaps@[t])@.len() == old(
                detections,
            )@.len(),
    ensures
        final(detections)@ == with_ids(
            old(detections)@,
            tracks@,
            overlaps@,
            tracks@.len() as int,
        ),
{
    let n: usize = detections.len();
    let mut t: usize = 0;
    while t < tracks.len()
        invariant
            t <= tracks@.len(),
            n == detections@.len(),
            n == old(detections)@.len(),
            overlaps@.len() == tracks@.len(),
            forall|t: int| 0 <= t < overlaps@.len() ==> (#[trigger] overlaps@[t])@.len() == n,
            detections@ == with_ids(old(detections)@, tracks@, overlaps@, t as int),
        decreases tracks@.len() - t,
    {
        let row = &overlaps[t];
        let track = &tracks[t];
        let mut best: usize = n;
        let mut i: usize = 0;
        while i < n
            invariant
                i <= n,
                n == detections@.len(),
                row@.len() == n,
                best == best_match(detections@, *track, row@, i as int),
                best == n || best < i,
            decreases n - i,
        {
            let zero = Double { bits: double::ZERO };
            let d = &detections[i];
            let free = d.id.is_none() && text::same(d.class.as_str(), track.class.as_str());
            if free && zero.below(&row[i]) && (best == n || row[best].at_most(&row[i])) {
                best = i;
            }
            i += 1;
        }
        if best < n {
            let class = detections[best].class.clone();
            let score = detections[best].score;
            detections.set(best, Found { class, id: track.id, score });
        }
        t += 1;
    }
}

/// Tracks leave the number, the classes and the scores of the detections, and the
/// ids of those that have one.
pub proof fn law_ids_stay(
    detections: Seq<Found>,
    tracks: Seq<Found>,
    overlaps: Seq<Vec<Double>>,
    n: int,
    i: int,
)
    requires
        0 <= n <= tracks.len(),
        overlaps.len() == tracks.len(),
        forall|t: int|
            0 <= t < overlaps.len() ==> (#[trigger] overlaps[t])@.len() == detections.len(),
        0 <= i < detections.len(),
    ensures
        with_ids(detections, tracks, overlaps, n).len() == detections.len(),
        with_ids(detections, tracks, overlaps, n)[i].class == detections[i].class,
        with_ids(detections, tracks, overlaps, n)[i].score == detections[i].score,
        detections[i].id is Some ==> with_ids(detections, tracks, overlaps, n)[i].id
            == detections[i].id,
    decreases n,
{
    if n > 0 {
        law_ids_stay(detections, tracks, overlaps, n - 1, i);
        let before = with_ids(detections, tracks, overlaps, n - 1);
        lemma_best_match(before, tracks[n - 1], overlaps[n - 1]@, before.len() as int);
    }
}

/// What one more track changes. Of the detections that are still free, of the track's
/// class, and overlapping it, it takes the one that it overlaps most, the last of
/// those that it overlaps as much; nothing else changes, and without such a detection
/// nothing does. Overlaps that are larger than 0 compare by their bits.
pub proof fn law_track_takes_its_best_detection(
    detections: Seq<Found>,
    tracks: Seq<Found>,
    overlaps: Seq<Vec<Double>>,
    t: int,
    i: int,
)
    requires
        0 <= t < tracks.len(),
        overlaps.len() == tracks.len(),
        forall|k: int|
            0 <= k < overlaps.len() ==> (#[trigger] overlaps[k])@.len() == detections.len(),
        0 <= i < detections.len(),
    ensures
        ({
            let before = with_ids(detections, tracks, overlaps, t);
            let after = with_ids(detections, tracks, overlaps, t + 1);
            let row = overlaps[t]@;
            &&& after.len() == before.len() == detections.len()
            &&& after != before ==> exists|b: int|
                0 <= b < before.len() && #[trigger] after[b].id == tracks[t].id && before[b].id is None
                    && before[b].class@ == tracks[t].class@ && 0 < row[b].bits
                    <= 0x7ff0_0000_0000_0000 && after == before.update(
                    b,
                    Found { id: tracks[t].id, ..before[b] },
                )
            &&& before[i].id is None && before[i].class@ == tracks[t].class@ && 0 < row[i].bits
                <= 0x7ff0_0000_0000_0000 ==> exists|b: int|
                0 <= b < before.len() && #[trigger] after[b].id == tracks[t].id && before[b].id is None
                    && before[b].class@ == tracks[t].class@ && (row[i].bits < row[b].bits || (
                row[i].bits == row[b].bits && i <= b)) && row[b].bits <= 0x7ff0_0000_0000_0000
        }),
{
    law_ids_stay(detections, tracks, overlaps, t, i);
    law_ids_stay(detections, tracks, overlaps, t + 1, i);
    let before = with_ids(detections, tracks, overlaps, t);
    let after = with_ids(detections, tracks, overlaps, t + 1);
    let row = overlaps[t]@;
    let n = before.len() as int;
    let b = best_match(before, tracks[t], row, n);
    lemma_best_match(before, tracks[t], row, n);
    if b < n {
        assert(after[b].id == tracks[t].id);
    }
    if may_take(before[i], tracks[t], row[i]) {
        law_best_match(before, tracks[t], row, n, i);
        lemma_last_best(before, tracks[t], row, n, i);
    }
}

/// Of those that overlap as much the last is the match.
proof fn lemma_last_best(
    detections: Seq<Found>,
    track: Found,
    overlaps: Seq<Double>,
    n: int,
    i: int,
)
    requires
        0 <= i < n <= detections.len(),
        overlaps.len() == detections.len(),
        may_take(detections[i], track, overlaps[i]),
    ensures
        ({
            let b = best_match(detections, track, overlaps, n);
            0 <= b < n && (overlaps[b].bits == overlaps[i].bits ==> i <= b)
        }),
    decreases n,
{
    law_best_match(detections, track, overlaps, n, i);
    lemma_best_match(detections, track, overlaps, n - 1);
    if i < n - 1 {
        lemma_last_best(detections, track, overlaps, n - 1, i);
        law_best_match(detections, track, overlaps, n - 1, i);
    } else {
        let before = best_match(detections, track, overlaps, n - 1);
        if before < detections.len() {
            law_best_match(detections, track, overlaps, n - 1, before);
        }
    }
}

/// A detection whose id changed had none, and now has that of a track of its own class
/// that overlaps it; its class and score stay.
pub proof fn law_ids_go_to_their_class(
    detections: Seq<Found>,
    tracks: Seq<Found>,
    overlaps: Seq<Vec<Double>>,
    n: int,
    i: int,
)
    requires
        0 <= n <= tracks.len(),
        overlaps.len() == tracks.len(),
        forall|k: int|
            0 <= k < overlaps.len() ==> (#[trigger] overlaps[k])@.len() == detections.len(),
        0 <= i < detections.len(),
        with_ids(detections, tracks, overlaps, n)[i].id != detections[i].id,
    ensures
        detections[i].id is None,
        exists|t: int|
            0 <= t < n && (#[trigger] tracks[t]).id == with_ids(
                detections,
                tracks,
                overlaps,
                n,
            )[i].id && tracks[t].class@ == detections[i].class@ && 0 < overlaps[t]@[i].bits
                <= 0x7ff0_0000_0000_0000,
    decreases n,
{
    law_ids_stay(detections, tracks, overlaps, n, i);
    if n > 0 {
        let before = with_ids(detections, tracks, overlaps, n - 1);
        let after = with_ids(detections, tracks, overlaps, n);
        law_ids_stay(detections, tracks, overlaps, n - 1, i);
        let row = overlaps[n - 1]@;
        let b = best_match(before, tracks[n - 1], row, before.len() as int);
        lemma_best_match(before, tracks[n - 1], row, before.len() as int);
        if after[i].id == before[i].id {
            law_ids_go_to_their_class(detections, tracks, overlaps, n - 1, i);
        } else {
            assert(b == i);
            assert(tracks[n - 1].id == after[i].id);
        }
    }
}

/// The boxes of a class among a frame's first ones, in order.
pub open spec fn class_in(boxes: Seq<Found>, class: Seq<char>, n: int) -> Seq<Found>
    decreases n,
{
    if n <= 0 {
        Seq::empty()
    } else if boxes[n - 1].class@ == class {
        class_in(boxes, class, n - 1).push(boxes[n - 1])
    } else {
        class_in(boxes, class, n - 1)
    }
}

/// The boxes of a class on the first frames, in order.
pub open spec fn class_boxes(frames: Seq<FoundFrame>, class: Seq<char>, n: int) -> Seq<Found>
    decreases n,
{
    if n <= 0 {
        Seq::empty()
    } else {
        let boxes = frames[n - 1].boxes@;
        class_boxes(frames, class, n - 1) + class_in(boxes, class, boxes.len() as int)
    }
}

/// How many of the first frames have a box of a class.
pub open spec fn class_frames(frames: Seq<FoundFrame>, class: Seq<char>, n: int) -> nat
    decreases n,
{
    if n <= 0 {
        0
    } else {
        let boxes = frames[n - 1].boxes@;
        class_frames(frames, class, n - 1) + if class_in(boxes, class, boxes.len() as int).len()
            > 0 {
            1nat
        } else {
            0
        }
    }
}

/// The scores of boxes; a box without one counts as 0.
pub open spec fn scores_of(boxes: Seq<Found>) -> Seq<Double> {
    boxes.map_values(
        |b: Found|
            match b.score {
                Some(s) => s,
                None => Double { bits: double::ZERO },
            },
    )
}

/// A class in the summary.
#[derive(Clone, Debug)]
pub struct ClassSummary {
    pub class: String,
    /// Its boxes.
    pub boxes: usize,
    /// The frames that have one.
    pub frames: usize,
    /// The scores of its boxes, in order.
    pub scores: Vec<Double>,
}

/// A track in the summary.
#[derive(Clone, Debug)]
pub struct TrackSummary {
    pub id: u64,
    /// The class of its first box.
    pub class: String,
    /// The frames that have one.
    pub frames: usize,
    pub first: u64,
    pub last: u64,
}

/// Some box on the first frames is of a class.
pub open spec fn is_class(frames: Seq<FoundFrame>, class: Seq<char>, n: int) -> bool {
    class_boxes(frames, class, n).len() > 0
}

/// What the summary says of a class.
pub open spec fn is_class_summary(frames: Seq<FoundFrame>, s: ClassSummary) -> bool {
    let n = frames.len() as int;
    let boxes = class_boxes(frames, s.class@, n);
    &&& s.boxes == boxes.len()
    &&& s.boxes > 0
    &&& s.frames == class_frames(frames, s.class@, n)
    &&& s.scores@ == scores_of(boxes)
}

/// The class with more boxes comes first; with as many, the one whose name does.
pub open spec fn class_before(a: ClassSummary, b: ClassSummary) -> bool {
    a.boxes > b.boxes || a.boxes == b.boxes && text::comes_before(a.class@, b.class@)
}

/// Each class once, in its place.
pub open spec fn classes_in_order(list: Seq<ClassSummary>) -> bool {
    forall|i: int, j: int| 0 <= i < j < list.len() ==> class_before(#[trigger] list[i], #[trigger] list[j])
}

/// The boxes of a track among a frame's first ones: the frame and the class of each.
pub open spec fn track_in(frame: FoundFrame, id: u64, n: int) -> Seq<(u64, Seq<char>)>
    decreases n,
{
    if n <= 0 {
        Seq::empty()
    } else if frame.boxes@[n - 1].id == Some(id) {
        track_in(frame, id, n - 1).push((frame.frame, frame.boxes@[n - 1].class@))
    } else {
        track_in(frame, id, n - 1)
    }
}

/// The boxes of a track on the first frames: the frame and the class of each.
pub open spec fn track_boxes(frames: Seq<FoundFrame>, id: u64, n: int) -> Seq<(u64, Seq<char>)>
    decreases n,
{
    if n <= 0 {
        Seq::empty()
    } else {
        let f = frames[n - 1];
        track_boxes(frames, id, n - 1) + track_in(f, id, f.boxes@.len() as int)
    }
}

/// How many of the first frames have a box of a track.
pub open spec fn track_frames(frames: Seq<FoundFrame>, id: u64, n: int) -> nat
    decreases n,
{
    if n <= 0 {
        0
    } else {
        let f = frames[n - 1];
        track_frames(frames, id, n - 1) + if track_in(f, id, f.boxes@.len() as int).len() > 0 {
            1nat
        } else {
            0
        }
    }
}

/// What the summary says of a track.
pub open spec fn is_track_summary(frames: Seq<FoundFrame>, s: TrackSummary) -> bool {
    let n = frames.len() as int;
    &&& s.frames == track_frames(frames, s.id, n)
    &&& is_track_of(track_boxes(frames, s.id, n), s)
}

/// What boxes say of the class of their track and of its first and last frame.
pub open spec fn is_track_of(boxes: Seq<(u64, Seq<char>)>, s: TrackSummary) -> bool {
    &&& boxes.len() > 0
    &&& s.class@ == boxes[0].1
    &&& forall|i: int| 0 <= i < boxes.len() ==> s.first <= (#[trigger] boxes[i]).0 <= s.last
    &&& exists|i: int| 0 <= i < boxes.len() && (#[trigger] boxes[i]).0 == s.first
    &&& exists|i: int| 0 <= i < boxes.len() && (#[trigger] boxes[i]).0 == s.last
}

/// Each track once, by id.
pub open spec fn tracks_in_order(list: Seq<TrackSummary>) -> bool {
    forall|i: int, j: int| 0 <= i < j < list.len() ==> (#[trigger] list[i]).id < (#[trigger] list[j]).id
}

/// What a run's boxes say of a class.
fn class_summary(frames: &Vec<FoundFrame>, class: &str) -> (r: ClassSummary)
    requires
        is_class(frames@, class@, frames@.len() as int),
    ensures
        r.class@ == class@,
        is_class_summary(frames@, r),
{
    let mut scores: Vec<Double> = Vec::new();
    let mut count: usize = 0;
    let mut i: usize = 0;
    while i < frames.len()
        invariant
            i <= frames@.len(),
            count <= i,
            count == class_frames(frames@, class@, i as int),
            scores@ == scores_of(class_boxes(frames@, class@, i as int)),
        decreases frames@.len() - i,
    {
        let boxes = &frames[i].boxes;
        let ghost before = class_boxes(frames@, class@, i as int);
        let mut seen = false;
        let mut j: usize = 0;
        assert(before + class_in(boxes@, class@, 0) =~= before);
        while j < boxes.len()
            invariant
                j <= boxes@.len(),
                seen == (class_in(boxes@, class@, j as int).len() > 0),
                scores@ == scores_of(before + class_in(boxes@, class@, j as int)),
            decreases boxes@.len() - j,
        {
            if text::same(boxes[j].class.as_str(), class) {
                let score = match boxes[j].score {
                    Some(s) => s,
                    None => Double { bits: double::ZERO },
                };
                scores.push(score);
                seen = true;
                assert(scores@ =~= scores_of(before + class_in(boxes@, class@, j + 1)));
            }
            j += 1;
        }
        if seen {
            count += 1;
        }
        i += 1;
    }
    let boxes = scores.len();
    ClassSummary { class: class.to_owned(), boxes, frames: count, scores }
}

/// Put a class into its place.
fn insert_class(list: &mut Vec<ClassSummary>, s: ClassSummary)
    requires
        classes_in_order(old(list)@),
        forall|i: int| 0 <= i < old(list)@.len() ==> (#[trigger] old(list)@[i]).class@ != s.class@,
    ensures
        classes_in_order(final(list)@),
        exists|p: int|
            0 <= p <= old(list)@.len() && #[trigger] old(list)@.insert(p, s) == final(list)@,
{
    let ghost before = list@;
    let mut p: usize = 0;
    while p < list.len() && (list[p].boxes > s.boxes || list[p].boxes == s.boxes && text::precedes(
        list[p].class.as_str(),
        s.class.as_str(),
    ))
        invariant
            p <= list@.len(),
            list@ == before,
            forall|i: int| 0 <= i < p ==> class_before(#[trigger] before[i], s),
        decreases list@.len() - p,
    {
        p += 1;
    }
    proof {
        assert forall|i: int| p <= i < before.len() implies class_before(s, #[trigger] before[i]) by {
            text::law_order_total(s.class@, before[p as int].class@);
            if i > p {
                assert(class_before(before[p as int], before[i]));
                if before[p as int].boxes == before[i].boxes && s.boxes == before[i].boxes {
                    text::law_order_transitive(
                        s.class@,
                        before[p as int].class@,
                        before[i].class@,
                    );
                }
            }
        }
    }
    let ghost all = before.insert(p as int, s);
    list.insert(p, s);
    proof {
        assert forall|i: int, j: int| 0 <= i < j < all.len() implies class_before(
            #[trigger] all[i],
            #[trigger] all[j],
        ) by {
            let a = if i < p {
                i
            } else {
                i - 1
            };
            let b = if j < p {
                j
            } else {
                j - 1
            };
            if i != p && j != p {
                assert(all[i] == before[a] && all[j] == before[b]);
            } else if i == p {
                assert(all[j] == before[b]);
            } else {
                assert(all[i] == before[a]);
            }
        }
        assert(before.insert(p as int, s) == list@);
    }
}

/// A class that has a box on a frame has boxes.
proof fn lemma_class_of_box(frames: Seq<FoundFrame>, k: int, m: int, n: int)
    requires
        0 <= k < n <= frames.len(),
        0 <= m < frames[k].boxes@.len(),
    ensures
        is_class(frames, frames[k].boxes@[m].class@, n),
    decreases n,
{
    let class = frames[k].boxes@[m].class@;
    if k < n - 1 {
        lemma_class_of_box(frames, k, m, n - 1);
    } else {
        lemma_class_in(frames[k].boxes@, m, frames[k].boxes@.len() as int);
    }
}

/// A class that has a box among a frame's first ones has boxes there.
proof fn lemma_class_in(boxes: Seq<Found>, m: int, n: int)
    requires
        0 <= m < n <= boxes.len(),
    ensures
        class_in(boxes, boxes[m].class@, n).len() > 0,
    decreases n,
{
    if m < n - 1 {
        lemma_class_in(boxes, m, n - 1);
    }
}

/// A class stands in a summary.
pub open spec fn has_class(list: Seq<ClassSummary>, class: Seq<char>) -> bool {
    exists|i: int| 0 <= i < list.len() && (#[trigger] list[i]).class@ == class
}

/// A track stands in a summary.
pub open spec fn has_track(list: Seq<TrackSummary>, id: u64) -> bool {
    exists|i: int| 0 <= i < list.len() && (#[trigger] list[i]).id == id
}

/// Where a class stands in a summary.
fn find_class(list: &Vec<ClassSummary>, class: &str) -> (r: bool)
    ensures
        r == has_class(list@, class@),
{
    let mut i: usize = 0;
    while i < list.len()
        invariant
            i <= list@.len(),
            forall|k: int| 0 <= k < i ==> (#[trigger] list@[k]).class@ != class@,
        decreases list@.len() - i,
    {
        if text::same(list[i].class.as_str(), class) {
            return true;
        }
        i += 1;
    }
    false
}

/// The summary per class.
fn summarize_classes(frames: &Vec<FoundFrame>) -> (r: Vec<ClassSummary>)
    ensures
        classes_in_order(r@),
        forall|i: int| 0 <= i < r@.len() ==> is_class_summary(frames@, #[trigger] r@[i]),
        forall|k: int, m: int|
            0 <= k < frames@.len() && 0 <= m < frames@[k].boxes@.len() ==> has_class(
                r@,
                (#[trigger] frames@[k].boxes@[m]).class@,
            ),
{
    let mut out: Vec<ClassSummary> = Vec::new();
    let mut i: usize = 0;
    while i < frames.len()
        invariant
            i <= frames@.len(),
            classes_in_order(out@),
            forall|k: int| 0 <= k < out@.len() ==> is_class_summary(frames@, #[trigger] out@[k]),
            forall|k: int, m: int|
                0 <= k < i && 0 <= m < frames@[k].boxes@.len() ==> has_class(
                    out@,
                    (#[trigger] frames@[k].boxes@[m]).class@,
                ),
        decreases frames@.len() - i,
    {
        let boxes = &frames[i].boxes;
        let mut j: usize = 0;
        while j < boxes.len()
            invariant
                i < frames@.len(),
                j <= boxes@.len(),
                *boxes == frames@[i as int].boxes,
                classes_in_order(out@),
                forall|k: int|
                    0 <= k < out@.len() ==> is_class_summary(frames@, #[trigger] out@[k]),
                forall|k: int, m: int|
                    0 <= k < i && 0 <= m < frames@[k].boxes@.len() ==> has_class(
                        out@,
                        (#[trigger] frames@[k].boxes@[m]).class@,
                    ),
                forall|m: int| 0 <= m < j ==> has_class(out@, (#[trigger] boxes@[m]).class@),
            decreases boxes@.len() - j,
        {
            let class = boxes[j].class.as_str();
            if !find_class(&out, class) {
                proof {
                    lemma_class_of_box(frames@, i as int, j as int, frames@.len() as int);
                }
                let s = class_summary(frames, class);
                let ghost before = out@;
                insert_class(&mut out, s);
                proof {
                    let p = choose|p: int|
                        0 <= p <= before.len() && #[trigger] before.insert(p, s) == out@;
                    assert(out@[p] == s);
                    assert forall|c: Seq<char>| has_class(before, c) implies has_class(out@, c) by {
                        let q = choose|q: int|
                            0 <= q < before.len() && (#[trigger] before[q]).class@ == c;
                        let t = if q < p {
                            q
                        } else {
                            q + 1
                        };
                        assert(out@[t] == before[q]);
                    }
                    assert forall|k: int| 0 <= k < out@.len() implies is_class_summary(
                        frames@,
                        #[trigger] out@[k],
                    ) by {
                        if k < p {
                            assert(out@[k] == before[k]);
                        } else if k > p {
                            assert(out@[k] == before[k - 1]);
                        }
                    }
                }
            }
            j += 1;
        }
        i += 1;
    }
    out
}

/// What a run's boxes say of a track.
fn track_summary(frames: &Vec<FoundFrame>, id: u64) -> (r: TrackSummary)
    requires
        track_boxes(frames@, id, frames@.len() as int).len() > 0,
    ensures
        r.id == id,
        is_track_summary(frames@, r),
{
    let mut seen: Vec<u64> = Vec::new();
    let mut class = String::new();
    let mut count: usize = 0;
    let mut i: usize = 0;
    while i < frames.len()
        invariant
            i <= frames@.len(),
            count <= i,
            count == track_frames(frames@, id, i as int),
            seen@ == track_boxes(frames@, id, i as int).map_values(|b: (u64, Seq<char>)| b.0),
            seen@.len() > 0 ==> class@ == track_boxes(frames@, id, i as int)[0].1,
        decreases frames@.len() - i,
    {
        let f = &frames[i];
        let ghost before = track_boxes(frames@, id, i as int);
        let mut here = false;
        let mut j: usize = 0;
        assert(before + track_in(*f, id, 0) =~= before);
        while j < f.boxes.len()
            invariant
                j <= f.boxes@.len(),
                here == (track_in(*f, id, j as int).len() > 0),
                seen@ == (before + track_in(*f, id, j as int)).map_values(
                    |b: (u64, Seq<char>)| b.0,
                ),
                seen@.len() > 0 ==> class@ == (before + track_in(*f, id, j as int))[0].1,
            decreases f.boxes@.len() - j,
        {
            let b = &f.boxes[j];
            if b.id == Some(id) {
                if seen.len() == 0 {
                    class = b.class.clone();
                }
                seen.push(f.frame);
                here = true;
                assert(seen@ =~= (before + track_in(*f, id, j + 1)).map_values(
                    |b: (u64, Seq<char>)| b.0,
                ));
            }
            j += 1;
        }
        if here {
            count += 1;
        }
        i += 1;
    }
    let ghost boxes = track_boxes(frames@, id, frames@.len() as int);
    assert forall|k: int| 0 <= k < boxes.len() implies (#[trigger] boxes[k]).0 == seen@[k] by {}
    let mut first: u64 = seen[0];
    let mut last: u64 = seen[0];
    let mut k: usize = 1;
    while k < seen.len()
        invariant
            1 <= k <= seen@.len(),
            forall|m: int| 0 <= m < k ==> first <= #[trigger] seen@[m] <= last,
            exists|m: int| 0 <= m < k && #[trigger] seen@[m] == first,
            exists|m: int| 0 <= m < k && #[trigger] seen@[m] == last,
        decreases seen@.len() - k,
    {
        if seen[k] < first {
            first = seen[k];
        }
        if seen[k] > last {
            last = seen[k];
        }
        k += 1;
    }
    let r = TrackSummary { id, class, frames: count, first, last };
    proof {
        let a = choose|m: int| 0 <= m < k && #[trigger] seen@[m] == first;
        assert(boxes[a].0 == first);
        let b = choose|m: int| 0 <= m < k && #[trigger] seen@[m] == last;
        assert(boxes[b].0 == last);
        assert(is_track_of(boxes, r));
    }
    r
}

/// A track that has a box on a frame has boxes.
proof fn lemma_track_of_box(frames: Seq<FoundFrame>, k: int, m: int, id: u64, n: int)
    requires
        0 <= k < n <= frames.len(),
        0 <= m < frames[k].boxes@.len(),
        frames[k].boxes@[m].id == Some(id),
    ensures
        track_boxes(frames, id, n).len() > 0,
    decreases n,
{
    if k < n - 1 {
        lemma_track_of_box(frames, k, m, id, n - 1);
    } else {
        lemma_track_in(frames[k], m, id, frames[k].boxes@.len() as int);
    }
}

/// A track that has a box among a frame's first ones has boxes there.
proof fn lemma_track_in(frame: FoundFrame, m: int, id: u64, n: int)
    requires
        0 <= m < n <= frame.boxes@.len(),
        frame.boxes@[m].id == Some(id),
    ensures
        track_in(frame, id, n).len() > 0,
    decreases n,
{
    if m < n - 1 {
        lemma_track_in(frame, m, id, n - 1);
    }
}

/// The summary per track.
fn summarize_tracks(frames: &Vec<FoundFrame>) -> (r: Vec<TrackSummary>)
    ensures
        tracks_in_order(r@),
        forall|i: int| 0 <= i < r@.len() ==> is_track_summary(frames@, #[trigger] r@[i]),
        forall|k: int, m: int|
            0 <= k < frames@.len() && 0 <= m < frames@[k].boxes@.len() ==> (
            #[trigger] frames@[k].boxes@[m].id matches Some(id) ==> has_track(r@, id)),
{
    let mut out: Vec<TrackSummary> = Vec::new();
    let mut i: usize = 0;
    while i < frames.len()
        invariant
            i <= frames@.len(),
            tracks_in_order(out@),
            forall|k: int| 0 <= k < out@.len() ==> is_track_summary(frames@, #[trigger] out@[k]),
            forall|k: int, m: int|
                0 <= k < i && 0 <= m < frames@[k].boxes@.len() ==> (
                #[trigger] frames@[k].boxes@[m].id matches Some(id) ==> has_track(out@, id)),
        decreases frames@.len() - i,
    {
        let boxes = &frames[i].boxes;
        let mut j: usize = 0;
        while j < boxes.len()
            invariant
                i < frames@.len(),
                j <= boxes@.len(),
                *boxes == frames@[i as int].boxes,
                tracks_in_order(out@),
                forall|k: int|
                    0 <= k < out@.len() ==> is_track_summary(frames@, #[trigger] out@[k]),
                forall|k: int, m: int|
                    0 <= k < i && 0 <= m < frames@[k].boxes@.len() ==> (
                    #[trigger] frames@[k].boxes@[m].id matches Some(id) ==> has_track(out@, id)),
                forall|m: int|
                    0 <= m < j ==> (#[trigger] boxes@[m].id matches Some(id) ==> has_track(
                        out@,
                        id,
                    )),
            decreases boxes@.len() - j,
        {
            if let Some(id) = boxes[j].id {
                proof {
                    lemma_track_of_box(frames@, i as int, j as int, id, frames@.len() as int);
                }
                insert_track(frames, &mut out, id);
            }
            j += 1;
        }
        i += 1;
    }
    out
}

/// Put a track into its place, unless it stands there.
fn insert_track(frames: &Vec<FoundFrame>, list: &mut Vec<TrackSummary>, id: u64)
    requires
        tracks_in_order(old(list)@),
        forall|i: int|
            0 <= i < old(list)@.len() ==> is_track_summary(frames@, #[trigger] old(list)@[i]),
        track_boxes(frames@, id, frames@.len() as int).len() > 0,
    ensures
        tracks_in_order(final(list)@),
        forall|i: int|
            0 <= i < final(list)@.len() ==> is_track_summary(frames@, #[trigger] final(list)@[i]),
        has_track(final(list)@, id),
        forall|o: u64| #[trigger] has_track(old(list)@, o) ==> has_track(final(list)@, o),
{
    let ghost before = list@;
    let mut p: usize = 0;
    while p < list.len() && list[p].id < id
        invariant
            p <= list@.len(),
            list@ == before,
            forall|i: int| 0 <= i < p ==> (#[trigger] before[i]).id < id,
        decreases list@.len() - p,
    {
        p += 1;
    }
    if p < list.len() && list[p].id == id {
        return ;
    }
    let s = track_summary(frames, id);
    list.insert(p, s);
    proof {
        let all = list@;
        assert forall|i: int| p <= i < before.len() implies (#[trigger] before[i]).id > id by {
            if i > p {
                assert(before[p as int].id < before[i].id);
            }
        }
        assert forall|k: int| 0 <= k < all.len() implies #[trigger] all[k] == (if k < p {
            before[k]
        } else if k == p {
            s
        } else {
            before[k - 1]
        }) by {}
        assert forall|i: int, j: int| 0 <= i < j < all.len() implies (#[trigger] all[i]).id < (
        #[trigger] all[j]).id by {
            let a = if i < p {
                i
            } else {
                i - 1
            };
            let b = if j < p {
                j
            } else {
                j - 1
            };
            if i != p && j != p {
                assert(before[a].id < before[b].id);
            } else if i == p {
                assert(before[b].id > id);
            } else {
                assert(before[a].id < id);
            }
        }
        assert(all[p as int].id == id);
        assert forall|o: u64| #[trigger] has_track(before, o) implies has_track(all, o) by {
            let q = choose|q: int| 0 <= q < before.len() && (#[trigger] before[q]).id == o;
            let t = if q < p {
                q
            } else {
                q + 1
            };
            assert(all[t] == before[q]);
        }
    }
}

/// Per class: boxes, frames and scores; per track: class, frames, first and last
/// frame.
pub fn summarize(frames: &Vec<FoundFrame>) -> (r: (Vec<ClassSummary>, Vec<TrackSummary>))
    ensures
        classes_in_order(r.0@),
        forall|i: int| 0 <= i < r.0@.len() ==> is_class_summary(frames@, #[trigger] r.0@[i]),
        forall|k: int, m: int|
            0 <= k < frames@.len() && 0 <= m < frames@[k].boxes@.len() ==> has_class(
                r.0@,
                (#[trigger] frames@[k].boxes@[m]).class@,
            ),
        tracks_in_order(r.1@),
        forall|i: int| 0 <= i < r.1@.len() ==> is_track_summary(frames@, #[trigger] r.1@[i]),
        forall|k: int, m: int|
            0 <= k < frames@.len() && 0 <= m < frames@[k].boxes@.len() ==> (
            #[trigger] frames@[k].boxes@[m].id matches Some(id) ==> has_track(r.1@, id)),
{
    (summarize_classes(frames), summarize_tracks(frames))
}

/// A class's boxes among a frame's, by filtering.
proof fn lemma_class_filtered(boxes: Seq<Found>, class: Seq<char>, n: int)
    requires
        0 <= n <= boxes.len(),
    ensures
        class_in(boxes, class, n) == boxes.take(n).filter(|b: Found| b.class@ == class),
    decreases n,
{
    reveal(Seq::filter);
    if n > 0 {
        lemma_class_filtered(boxes, class, n - 1);
        assert(boxes.take(n).drop_last() =~= boxes.take(n - 1));
        assert(boxes.take(n).last() == boxes[n - 1]);
    } else {
        assert(boxes.take(n).filter(|b: Found| b.class@ == class) =~= Seq::empty());
    }
}

/// What the summary says of a class, counted on the frames themselves: its boxes are
/// all of its class on all frames, with their scores in that order, and its frames
/// those that have one.
pub proof fn law_class_summary_counts(frames: Seq<FoundFrame>, s: ClassSummary)
    requires
        is_class_summary(frames, s),
    ensures
        ({
            let class = s.class@;
            let per_frame = frames.map_values(
                |f: FoundFrame| f.boxes@.filter(|b: Found| b.class@ == class),
            );
            let boxes = per_frame.flatten();
            &&& s.boxes == boxes.len()
            &&& s.frames == per_frame.filter(|l: Seq<Found>| l.len() > 0).len()
            &&& s.scores@.len() == boxes.len()
            &&& forall|i: int|
                0 <= i < boxes.len() ==> #[trigger] s.scores@[i] == (match boxes[i].score {
                    Some(d) => d,
                    None => Double { bits: 0 },
                })
        }),
{
    let class = s.class@;
    let per_frame = frames.map_values(
        |f: FoundFrame| f.boxes@.filter(|b: Found| b.class@ == class),
    );
    lemma_class_boxes(frames, class, frames.len() as int);
    assert(per_frame.take(frames.len() as int) =~= per_frame);
}

/// The boxes and frames of a class, by filtering.
proof fn lemma_class_boxes(frames: Seq<FoundFrame>, class: Seq<char>, n: int)
    requires
        0 <= n <= frames.len(),
    ensures
        ({
            let per_frame = frames.map_values(
                |f: FoundFrame| f.boxes@.filter(|b: Found| b.class@ == class),
            ).take(n);
            &&& class_boxes(frames, class, n) == per_frame.flatten()
            &&& class_frames(frames, class, n) == per_frame.filter(
                |l: Seq<Found>| l.len() > 0,
            ).len()
        }),
    decreases n,
{
    reveal(Seq::filter);
    let all = frames.map_values(|f: FoundFrame| f.boxes@.filter(|b: Found| b.class@ == class));
    let per_frame = all.take(n);
    if n > 0 {
        lemma_class_boxes(frames, class, n - 1);
        let boxes = frames[n - 1].boxes@;
        lemma_class_filtered(boxes, class, boxes.len() as int);
        assert(boxes.take(boxes.len() as int) =~= boxes);
        assert(per_frame.drop_last() =~= all.take(n - 1));
        assert(per_frame.last() == class_in(boxes, class, boxes.len() as int));
        per_frame.lemma_flatten_and_flatten_alt_are_equivalent();
        per_frame.drop_last().lemma_flatten_and_flatten_alt_are_equivalent();
        assert(per_frame.flatten() =~= per_frame.drop_last().flatten() + per_frame.last());
    } else {
        assert(per_frame.flatten() =~= Seq::empty());
        assert(per_frame.filter(|l: Seq<Found>| l.len() > 0).len() == 0);
    }
}

/// A track's boxes on the first frames are those of its id there.
proof fn lemma_track_boxes(frames: Seq<FoundFrame>, id: u64, n: int, q: int)
    requires
        0 <= n <= frames.len(),
        0 <= q < track_boxes(frames, id, n).len(),
    ensures
        exists|k: int, m: int|
            0 <= k < n && 0 <= m < frames[k].boxes@.len() && (
            #[trigger] frames[k].boxes@[m]).id == Some(id) && track_boxes(frames, id, n)[q] == (
                frames[k].frame,
                frames[k].boxes@[m].class@,
            ),
    decreases n,
{
    if n > 0 {
        let before = track_boxes(frames, id, n - 1);
        if q < before.len() {
            lemma_track_boxes(frames, id, n - 1, q);
        } else {
            let f = frames[n - 1];
            lemma_track_boxes_in(f, id, f.boxes@.len() as int, q - before.len());
            let m = choose|m: int|
                0 <= m < f.boxes@.len() && (#[trigger] f.boxes@[m]).id == Some(id) && track_in(
                    f,
                    id,
                    f.boxes@.len() as int,
                )[q - before.len()] == (f.frame, f.boxes@[m].class@);
            assert(frames[n - 1].boxes@[m].id == Some(id));
        }
    }
}

/// So are those on a frame.
proof fn lemma_track_boxes_in(f: FoundFrame, id: u64, n: int, q: int)
    requires
        0 <= n <= f.boxes@.len(),
        0 <= q < track_in(f, id, n).len(),
    ensures
        exists|m: int|
            0 <= m < n && (#[trigger] f.boxes@[m]).id == Some(id) && track_in(f, id, n)[q] == (
                f.frame,
                f.boxes@[m].class@,
            ),
    decreases n,
{
    if n > 0 {
        let before = track_in(f, id, n - 1);
        if q < before.len() {
            lemma_track_boxes_in(f, id, n - 1, q);
        } else {
            assert(f.boxes@[n - 1].id == Some(id));
        }
    }
}

/// A box of a track is among the track's boxes.
proof fn lemma_box_is_tracked(frames: Seq<FoundFrame>, id: u64, n: int, k: int, m: int)
    requires
        0 <= k < n <= frames.len(),
        0 <= m < frames[k].boxes@.len(),
        frames[k].boxes@[m].id == Some(id),
    ensures
        exists|q: int|
            0 <= q < track_boxes(frames, id, n).len() && (#[trigger] track_boxes(
                frames,
                id,
                n,
            )[q]).0 == frames[k].frame,
    decreases n,
{
    let before = track_boxes(frames, id, n - 1);
    let all = track_boxes(frames, id, n);
    if k < n - 1 {
        lemma_box_is_tracked(frames, id, n - 1, k, m);
        let q = choose|q: int|
            0 <= q < before.len() && (#[trigger] before[q]).0 == frames[k].frame;
        assert(all[q] == before[q]);
    } else {
        let f = frames[k];
        lemma_track_in(f, m, id, f.boxes@.len() as int);
        lemma_track_boxes_in(f, id, f.boxes@.len() as int, 0);
        assert(all[before.len() as int] == track_in(f, id, f.boxes@.len() as int)[0]);
    }
}

/// The frames that a track is on, by filtering.
proof fn lemma_track_frames(frames: Seq<FoundFrame>, id: u64, n: int)
    requires
        0 <= n <= frames.len(),
    ensures
        track_frames(frames, id, n) == frames.take(n).filter(
            |f: FoundFrame|
                exists|m: int| 0 <= m < f.boxes@.len() && (#[trigger] f.boxes@[m]).id == Some(id),
        ).len(),
    decreases n,
{
    reveal(Seq::filter);
    let on = |f: FoundFrame|
        exists|m: int| 0 <= m < f.boxes@.len() && (#[trigger] f.boxes@[m]).id == Some(id);
    if n > 0 {
        lemma_track_frames(frames, id, n - 1);
        let f = frames[n - 1];
        assert(frames.take(n).drop_last() =~= frames.take(n - 1));
        assert(frames.take(n).last() == f);
        let len = f.boxes@.len() as int;
        if on(f) {
            let m = choose|m: int|
                0 <= m < f.boxes@.len() && (#[trigger] f.boxes@[m]).id == Some(id);
            lemma_track_in(f, m, id, len);
        }
        if track_in(f, id, len).len() > 0 {
            lemma_track_boxes_in(f, id, len, 0);
        }
    } else {
        assert(frames.take(n).filter(on).len() == 0);
    }
}

/// What the summary says of a track, on the frames themselves: it is on as many frames
/// as have a box of it, none of them before its first or after its last, and it is on
/// both.
pub proof fn law_track_summary_counts(frames: Seq<FoundFrame>, s: TrackSummary)
    requires
        is_track_summary(frames, s),
    ensures
        s.frames == frames.filter(
            |f: FoundFrame|
                exists|m: int| 0 <= m < f.boxes@.len() && (#[trigger] f.boxes@[m]).id == Some(s.id),
        ).len(),
        forall|k: int, m: int|
            0 <= k < frames.len() && 0 <= m < frames[k].boxes@.len() && (
            #[trigger] frames[k].boxes@[m]).id == Some(s.id) ==> s.first <= frames[k].frame
                <= s.last,
        exists|k: int, m: int|
            0 <= k < frames.len() && 0 <= m < frames[k].boxes@.len() && (
            #[trigger] frames[k].boxes@[m]).id == Some(s.id) && frames[k].frame == s.first,
        exists|k: int, m: int|
            0 <= k < frames.len() && 0 <= m < frames[k].boxes@.len() && (
            #[trigger] frames[k].boxes@[m]).id == Some(s.id) && frames[k].frame == s.last,
        exists|k: int, m: int|
            0 <= k < frames.len() && 0 <= m < frames[k].boxes@.len() && (
            #[trigger] frames[k].boxes@[m]).id == Some(s.id) && frames[k].boxes@[m].class@
                == s.class@,
{
    let n = frames.len() as int;
    let boxes = track_boxes(frames, s.id, n);
    lemma_track_frames(frames, s.id, n);
    assert(frames.take(n) =~= frames);
    assert forall|k: int, m: int|
        0 <= k < frames.len() && 0 <= m < frames[k].boxes@.len() && (
        #[trigger] frames[k].boxes@[m]).id == Some(s.id) implies s.first <= frames[k].frame
        <= s.last by {
        lemma_box_is_tracked(frames, s.id, n, k, m);
    }
    let a = choose|i: int| 0 <= i < boxes.len() && (#[trigger] boxes[i]).0 == s.first;
    lemma_track_boxes(frames, s.id, n, a);
    let b = choose|i: int| 0 <= i < boxes.len() && (#[trigger] boxes[i]).0 == s.last;
    lemma_track_boxes(frames, s.id, n, b);
    lemma_track_boxes(frames, s.id, n, 0);
}

/// The boxes of the first frames.
pub open spec fn box_count(counts: Seq<usize>, n: int) -> nat
    decreases n,
{
    if n <= 0 {
        0
    } else {
        box_count(counts, n - 1) + counts[n - 1] as nat
    }
}

/// What is sent to the labels: the number of boxes, and the place of the first frame
/// that has one.
pub fn sent_counts(counts: &Vec<usize>) -> (r: (usize, Option<usize>))
    requires
        box_count(counts@, counts@.len() as int) <= usize::MAX,
    ensures
        r.0 == box_count(counts@, counts@.len() as int),
        match r.1 {
            Some(p) => p < counts@.len() && counts@[p as int] > 0 && forall|i: int|
                0 <= i < p ==> #[trigger] counts@[i] == 0,
            None => forall|i: int| 0 <= i < counts@.len() ==> #[trigger] counts@[i] == 0,
        },
{
    let mut total: usize = 0;
    let mut first: Option<usize> = None;
    let mut i: usize = 0;
    while i < counts.len()
        invariant
            i <= counts@.len(),
            box_count(counts@, counts@.len() as int) <= usize::MAX,
            total == box_count(counts@, i as int),
            match first {
                Some(p) => p < i && counts@[p as int] > 0 && forall|k: int|
                    0 <= k < p ==> #[trigger] counts@[k] == 0,
                None => forall|k: int| 0 <= k < i ==> #[trigger] counts@[k] == 0,
            },
        decreases counts@.len() - i,
    {
        proof {
            lemma_count_grows(counts@, i + 1, counts@.len() as int);
        }
        total += counts[i];
        if counts[i] > 0 && first.is_none() {
            first = Some(i);
        }
        i += 1;
    }
    (total, first)
}

/// More frames have no fewer boxes.
proof fn lemma_count_grows(counts: Seq<usize>, a: int, b: int)
    requires
        0 <= a <= b <= counts.len(),
    ensures
        box_count(counts, a) <= box_count(counts, b),
    decreases b,
{
    if a < b {
        lemma_count_grows(counts, a, b - 1);
    }
}

/// The class with more boxes comes first, and of two with as many the one whose
/// name does. Tracks are listed by their numbers.
pub proof fn law_summaries_are_sorted(
    classes: Seq<ClassSummary>,
    tracks: Seq<TrackSummary>,
    i: int,
    j: int,
)
    requires
        classes_in_order(classes),
        tracks_in_order(tracks),
        0 <= i < j,
    ensures
        j < classes.len() ==> classes[i].boxes >= classes[j].boxes,
        j < classes.len() && classes[i].boxes == classes[j].boxes ==> text::comes_before(
            classes[i].class@,
            classes[j].class@,
        ),
        j < tracks.len() ==> tracks[i].id < tracks[j].id,
{
    if j < classes.len() {
        assert(class_before(classes[i], classes[j]));
    }
}

/// The boxes of all frames are counted together.
pub proof fn law_boxes_add_up(counts: Seq<usize>, more: usize)
    ensures
        box_count(Seq::empty(), 0) == 0,
        box_count(counts.push(more), counts.len() as int + 1) == box_count(
            counts,
            counts.len() as int,
        ) + more,
{
    lemma_counts_before(counts, more, counts.len() as int);
}

proof fn lemma_counts_before(counts: Seq<usize>, more: usize, n: int)
    requires
        0 <= n <= counts.len(),
    ensures
        box_count(counts.push(more), n) == box_count(counts, n),
    decreases n,
{
    if n > 0 {
        lemma_counts_before(counts, more, n - 1);
    }
}

/// No class is listed twice.
pub proof fn law_no_class_twice(frames: Seq<FoundFrame>, classes: Seq<ClassSummary>, i: int, j: int)
    requires
        classes_in_order(classes),
        0 <= i < j < classes.len(),
        is_class_summary(frames, classes[i]),
        is_class_summary(frames, classes[j]),
    ensures
        classes[i].class@ != classes[j].class@,
{
    assert(class_before(classes[i], classes[j]));
    if classes[i].class@ == classes[j].class@ {
        text::law_order_total(classes[i].class@, classes[j].class@);
    }
}

} // verus!
