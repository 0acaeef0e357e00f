//! Object labels drawn in the labeling mode.
//!
//! Boxes around things on screen, per video frame, for training a detector. A
//! segment's labels are lines, one per labeled frame, sorted by frame. A frame is
//! saved together with the model boxes that the page loaded for it, so model boxes
//! written since, which nobody saw, are kept.
use crate::double;
use crate::double::Double;
use crate::paths;
use crate::review::BadName;
use crate::review_routes;
use crate::text;
use vstd::prelude::*;

verus! {

/// Name of the class list in the annotations folder.
pub const CLASSES_FILE: &'static str = "classes.json";

/// File name suffix of a segment's labels.
pub const OBJECTS_SUFFIX: &'static str = ".objects.jsonl";

/// A class of object.
#[derive(Clone, Debug)]
pub struct ObjectClass {
    /// Name in the labels, such as `steel_eel`.
    pub name: String,
    /// Name shown to people, such as `Steel Eel`.
    pub label: String,
    /// Box color, such as `#b86bff`.
    pub color: String,
}

/// Classes written to a new class list: name, label and color.
pub const STARTER_CLASSES: [(&'static str, &'static str, &'static str); 16] = [
    ("smallfry", "Smallfry", "#8bd450"),
    ("chum", "Chum", "#4fb3ff"),
    ("cohock", "Cohock", "#2f6fdf"),
    ("steelhead", "Steelhead", "#f5c518"),
    ("flyfish", "Flyfish", "#ff8a3d"),
    ("scrapper", "Scrapper", "#9aa3ad"),
    ("steel_eel", "Steel Eel", "#b86bff"),
    ("stinger", "Stinger", "#ff5c8a"),
    ("maws", "Maws", "#20c7a8"),
    ("drizzler", "Drizzler", "#6a8cff"),
    ("fish_stick", "Fish Stick", "#c9a26b"),
    ("flipper_flopper", "Flipper-Flopper", "#3dd6d0"),
    ("big_shot", "Big Shot", "#e0564a"),
    ("slammin_lid", "Slammin' Lid", "#7f8c3a"),
    ("golden_egg", "Golden Egg", "#ffd23f"),
    ("player", "Player", "#ff6fd8"),
];

/// The classes of a new class list.
pub fn starter_classes() -> (r: Vec<ObjectClass>)
    ensures
        r@.len() == STARTER_CLASSES@.len(),
        forall|i: int|
            0 <= i < r@.len() ==> {
                &&& (#[trigger] r@[i]).name@ == STARTER_CLASSES@[i].0@
                &&& r@[i].label@ == STARTER_CLASSES@[i].1@
                &&& r@[i].color@ == STARTER_CLASSES@[i].2@
            },
{
    let table = STARTER_CLASSES;
    let mut out: Vec<ObjectClass> = Vec::new();
    let mut i: usize = 0;
    while i < 16
        invariant
            i <= 16,
            table == STARTER_CLASSES,
            out@.len() == i,
            forall|k: int|
                0 <= k < i ==> {
                    &&& (#[trigger] out@[k]).name@ == table@[k].0@
                    &&& out@[k].label@ == table@[k].1@
                    &&& out@[k].color@ == table@[k].2@
                },
        decreases 16 - i,
    {
        let c = table[i];
        out.push(
            ObjectClass { name: c.0.to_owned(), label: c.1.to_owned(), color: c.2.to_owned() },
        );
        i += 1;
    }
    out
}

/// One box on a frame.
#[derive(Debug)]
pub struct ObjectBox {
    /// Class name.
    pub class: String,
    /// Left edge, as a fraction of the frame's width.
    pub x: Double,
    /// Top edge, as a fraction of the frame's height.
    pub y: Double,
    /// Width, as a fraction of the frame's width.
    pub w: Double,
    /// Height, as a fraction of the frame's height.
    pub h: Double,
    /// Identity of the object across frames, if tracked, as JSON.
    pub id: Option<String>,
    /// Who drew it: `user` or `model`.
    pub by: String,
    /// The model's confidence.
    pub score: Option<Double>,
    /// The other keys as a JSON object, kept as they are.
    pub rest: String,
}

/// The boxes of one frame.
#[derive(Debug)]
pub struct FrameObjects {
    /// Frame number in the segment.
    pub frame: u64,
    pub boxes: Vec<ObjectBox>,
    /// The other keys as a JSON object, kept as they are.
    pub rest: String,
}

/// Who drew a box whose line does not say.
pub fn user() -> (r: String)
    ensures
        r@ == "user"@,
{
    "user".to_owned()
}

/// Whether two JSON texts hold the same value: what `serde_json` says of the
/// values that it reads from them; false when it cannot read one.
pub uninterp spec fn json_equal(a: Seq<char>, b: Seq<char>) -> bool;

/// `serde_json::from_str::<Value>` on both texts and `==` on the values that it
/// reads: the answer is [`json_equal`] of the texts.
#[verifier::external_body]
fn same_json(a: &str, b: &str) -> (r: bool)
    ensures
        r == json_equal(a@, b@),
{
    let x = serde_json::from_str::<serde_json::Value>(a);
    let y = serde_json::from_str::<serde_json::Value>(b);
    x.is_ok_and(|x| y.is_ok_and(|y| x == y))
}

/// The same identity, or none on both sides.
pub open spec fn same_id(a: Option<Seq<char>>, b: Option<Seq<char>>) -> bool {
    match (a, b) {
        (Some(x), Some(y)) => json_equal(x, y),
        (None, None) => true,
        _ => false,
    }
}

/// The same box in every key.
pub open spec fn same_box(a: ObjectBox, b: ObjectBox) -> bool {
    &&& a.class@ == b.class@
    &&& double::equal(a.x, b.x)
    &&& double::equal(a.y, b.y)
    &&& double::equal(a.w, b.w)
    &&& double::equal(a.h, b.h)
    &&& same_id(text::opt_text(a.id), text::opt_text(b.id))
    &&& a.by@ == b.by@
    &&& double::opt_equal(a.score, b.score)
    &&& json_equal(a.rest@, b.rest@)
}

/// Whether a box stands in a list.
pub open spec fn has_box(list: Seq<ObjectBox>, b: ObjectBox) -> bool {
    exists|i: int| 0 <= i < list.len() && same_box(#[trigger] list[i], b)
}

/// A box that a model drew.
pub open spec fn by_model(b: ObjectBox) -> bool {
    b.by@ == "model"@
}

/// A model's box that the page did not load and does not send either.
pub open spec fn is_unseen(b: ObjectBox, given: Seq<ObjectBox>, base: Seq<ObjectBox>) -> bool {
    by_model(b) && !has_box(base, b) && !has_box(given, b)
}

/// The unseen ones of the first boxes of a frame, in order.
pub open spec fn unseen(
    list: Seq<ObjectBox>,
    given: Seq<ObjectBox>,
    base: Seq<ObjectBox>,
    n: int,
) -> Seq<ObjectBox>
    decreases n,
{
    if n <= 0 {
        Seq::empty()
    } else {
        let before = unseen(list, given, base, n - 1);
        if is_unseen(list[n - 1], given, base) {
            before.push(list[n - 1])
        } else {
            before
        }
    }
}

/// The lines stand by frame, each frame once.
pub open spec fn in_order(frames: Seq<FrameObjects>) -> bool {
    forall|i: int, j: int|
        0 <= i < j < frames.len() ==> (#[trigger] frames[i]).frame < (#[trigger] frames[j]).frame
}

/// The first line at a frame or after it, from `i` on.
pub open spec fn place(frames: Seq<FrameObjects>, frame: u64, i: int) -> int
    decreases frames.len() - i,
{
    if i < 0 || i >= frames.len() {
        frames.len() as int
    } else if frames[i].frame >= frame {
        i
    } else {
        place(frames, frame, i + 1)
    }
}

/// A frame has a line.
pub open spec fn is_labeled(frames: Seq<FrameObjects>, frame: u64) -> bool {
    let i = place(frames, frame, 0);
    i < frames.len() && frames[i].frame == frame
}

/// A frame's line.
pub open spec fn line_of(frames: Seq<FrameObjects>, frame: u64) -> Option<FrameObjects> {
    if is_labeled(frames, frame) {
        Some(frames[place(frames, frame, 0)])
    } else {
        None
    }
}

/// The lines without that of a frame.
pub open spec fn without_frame(frames: Seq<FrameObjects>, frame: u64) -> Seq<FrameObjects> {
    if is_labeled(frames, frame) {
        frames.remove(place(frames, frame, 0))
    } else {
        frames
    }
}

/// The lines with a line, in the place of that of its frame where there is one.
pub open spec fn with_frame(frames: Seq<FrameObjects>, line: FrameObjects) -> Seq<FrameObjects> {
    without_frame(frames, line.frame).insert(place(frames, line.frame, 0), line)
}

/// Where a line stands.
proof fn lemma_place(frames: Seq<FrameObjects>, frame: u64, i: int)
    requires
        0 <= i <= frames.len(),
    ensures
        i <= place(frames, frame, i) <= frames.len(),
        forall|k: int| i <= k < place(frames, frame, i) ==> (#[trigger] frames[k]).frame < frame,
        place(frames, frame, i) < frames.len() ==> frames[place(frames, frame, i)].frame >= frame,
    decreases frames.len() - i,
{
    if i < frames.len() && frames[i].frame < frame {
        lemma_place(frames, frame, i + 1);
    }
}

/// A place that divides the lines is the place.
proof fn lemma_place_is(frames: Seq<FrameObjects>, frame: u64, p: int)
    requires
        0 <= p <= frames.len(),
        forall|k: int| 0 <= k < p ==> (#[trigger] frames[k]).frame < frame,
        p < frames.len() ==> frames[p].frame >= frame,
    ensures
        place(frames, frame, 0) == p,
{
    lemma_place(frames, frame, 0);
    let q = place(frames, frame, 0);
    if q < p {
        assert(frames[q].frame < frame);
    }
    if p < q {
        assert(frames[p].frame < frame);
    }
}

/// Removing a frame's line keeps the order and every other line.
pub proof fn law_removed_frame(frames: Seq<FrameObjects>, frame: u64, other: u64)
    requires
        in_order(frames),
    ensures
        in_order(without_frame(frames, frame)),
        line_of(without_frame(frames, frame), frame) is None,
        other != frame ==> line_of(without_frame(frames, frame), other) == line_of(frames, other),
{
    let r = without_frame(frames, frame);
    let p = place(frames, frame, 0);
    lemma_place(frames, frame, 0);
    if is_labeled(frames, frame) {
        assert forall|i: int, j: int| 0 <= i < j < r.len() implies (#[trigger] r[i]).frame < (
        #[trigger] r[j]).frame by {
            let a = if i < p {
                i
            } else {
                i + 1
            };
            let b = if j < p {
                j
            } else {
                j + 1
            };
            assert(r[i] == frames[a] && r[j] == frames[b]);
        }
        assert forall|k: int| p <= k < r.len() implies (#[trigger] r[k]).frame > frame by {
            assert(r[k] == frames[k + 1]);
        }
        lemma_place_is(r, frame, p);
        let q = place(frames, other, 0);
        lemma_place(frames, other, 0);
        if other != frame {
            let t = if q <= p {
                q
            } else {
                q - 1
            };
            assert forall|k: int| 0 <= k < t implies (#[trigger] r[k]).frame < other by {
                if k < p {
                    assert(r[k] == frames[k]);
                } else {
                    assert(r[k] == frames[k + 1]);
                }
            }
            if t < r.len() {
                if q < p {
                    assert(r[t] == frames[q]);
                } else if q == p {
                    assert(frames[p].frame >= other);
                    assert(r[t] == frames[p + 1]);
                    assert(frames[p].frame < frames[p + 1].frame);
                } else {
                    assert(r[t] == frames[q]);
                }
            }
            lemma_place_is(r, other, t);
            if q == p && t < r.len() {
                assert(r[t].frame > frame);
                assert(other < frame);
            }
        }
    }
}

/// Putting a line in keeps the order and every other frame's line.
pub proof fn law_put_frame(frames: Seq<FrameObjects>, line: FrameObjects, other: u64)
    requires
        in_order(frames),
    ensures
        in_order(with_frame(frames, line)),
        line_of(with_frame(frames, line), line.frame) == Some(line),
        other != line.frame ==> line_of(with_frame(frames, line), other) == line_of(frames, other),
{
    let f = line.frame;
    let w = without_frame(frames, f);
    law_removed_frame(frames, f, other);
    let p = place(frames, f, 0);
    lemma_place(frames, f, 0);
    let r = with_frame(frames, line);
    assert forall|k: int| 0 <= k < p implies (#[trigger] w[k]).frame < f by {
        assert(w[k] == frames[k]);
    }
    assert forall|k: int| p <= k < w.len() implies (#[trigger] w[k]).frame > f by {
        if is_labeled(frames, f) {
            assert(w[k] == frames[k + 1]);
            assert(frames[p].frame < frames[k + 1].frame);
        } else {
            assert(w[k] == frames[k]);
            if k > p {
                assert(frames[p].frame < frames[k].frame);
            }
        }
    }
    assert forall|k: int| 0 <= k < r.len() implies #[trigger] r[k] == (if k < p {
        w[k]
    } else if k == p {
        line
    } else {
        w[k - 1]
    }) by {}
    assert forall|i: int, j: int| 0 <= i < j < r.len() implies (#[trigger] r[i]).frame < (
    #[trigger] r[j]).frame by {
        let a = if i < p {
            i
        } else {
            i - 1
        };
        let b = if j < p {
            j
        } else {
            j - 1
        };
        if i != p && j != p {
            assert(w[a].frame < w[b].frame);
        } else if i == p {
            assert(w[b].frame > f);
        } else {
            assert(w[a].frame < f);
        }
    }
    lemma_place_is(r, f, p);
    if other != f {
        let q = place(w, other, 0);
        lemma_place(w, other, 0);
        let t = if other < f {
            q
        } else {
            q + 1
        };
        if other < f {
            if q > p {
                assert(w[p].frame > f);
            }
        } else {
            if q < p {
                assert(w[q].frame < f);
            }
        }
        assert forall|k: int| 0 <= k < t implies (#[trigger] r[k]).frame < other by {
            if k < p {
                assert(r[k] == w[k]);
            } else if k > p {
                assert(r[k] == w[k - 1]);
            }
        }
        if t < r.len() {
            if t < p {
                assert(r[t] == w[t]);
            } else if t > p {
                assert(r[t] == w[t - 1]);
            }
        }
        lemma_place_is(r, other, t);
    }
}

impl ObjectBox {
    /// A box with the same content.
    pub fn copy(&self) -> (r: ObjectBox)
        ensures
            r == *self,
    {
        ObjectBox {
            class: self.class.clone(),
            x: self.x,
            y: self.y,
            w: self.w,
            h: self.h,
            id: self.id.clone(),
            by: self.by.clone(),
            score: self.score,
            rest: self.rest.clone(),
        }
    }

    /// Whether a model drew the box.
    pub fn by_model(&self) -> (r: bool)
        ensures
            r == by_model(*self),
    {
        text::same(self.by.as_str(), "model")
    }

    /// Whether two boxes are the same in every key.
    pub fn same(&self, other: &ObjectBox) -> (r: bool)
        ensures
            r == same_box(*self, *other),
    {
        let ids = match (&self.id, &other.id) {
            (Some(a), Some(b)) => same_json(a.as_str(), b.as_str()),
            (None, None) => true,
            _ => false,
        };
        ids && text::same(self.class.as_str(), other.class.as_str()) && self.x.equal(&other.x)
            && self.y.equal(&other.y) && self.w.equal(&other.w) && self.h.equal(&other.h)
            && text::same(self.by.as_str(), other.by.as_str()) && double::same_option(
            self.score,
            other.score,
        ) && same_json(self.rest.as_str(), other.rest.as_str())
    }
}

/// Whether a box stands in a list.
fn contains_box(list: &Vec<ObjectBox>, b: &ObjectBox) -> (r: bool)
    ensures
        r == has_box(list@, *b),
{
    let mut i: usize = 0;
    while i < list.len()
        invariant
            i <= list@.len(),
            forall|k: int| 0 <= k < i ==> !same_box(#[trigger] list@[k], *b),
        decreases list@.len() - i,
    {
        if list[i].same(b) {
            return true;
        }
        i += 1;
    }
    false
}

/// The same boxes once more.
fn copy_boxes(list: &Vec<ObjectBox>) -> (r: Vec<ObjectBox>)
    ensures
        r@ == list@,
{
    let mut out: Vec<ObjectBox> = Vec::new();
    let mut i: usize = 0;
    while i < list.len()
        invariant
            i <= list@.len(),
            out@ == list@.take(i as int),
        decreases list@.len() - i,
    {
        out.push(list[i].copy());
        i += 1;
        assert(out@ =~= list@.take(i as int));
    }
    assert(out@ =~= list@);
    out
}

/// The first line at a frame or after it.
fn find_place(frames: &Vec<FrameObjects>, frame: u64) -> (r: usize)
    ensures
        r == place(frames@, frame, 0),
        r <= frames@.len(),
{
    let mut i: usize = 0;
    while i < frames.len() && frames[i].frame < frame
        invariant
            i <= frames@.len(),
            place(frames@, frame, 0) == place(frames@, frame, i as int),
        decreases frames@.len() - i,
    {
        i += 1;
    }
    i
}

/// Take a frame's line out.
fn take_line(frames: &mut Vec<FrameObjects>, frame: u64) -> (r: Option<FrameObjects>)
    ensures
        r == line_of(old(frames)@, frame),
        final(frames)@ == without_frame(old(frames)@, frame),
{
    let i = find_place(frames, frame);
    if i < frames.len() && frames[i].frame == frame {
        Some(frames.remove(i))
    } else {
        None
    }
}

/// Put a line in, in the place of that of its frame where there is one.
fn put_line(frames: &mut Vec<FrameObjects>, line: FrameObjects)
    ensures
        final(frames)@ == with_frame(old(frames)@, line),
{
    let i = find_place(frames, line.frame);
    if i < frames.len() && frames[i].frame == line.frame {
        let _ = frames.remove(i);
    }
    frames.insert(i, line);
}

/// A line of a labels file.
#[derive(Debug)]
pub enum ObjectsLine {
    Blank,
    /// No JSON, or not that of a frame.
    Unreadable,
    Decoded(FrameObjects),
}

/// The lines as far as they are decoded, a later line of a frame in the place of
/// an earlier one.
pub open spec fn frames_of(lines: Seq<ObjectsLine>, n: int) -> Seq<FrameObjects>
    decreases n,
{
    if n <= 0 {
        Seq::empty()
    } else {
        match lines[n - 1] {
            ObjectsLine::Decoded(line) => with_frame(frames_of(lines, n - 1), line),
            _ => frames_of(lines, n - 1),
        }
    }
}

/// The frames that lines give stand in order.
proof fn lemma_frames_of(lines: Seq<ObjectsLine>, n: int)
    requires
        0 <= n <= lines.len(),
    ensures
        in_order(frames_of(lines, n)),
    decreases n,
{
    if n > 0 {
        lemma_frames_of(lines, n - 1);
        if let ObjectsLine::Decoded(line) = lines[n - 1] {
            law_put_frame(frames_of(lines, n - 1), line, 0);
        }
    }
}

/// The frames of a labels file's lines; the number of the first line that cannot
/// be read, counted from 1.
pub fn read_objects(lines: Vec<ObjectsLine>) -> (r: Result<Vec<FrameObjects>, usize>)
    ensures
        match r {
            Ok(frames) => {
                &&& forall|i: int| 0 <= i < lines@.len() ==> !(#[trigger] lines@[i] is Unreadable)
                &&& frames@ == frames_of(lines@, lines@.len() as int)
                &&& in_order(frames@)
            },
            Err(n) => {
                &&& 1 <= n <= lines@.len()
                &&& lines@[n - 1] is Unreadable
                &&& forall|i: int| 0 <= i < n - 1 ==> !(#[trigger] lines@[i] is Unreadable)
            },
        },
{
    let mut frames: Vec<FrameObjects> = Vec::new();
    let mut rest = lines;
    let ghost all = lines@;
    let mut i: usize = 0;
    let n: usize = rest.len();
    assert(rest@ =~= all.skip(0));
    while i < n
        invariant
            i <= n,
            n == all.len(),
            all == lines@,
            rest@ == all.skip(i as int),
            frames@ == frames_of(all, i as int),
            forall|k: int| 0 <= k < i ==> !(#[trigger] all[k] is Unreadable),
        decreases n - i,
    {
        let line = rest.remove(0);
        assert(rest@ =~= all.skip(i + 1));
        i += 1;
        match line {
            ObjectsLine::Blank => {},
            ObjectsLine::Unreadable => {
                return Err(i);
            },
            ObjectsLine::Decoded(o) => {
                put_line(&mut frames, o);
            },
        }
    }
    proof {
        lemma_frames_of(all, n as int);
    }
    Ok(frames)
}

/// A frame as it is saved, and a segment's lines with it.
#[derive(Debug)]
pub struct Saved {
    /// The labels file.
    pub path: String,
    /// The segment's lines.
    pub frames: Vec<FrameObjects>,
    pub saved: FrameObjects,
}

/// The boxes of a frame as it is saved: those given, then the old ones that nobody
/// saw.
pub open spec fn saved_boxes(
    old: Option<FrameObjects>,
    given: Seq<ObjectBox>,
    base: Seq<ObjectBox>,
) -> Seq<ObjectBox> {
    match old {
        Some(o) => given + unseen(o.boxes@, given, base, o.boxes@.len() as int),
        None => given,
    }
}

/// The other keys of a frame as it is saved.
pub open spec fn saved_rest(old: Option<FrameObjects>) -> Seq<char> {
    match old {
        Some(o) => o.rest@,
        None => "{}"@,
    }
}

/// A line with these boxes and other keys.
pub open spec fn is_line(
    line: FrameObjects,
    frame: u64,
    boxes: Seq<ObjectBox>,
    rest: Seq<char>,
) -> bool {
    line.frame == frame && line.boxes@ == boxes && line.rest@ == rest
}

/// The labels file of a segment of a session.
pub open spec fn objects_path(dir: Seq<char>, session: Seq<char>, segment: Seq<char>) -> Seq<char> {
    paths::joined_path(
        paths::joined_path(dir, session),
        paths::stem_of(segment) + OBJECTS_SUFFIX@,
    )
}

/// What saving a frame gives.
pub open spec fn is_saved(
    before: Seq<FrameObjects>,
    frame: u64,
    given: Seq<ObjectBox>,
    base: Seq<ObjectBox>,
    r: Saved,
) -> bool {
    let old_line = line_of(before, frame);
    let boxes = saved_boxes(old_line, given, base);
    let rest = saved_rest(old_line);
    let i = place(before, frame, 0);
    &&& is_line(r.saved, frame, boxes, rest)
    &&& if boxes.len() == 0 {
        r.frames@ == without_frame(before, frame)
    } else {
        &&& is_line(r.frames@[i], frame, boxes, rest)
        &&& r.frames@ == with_frame(before, r.frames@[i])
    }
}

/// The annotations folder.
#[derive(Clone, Debug)]
pub struct Annotations {
    pub dir: String,
}

/// What merging a model's frames did: frames that got a line, whose model boxes
/// were replaced, and that a person had labeled.
#[derive(Clone, Copy, Debug, PartialEq, Eq, Structural)]
pub struct MergeStats {
    pub added: usize,
    pub replaced: usize,
    pub kept: usize,
}

/// A person drew one of the boxes.
pub open spec fn has_person(boxes: Seq<ObjectBox>) -> bool {
    exists|i: int| 0 <= i < boxes.len() && !by_model(#[trigger] boxes[i])
}

/// What becomes of a frame for which a model predicts boxes.
#[derive(Clone, Copy, Debug, PartialEq, Eq, Structural)]
pub enum MergeStep {
    Added,
    Replaced,
    Kept,
}

/// What becomes of a frame: one that a person labeled is kept, one with model
/// boxes alone gets the new ones, one without a line gets one.
pub open spec fn merge_step(line: Option<FrameObjects>) -> MergeStep {
    match line {
        None => MergeStep::Added,
        Some(o) => if has_person(o.boxes@) {
            MergeStep::Kept
        } else {
            MergeStep::Replaced
        },
    }
}

/// A predicted frame's line: the other keys of a line that was there are kept.
pub open spec fn merged_line(old_line: Option<FrameObjects>, predicted: FrameObjects) -> FrameObjects {
    match old_line {
        None => predicted,
        Some(o) => FrameObjects { frame: predicted.frame, boxes: predicted.boxes, rest: o.rest },
    }
}

/// The lines after one predicted frame.
pub open spec fn merged_one(
    before: Seq<FrameObjects>,
    predicted: FrameObjects,
) -> Seq<FrameObjects> {
    let old_line = line_of(before, predicted.frame);
    if merge_step(old_line) == MergeStep::Kept {
        before
    } else {
        with_frame(before, merged_line(old_line, predicted))
    }
}

/// The lines after the first predicted frames.
pub open spec fn merged(
    before: Seq<FrameObjects>,
    predicted: Seq<FrameObjects>,
    n: int,
) -> Seq<FrameObjects>
    decreases n,
{
    if n <= 0 {
        before
    } else {
        merged_one(merged(before, predicted, n - 1), predicted[n - 1])
    }
}

/// How many of the first predicted frames took a step.
pub open spec fn steps_taken(
    before: Seq<FrameObjects>,
    predicted: Seq<FrameObjects>,
    step: MergeStep,
    n: int,
) -> nat
    decreases n,
{
    if n <= 0 {
        0
    } else {
        let line = line_of(merged(before, predicted, n - 1), predicted[n - 1].frame);
        steps_taken(before, predicted, step, n - 1) + if merge_step(line) == step {
            1nat
        } else {
            0
        }
    }
}

/// Merging a model's frames leaves the order, the line of each frame that a person
/// labeled, and that of each frame without a prediction.
pub proof fn law_person_labels_stay(
    before: Seq<FrameObjects>,
    predicted: Seq<FrameObjects>,
    n: int,
    frame: u64,
)
    requires
        in_order(before),
        0 <= n <= predicted.len(),
    ensures
        in_order(merged(before, predicted, n)),
        merge_step(line_of(before, frame)) == MergeStep::Kept ==> line_of(
            merged(before, predicted, n),
            frame,
        ) == line_of(before, frame),
        (forall|i: int| 0 <= i < n ==> (#[trigger] predicted[i]).frame != frame) ==> line_of(
            merged(before, predicted, n),
            frame,
        ) == line_of(before, frame),
    decreases n,
{
    if n > 0 {
        law_person_labels_stay(before, predicted, n - 1, frame);
        let m = merged(before, predicted, n - 1);
        let p = predicted[n - 1];
        law_put_frame(m, merged_line(line_of(m, p.frame), p), frame);
    }
}

/// Each predicted frame is counted once.
pub proof fn law_merge_counts(before: Seq<FrameObjects>, predicted: Seq<FrameObjects>, n: int)
    requires
        0 <= n <= predicted.len(),
    ensures
        steps_taken(before, predicted, MergeStep::Added, n) + steps_taken(
            before,
            predicted,
            MergeStep::Replaced,
            n,
        ) + steps_taken(before, predicted, MergeStep::Kept, n) == n,
    decreases n,
{
    if n > 0 {
        law_merge_counts(before, predicted, n - 1);
    }
}

/// The line of a frame is the one that stands among the lines.
proof fn lemma_line_of(frames: Seq<FrameObjects>, frame: u64)
    requires
        in_order(frames),
    ensures
        line_of(frames, frame) matches Some(l) ==> l.frame == frame && frames.contains(l),
        forall|k: int|
            0 <= k < frames.len() && (#[trigger] frames[k]).frame == frame ==> line_of(
                frames,
                frame,
            ) == Some(frames[k]),
{
    lemma_place(frames, frame, 0);
    let p = place(frames, frame, 0);
    assert forall|k: int| 0 <= k < frames.len() && (#[trigger] frames[k]).frame == frame implies p
        == k by {
        if k < p {
            assert(frames[k].frame < frame);
        } else if p < k {
            assert(frames[p].frame < frames[k].frame);
        }
    }
}

/// What a person labeled is never touched: whatever is predicted, a line that holds, at
/// any place, a box that is not the model's stays the line of its frame, as it is.
pub proof fn law_person_boxes_are_never_lost(
    before: Seq<FrameObjects>,
    predicted: Seq<FrameObjects>,
    n: int,
    k: int,
    j: int,
)
    requires
        forall|a: int, b: int|
            0 <= a < b < before.len() ==> (#[trigger] before[a]).frame < (
            #[trigger] before[b]).frame,
        0 <= n <= predicted.len(),
        0 <= k < before.len(),
        0 <= j < before[k].boxes@.len(),
        before[k].boxes@[j].by@ != "model"@,
    ensures
        merged(before, predicted, n).contains(before[k]),
        forall|m: int|
            0 <= m < merged(before, predicted, n).len() && (#[trigger] merged(
                before,
                predicted,
                n,
            )[m]).frame == before[k].frame ==> merged(before, predicted, n)[m] == before[k],
{
    let f = before[k].frame;
    lemma_line_of(before, f);
    assert(!by_model(before[k].boxes@[j]));
    law_person_labels_stay(before, predicted, n, f);
    lemma_line_of(merged(before, predicted, n), f);
}

/// A line whose frame has no prediction stays as it is.
pub proof fn law_frames_without_prediction_stay(
    before: Seq<FrameObjects>,
    predicted: Seq<FrameObjects>,
    n: int,
    k: int,
)
    requires
        forall|a: int, b: int|
            0 <= a < b < before.len() ==> (#[trigger] before[a]).frame < (
            #[trigger] before[b]).frame,
        0 <= n <= predicted.len(),
        0 <= k < before.len(),
        forall|i: int| 0 <= i < n ==> (#[trigger] predicted[i]).frame != before[k].frame,
    ensures
        merged(before, predicted, n).contains(before[k]),
{
    let f = before[k].frame;
    lemma_line_of(before, f);
    law_person_labels_stay(before, predicted, n, f);
    lemma_line_of(merged(before, predicted, n), f);
}

/// What merging makes of the line of a predicted frame.
proof fn lemma_merged_line(
    before: Seq<FrameObjects>,
    predicted: Seq<FrameObjects>,
    n: int,
    i: int,
)
    requires
        in_order(before),
        0 <= i < n <= predicted.len(),
        forall|a: int, b: int|
            0 <= a < b < predicted.len() ==> (#[trigger] predicted[a]).frame != (
            #[trigger] predicted[b]).frame,
    ensures
        in_order(merged(before, predicted, n)),
        ({
            let old_line = line_of(before, predicted[i].frame);
            line_of(merged(before, predicted, n), predicted[i].frame) == (if merge_step(old_line)
                == MergeStep::Kept {
                old_line
            } else {
                Some(merged_line(old_line, predicted[i]))
            })
        }),
    decreases n,
{
    let f = predicted[i].frame;
    let p = predicted[n - 1];
    let m = merged(before, predicted, n - 1);
    law_person_labels_stay(before, predicted, n - 1, f);
    law_put_frame(m, merged_line(line_of(m, p.frame), p), f);
    if i < n - 1 {
        lemma_merged_line(before, predicted, n - 1, i);
        assert(predicted[i].frame != predicted[n - 1].frame);
    } else {
        assert forall|a: int| 0 <= a < n - 1 implies (#[trigger] predicted[a]).frame != f by {
            assert(predicted[a].frame != predicted[n - 1].frame);
        }
    }
}

/// Where the model alone labeled a frame, or nobody did, the frame has the predicted
/// boxes: a line that was there keeps its other keys, a new one is the predicted one.
/// No frame is predicted twice.
pub proof fn law_predicted_boxes_are_taken(
    before: Seq<FrameObjects>,
    predicted: Seq<FrameObjects>,
    n: int,
    i: int,
)
    requires
        forall|a: int, b: int|
            0 <= a < b < before.len() ==> (#[trigger] before[a]).frame < (
            #[trigger] before[b]).frame,
        forall|a: int, b: int|
            0 <= a < b < predicted.len() ==> (#[trigger] predicted[a]).frame != (
            #[trigger] predicted[b]).frame,
        0 <= i < n <= predicted.len(),
        forall|k: int, j: int|
            0 <= k < before.len() && before[k].frame == predicted[i].frame && 0 <= j
                < before[k].boxes@.len() ==> (#[trigger] before[k].boxes@[j]).by@ == "model"@,
    ensures
        exists|m: int|
            0 <= m < merged(before, predicted, n).len() && (#[trigger] merged(
                before,
                predicted,
                n,
            )[m]).frame == predicted[i].frame && merged(before, predicted, n)[m].boxes
                == predicted[i].boxes,
        forall|k: int, m: int|
            0 <= k < before.len() && (#[trigger] before[k]).frame == predicted[i].frame && 0 <= m
                < merged(before, predicted, n).len() && (#[trigger] merged(
                before,
                predicted,
                n,
            )[m]).frame == predicted[i].frame ==> merged(before, predicted, n)[m].rest
                == before[k].rest,
        (forall|k: int| 0 <= k < before.len() ==> (#[trigger] before[k]).frame != predicted[i].frame)
            ==> merged(before, predicted, n).contains(predicted[i]),
{
    let f = predicted[i].frame;
    let all = merged(before, predicted, n);
    lemma_line_of(before, f);
    lemma_merged_line(before, predicted, n, i);
    lemma_line_of(all, f);
    let old_line = line_of(before, f);
    if let Some(o) = old_line {
        let k = choose|k: int| 0 <= k < before.len() && before[k] == o;
        assert forall|j: int| 0 <= j < o.boxes@.len() implies by_model(#[trigger] o.boxes@[j]) by {
            assert(before[k].boxes@[j].by@ == "model"@);
        }
    }
    let l = merged_line(old_line, predicted[i]);
    let m = choose|m: int| 0 <= m < all.len() && all[m] == l;
    assert(all[m].frame == f);
}

/// How many predictions met a person's labels, and how many found no line: counted by
/// the lines before merging. No frame is predicted twice.
pub proof fn law_merge_statistics(before: Seq<FrameObjects>, predicted: Seq<FrameObjects>, n: int)
    requires
        forall|a: int, b: int|
            0 <= a < b < before.len() ==> (#[trigger] before[a]).frame < (
            #[trigger] before[b]).frame,
        forall|a: int, b: int|
            0 <= a < b < predicted.len() ==> (#[trigger] predicted[a]).frame != (
            #[trigger] predicted[b]).frame,
        0 <= n <= predicted.len(),
    ensures
        steps_taken(before, predicted, MergeStep::Kept, n) == predicted.take(n).filter(
            |p: FrameObjects|
                exists|k: int, j: int|
                    0 <= k < before.len() && before[k].frame == p.frame && 0 <= j
                        < before[k].boxes@.len() && (#[trigger] before[k].boxes@[j]).by@
                        != "model"@,
        ).len(),
        steps_taken(before, predicted, MergeStep::Added, n) == predicted.take(n).filter(
            |p: FrameObjects|
                forall|k: int| 0 <= k < before.len() ==> (#[trigger] before[k]).frame != p.frame,
        ).len(),
    decreases n,
{
    reveal(Seq::filter);
    let kept = |p: FrameObjects|
        exists|k: int, j: int|
            0 <= k < before.len() && before[k].frame == p.frame && 0 <= j < before[k].boxes@.len()
                && (#[trigger] before[k].boxes@[j]).by@ != "model"@;
    let added = |p: FrameObjects|
        forall|k: int| 0 <= k < before.len() ==> (#[trigger] before[k]).frame != p.frame;
    if n > 0 {
        law_merge_statistics(before, predicted, n - 1);
        let p = predicted[n - 1];
        assert(predicted.take(n).drop_last() =~= predicted.take(n - 1));
        assert(predicted.take(n).last() == p);
        assert forall|a: int| 0 <= a < n - 1 implies (#[trigger] predicted[a]).frame != p.frame by {
            assert(predicted[a].frame != predicted[n - 1].frame);
        }
        law_person_labels_stay(before, predicted, n - 1, p.frame);
        lemma_line_of(before, p.frame);
        let line = line_of(before, p.frame);
        if let Some(l) = line {
            let k = choose|k: int| 0 <= k < before.len() && before[k] == l;
            assert(before[k].frame == p.frame);
            if has_person(l.boxes@) {
                let j = choose|j: int| 0 <= j < l.boxes@.len() && !by_model(#[trigger] l.boxes@[j]);
                assert(before[k].boxes@[j].by@ != "model"@);
                assert(kept(p));
            }
            if kept(p) {
                let (q, j) = choose|q: int, j: int|
                    0 <= q < before.len() && before[q].frame == p.frame && 0 <= j
                        < before[q].boxes@.len() && (#[trigger] before[q].boxes@[j]).by@
                        != "model"@;
                assert(before[q] == l);
                assert(!by_model(l.boxes@[j]));
            }
        } else {
            assert(added(p));
            assert(!kept(p));
        }
    }
}

/// Boxes that are taken for the same agree in class and in who drew them, and both
/// have an identity and a score or neither; boxes that are alike in every key, with
/// places that are numbers and keys that JSON reads, are taken for the same.
pub proof fn law_same_boxes_agree(a: ObjectBox, b: ObjectBox)
    ensures
        same_box(a, b) ==> a.class@ == b.class@ && a.by@ == b.by@ && (a.id is Some == b.id is Some)
            && (a.score is Some == b.score is Some) && json_equal(a.rest@, b.rest@),
        same_box(a, b) && a.id is Some ==> json_equal(a.id->0@, b.id->0@),
        same_box(a, b) && 0 < a.x.bits < 0x7ff0_0000_0000_0000 ==> a.x == b.x,
        same_box(a, b) && 0 < a.y.bits < 0x7ff0_0000_0000_0000 ==> a.y == b.y,
        same_box(a, b) && 0 < a.w.bits < 0x7ff0_0000_0000_0000 ==> a.w == b.w,
        same_box(a, b) && 0 < a.h.bits < 0x7ff0_0000_0000_0000 ==> a.h == b.h,
        a.class@ == b.class@ && a.by@ == b.by@ && a.x == b.x && a.y == b.y && a.w == b.w && a.h
            == b.h && a.id is None && b.id is None && a.score is None && b.score is None
            && json_equal(a.rest@, b.rest@) && a.x.bits < 0x7ff0_0000_0000_0000 && a.y.bits
            < 0x7ff0_0000_0000_0000 && a.w.bits < 0x7ff0_0000_0000_0000 && a.h.bits
            < 0x7ff0_0000_0000_0000 ==> same_box(a, b),
{
}

/// Whether a person drew one of the boxes.
fn drawn_by_person(boxes: &Vec<ObjectBox>) -> (r: bool)
    ensures
        r == has_person(boxes@),
{
    let mut i: usize = 0;
    while i < boxes.len()
        invariant
            i <= boxes@.len(),
            forall|k: int| 0 <= k < i ==> by_model(#[trigger] boxes@[k]),
        decreases boxes@.len() - i,
    {
        if !boxes[i].by_model() {
            return true;
        }
        i += 1;
    }
    false
}

impl Annotations {
    pub fn new(dir: String) -> (r: Annotations)
        ensures
            r.dir == dir,
    {
        Annotations { dir }
    }

    /// The annotations folder.
    pub fn dir(&self) -> (r: String)
        ensures
            r == self.dir,
    {
        self.dir.clone()
    }

    /// The labels file of a segment of a session.
    pub fn path(&self, session: &str, segment: &str) -> (r: Result<String, BadName>)
        ensures
            match r {
                Ok(p) => {
                    &&& review_routes::plain_name(session@)
                    &&& review_routes::plain_name(segment@)
                    &&& p@ == objects_path(self.dir@, session@, segment@)
                },
                Err(_) => !review_routes::plain_name(session@) || !review_routes::plain_name(
                    segment@,
                ),
            },
    {
        if !review_routes::is_plain(session) || !review_routes::is_plain(segment) {
            return Err(BadName);
        }
        let stem = paths::stem(segment);
        let name = text::concat(stem.as_str(), OBJECTS_SUFFIX);
        let dir = paths::join_path(self.dir.as_str(), session);
        Ok(paths::join_path(dir.as_str(), name.as_str()))
    }

    /// Replace the boxes of a frame, keeping model boxes that are in its line but
    /// not among those that the page loaded: they came later and nobody has seen
    /// them. A frame left without boxes is no longer labeled.
    pub fn save_frame(
        &self,
        session: &str,
        segment: &str,
        frames: Vec<FrameObjects>,
        frame: u64,
        boxes: Vec<ObjectBox>,
        base: &Vec<ObjectBox>,
    ) -> (r: Result<Saved, BadName>)
        requires
            in_order(frames@),
        ensures
            match r {
                Ok(s) => {
                    &&& review_routes::plain_name(session@)
                    &&& review_routes::plain_name(segment@)
                    &&& s.path@ == objects_path(self.dir@, session@, segment@)
                    &&& is_saved(frames@, frame, boxes@, base@, s)
                },
                Err(_) => !review_routes::plain_name(session@) || !review_routes::plain_name(
                    segment@,
                ),
            },
    {
        let path = self.path(session, segment)?;
        let ghost given = boxes@;
        let mut lines = frames;
        let mut boxes = boxes;
        let old_line = take_line(&mut lines, frame);
        let mut rest = "{}".to_owned();
        if let Some(o) = old_line {
            let mut kept: Vec<ObjectBox> = Vec::new();
            let mut i: usize = 0;
            while i < o.boxes.len()
                invariant
                    i <= o.boxes@.len(),
                    boxes@ == given,
                    kept@ == unseen(o.boxes@, given, base@, i as int),
                decreases o.boxes@.len() - i,
            {
                let b = &o.boxes[i];
                if b.by_model() && !contains_box(base, b) && !contains_box(&boxes, b) {
                    kept.push(b.copy());
                }
                i += 1;
            }
            boxes.append(&mut kept);
            rest = o.rest;
        }
        let saved = FrameObjects { frame, boxes: copy_boxes(&boxes), rest: rest.clone() };
        if boxes.len() > 0 {
            proof {
                lemma_place(frames@, frame, 0);
            }
            let ghost line = FrameObjects { frame, boxes, rest };
            let i = find_place(&lines, frame);
            proof {
                lemma_place_without(frames@, frame);
            }
            lines.insert(i, FrameObjects { frame, boxes, rest });
            assert(lines@[i as int] == line);
        }
        Ok(Saved { path, frames: lines, saved })
    }

    /// Merge a model's frames into a segment's lines: frames that a person has
    /// labeled are never changed, frames with only model boxes get the new ones,
    /// frames without a line get one.
    pub fn merge_model_boxes(
        &self,
        session: &str,
        segment: &str,
        frames: Vec<FrameObjects>,
        predicted: Vec<FrameObjects>,
    ) -> (r: Result<(String, Vec<FrameObjects>, MergeStats), BadName>)
        ensures
            match r {
                Ok(m) => {
                    let n = predicted@.len() as int;
                    &&& review_routes::plain_name(session@)
                    &&& review_routes::plain_name(segment@)
                    &&& m.0@ == objects_path(self.dir@, session@, segment@)
                    &&& m.1@ == merged(frames@, predicted@, n)
                    &&& m.2.added == steps_taken(frames@, predicted@, MergeStep::Added, n)
                    &&& m.2.replaced == steps_taken(frames@, predicted@, MergeStep::Replaced, n)
                    &&& m.2.kept == steps_taken(frames@, predicted@, MergeStep::Kept, n)
                },
                Err(_) => !review_routes::plain_name(session@) || !review_routes::plain_name(
                    segment@,
                ),
            },
    {
        let path = self.path(session, segment)?;
        let ghost all = predicted@;
        let ghost before = frames@;
        let mut lines = frames;
        let mut left = predicted;
        let n: usize = left.len();
        let mut stats = MergeStats { added: 0, replaced: 0, kept: 0 };
        let mut i: usize = 0;
        assert(left@ =~= all.skip(0));
        while i < n
            invariant
                i <= n,
                n == all.len(),
                left@ == all.skip(i as int),
                lines@ == merged(before, all, i as int),
                stats.added == steps_taken(before, all, MergeStep::Added, i as int),
                stats.replaced == steps_taken(before, all, MergeStep::Replaced, i as int),
                stats.kept == steps_taken(before, all, MergeStep::Kept, i as int),
            decreases n - i,
        {
            proof {
                law_merge_counts(before, all, i as int);
            }
            let p = left.remove(0);
            assert(left@ =~= all.skip(i + 1));
            let at = find_place(&lines, p.frame);
            if at < lines.len() && lines[at].frame == p.frame {
                if drawn_by_person(&lines[at].boxes) {
                    stats.kept = stats.kept + 1;
                } else {
                    let rest = lines[at].rest.clone();
                    put_line(&mut lines, FrameObjects { frame: p.frame, boxes: p.boxes, rest });
                    stats.replaced = stats.replaced + 1;
                }
            } else {
                put_line(&mut lines, p);
                stats.added = stats.added + 1;
            }
            i += 1;
        }
        Ok((path, lines, stats))
    }
}

/// Taking a frame's line out does not move its place.
proof fn lemma_place_without(frames: Seq<FrameObjects>, frame: u64)
    requires
        in_order(frames),
    ensures
        place(without_frame(frames, frame), frame, 0) == place(frames, frame, 0),
{
    let w = without_frame(frames, frame);
    let p = place(frames, frame, 0);
    lemma_place(frames, frame, 0);
    assert forall|k: int| 0 <= k < p implies (#[trigger] w[k]).frame < frame by {
        assert(w[k] == frames[k]);
    }
    if is_labeled(frames, frame) && p < w.len() {
        assert(w[p] == frames[p + 1]);
        assert(frames[p].frame < frames[p + 1].frame);
    }
    lemma_place_is(w, frame, p);
}

/// The unseen boxes of a frame hold each unseen box.
proof fn lemma_unseen_holds(
    list: Seq<ObjectBox>,
    given: Seq<ObjectBox>,
    base: Seq<ObjectBox>,
    n: int,
    i: int,
)
    requires
        0 <= i < n <= list.len(),
        is_unseen(list[i], given, base),
    ensures
        unseen(list, given, base, n).contains(list[i]),
    decreases n,
{
    let before = unseen(list, given, base, n - 1);
    let all = unseen(list, given, base, n);
    if i == n - 1 {
        assert(all[before.len() as int] == list[i]);
    } else {
        lemma_unseen_holds(list, given, base, n - 1, i);
        let k = choose|k: int| 0 <= k < before.len() && before[k] == list[i];
        assert(all[k] == list[i]);
    }
}

/// Saving a frame never loses a model box that the page did not load: unless the
/// page sends the same box, it stands among the saved ones. The boxes that the page
/// sends come first.
pub proof fn law_unseen_boxes_stay(
    old_line: FrameObjects,
    given: Seq<ObjectBox>,
    base: Seq<ObjectBox>,
    i: int,
)
    requires
        0 <= i < old_line.boxes@.len(),
    ensures
        by_model(old_line.boxes@[i]) && !has_box(base, old_line.boxes@[i]) && !has_box(
            given,
            old_line.boxes@[i],
        ) ==> saved_boxes(Some(old_line), given, base).contains(old_line.boxes@[i]),
        saved_boxes(Some(old_line), given, base).take(given.len() as int) == given,
{
    let list = old_line.boxes@;
    let n = list.len() as int;
    let all = saved_boxes(Some(old_line), given, base);
    assert(all.take(given.len() as int) =~= given);
    if is_unseen(list[i], given, base) {
        lemma_unseen_holds(list, given, base, n, i);
        let u = unseen(list, given, base, n);
        let k = choose|k: int| 0 <= k < u.len() && u[k] == list[i];
        assert(all[given.len() + k] == list[i]);
    }
}

/// A model's box whose class stands neither among the boxes that the page loaded nor
/// among those that it sends is still there after saving, and what is there beyond the
/// boxes that the page sends are the model's, from the line that was there: a person's
/// box that the page does not send is gone.
pub proof fn law_saving_replaces_what_the_page_knew(
    old_line: FrameObjects,
    given: Seq<ObjectBox>,
    base: Seq<ObjectBox>,
)
    ensures
        ({
            let all = saved_boxes(Some(old_line), given, base);
            &&& all.len() >= given.len()
            &&& forall|k: int| 0 <= k < given.len() ==> #[trigger] all[k] == given[k]
            &&& forall|k: int|
                given.len() <= k < all.len() ==> (#[trigger] all[k]).by@ == "model"@
                    && old_line.boxes@.contains(all[k])
            &&& forall|i: int|
                0 <= i < old_line.boxes@.len() && (#[trigger] old_line.boxes@[i]).by@ == "model"@ && (
                forall|q: int|
                    0 <= q < base.len() ==> (#[trigger] base[q]).class@
                        != old_line.boxes@[i].class@) && (forall|q: int|
                    0 <= q < given.len() ==> (#[trigger] given[q]).class@
                        != old_line.boxes@[i].class@) ==> all.contains(old_line.boxes@[i])
        }),
        saved_boxes(None, given, base) == given,
{
    let list = old_line.boxes@;
    let n = list.len() as int;
    let all = saved_boxes(Some(old_line), given, base);
    assert(saved_boxes(None, given, base) =~= given);
    assert forall|k: int| given.len() <= k < all.len() implies (#[trigger] all[k]).by@ == "model"@
        && list.contains(all[k]) by {
        law_only_unseen_boxes_are_added(old_line, given, base, k);
        lemma_unseen_from(list, given, base, n, k - given.len());
    }
    assert forall|i: int|
        0 <= i < list.len() && (#[trigger] list[i]).by@ == "model"@ && (forall|q: int|
            0 <= q < base.len() ==> (#[trigger] base[q]).class@ != list[i].class@) && (forall|q: int|
            0 <= q < given.len() ==> (#[trigger] given[q]).class@ != list[i].class@) implies all.contains(
        list[i],
    ) by {
        law_unseen_boxes_stay(old_line, given, base, i);
        assert(!has_box(base, list[i]));
        assert(!has_box(given, list[i]));
    }
}

/// The unseen boxes of a frame are among its boxes.
proof fn lemma_unseen_from(
    list: Seq<ObjectBox>,
    given: Seq<ObjectBox>,
    base: Seq<ObjectBox>,
    n: int,
    k: int,
)
    requires
        0 <= n <= list.len(),
        0 <= k < unseen(list, given, base, n).len(),
    ensures
        list.contains(unseen(list, given, base, n)[k]),
    decreases n,
{
    if n > 0 {
        let before = unseen(list, given, base, n - 1);
        if k < before.len() {
            lemma_unseen_from(list, given, base, n - 1, k);
        } else {
            assert(unseen(list, given, base, n)[k] == list[n - 1]);
        }
    }
}

/// What is saved beyond the boxes that the page sends are model boxes that it
/// neither loaded nor sends.
pub proof fn law_only_unseen_boxes_are_added(
    old_line: FrameObjects,
    given: Seq<ObjectBox>,
    base: Seq<ObjectBox>,
    k: int,
)
    requires
        given.len() <= k < saved_boxes(Some(old_line), given, base).len(),
    ensures
        is_unseen(saved_boxes(Some(old_line), given, base)[k], given, base),
{
    lemma_unseen_only(
        old_line.boxes@,
        given,
        base,
        old_line.boxes@.len() as int,
        k - given.len(),
    );
}

/// The unseen boxes of a frame are unseen.
proof fn lemma_unseen_only(
    list: Seq<ObjectBox>,
    given: Seq<ObjectBox>,
    base: Seq<ObjectBox>,
    n: int,
    k: int,
)
    requires
        0 <= n <= list.len(),
        0 <= k < unseen(list, given, base, n).len(),
    ensures
        is_unseen(unseen(list, given, base, n)[k], given, base),
    decreases n,
{
    if n > 0 {
        let before = unseen(list, given, base, n - 1);
        if k < before.len() {
            lemma_unseen_only(list, given, base, n - 1, k);
        }
    }
}

/// Saving a frame keeps the order of the lines and every other frame's line; a
/// frame left without boxes has none.
pub proof fn law_other_frames_stay(
    before: Seq<FrameObjects>,
    frame: u64,
    given: Seq<ObjectBox>,
    base: Seq<ObjectBox>,
    r: Saved,
    other: u64,
)
    requires
        in_order(before),
        is_saved(before, frame, given, base, r),
    ensures
        in_order(r.frames@),
        other != frame ==> line_of(r.frames@, other) == line_of(before, other),
        is_labeled(r.frames@, frame) == (r.saved.boxes@.len() > 0),
{
    let i = place(before, frame, 0);
    law_removed_frame(before, frame, other);
    if r.saved.boxes@.len() > 0 {
        law_put_frame(before, r.frames@[i], other);
    }
}

/// The temporary file that is renamed over a file.
pub fn temporary_name(name: &str, process: u32) -> (r: String)
    ensures
        r@ == "."@ + name@ + "."@ + text::decimal_text(process as nat) + ".tmp"@,
{
    let mut out = text::concat(".", name);
    out.append(".");
    let id = text::decimal(process as u64);
    out.append(id.as_str());
    out.append(".tmp");
    out
}

/// A line that is put in takes the place of the one of its frame; all the others
/// stay, and the frames stay in order.
pub proof fn law_line_takes_its_place(frames: Seq<FrameObjects>, line: FrameObjects)
    requires
        forall|a: int, b: int|
            0 <= a < b < frames.len() ==> (#[trigger] frames[a]).frame < (
            #[trigger] frames[b]).frame,
    ensures
        ({
            let r = with_frame(frames, line);
            &&& forall|a: int, b: int|
                0 <= a < b < r.len() ==> (#[trigger] r[a]).frame < (#[trigger] r[b]).frame
            &&& r.contains(line)
            &&& forall|k: int|
                0 <= k < frames.len() && (#[trigger] frames[k]).frame != line.frame
                    ==> r.contains(frames[k])
            &&& forall|m: int|
                0 <= m < r.len() ==> #[trigger] r[m] == line || (r[m].frame != line.frame
                    && frames.contains(r[m]))
        }),
{
    let r = with_frame(frames, line);
    assert(in_order(frames));
    law_put_frame(frames, line, line.frame);
    lemma_line_of(r, line.frame);
    assert forall|k: int| 0 <= k < frames.len() && (#[trigger] frames[k]).frame
        != line.frame implies r.contains(frames[k]) by {
        law_put_frame(frames, line, frames[k].frame);
        lemma_line_of(frames, frames[k].frame);
        lemma_line_of(r, frames[k].frame);
    }
    assert forall|m: int| 0 <= m < r.len() implies #[trigger] r[m] == line || (r[m].frame
        != line.frame && frames.contains(r[m])) by {
        lemma_line_of(r, r[m].frame);
        law_put_frame(frames, line, r[m].frame);
        lemma_line_of(frames, r[m].frame);
    }
}

/// A frame that is saved without boxes has no line any more; one with boxes has
/// them in its line. Every other line stays as it was, and none comes to it.
pub proof fn law_saved_frame_has_its_boxes(
    before: Seq<FrameObjects>,
    frame: u64,
    given: Seq<ObjectBox>,
    base: Seq<ObjectBox>,
    r: Saved,
)
    requires
        forall|a: int, b: int|
            0 <= a < b < before.len() ==> (#[trigger] before[a]).frame < (
            #[trigger] before[b]).frame,
        is_saved(before, frame, given, base, r),
    ensures
        r.saved.frame == frame,
        forall|m: int|
            0 <= m < r.frames@.len() && (#[trigger] r.frames@[m]).frame == frame
                ==> r.frames@[m].boxes@ == r.saved.boxes@ && r.saved.boxes@.len() > 0,
        r.saved.boxes@.len() > 0 ==> exists|m: int|
            0 <= m < r.frames@.len() && (#[trigger] r.frames@[m]).frame == frame,
        forall|k: int|
            0 <= k < before.len() && (#[trigger] before[k]).frame != frame ==> r.frames@.contains(
                before[k],
            ),
        forall|m: int|
            0 <= m < r.frames@.len() && (#[trigger] r.frames@[m]).frame != frame
                ==> before.contains(r.frames@[m]),
        forall|i: int|
            0 <= i < given.len() ==> r.saved.boxes@.len() > i && #[trigger] r.saved.boxes@[i]
                == given[i],
        (forall|k: int| 0 <= k < before.len() ==> (#[trigger] before[k]).frame != frame)
            ==> r.saved.boxes@ == given,
{
    assert(in_order(before));
    law_other_frames_stay(before, frame, given, base, r, frame);
    lemma_line_of(before, frame);
    let after = r.frames@;
    let boxes = saved_boxes(line_of(before, frame), given, base);
    if boxes.len() > 0 {
        let line = after[place(before, frame, 0)];
        law_line_takes_its_place(before, line);
        let m = choose|m: int| 0 <= m < after.len() && after[m] == line;
        assert(after[m].frame == frame);
    } else {
        law_removed_frame(before, frame, frame);
        lemma_line_of(after, frame);
        assert forall|k: int| 0 <= k < before.len() && (#[trigger] before[k]).frame
            != frame implies after.contains(before[k]) by {
            law_removed_frame(before, frame, before[k].frame);
            lemma_line_of(before, before[k].frame);
            lemma_line_of(after, before[k].frame);
        }
        assert forall|m: int| 0 <= m < after.len() && (#[trigger] after[m]).frame
            != frame implies before.contains(after[m]) by {
            lemma_line_of(after, after[m].frame);
            law_removed_frame(before, frame, after[m].frame);
            lemma_line_of(before, after[m].frame);
        }
    }
    if line_of(before, frame) is Some {
        assert(before.contains(line_of(before, frame)->0));
        let k = choose|k: int| 0 <= k < before.len() && before[k] == line_of(before, frame)->0;
        assert(before[k].frame == frame);
    }
}

/// Of several lines of one frame the last in the file counts; nothing is read
/// that stands in no line.
pub proof fn law_last_line_of_a_frame_counts(lines: Seq<ObjectsLine>, n: int)
    requires
        0 <= n <= lines.len(),
    ensures
        ({
            let r = frames_of(lines, n);
            &&& forall|a: int, b: int|
                0 <= a < b < r.len() ==> (#[trigger] r[a]).frame < (#[trigger] r[b]).frame
            &&& forall|i: int|
                0 <= i < n && #[trigger] lines[i] is Decoded && (forall|j: int|
                    i < j < n && #[trigger] lines[j] is Decoded ==> lines[j]->Decoded_0.frame
                        != lines[i]->Decoded_0.frame) ==> r.contains(lines[i]->Decoded_0)
            &&& forall|m: int|
                0 <= m < r.len() ==> exists|i: int|
                    0 <= i < n && #[trigger] lines[i] is Decoded && lines[i]->Decoded_0 == (
                    #[trigger] r[m])
        }),
    decreases n,
{
    if n > 0 {
        law_last_line_of_a_frame_counts(lines, n - 1);
        let q = frames_of(lines, n - 1);
        let r = frames_of(lines, n);
        if let ObjectsLine::Decoded(line) = lines[n - 1] {
            law_line_takes_its_place(q, line);
            assert forall|i: int|
                0 <= i < n && #[trigger] lines[i] is Decoded && (forall|j: int|
                    i < j < n && #[trigger] lines[j] is Decoded ==> lines[j]->Decoded_0.frame
                        != lines[i]->Decoded_0.frame) implies r.contains(lines[i]->Decoded_0) by {
                if i < n - 1 {
                    assert(lines[n - 1] is Decoded);
                    assert(q.contains(lines[i]->Decoded_0));
                    let k = choose|k: int| 0 <= k < q.len() && q[k] == lines[i]->Decoded_0;
                    assert(q[k].frame != line.frame);
                }
            }
            assert forall|m: int| 0 <= m < r.len() implies exists|i: int|
                0 <= i < n && #[trigger] lines[i] is Decoded && lines[i]->Decoded_0 == (
                #[trigger] r[m]) by {
                if r[m] == line {
                    assert(lines[n - 1]->Decoded_0 == r[m]);
                } else {
                    let k = choose|k: int| 0 <= k < q.len() && q[k] == r[m];
                    assert(q[k] == r[m]);
                }
            }
        }
    }
}

/// The labels of a segment stand beside the others of its session, under its
/// name without the ending.
pub proof fn law_label_files(dir: Seq<char>, session: Seq<char>, stem: Seq<char>, ending: Seq<char>)
    requires
        dir.len() > 0 && dir.last() != '/',
        session.len() > 0 && session[0] != '/' && session.last() != '/',
        stem.len() > 1 && stem[0] != '/',
        !ending.contains('.'),
    ensures
        objects_path(dir, session, stem + seq!['.'] + ending) == dir + seq!['/'] + session + seq![
            '/',
        ] + (stem + ".objects.jsonl"@),
{
    let name = stem + seq!['.'] + ending;
    assert(name.len() > 2);
    paths::law_endings(stem, ending);
    paths::law_names_stand_in_their_folders(dir, session);
    let inner = dir + seq!['/'] + session;
    assert(inner.last() == session.last());
    let file = stem + ".objects.jsonl"@;
    assert(file[0] == stem[0]);
    paths::law_names_stand_in_their_folders(inner, file);
}

/// Saving gives the page's boxes and behind them, in their order, those of the
/// model in the old line of which neither the page's boxes nor those it started
/// from have the like at any place.
pub proof fn law_saved_boxes(old_line: FrameObjects, given: Seq<ObjectBox>, base: Seq<ObjectBox>)
    ensures
        saved_boxes(Some(old_line), given, base) == given + old_line.boxes@.filter(
            |b: ObjectBox|
                b.by@ == "model"@ && (forall|q: int|
                    0 <= q < base.len() ==> !same_box(#[trigger] base[q], b)) && (forall|q: int|
                    0 <= q < given.len() ==> !same_box(#[trigger] given[q], b)),
        ),
{
    lemma_unseen_filter(old_line.boxes@, given, base, old_line.boxes@.len() as int);
    assert(old_line.boxes@.take(old_line.boxes@.len() as int) =~= old_line.boxes@);
}

proof fn lemma_unseen_filter(
    list: Seq<ObjectBox>,
    given: Seq<ObjectBox>,
    base: Seq<ObjectBox>,
    n: int,
)
    requires
        0 <= n <= list.len(),
    ensures
        unseen(list, given, base, n) == list.take(n).filter(
            |b: ObjectBox|
                b.by@ == "model"@ && (forall|q: int|
                    0 <= q < base.len() ==> !same_box(#[trigger] base[q], b)) && (forall|q: int|
                    0 <= q < given.len() ==> !same_box(#[trigger] given[q], b)),
        ),
    decreases n,
{
    reveal(Seq::filter);
    if n > 0 {
        lemma_unseen_filter(list, given, base, n - 1);
        assert(list.take(n).drop_last() =~= list.take(n - 1));
        assert(list.take(n).last() == list[n - 1]);
    }
}

} // verus!
