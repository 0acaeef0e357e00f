//! Reviews: a video with comments at its times and drawings on its frames.
//!
//! Each review is a folder of its own that holds `review.json` and, where it was
//! downloaded or copied in, the video.
use crate::double;
use crate::double::Double;
use crate::paths;
use crate::text;
use vstd::prelude::*;

verus! {

/// A review's file in its folder.
pub const REVIEW_FILE: &'static str = "review.json";

/// A downloaded range in its review folder.
pub const VIDEO_FILE: &'static str = "video.mp4";

/// Longest review id.
pub const ID_LIMIT: usize = 120;

/// Where a review's video comes from.
#[derive(Clone, Copy, Debug, PartialEq, Eq, Structural)]
pub enum VideoKind {
    /// A segment of a recorded session.
    Session,
    /// A video file on this machine.
    File,
    /// A range of a YouTube video, downloaded into the review.
    Youtube,
}

/// The video a review is about.
#[derive(Clone, Debug)]
pub struct VideoRef {
    pub kind: VideoKind,
    /// `<session>/<segment file>`, a file path or a URL.
    pub reference: String,
    /// Start of the range, in seconds.
    pub start_s: Option<Double>,
    /// End of the range, in seconds.
    pub end_s: Option<Double>,
    /// The video file in the review folder, which then plays.
    pub file: Option<String>,
    /// Title of a YouTube video.
    pub title: Option<String>,
    /// Its channel.
    pub channel: Option<String>,
    /// Its upload date, `YYYY-MM-DD`.
    pub upload_date: Option<String>,
}

/// The same video: kind, reference and range.
pub open spec fn same_video(a: VideoRef, b: VideoRef) -> bool {
    a.kind == b.kind && a.reference@ == b.reference@ && double::opt_equal(a.start_s, b.start_s)
        && double::opt_equal(a.end_s, b.end_s)
}

impl VideoRef {
    /// The same video: kind, reference and range.
    pub fn same(&self, other: &VideoRef) -> (r: bool)
        ensures
            r == same_video(*self, *other),
    {
        self.kind == other.kind && text::same(self.reference.as_str(), other.reference.as_str())
            && double::same_option(self.start_s, other.start_s) && double::same_option(
            self.end_s,
            other.end_s,
        )
    }
}

/// What a shape is.
#[derive(Clone, Copy, Debug, PartialEq, Eq, Structural)]
pub enum ShapeKind {
    Rect,
    Ellipse,
    Arrow,
    Freehand,
}

/// A point as fractions of a frame's width and height.
#[derive(Clone, Copy, Debug, PartialEq, Eq, Structural)]
pub struct Point {
    pub x: Double,
    pub y: Double,
}

/// A shape drawn on a frame.
#[derive(Clone, Debug)]
pub struct Shape {
    pub kind: ShapeKind,
    pub points: Vec<Point>,
    pub color: Option<String>,
}

/// A comment at a time of the video, or over a range of it.
#[derive(Clone, Debug)]
pub struct Comment {
    pub id: String,
    /// Time in the video, in seconds.
    pub t_s: Double,
    /// End of the range the comment covers, in seconds.
    pub t_end_s: Option<Double>,
    /// `user`, or `Cuttlefish` for the AI.
    pub author: String,
    pub text: String,
    /// Drawn on the frame at `t_s`.
    pub shapes: Vec<Shape>,
    /// When it was written, in Unix milliseconds.
    pub created_ms: u64,
}

/// A review file, but for keys that are kept as they are.
#[derive(Clone, Debug)]
pub struct Review {
    pub video: VideoRef,
    pub comments: Vec<Comment>,
}

/// What is wrong with a comment.
#[derive(Clone, Copy, Debug, PartialEq, Eq, Structural)]
pub enum CommentProblem {
    BadTime,
    EndsEarly,
    /// A shape of this kind has too few points.
    TooFewPoints(ShapeKind),
    BadPoint,
}

/// Why a review is refused.
#[derive(Clone, Copy, Debug, PartialEq, Eq, Structural)]
pub enum ReviewError {
    BadVideoFile,
    /// The comment at this place is wrong.
    Comment(usize, CommentProblem),
}

/// A name of the kind that reviews have: letters, digits, `-`, `_` and `.`, not
/// starting with a dot.
pub open spec fn id_ok(id: Seq<char>) -> bool {
    &&& 0 < id.len() <= ID_LIMIT
    &&& id[0] != '.'
    &&& forall|i: int|
        0 <= i < id.len() ==> (text::is_ascii_alnum(#[trigger] id[i]) || id[i] == '-' || id[i] == '_'
            || id[i] == '.')
}

/// A plain file name that is not the review's own file.
pub open spec fn file_name_ok(file: Seq<char>) -> bool {
    &&& file.len() > 0
    &&& file[0] != '.'
    &&& !file.contains('/')
    &&& !file.contains('\\')
    &&& file != "review.json"@
}

/// The name is not a plain one.
#[derive(Clone, Copy, Debug, PartialEq, Eq, Structural)]
pub struct BadName;

/// Check a review id: a plain folder name.
pub fn check_id(id: &str) -> (r: Result<(), BadName>)
    ensures
        r is Ok == id_ok(id@),
{
    let a = text::chars_of(id);
    if a.len() == 0 || a.len() > ID_LIMIT || a[0] == '.' {
        return Err(BadName);
    }
    let mut i: usize = 0;
    while i < a.len()
        invariant
            i <= a@.len(),
            a@ == id@,
            forall|j: int|
                0 <= j < i ==> (text::is_ascii_alnum(#[trigger] id@[j]) || id@[j] == '-' || id@[j]
                    == '_' || id@[j] == '.'),
        decreases a@.len() - i,
    {
        let c = a[i];
        if !(text::ascii_alnum(c) || c == '-' || c == '_' || c == '.') {
            return Err(BadName);
        }
        i += 1;
    }
    Ok(())
}

/// Check a video file name in a review folder: a plain name, so that the path
/// stays inside the folder.
pub fn check_file_name(file: &str) -> (r: Result<(), BadName>)
    ensures
        r is Ok == file_name_ok(file@),
{
    if file.unicode_len() > 0 && file.get_char(0) != '.' && !text::has_char(file, '/')
        && !text::has_char(file, '\\') && !text::same(file, REVIEW_FILE) {
        Ok(())
    } else {
        Err(BadName)
    }
}

/// The paths of a review and of a video in it stay inside the folder of reviews:
/// the folder, a slash, one name, a slash, another name, and neither name leads
/// out of its folder.
pub proof fn law_review_paths_stay_inside(dir: Seq<char>, id: Seq<char>, file: Seq<char>)
    requires
        dir.len() > 0,
        dir.last() != '/',
        id_ok(id),
        file_name_ok(file),
    ensures
        paths::joined_path(dir, id) == dir + seq!['/'] + id,
        paths::joined_path(paths::joined_path(dir, id), file) == dir + seq!['/'] + id + seq!['/']
            + file,
        !id.contains('/'),
        id != ".."@,
        id != "."@,
        !file.contains('/'),
        file != ".."@,
        file != "."@,
{
    reveal_strlit("..");
    reveal_strlit(".");
    assert(!id.contains('/')) by {
        if id.contains('/') {
            let i = choose|i: int| 0 <= i < id.len() && id[i] == '/';
            assert(text::is_ascii_alnum(id[i]) || id[i] == '-' || id[i] == '_' || id[i] == '.');
        }
    }
    assert(id[0] != '/') by {
        assert(!id.contains(id[0]) || id[0] != '/');
    }
    assert(file[0] != '/') by {
        if file[0] == '/' {
            assert(file.contains('/'));
        }
    }
    assert(paths::joined_path(dir, id) =~= dir + seq!['/'] + id);
    let inner = dir + seq!['/'] + id;
    assert(inner.last() == id.last());
    assert(id.last() != '/') by {
        if id.last() == '/' {
            assert(id[id.len() - 1] == '/');
            assert(id.contains('/'));
        }
    }
    assert(paths::joined_path(inner, file) =~= inner + seq!['/'] + file);
}

/// How many points a shape needs.
pub open spec fn points_needed(kind: ShapeKind) -> nat {
    if kind == ShapeKind::Freehand {
        1
    } else {
        2
    }
}

/// All coordinates are finite.
pub open spec fn points_ok(points: Seq<Point>) -> bool {
    forall|i: int|
        0 <= i < points.len() ==> double::is_finite((#[trigger] points[i]).x) && double::is_finite(
            points[i].y,
        )
}

/// What is wrong with a shape.
pub open spec fn shape_problem(s: Shape) -> Option<CommentProblem> {
    if s.points@.len() < points_needed(s.kind) {
        Some(CommentProblem::TooFewPoints(s.kind))
    } else if !points_ok(s.points@) {
        Some(CommentProblem::BadPoint)
    } else {
        None
    }
}

/// What is wrong with the first wrong shape from `i` on.
pub open spec fn shapes_problem(shapes: Seq<Shape>, i: int) -> Option<CommentProblem>
    decreases shapes.len() - i,
{
    if i < 0 || i >= shapes.len() {
        None
    } else if shape_problem(shapes[i]) is Some {
        shape_problem(shapes[i])
    } else {
        shapes_problem(shapes, i + 1)
    }
}

/// What is wrong with a comment.
pub open spec fn comment_problem(c: Comment) -> Option<CommentProblem> {
    if !double::is_time(c.t_s) {
        Some(CommentProblem::BadTime)
    } else if c.t_end_s is Some && !double::at_most(c.t_s, c.t_end_s->0) {
        Some(CommentProblem::EndsEarly)
    } else {
        shapes_problem(c.shapes@, 0)
    }
}

/// A review that can be saved.
pub open spec fn review_ok(r: Review) -> bool {
    &&& r.video.file matches Some(f) ==> file_name_ok(f@)
    &&& forall|i: int|
        0 <= i < r.comments@.len() ==> comment_problem(#[trigger] r.comments@[i]) is None
}

/// Check that a shape's coordinates are finite.
fn check_points(points: &Vec<Point>) -> (r: bool)
    ensures
        r == points_ok(points@),
{
    let mut i: usize = 0;
    while i < points.len()
        invariant
            i <= points@.len(),
            forall|j: int|
                0 <= j < i ==> double::is_finite((#[trigger] points@[j]).x) && double::is_finite(
                    points@[j].y,
                ),
        decreases points@.len() - i,
    {
        let p = points[i];
        if !p.x.finite() || !p.y.finite() {
            return false;
        }
        i += 1;
    }
    true
}

/// Check the shapes of a comment.
fn check_shapes(shapes: &Vec<Shape>) -> (r: Option<CommentProblem>)
    ensures
        r == shapes_problem(shapes@, 0),
{
    let mut i: usize = 0;
    while i < shapes.len()
        invariant
            i <= shapes@.len(),
            shapes_problem(shapes@, 0) == shapes_problem(shapes@, i as int),
        decreases shapes@.len() - i,
    {
        let shape = &shapes[i];
        let needed: usize = if shape.kind == ShapeKind::Freehand {
            1
        } else {
            2
        };
        if shape.points.len() < needed {
            return Some(CommentProblem::TooFewPoints(shape.kind));
        }
        if !check_points(&shape.points) {
            return Some(CommentProblem::BadPoint);
        }
        i += 1;
    }
    None
}

impl Review {
    /// Check that times, shapes and the video file are usable; what is wrong
    /// with the first wrong comment otherwise.
    pub fn validate(&self) -> (r: Result<(), ReviewError>)
        ensures
            match r {
                Ok(_) => review_ok(*self),
                Err(ReviewError::BadVideoFile) => self.video.file is Some && !file_name_ok(
                    self.video.file->0@,
                ),
                Err(ReviewError::Comment(i, p)) => {
                    &&& self.video.file matches Some(f) ==> file_name_ok(f@)
                    &&& i < self.comments@.len()
                    &&& comment_problem(self.comments@[i as int]) == Some(p)
                    &&& forall|j: int|
                        0 <= j < i ==> comment_problem(#[trigger] self.comments@[j]) is None
                },
            },
    {
        if let Some(file) = &self.video.file {
            if check_file_name(file.as_str()).is_err() {
                return Err(ReviewError::BadVideoFile);
            }
        }
        let mut i: usize = 0;
        while i < self.comments.len()
            invariant
                i <= self.comments@.len(),
                self.video.file matches Some(f) ==> file_name_ok(f@),
                forall|j: int|
                    0 <= j < i ==> comment_problem(#[trigger] self.comments@[j]) is None,
            decreases self.comments@.len() - i,
        {
            let comment = &self.comments[i];
            if !comment.t_s.is_time() {
                return Err(ReviewError::Comment(i, CommentProblem::BadTime));
            }
            if let Some(end) = &comment.t_end_s {
                if !comment.t_s.at_most(end) {
                    return Err(ReviewError::Comment(i, CommentProblem::EndsEarly));
                }
            }
            if let Some(p) = check_shapes(&comment.shapes) {
                return Err(ReviewError::Comment(i, p));
            }
            i += 1;
        }
        Ok(())
    }
}

/// A shape that the coach draws.
#[derive(Clone, Copy, Debug, PartialEq, Eq, Structural)]
pub enum AiShapeKind {
    Box,
    Arrow,
}

/// A shape that the coach drew, from one corner or end to the other.
#[derive(Clone, Copy, Debug, PartialEq, Eq, Structural)]
pub struct AiShape {
    pub kind: AiShapeKind,
    pub from: Point,
    pub to: Point,
}

/// A source that the coach named.
#[derive(Clone, Debug)]
pub struct SourceRef {
    pub title: String,
    /// The heading in it, or nothing.
    pub heading: String,
    pub url: Option<String>,
}

/// A comment of the coach's.
#[derive(Clone, Debug)]
pub struct AiComment {
    pub t_s: Double,
    pub t_end_s: Option<Double>,
    pub text: String,
    pub shapes: Vec<AiShape>,
    pub sources: Vec<SourceRef>,
}

/// A coach's comment as the page stores it.
#[derive(Clone, Debug)]
pub struct PageComment {
    pub t_s: Double,
    pub t_end_s: Option<Double>,
    pub text: String,
    pub shapes: Vec<Shape>,
}

/// How a source is named: title and heading, with the address if there is one.
pub open spec fn source_text(s: SourceRef) -> Seq<char> {
    let title = if s.heading@.len() == 0 {
        s.title@
    } else {
        s.title@ + " › "@ + s.heading@
    };
    match s.url {
        Some(url) => title + " ("@ + url@ + ")"@,
        None => title,
    }
}

/// How each source is named.
pub open spec fn source_texts(list: Seq<SourceRef>) -> Seq<Seq<char>> {
    list.map_values(|s: SourceRef| source_text(s))
}

/// A comment's text with its sources in a line at the end.
pub open spec fn with_sources(t: Seq<char>, list: Seq<SourceRef>) -> Seq<char> {
    if list.len() == 0 {
        t
    } else {
        t + "\n\nSources: "@ + text::joined(source_texts(list), "; "@)
    }
}

/// A coach's shape as the page draws it: boxes become rectangles.
pub open spec fn is_page_shape(a: AiShape, s: Shape) -> bool {
    &&& s.kind == (match a.kind {
        AiShapeKind::Box => ShapeKind::Rect,
        AiShapeKind::Arrow => ShapeKind::Arrow,
    })
    &&& s.points@ == seq![a.from, a.to]
    &&& s.color is None
}

/// How a source is named.
fn name_source(s: &SourceRef) -> (r: String)
    ensures
        r@ == source_text(*s),
{
    let mut out = s.title.clone();
    if s.heading.as_str().unicode_len() > 0 {
        out.append(" › ");
        out.append(s.heading.as_str());
    }
    if let Some(url) = &s.url {
        out.append(" (");
        out.append(url.as_str());
        out.append(")");
    }
    out
}

/// A coach's comment as the page stores comments: boxes become rectangles,
/// sources a line at the end of the text.
pub fn page_comment(comment: AiComment) -> (r: PageComment)
    ensures
        r.t_s == comment.t_s,
        r.t_end_s == comment.t_end_s,
        r.text@ == with_sources(comment.text@, comment.sources@),
        r.shapes@.len() == comment.shapes@.len(),
        forall|i: int|
            0 <= i < r.shapes@.len() ==> is_page_shape(comment.shapes@[i], #[trigger] r.shapes@[i]),
{
    let mut shapes: Vec<Shape> = Vec::new();
    let mut i: usize = 0;
    while i < comment.shapes.len()
        invariant
            i <= comment.shapes@.len(),
            shapes@.len() == i,
            forall|j: int|
                0 <= j < i ==> is_page_shape(comment.shapes@[j], #[trigger] shapes@[j]),
        decreases comment.shapes@.len() - i,
    {
        let s = comment.shapes[i];
        let kind = match s.kind {
            AiShapeKind::Box => ShapeKind::Rect,
            AiShapeKind::Arrow => ShapeKind::Arrow,
        };
        let points: Vec<Point> = vec![s.from, s.to];
        assert(points@ =~= seq![s.from, s.to]);
        shapes.push(Shape { kind, points, color: None });
        i += 1;
    }
    let mut text = comment.text;
    if comment.sources.len() > 0 {
        let mut names: Vec<String> = Vec::new();
        let mut k: usize = 0;
        assert(text::texts(names@) =~= source_texts(comment.sources@).take(0));
        while k < comment.sources.len()
            invariant
                k <= comment.sources@.len(),
                text::texts(names@) == source_texts(comment.sources@).take(k as int),
            decreases comment.sources@.len() - k,
        {
            let name = name_source(&comment.sources[k]);
            text::push_text(&mut names, name.as_str());
            k += 1;
            assert(text::texts(names@) =~= source_texts(comment.sources@).take(k as int));
        }
        assert(source_texts(comment.sources@).take(k as int) =~= source_texts(comment.sources@));
        let list = text::join(&names, "; ");
        text.append("\n\nSources: ");
        text.append(list.as_str());
    }
    PageComment { t_s: comment.t_s, t_end_s: comment.t_end_s, text, shapes }
}

/// A review's folder.
pub fn review_dir(reviews: &str, id: &str) -> (r: Result<String, BadName>)
    ensures
        match r {
            Ok(p) => id_ok(id@) && p@ == paths::joined_path(reviews@, id@),
            Err(_) => !id_ok(id@),
        },
{
    check_id(id)?;
    Ok(paths::join_path(reviews, id))
}

/// A review's file.
pub fn review_path(reviews: &str, id: &str) -> (r: Result<String, BadName>)
    ensures
        match r {
            Ok(p) => id_ok(id@) && p@ == paths::joined_path(
                paths::joined_path(reviews@, id@),
                REVIEW_FILE@,
            ),
            Err(_) => !id_ok(id@),
        },
{
    let dir = review_dir(reviews, id)?;
    Ok(paths::join_path(dir.as_str(), REVIEW_FILE))
}

/// Two references are one video when they are of one kind, name the same and take
/// the same part of it.
pub proof fn law_same_videos(a: VideoRef, b: VideoRef)
    ensures
        same_video(a, b) ==> a.kind == b.kind && a.reference@ == b.reference@ && (a.start_s is Some
            == b.start_s is Some) && (a.end_s is Some == b.end_s is Some),
        same_video(a, b) && a.start_s is Some ==> double::equal(a.start_s->0, b.start_s->0),
        same_video(a, b) && a.end_s is Some ==> double::equal(a.end_s->0, b.end_s->0),
        a.kind == b.kind && a.reference@ == b.reference@ && (a.start_s is Some == b.start_s is Some)
            && (a.end_s is Some == b.end_s is Some) && (a.start_s is Some ==> double::equal(
            a.start_s->0,
            b.start_s->0,
        )) && (a.end_s is Some ==> double::equal(a.end_s->0, b.end_s->0)) ==> same_video(a, b),
{
}

/// A review's name has up to 120 letters, digits, dashes, underscores and dots,
/// and starts with no dot.
pub proof fn law_review_names(id: Seq<char>, i: int)
    requires
        0 <= i < id.len(),
    ensures
        id_ok(id) ==> id.len() <= 120 && id[0] != '.' && (('0' <= id[i] <= '9') || ('a' <= id[i]
            <= 'z') || ('A' <= id[i] <= 'Z') || id[i] == '-' || id[i] == '_' || id[i] == '.'),
        !id_ok(Seq::empty()),
        id.len() <= 120 && id[0] != '.' && (forall|k: int|
            0 <= k < id.len() ==> 'a' <= #[trigger] id[k] <= 'z' || 'A' <= id[k] <= 'Z' || '0'
                <= id[k] <= '9' || id[k] == '-' || id[k] == '_' || id[k] == '.') ==> id_ok(id),
{
}

/// A file of a review is one step of a path, hides nothing and is not the review
/// itself.
pub proof fn law_review_files(file: Seq<char>)
    ensures
        file_name_ok(file) == (file.len() > 0 && file[0] != '.' && (forall|i: int|
            0 <= i < file.len() ==> #[trigger] file[i] != '/' && file[i] != '\\') && file
            != "review.json"@),
{
    if file.contains('/') {
        let i = choose|i: int| 0 <= i < file.len() && file[i] == '/';
        assert(file[i] == '/');
    }
    if file.contains('\\') {
        let i = choose|i: int| 0 <= i < file.len() && file[i] == '\\';
        assert(file[i] == '\\');
    }
}

/// A shape needs two points, a line drawn by hand one, and every point lies
/// somewhere; the number of points is complained of first.
pub proof fn law_shapes_have_points(s: Shape)
    ensures
        ({
            let few = s.points@.len() == 0 || (s.points@.len() == 1 && !(s.kind is Freehand));
            let bad = exists|i: int|
                0 <= i < s.points@.len() && !(double::is_finite((#[trigger] s.points@[i]).x)
                    && double::is_finite(s.points@[i].y));
            match shape_problem(s) {
                None => !few && !bad,
                Some(CommentProblem::TooFewPoints(k)) => few && k == s.kind,
                Some(CommentProblem::BadPoint) => !few && bad,
                Some(_) => false,
            }
        }),
{
}

/// The shape that is complained of is the first that has a problem.
pub proof fn law_first_bad_shape(shapes: Seq<Shape>, from: int)
    requires
        0 <= from <= shapes.len(),
    ensures
        match shapes_problem(shapes, from) {
            None => forall|i: int|
                from <= i < shapes.len() ==> shape_problem(#[trigger] shapes[i]) is None,
            Some(p) => exists|i: int|
                from <= i < shapes.len() && shape_problem(#[trigger] shapes[i]) == Some(p)
                    && forall|j: int|
                    from <= j < i ==> shape_problem(#[trigger] shapes[j]) is None,
        },
    decreases shapes.len() - from,
{
    if from < shapes.len() {
        if shape_problem(shapes[from]) is None {
            law_first_bad_shape(shapes, from + 1);
        } else {
            assert(shape_problem(shapes[from]) == shapes_problem(shapes, from));
        }
    }
}

/// A comment stands at a time, ends there or later, and has shapes without a
/// problem.
pub proof fn law_comments_without_problem(c: Comment)
    ensures
        (comment_problem(c) is None) == (double::is_time(c.t_s) && (c.t_end_s matches Some(e)
            ==> double::at_most(c.t_s, e)) && forall|i: int|
            0 <= i < c.shapes@.len() ==> shape_problem(#[trigger] c.shapes@[i]) is None),
        (comment_problem(c) == Some(CommentProblem::BadTime)) == !double::is_time(c.t_s),
{
    law_first_bad_shape(c.shapes@, 0);
    if let Some(p) = shapes_problem(c.shapes@, 0) {
        let i = choose|i: int|
            0 <= i < c.shapes@.len() && shape_problem(#[trigger] c.shapes@[i]) == Some(p);
        assert(shape_problem(c.shapes@[i]) == Some(p));
    }
}

/// A comment with sources names them all behind its text, each by its title, the
/// heading where there is one and the address where there is one.
pub proof fn law_sources_are_named(t: Seq<char>, s: SourceRef, list: Seq<SourceRef>)
    ensures
        with_sources(t, Seq::empty()) == t,
        with_sources(t, seq![s]) == t + "\n\nSources: "@ + source_text(s),
        list.len() > 0 ==> with_sources(t, list.push(s)) == with_sources(t, list) + "; "@
            + source_text(s),
        s.heading@.len() == 0 && s.url is None ==> source_text(s) == s.title@,
        s.heading@.len() > 0 && s.url is None ==> source_text(s) == s.title@ + " › "@ + s.heading@,
        s.heading@.len() == 0 && s.url is Some ==> source_text(s) == s.title@ + " ("@ + s.url->0@
            + ")"@,
        s.heading@.len() > 0 && s.url is Some ==> source_text(s) == s.title@ + " › "@ + s.heading@
            + " ("@ + s.url->0@ + ")"@,
{
    assert(source_texts(seq![s]) =~= seq![source_text(s)]);
    if list.len() > 0 {
        let a = source_texts(list);
        assert(source_texts(list.push(s)) =~= a.push(source_text(s)));
        assert(a.push(source_text(s)).drop_last() =~= a);
        assert(t + "\n\nSources: "@ + (text::joined(a, "; "@) + "; "@ + source_text(s)) =~= t
            + "\n\nSources: "@ + text::joined(a, "; "@) + "; "@ + source_text(s));
    }
}

/// A box becomes a rectangle and an arrow an arrow, from the first point to the
/// second.
pub proof fn law_shapes_for_the_page(a: AiShape, s: Shape)
    requires
        is_page_shape(a, s),
    ensures
        (a.kind is Box) == (s.kind is Rect),
        (a.kind is Arrow) == (s.kind is Arrow),
        s.points@.len() == 2 && s.points@[0] == a.from && s.points@[1] == a.to,
        s.color is None,
{
}

/// A review may be kept when its video's file has a good name and no comment has
/// a problem.
pub proof fn law_good_reviews(r: Review)
    ensures
        review_ok(r) == ((r.video.file matches Some(f) ==> file_name_ok(f@)) && forall|i: int|
            0 <= i < r.comments@.len() ==> comment_problem(#[trigger] r.comments@[i]) is None),
{
}

} // verus!
