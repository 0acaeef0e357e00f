//! Requests about reviews, and where their videos are.
use crate::double;
use crate::double::Double;
use crate::inspector;
use crate::json;
use crate::paths;
use crate::review;
use crate::review::{Review, VideoKind, VideoRef};
use crate::text;
use vstd::prelude::*;

verus! {

/// Where the file of a video is looked for.
#[derive(Clone, Debug)]
pub enum VideoPlace {
    /// In a review's folder; it must be there.
    InReview(String),
    /// In a session's folder; without a file the session's first segment.
    InSession { dir: String, file: Option<String> },
    /// At this path; it must be there.
    AtPath(String),
}

/// Why a video has no place.
#[derive(Clone, Copy, Debug, PartialEq, Eq, Structural)]
pub enum PlaceError {
    BadVideoFile,
    BadReviewId,
    BadSession,
    /// A file on this machine is given by its full path.
    NotAbsolute,
    NotAVideo,
    /// The range is not downloaded into a review.
    NotDownloaded,
}

/// A plain name in a session reference.
pub open spec fn plain_name(name: Seq<char>) -> bool {
    name.len() > 0 && !name.contains('/') && !name.contains('\\') && name[0] != '.'
}

/// Whether a name is a plain one.
pub fn is_plain(name: &str) -> (r: bool)
    ensures
        r == plain_name(name@),
{
    name.unicode_len() > 0 && !text::has_char(name, '/') && !text::has_char(name, '\\')
        && name.get_char(0) != '.'
}

/// A session reference's folder and file.
pub open spec fn session_parts(reference: Seq<char>) -> (Seq<char>, Option<Seq<char>>) {
    match text::parted(reference, '/') {
        Some(p) => (p.0, Some(p.1)),
        None => (reference, None),
    }
}

/// A session reference that stays inside the folder of sessions.
pub open spec fn session_ok(reference: Seq<char>) -> bool {
    let p = session_parts(reference);
    plain_name(p.0) && (p.1 matches Some(f) ==> plain_name(f))
}

/// The extension of a path in lower case; nothing without one.
pub open spec fn lower_extension(path: Seq<char>) -> Seq<char> {
    match paths::extension_of(paths::last_name(path)) {
        Some(e) => text::lowercase(e),
        None => text::lowercase(Seq::empty()),
    }
}

/// An extension of video files that are served.
pub open spec fn is_video_extension(e: Seq<char>) -> bool {
    e == "mp4"@ || e == "mkv"@ || e == "webm"@ || e == "mov"@ || e == "m4v"@ || e == "ogv"@
}

/// The review whose folder is meant, if one is.
pub open spec fn review_given(review: Option<Seq<char>>) -> Option<Seq<char>> {
    inspector::filled(review)
}

/// Why a video has no place, if it has none.
pub open spec fn place_problem(v: VideoRef, review: Option<Seq<char>>) -> Option<PlaceError> {
    let id = review_given(review);
    if v.file is Some && id is Some {
        if !review::file_name_ok(v.file->0@) {
            Some(PlaceError::BadVideoFile)
        } else if !review::id_ok(id->0) {
            Some(PlaceError::BadReviewId)
        } else {
            None
        }
    } else {
        match v.kind {
            VideoKind::Session => if session_ok(v.reference@) {
                None
            } else {
                Some(PlaceError::BadSession)
            },
            VideoKind::File => if v.reference@.len() == 0 || v.reference@[0] != '/' {
                Some(PlaceError::NotAbsolute)
            } else if !is_video_extension(lower_extension(v.reference@)) {
                Some(PlaceError::NotAVideo)
            } else {
                None
            },
            VideoKind::Youtube => Some(PlaceError::NotDownloaded),
        }
    }
}

/// Where the file of a video is looked for.
pub open spec fn is_place(
    reviews: Seq<char>,
    sessions: Seq<char>,
    v: VideoRef,
    review: Option<Seq<char>>,
    p: VideoPlace,
) -> bool {
    let id = review_given(review);
    if v.file is Some && id is Some {
        p matches VideoPlace::InReview(path) && path@ == paths::joined_path(
            paths::joined_path(reviews, id->0),
            v.file->0@,
        )
    } else {
        match v.kind {
            VideoKind::Session => p matches VideoPlace::InSession { dir, file } && dir@
                == paths::joined_path(sessions, session_parts(v.reference@).0) && text::opt_text(
                file,
            ) == session_parts(v.reference@).1,
            _ => p matches VideoPlace::AtPath(path) && path@ == v.reference@,
        }
    }
}

/// The extension of a path in lower case.
fn extension_lower(path: &str) -> (r: String)
    ensures
        r@ == lower_extension(path@),
{
    let name = paths::file_name(path);
    match paths::extension(name.as_str()) {
        Some(e) => text::to_lower(e.as_str()),
        None => {
            let none = String::new();
            assert(none@ =~= Seq::empty());
            text::to_lower(none.as_str())
        },
    }
}

/// Whether files with an extension in lower case are served as video.
pub fn is_video_file(extension: &str) -> (r: bool)
    ensures
        r == is_video_extension(extension@),
{
    text::same(extension, "mp4") || text::same(extension, "mkv") || text::same(extension, "webm")
        || text::same(extension, "mov") || text::same(extension, "m4v") || text::same(
        extension,
        "ogv",
    )
}

/// Where the file a video reference plays is looked for: in the review's folder
/// if it has one, else the session's segment or the file itself.
pub fn video_place(
    reviews: &str,
    sessions: &str,
    video: &VideoRef,
    review: Option<&str>,
) -> (r: Result<VideoPlace, PlaceError>)
    ensures
        ({
            let id = crate::video::opt_str(review);
            match r {
                Ok(p) => place_problem(*video, id) is None && is_place(
                    reviews@,
                    sessions@,
                    *video,
                    id,
                    p,
                ),
                Err(e) => place_problem(*video, id) == Some(e),
            }
        }),
{
    if let (Some(file), Some(id)) = (&video.file, review) {
        if id.unicode_len() > 0 {
            if review::check_file_name(file.as_str()).is_err() {
                return Err(PlaceError::BadVideoFile);
            }
            if review::check_id(id).is_err() {
                return Err(PlaceError::BadReviewId);
            }
            let dir = paths::join_path(reviews, id);
            return Ok(VideoPlace::InReview(paths::join_path(dir.as_str(), file.as_str())));
        }
    }
    match video.kind {
        VideoKind::Session => {
            let (session, file) = match text::split_once(video.reference.as_str(), '/') {
                Some(p) => (p.0, Some(p.1)),
                None => (video.reference.clone(), None),
            };
            if !is_plain(session.as_str()) {
                return Err(PlaceError::BadSession);
            }
            if let Some(f) = &file {
                if !is_plain(f.as_str()) {
                    return Err(PlaceError::BadSession);
                }
            }
            Ok(
                VideoPlace::InSession {
                    dir: paths::join_path(sessions, session.as_str()),
                    file,
                },
            )
        },
        VideoKind::File => {
            let path = video.reference.as_str();
            if path.unicode_len() == 0 || path.get_char(0) != '/' {
                return Err(PlaceError::NotAbsolute);
            }
            let extension = extension_lower(path);
            if !is_video_file(extension.as_str()) {
                return Err(PlaceError::NotAVideo);
            }
            Ok(VideoPlace::AtPath(video.reference.clone()))
        },
        VideoKind::Youtube => Err(PlaceError::NotDownloaded),
    }
}

/// Why a video cannot be copied into its review.
#[derive(Clone, Copy, Debug, PartialEq, Eq, Structural)]
pub enum CopyError {
    /// Only a video file on this machine is copied in.
    NotAFile,
    /// The video is in the review already.
    AlreadyThere,
}

/// Whether a review's video can be copied into its folder.
pub fn check_copy(video: &VideoRef) -> (r: Result<(), CopyError>)
    ensures
        match r {
            Ok(_) => video.kind == VideoKind::File && video.file is None,
            Err(CopyError::NotAFile) => video.kind != VideoKind::File,
            Err(CopyError::AlreadyThere) => video.kind == VideoKind::File && video.file is Some,
        },
{
    if video.kind != VideoKind::File {
        return Err(CopyError::NotAFile);
    }
    if video.file.is_some() {
        return Err(CopyError::AlreadyThere);
    }
    Ok(())
}

/// The name of a video that is copied in: `video` with the source's extension in
/// lower case, or `mp4`.
pub fn copied_name(source: &str) -> (r: String)
    ensures
        r@ == "video."@ + text::lowercase(
            match paths::extension_of(paths::last_name(source@)) {
                Some(e) => e,
                None => "mp4"@,
            },
        ),
{
    let name = paths::file_name(source);
    let extension = match paths::extension(name.as_str()) {
        Some(e) => text::to_lower(e.as_str()),
        None => text::to_lower("mp4"),
    };
    text::concat("video.", extension.as_str())
}

/// The id of a review of the older layout, by its file's name: a plain name that
/// ends with `.json`.
pub open spec fn old_review_id(name: Seq<char>) -> Option<Seq<char>> {
    let s = ".json"@;
    if s.is_suffix_of(name) && review::id_ok(name.take(name.len() - s.len())) {
        Some(name.take(name.len() - s.len()))
    } else {
        None
    }
}

/// The id of a review of the older layout, by its file's name.
pub fn old_id(file_name: &str) -> (r: Option<String>)
    ensures
        text::opt_text(r) == old_review_id(file_name@),
{
    match text::strip_suffix(file_name, ".json") {
        Some(id) => if review::check_id(id.as_str()).is_ok() {
            Some(id)
        } else {
            None
        },
        None => None,
    }
}

/// What becomes of what stands in the reviews' folder when reviews of the older
/// layout are moved into folders.
#[derive(Clone, Debug)]
pub enum Migration {
    /// It is no such review.
    Leave,
    /// There is a review in the folder of that id.
    Exists(String),
    /// It moves into the folder of that id.
    Move(String),
}

/// What becomes of an entry of the reviews' folder: `is_file` says whether it is a
/// file, `has_review` whether the folder of its id holds a review.
pub fn migration(file_name: &str, is_file: bool, has_review: bool) -> (r: Migration)
    ensures
        match r {
            Migration::Leave => old_review_id(file_name@) is None || !is_file,
            Migration::Exists(id) => old_review_id(file_name@) == Some(id@) && is_file
                && has_review,
            Migration::Move(id) => old_review_id(file_name@) == Some(id@) && is_file && !has_review,
        },
        forall|s: Store| #[trigger]
            found_in(s, file_name@, is_file, has_review) ==> (r is Move) == waits(s, file_name@),
{
    match old_id(file_name) {
        Some(id) => if !is_file {
            Migration::Leave
        } else if has_review {
            Migration::Exists(id)
        } else {
            Migration::Move(id)
        },
        None => Migration::Leave,
    }
}

/// The old download cache may hold a review's video.
pub open spec fn cachable(video: VideoRef) -> bool {
    video.kind == VideoKind::Youtube && video.file is None
}

/// Whether the old download cache may hold a review's video.
pub fn may_be_cached(video: &VideoRef) -> (r: bool)
    ensures
        r == cachable(*video),
{
    video.kind == VideoKind::Youtube && video.file.is_none()
}

/// A review as it is written into its folder: with `cached`, its video moved in
/// from the old download cache as well and is named.
pub fn migrated(review: Review, cached: bool) -> (r: Review)
    ensures
        text::opt_text(r.video.file) == (if cached {
            Some("video.mp4"@)
        } else {
            text::opt_text(review.video.file)
        }),
        r == (Review {
            video: VideoRef { file: r.video.file, ..review.video },
            ..review
        }),
{
    let mut out = review;
    if cached {
        out.video.file = Some(review::VIDEO_FILE.to_owned());
    }
    out
}

/// The reviews' folder and the old download cache. Of a review in a folder it
/// holds the review as it came there and whether its video moved in with it, as
/// [`migrated`] takes them.
pub struct Store {
    /// The files that stand in the reviews' folder, by name, with the review each
    /// holds, if it holds one.
    pub files: Map<Seq<char>, Option<Review>>,
    /// The reviews in folders, by id.
    pub folders: Map<Seq<char>, (Review, bool)>,
    /// The videos in folders, by id.
    pub videos: Map<Seq<char>, Seq<u8>>,
    /// The videos in the old download cache, by name.
    pub cache: Map<Seq<char>, Seq<u8>>,
}

/// A file that moves: a review of the older layout without a folder.
pub open spec fn waits(s: Store, name: Seq<char>) -> bool {
    &&& old_review_id(name) matches Some(id) && !s.folders.dom().contains(id)
    &&& s.files.dom().contains(name)
}

/// What is said of an entry is so in a store: whether it is a file, and whether the
/// folder of its id holds a review.
pub open spec fn found_in(s: Store, name: Seq<char>, is_file: bool, has_review: bool) -> bool {
    &&& is_file == s.files.dom().contains(name)
    &&& old_review_id(name) matches Some(id) ==> has_review == s.folders.dom().contains(id)
}

/// The name under which the old download cache may hold the video of a file's
/// review; `cached_as` names it for a video.
pub open spec fn cached_name(
    s: Store,
    name: Seq<char>,
    cached_as: spec_fn(VideoRef) -> Seq<char>,
) -> Option<Seq<char>> {
    match s.files[name] {
        Some(r) if cachable(r.video) => Some(cached_as(r.video)),
        _ => None,
    }
}

/// The store after one entry of the reviews' folder was looked at, when all that
/// is done to files goes well.
pub open spec fn after_entry(
    s: Store,
    name: Seq<char>,
    cached_as: spec_fn(VideoRef) -> Seq<char>,
) -> Store {
    if waits(s, name) {
        let id = old_review_id(name)->0;
        let review = s.files[name]->0;
        match cached_name(s, name, cached_as) {
            Some(c) if s.cache.dom().contains(c) => Store {
                files: s.files.remove(name),
                folders: s.folders.insert(id, (review, true)),
                videos: s.videos.insert(id, s.cache[c]),
                cache: s.cache.remove(c),
            },
            _ => Store {
                files: s.files.remove(name),
                folders: s.folders.insert(id, (review, false)),
                ..s
            },
        }
    } else {
        s
    }
}

/// The store after the first `n` entries of a listing, and how many files moved.
pub open spec fn after_entries(
    s: Store,
    names: Seq<Seq<char>>,
    n: int,
    cached_as: spec_fn(VideoRef) -> Seq<char>,
) -> (Store, nat)
    decreases n,
{
    if n <= 0 {
        (s, 0)
    } else {
        let (t, moved) = after_entries(s, names, n - 1, cached_as);
        (
            after_entry(t, names[n - 1], cached_as),
            if waits(t, names[n - 1]) {
                moved + 1
            } else {
                moved
            },
        )
    }
}

/// What became of a file that waited: it is gone, its review is in its folder as
/// it was, and its video came along from the cache, or the cache holds none.
pub open spec fn moved_in(
    s: Store,
    t: Store,
    name: Seq<char>,
    cached_as: spec_fn(VideoRef) -> Seq<char>,
) -> bool {
    let id = old_review_id(name)->0;
    let cached = cached_name(s, name, cached_as);
    &&& !t.files.dom().contains(name)
    &&& t.folders.dom().contains(id)
    &&& t.folders[id].0 == s.files[name]->0
    &&& t.folders[id].1 ==> {
        &&& cached matches Some(c) && s.cache.dom().contains(c) && t.videos[id] == s.cache[c]
        &&& t.videos.dom().contains(id)
    }
    &&& !t.folders[id].1 ==> same_video_of(s, t, id)
    &&& cached matches Some(c) ==> !t.cache.dom().contains(c)
}

/// A file that does not move stays as it is.
pub open spec fn same_file(s: Store, t: Store, name: Seq<char>) -> bool {
    &&& t.files.dom().contains(name) == s.files.dom().contains(name)
    &&& s.files.dom().contains(name) ==> t.files[name] == s.files[name]
}

/// A review in a folder stays as it is.
pub open spec fn same_folder(s: Store, t: Store, id: Seq<char>) -> bool {
    &&& t.folders.dom().contains(id) == s.folders.dom().contains(id)
    &&& s.folders.dom().contains(id) ==> t.folders[id] == s.folders[id]
    &&& same_video_of(s, t, id)
}

/// A review's video stays as it is.
pub open spec fn same_video_of(s: Store, t: Store, id: Seq<char>) -> bool {
    &&& t.videos.dom().contains(id) == s.videos.dom().contains(id)
    &&& s.videos.dom().contains(id) ==> t.videos[id] == s.videos[id]
}

/// A video in the old cache stays as it is.
pub open spec fn same_cached(s: Store, t: Store, c: Seq<char>) -> bool {
    t.cache.dom().contains(c) && t.cache[c] == s.cache[c]
}

/// A video in the old cache moved into the folder of some review that was listed.
pub open spec fn moved_out(
    s: Store,
    t: Store,
    c: Seq<char>,
    seen: Seq<Seq<char>>,
    cached_as: spec_fn(VideoRef) -> Seq<char>,
) -> bool {
    exists|name: Seq<char>| #[trigger]
        seen.contains(name) && waits(s, name) && cached_name(s, name, cached_as) == Some(c)
            && t.folders[old_review_id(name)->0].1
}

/// Every file that waits holds a review.
pub open spec fn all_readable(s: Store) -> bool {
    forall|name: Seq<char>| #[trigger] waits(s, name) ==> s.files[name] is Some
}

/// A review of this id waits and was listed.
pub open spec fn comes_in(s: Store, seen: Seq<Seq<char>>, id: Seq<char>) -> bool {
    seen.contains(id + ".json"@) && waits(s, id + ".json"@)
}

/// Moving the reviews of the older layout, over the first `n` entries of a listing
/// that names none twice: each review of the older layout without a folder moves
/// into one, as it is, and is counted, and its video in the old cache moves along;
/// every other file and folder stays, and so does each cached video that no such
/// review names.
pub proof fn law_old_reviews_move(
    s: Store,
    names: Seq<Seq<char>>,
    n: int,
    cached_as: spec_fn(VideoRef) -> Seq<char>,
)
    requires
        all_readable(s),
        0 <= n <= names.len(),
        names.no_duplicates(),
    ensures
        ({
            let (t, moved) = after_entries(s, names, n, cached_as);
            let seen = names.take(n);
            &&& moved == seen.filter(|name: Seq<char>| waits(s, name)).len()
            &&& forall|name: Seq<char>|
                seen.contains(name) && waits(s, name) ==> #[trigger] moved_in(
                    s,
                    t,
                    name,
                    cached_as,
                )
            &&& forall|name: Seq<char>|
                !(seen.contains(name) && waits(s, name)) ==> #[trigger] same_file(s, t, name)
            &&& forall|id: Seq<char>|
                !comes_in(s, seen, id) ==> #[trigger] same_folder(s, t, id)
            &&& forall|c: Seq<char>|
                s.cache.dom().contains(c) ==> #[trigger] same_cached(s, t, c) || moved_out(
                    s,
                    t,
                    c,
                    seen,
                    cached_as,
                )
            &&& t.cache.dom().subset_of(s.cache.dom())
        }),
    decreases n,
{
    reveal(Seq::filter);
    let pred = |name: Seq<char>| waits(s, name);
    if n > 0 {
        law_old_reviews_move(s, names, n - 1, cached_as);
        let (t, moved) = after_entries(s, names, n - 1, cached_as);
        let u = after_entries(s, names, n, cached_as).0;
        let x = names[n - 1];
        let before = names.take(n - 1);
        let seen = names.take(n);
        assert(seen.drop_last() =~= before);
        assert(seen =~= before.push(x));
        assert(!before.contains(x));
        assert forall|name: Seq<char>| seen.contains(name) == (before.contains(name) || name
            == x) by {
            if before.contains(name) {
                let k = choose|k: int| 0 <= k < before.len() && before[k] == name;
                assert(seen[k] == name);
            }
            assert(seen[n - 1] == x);
        }
        assert(same_file(s, t, x));
        if old_review_id(x) is Some {
            let id = old_review_id(x)->0;
            lemma_id_of(x);
            assert(!comes_in(s, before, id));
            assert(same_folder(s, t, id));
        }
        assert(waits(t, x) == waits(s, x));
        assert(seen.filter(pred).len() == before.filter(pred).len() + if waits(s, x) {
            1int
        } else {
            0
        });
        assert forall|name: Seq<char>| seen.contains(name) && waits(s, name) implies #[trigger] moved_in(
            s,
            u,
            name,
            cached_as,
        ) by {
            lemma_id_of(name);
            if name != x {
                assert(moved_in(s, t, name, cached_as));
                if old_review_id(x) is Some {
                    lemma_id_of(x);
                }
            } else if let Some(c) = cached_name(s, x, cached_as) {
                if t.cache.dom().contains(c) {
                    assert(s.cache.dom().contains(c));
                    assert(same_cached(s, t, c) || moved_out(s, t, c, before, cached_as));
                    if moved_out(s, t, c, before, cached_as) {
                        let y = choose|y: Seq<char>| #[trigger]
                            before.contains(y) && waits(s, y) && cached_name(s, y, cached_as)
                                == Some(c) && t.folders[old_review_id(y)->0].1;
                        assert(moved_in(s, t, y, cached_as));
                    }
                }
            }
        }
        assert forall|name: Seq<char>|
            !(seen.contains(name) && waits(s, name)) implies #[trigger] same_file(s, u, name) by {
            assert(same_file(s, t, name));
        }
        assert forall|id: Seq<char>| !comes_in(s, seen, id) implies #[trigger] same_folder(
            s,
            u,
            id,
        ) by {
            assert(!comes_in(s, before, id));
            assert(same_folder(s, t, id));
            if waits(t, x) {
                lemma_id_of(x);
            }
        }
        assert forall|c: Seq<char>| s.cache.dom().contains(c) implies #[trigger] same_cached(
            s,
            u,
            c,
        ) || moved_out(s, u, c, seen, cached_as) by {
            if moved_out(s, t, c, before, cached_as) {
                let y = choose|y: Seq<char>| #[trigger]
                    before.contains(y) && waits(s, y) && cached_name(s, y, cached_as) == Some(c)
                        && t.folders[old_review_id(y)->0].1;
                lemma_id_of(y);
                if waits(t, x) {
                    lemma_id_of(x);
                }
                assert(seen.contains(y));
            } else {
                assert(same_cached(s, t, c));
                if !same_cached(s, u, c) {
                    assert(waits(s, x) && cached_name(s, x, cached_as) == Some(c));
                    assert(seen.contains(x));
                }
            }
        }
    } else {
        assert(names.take(n).filter(pred).len() == 0);
    }
}

/// The video of a review that moves comes along from the old cache, if it is there
/// and no other review that moves has the same.
pub proof fn law_cached_video_moves_along(
    s: Store,
    names: Seq<Seq<char>>,
    name: Seq<char>,
    c: Seq<char>,
    cached_as: spec_fn(VideoRef) -> Seq<char>,
)
    requires
        all_readable(s),
        names.no_duplicates(),
        names.contains(name),
        waits(s, name),
        cached_name(s, name, cached_as) == Some(c),
        s.cache.dom().contains(c),
        forall|other: Seq<char>| #[trigger]
            names.contains(other) && waits(s, other) && cached_name(s, other, cached_as) == Some(c)
                ==> other == name,
    ensures
        ({
            let t = after_entries(s, names, names.len() as int, cached_as).0;
            let id = old_review_id(name)->0;
            &&& t.folders[id] == (s.files[name]->0, true)
            &&& t.videos.dom().contains(id)
            &&& t.videos[id] == s.cache[c]
            &&& !t.cache.dom().contains(c)
        }),
{
    let t = after_entries(s, names, names.len() as int, cached_as).0;
    law_old_reviews_move(s, names, names.len() as int, cached_as);
    assert(names.take(names.len() as int) =~= names);
    assert(moved_in(s, t, name, cached_as));
    assert(same_cached(s, t, c) || moved_out(s, t, c, names, cached_as));
}

/// A second run over what the first left moves nothing: whatever is listed, the
/// store stays as it is.
pub proof fn law_nothing_left_to_move(
    s: Store,
    names: Seq<Seq<char>>,
    again: Seq<Seq<char>>,
    n: int,
    cached_as: spec_fn(VideoRef) -> Seq<char>,
)
    requires
        all_readable(s),
        names.no_duplicates(),
        forall|name: Seq<char>| #[trigger] s.files.dom().contains(name) ==> names.contains(name),
        0 <= n <= again.len(),
    ensures
        ({
            let t = after_entries(s, names, names.len() as int, cached_as).0;
            after_entries(t, again, n, cached_as) == (t, 0nat)
        }),
    decreases n,
{
    if n > 0 {
        law_nothing_left_to_move(s, names, again, n - 1, cached_as);
        let t = after_entries(s, names, names.len() as int, cached_as).0;
        let x = again[n - 1];
        law_old_reviews_move(s, names, names.len() as int, cached_as);
        assert(names.take(names.len() as int) =~= names);
        if waits(t, x) {
            if waits(s, x) {
                assert(moved_in(s, t, x, cached_as));
            } else {
                assert(same_file(s, t, x));
                lemma_id_of(x);
                assert(same_folder(s, t, old_review_id(x)->0));
            }
        }
    }
}

/// The name of a review of the older layout is its id and the ending.
proof fn lemma_id_of(name: Seq<char>)
    ensures
        old_review_id(name) matches Some(id) ==> id + ".json"@ == name,
{
    if let Some(id) = old_review_id(name) {
        assert(id + ".json"@ =~= name);
    }
}

/// What a query says about a video; times are still text.
#[derive(Clone, Debug)]
pub struct VideoQuery {
    pub kind: VideoKind,
    pub reference: String,
    pub start_s: Option<String>,
    pub end_s: Option<String>,
    pub file: Option<String>,
}

/// Why a query names no video.
#[derive(Clone, Copy, Debug, PartialEq, Eq, Structural)]
pub enum VideoQueryError {
    NoKind,
    /// The kind is none of session, file and youtube.
    BadKind,
    NoReference,
}

/// The kind of a name.
pub open spec fn kind_named(name: Seq<char>) -> Option<VideoKind> {
    if name == "session"@ {
        Some(VideoKind::Session)
    } else if name == "file"@ {
        Some(VideoKind::File)
    } else if name == "youtube"@ {
        Some(VideoKind::Youtube)
    } else {
        None
    }
}

/// The kind of a name.
pub fn parse_kind(name: &str) -> (r: Option<VideoKind>)
    ensures
        r == kind_named(name@),
{
    if text::same(name, "session") {
        Some(VideoKind::Session)
    } else if text::same(name, "file") {
        Some(VideoKind::File)
    } else if text::same(name, "youtube") {
        Some(VideoKind::Youtube)
    } else {
        None
    }
}

/// The video named by `kind`, `ref`, `start_s`, `end_s` and `file` of a query.
pub fn video_query(query: &Vec<(String, String)>) -> (r: Result<VideoQuery, VideoQueryError>)
    ensures
        ({
            let kind = inspector::filled(inspector::given(query@, "kind"@, 0));
            let reference = inspector::filled(inspector::given(query@, "ref"@, 0));
            match r {
                Ok(v) => kind is Some && kind_named(kind->0) == Some(v.kind) && reference == Some(
                    v.reference@,
                ) && text::opt_text(v.start_s) == inspector::filled(
                    inspector::given(query@, "start_s"@, 0),
                ) && text::opt_text(v.end_s) == inspector::filled(
                    inspector::given(query@, "end_s"@, 0),
                ) && text::opt_text(v.file) == inspector::filled(
                    inspector::given(query@, "file"@, 0),
                ),
                Err(VideoQueryError::NoKind) => kind is None,
                Err(VideoQueryError::BadKind) => kind is Some && kind_named(kind->0) is None,
                Err(VideoQueryError::NoReference) => kind is Some && kind_named(kind->0) is Some
                    && reference is None,
            }
        }),
{
    let name = match inspector::filled_value(query, "kind") {
        Some(k) => k,
        None => {
            return Err(VideoQueryError::NoKind);
        },
    };
    let kind = match parse_kind(name.as_str()) {
        Some(k) => k,
        None => {
            return Err(VideoQueryError::BadKind);
        },
    };
    let reference = match inspector::filled_value(query, "ref") {
        Some(v) => v,
        None => {
            return Err(VideoQueryError::NoReference);
        },
    };
    Ok(
        VideoQuery {
            kind,
            reference,
            start_s: inspector::filled_value(query, "start_s"),
            end_s: inspector::filled_value(query, "end_s"),
            file: inspector::filled_value(query, "file"),
        },
    )
}

/// What a `GET` asks for.
#[derive(Clone, Debug)]
pub enum GetRoute {
    Reviews,
    Downloads,
    Video,
    Meta,
    Knowledge(String),
    Review(String),
    Unknown,
}

/// What a `GET` under the app's path asks for.
pub open spec fn is_get_route(path: Seq<char>, r: GetRoute) -> bool {
    match text::parted(path, '/') {
        None => if path == "reviews"@ {
            r is Reviews
        } else if path == "downloads"@ {
            r is Downloads
        } else if path == "video"@ {
            r is Video
        } else if path == "meta"@ {
            r is Meta
        } else {
            r is Unknown
        },
        Some(p) => if p.0 == "knowledge"@ {
            r matches GetRoute::Knowledge(rest) && rest@ == p.1
        } else if p.0 == "reviews"@ {
            r matches GetRoute::Review(id) && id@ == p.1
        } else {
            r is Unknown
        },
    }
}

/// What a `GET` under the app's path asks for.
pub fn get_route(path: &str) -> (r: GetRoute)
    ensures
        is_get_route(path@, r),
{
    match text::split_once(path, '/') {
        None => if text::same(path, "reviews") {
            GetRoute::Reviews
        } else if text::same(path, "downloads") {
            GetRoute::Downloads
        } else if text::same(path, "video") {
            GetRoute::Video
        } else if text::same(path, "meta") {
            GetRoute::Meta
        } else {
            GetRoute::Unknown
        },
        Some(p) => if text::same(p.0.as_str(), "knowledge") {
            GetRoute::Knowledge(p.1)
        } else if text::same(p.0.as_str(), "reviews") {
            GetRoute::Review(p.1)
        } else {
            GetRoute::Unknown
        },
    }
}

/// How a change is asked for.
#[derive(Clone, Copy, Debug, PartialEq, Eq, Structural)]
pub enum ChangeMethod {
    Put,
    Post,
    Delete,
    Other,
}

/// What a change asks for.
#[derive(Clone, Debug)]
pub enum ChangeRoute {
    Save(String),
    Copy(String),
    Delete(String),
    Download,
    Ask,
    Knowledge(String),
    Unknown,
}

/// What a change under the app's path asks for.
pub open spec fn is_change_route(method: ChangeMethod, path: Seq<char>, r: ChangeRoute) -> bool {
    match text::parted(path, '/') {
        None => if method == ChangeMethod::Post && path == "download"@ {
            r is Download
        } else if method == ChangeMethod::Post && path == "ai"@ {
            r is Ask
        } else {
            r is Unknown
        },
        Some(p) => if method == ChangeMethod::Put && p.0 == "reviews"@ {
            r matches ChangeRoute::Save(id) && id@ == p.1
        } else if method == ChangeMethod::Post && p.0 == "reviews"@ && "/copy"@.is_suffix_of(p.1) {
            r matches ChangeRoute::Copy(id) && id@ + "/copy"@ == p.1
        } else if method == ChangeMethod::Delete && p.0 == "reviews"@ {
            r matches ChangeRoute::Delete(id) && id@ == p.1
        } else if method == ChangeMethod::Post && p.0 == "knowledge"@ {
            r matches ChangeRoute::Knowledge(rest) && rest@ == p.1
        } else {
            r is Unknown
        },
    }
}

/// What a change under the app's path asks for.
pub fn change_route(method: ChangeMethod, path: &str) -> (r: ChangeRoute)
    ensures
        is_change_route(method, path@, r),
{
    match text::split_once(path, '/') {
        None => if method == ChangeMethod::Post && text::same(path, "download") {
            ChangeRoute::Download
        } else if method == ChangeMethod::Post && text::same(path, "ai") {
            ChangeRoute::Ask
        } else {
            ChangeRoute::Unknown
        },
        Some(p) => {
            let reviews = text::same(p.0.as_str(), "reviews");
            if method == ChangeMethod::Put && reviews {
                return ChangeRoute::Save(p.1);
            }
            if method == ChangeMethod::Post && reviews {
                if let Some(id) = text::strip_suffix(p.1.as_str(), "/copy") {
                    assert(id@ + "/copy"@ =~= p.1@);
                    return ChangeRoute::Copy(id);
                }
            }
            if method == ChangeMethod::Delete && reviews {
                return ChangeRoute::Delete(p.1);
            }
            if method == ChangeMethod::Post && text::same(p.0.as_str(), "knowledge") {
                return ChangeRoute::Knowledge(p.1);
            }
            ChangeRoute::Unknown
        },
    }
}

/// Status of a request that is refused.
pub const BAD_REQUEST: u16 = 400;

/// Status of a request for what is not there.
pub const NOT_FOUND: u16 = 404;

/// The status that a request about a review is refused with, if it is: its id
/// must be one, and the review must be there.
pub open spec fn review_refusal(id: Seq<char>, there: bool) -> Option<u16> {
    if !review::id_ok(id) {
        Some(BAD_REQUEST)
    } else if !there {
        Some(NOT_FOUND)
    } else {
        None
    }
}

/// The status that a request about a review is refused with, if it is; `there` says
/// whether a review has the id.
pub fn check_review(id: &str, there: bool) -> (r: Option<u16>)
    ensures
        r == review_refusal(id@, there),
{
    if review::check_id(id).is_err() {
        Some(BAD_REQUEST)
    } else if !there {
        Some(NOT_FOUND)
    } else {
        None
    }
}

/// The status that a `GET` is refused with at once, if it is.
pub fn check_get(route: &GetRoute, there: bool) -> (r: Option<u16>)
    ensures
        r == (match *route {
            GetRoute::Review(id) => review_refusal(id@, there),
            GetRoute::Unknown => Some(NOT_FOUND),
            _ => None,
        }),
{
    match route {
        GetRoute::Review(id) => check_review(id.as_str(), there),
        GetRoute::Unknown => Some(NOT_FOUND),
        _ => None,
    }
}

/// The status that a change is refused with at once, if it is: only saving writes
/// a review that was not there.
pub fn check_change(route: &ChangeRoute, there: bool) -> (r: Option<u16>)
    ensures
        r == (match *route {
            ChangeRoute::Copy(id) => review_refusal(id@, there),
            ChangeRoute::Delete(id) => review_refusal(id@, there),
            ChangeRoute::Unknown => Some(NOT_FOUND),
            _ => None,
        }),
{
    match route {
        ChangeRoute::Copy(id) => check_review(id.as_str(), there),
        ChangeRoute::Delete(id) => check_review(id.as_str(), there),
        ChangeRoute::Unknown => Some(NOT_FOUND),
        _ => None,
    }
}

/// Places by when they were changed: the latest first, and of those changed at
/// the same time the first first.
pub open spec fn newest_order(modified: Seq<u64>, order: Seq<usize>) -> bool {
    &&& order.len() == modified.len()
    &&& forall|i: int| 0 <= i < order.len() ==> #[trigger] order[i] < modified.len()
    &&& forall|i: int, j: int|
        0 <= i < j < order.len() ==> {
            let a = #[trigger] order[i];
            let b = #[trigger] order[j];
            modified[a as int] > modified[b as int] || (modified[a as int] == modified[b as int] && a
                < b)
        }
}

/// The order in which to list what was changed at these times.
pub fn sort_newest(modified: &Vec<u64>) -> (r: Vec<usize>)
    ensures
        newest_order(modified@, r@),
{
    let mut order: Vec<usize> = Vec::new();
    let mut n: usize = 0;
    while n < modified.len()
        invariant
            n <= modified@.len(),
            newest_order(modified@.take(n as int), order@),
        decreases modified@.len() - n,
    {
        let ghost before = order@;
        let mut at: usize = order.len();
        while at > 0 && modified[order[at - 1]] < modified[n]
            invariant
                at <= order@.len(),
                order@ == before,
                n < modified@.len(),
                newest_order(modified@.take(n as int), before),
                forall|j: int|
                    at <= j < before.len() ==> modified@[#[trigger] before[j] as int]
                        < modified@[n as int],
            ensures
                at <= order@.len(),
                order@ == before,
                forall|j: int|
                    at <= j < before.len() ==> modified@[#[trigger] before[j] as int]
                        < modified@[n as int],
                at > 0 ==> modified@[before[at - 1] as int] >= modified@[n as int],
            decreases at,
        {
            assert(before[at - 1] < n);
            at -= 1;
        }
        order.insert(at, n);
        proof {
            let m = modified@.take(n + 1);
            let old_m = modified@.take(n as int);
            assert forall|i: int| 0 <= i < order@.len() implies #[trigger] order@[i] < m.len() by {
                if i < at {
                    assert(order@[i] == before[i]);
                } else if i > at {
                    assert(order@[i] == before[i - 1]);
                }
            }
            assert forall|i: int, j: int| 0 <= i < j < order@.len() implies {
                let a = #[trigger] order@[i];
                let b = #[trigger] order@[j];
                m[a as int] > m[b as int] || (m[a as int] == m[b as int] && a < b)
            } by {
                if j < at {
                    let a = before[i];
                    let b = before[j];
                    assert(order@[i] == a && order@[j] == b);
                    assert(old_m[a as int] == m[a as int] && old_m[b as int] == m[b as int]);
                } else if j == at {
                    let a = before[i];
                    let b = before[at - 1];
                    assert(order@[i] == a);
                    assert(a < n && b < n);
                    assert(old_m[a as int] == m[a as int] && old_m[b as int] == m[b as int]);
                    assert(m[a as int] == modified@[a as int] && m[b as int] == modified@[b as int]);
                    assert(i == at - 1 || old_m[a as int] >= old_m[b as int]);
                } else if i < at {
                    let a = before[i];
                    let b = before[j - 1];
                    assert(order@[i] == a && order@[j] == b);
                    assert(a < n && b < n);
                    assert(old_m[a as int] == m[a as int] && old_m[b as int] == m[b as int]);
                } else if i == at {
                    let b = before[j - 1];
                    assert(order@[j] == b);
                    assert(b < n);
                    assert(m[b as int] == modified@[b as int]);
                } else {
                    let a = before[i - 1];
                    let b = before[j - 1];
                    assert(order@[i] == a && order@[j] == b);
                    assert(a < n && b < n);
                    assert(old_m[a as int] == m[a as int] && old_m[b as int] == m[b as int]);
                }
            }
        }
        n += 1;
    }
    assert(modified@.take(n as int) =~= modified@);
    order
}

/// A review of the same video whose folder holds it.
pub open spec fn has_video(r: (VideoRef, bool), video: VideoRef) -> bool {
    r.1 && review::same_video(r.0, video)
}

/// The first review of the same video whose folder holds it; each comes with
/// whether its video file is there.
pub fn review_with_video(reviews: &Vec<(VideoRef, bool)>, video: &VideoRef) -> (r: Option<usize>)
    ensures
        match r {
            Some(i) => i < reviews@.len() && has_video(reviews@[i as int], *video) && forall|j: int|
                0 <= j < i ==> !has_video(#[trigger] reviews@[j], *video),
            None => forall|j: int|
                0 <= j < reviews@.len() ==> !has_video(#[trigger] reviews@[j], *video),
        },
{
    let mut i: usize = 0;
    while i < reviews.len()
        invariant
            i <= reviews@.len(),
            forall|j: int| 0 <= j < i ==> !has_video(#[trigger] reviews@[j], *video),
        decreases reviews@.len() - i,
    {
        if reviews[i].1 && reviews[i].0.same(video) {
            return Some(i);
        }
        i += 1;
    }
    None
}

/// A time within a range.
pub open spec fn within(t: Double, from: Double, to: Double) -> bool {
    double::at_most(from, t) && double::at_most(t, to)
}

/// The places of the first `n` times that are within a range.
pub open spec fn places_within(times: Seq<Double>, from: Double, to: Double, n: int) -> Seq<usize>
    decreases n,
{
    if n <= 0 {
        Seq::empty()
    } else if within(times[n - 1], from, to) {
        places_within(times, from, to, n - 1).push((n - 1) as usize)
    } else {
        places_within(times, from, to, n - 1)
    }
}

/// The comments that go to the coach with a question: those whose times are
/// within a range.
pub fn near_comments(times: &Vec<Double>, from: Double, to: Double) -> (r: Vec<usize>)
    ensures
        r@ == places_within(times@, from, to, times@.len() as int),
{
    let mut out: Vec<usize> = Vec::new();
    let mut i: usize = 0;
    while i < times.len()
        invariant
            i <= times@.len(),
            out@ == places_within(times@, from, to, i as int),
        decreases times@.len() - i,
    {
        let t = times[i];
        if from.at_most(&t) && t.at_most(&to) {
            out.push(i);
        }
        i += 1;
    }
    out
}

/// A question without white space around it, if there is anything of it.
pub fn question_asked(question: Option<&str>) -> (r: Option<String>)
    ensures
        text::opt_text(r) == (match question {
            Some(q) => question_in(Some(q@)),
            None => None,
        }),
{
    match question {
        Some(q) => crate::studio::non_empty(text::trim(q)),
        None => None,
    }
}

/// What the coach is asked, but for the video.
#[derive(Clone, Debug)]
pub struct AiRequest {
    pub t_s: Double,
    /// Without it the moment around the time is meant.
    pub t_end_s: Option<Double>,
    pub question: Option<String>,
    /// The review whose folder and comments are used.
    pub review: Option<String>,
}

/// Why the coach is not asked.
#[derive(Clone, Copy, Debug, PartialEq, Eq, Structural)]
pub enum AiError {
    /// The body is no JSON.
    BadJson,
    /// It names no video.
    NoVideo,
    /// It gives no time.
    NoTime,
}

/// A question without white space around it, if there is anything of it.
pub open spec fn question_in(question: Option<Seq<char>>) -> Option<Seq<char>> {
    match question {
        Some(q) => inspector::filled(Some(text::trimmed(q))),
        None => None,
    }
}

/// What a request to the coach comes to.
pub open spec fn is_ai_request(
    has_video: bool,
    t_s: Option<Double>,
    t_end_s: Option<Double>,
    question: Option<Seq<char>>,
    review: Option<Seq<char>>,
    r: Result<AiRequest, AiError>,
) -> bool {
    match r {
        Ok(q) => {
            &&& has_video
            &&& t_s == Some(q.t_s)
            &&& q.t_end_s == t_end_s
            &&& text::opt_text(q.question) == question_in(question)
            &&& text::opt_text(q.review) == inspector::filled(review)
        },
        Err(AiError::NoVideo) => !has_video,
        Err(AiError::NoTime) => has_video && t_s is None,
        Err(AiError::BadJson) => false,
    }
}

/// What the coach is asked; `has_video` says whether a video is named.
pub fn coach_asked(
    has_video: bool,
    t_s: Option<Double>,
    t_end_s: Option<Double>,
    question: Option<String>,
    review: Option<String>,
) -> (r: Result<AiRequest, AiError>)
    ensures
        is_ai_request(
            has_video,
            t_s,
            t_end_s,
            text::opt_text(question),
            text::opt_text(review),
            r,
        ),
{
    if !has_video {
        return Err(AiError::NoVideo);
    }
    let t_s = match t_s {
        Some(t) => t,
        None => {
            return Err(AiError::NoTime);
        },
    };
    let question = match question {
        Some(q) => question_asked(Some(q.as_str())),
        None => None,
    };
    let review = match review {
        Some(id) => crate::studio::non_empty(id),
        None => None,
    };
    Ok(AiRequest { t_s, t_end_s, question, review })
}

/// What the body of a request asks the coach; `has_video` says whether the video in
/// it is one.
pub fn ai_request(body: &[u8], has_video: bool) -> (r: Result<AiRequest, AiError>)
    ensures
        if json::is_json(body@) {
            is_ai_request(
                has_video,
                json::double_in(json::json_at(body@, "/t_s"@)),
                json::double_in(json::json_at(body@, "/t_end_s"@)),
                json::text_in(json::json_at(body@, "/question"@)),
                json::text_in(json::json_at(body@, "/review"@)),
                r,
            )
        } else {
            r == Err::<AiRequest, AiError>(AiError::BadJson)
        },
{
    match json::fields(body, &["/t_s", "/t_end_s", "/question", "/review"]) {
        Some(f) => coach_asked(has_video, f[0].double(), f[1].double(), f[2].text(), f[3].text()),
        None => Err(AiError::BadJson),
    }
}

/// How the coach is told of a video: by its reference, and for a range of a
/// YouTube video where it starts.
pub fn video_label(video: &VideoRef, start: &str) -> (r: String)
    ensures
        r@ == (if video.kind == VideoKind::Youtube {
            video.reference@ + " (from "@ + start@ + " s)"@
        } else {
            video.reference@
        }),
{
    let mut label = video.reference.clone();
    if video.kind == VideoKind::Youtube {
        label.append(" (from ");
        label.append(start);
        label.append(" s)");
    }
    label
}

} // verus!
