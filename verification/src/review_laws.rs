//! What the review page's addresses mean, said of their characters.
use vstd::prelude::*;

use crate::double;
use crate::double::Double;
use crate::paths;
use crate::review;
use crate::review::{VideoKind, VideoRef};
use crate::review_routes;
use crate::review_routes::{
    AiError, AiRequest, ChangeMethod, ChangeRoute, GetRoute, PlaceError, VideoPlace,
};
use crate::text;
use crate::text_laws;

verus! {

/// A plain name is one step of a path and hides nothing.
pub proof fn law_plain_names(name: Seq<char>)
    ensures
        review_routes::plain_name(name) == (name.len() > 0 && name[0] != '.' && forall|i: int|
            0 <= i < name.len() ==> #[trigger] name[i] != '/' && name[i] != '\\'),
{
    if name.contains('/') {
        let i = choose|i: int| 0 <= i < name.len() && name[i] == '/';
        assert(name[i] == '/');
    }
    if name.contains('\\') {
        let i = choose|i: int| 0 <= i < name.len() && name[i] == '\\';
        assert(name[i] == '\\');
    }
}

/// Two texts with the same character between them part there, where the first
/// does not hold it.
pub proof fn lemma_parted_at(a: Seq<char>, c: char, b: Seq<char>)
    requires
        !a.contains(c),
    ensures
        text::parted(a + seq![c] + b, c) == Some((a, b)),
        text::parted(a, c) is None,
{
    let s = a + seq![c] + b;
    text_laws::law_parted_rejoins(s, c);
    text_laws::law_parted_rejoins(a, c);
    if let Some(p) = text::parted(a, c) {
        assert((p.0.push(c) + p.1)[p.0.len() as int] == c);
        assert(a.contains(a[p.0.len() as int]));
    }
    assert(s[a.len() as int] == c);
    assert(s.contains(s[a.len() as int]));
    let p = text::parted(s, c)->0;
    let t = p.0.push(c) + p.1;
    let n = p.0.len() as int;
    if n < a.len() {
        assert(s[n] == a[n]);
        assert(t[n] == c);
        assert(a.contains(a[n]));
    } else if n > a.len() {
        assert(t[a.len() as int] == p.0[a.len() as int]);
        assert(p.0.contains(p.0[a.len() as int]));
    }
    assert(p.0 =~= a) by {
        assert forall|i: int| 0 <= i < n implies p.0[i] == a[i] by {
            assert(t[i] == p.0[i]);
            assert(s[i] == a[i]);
        }
    }
    assert(p.1 =~= b) by {
        assert(p.1.len() == b.len());
        assert forall|i: int| 0 <= i < b.len() implies p.1[i] == b[i] by {
            assert(t[n + 1 + i] == p.1[i]);
            assert(s[n + 1 + i] == b[i]);
        }
    }
}

/// A session's reference is its name, with a slash and a file behind it where one
/// is meant; both are plain names.
pub proof fn law_session_references(session: Seq<char>, file: Seq<char>)
    requires
        !session.contains('/'),
    ensures
        review_routes::session_parts(session) == (session, None::<Seq<char>>),
        review_routes::session_parts(session + seq!['/'] + file) == (session, Some(file)),
        review_routes::session_ok(session) == review_routes::plain_name(session),
        review_routes::session_ok(session + seq!['/'] + file) == (review_routes::plain_name(session)
            && review_routes::plain_name(file)),
{
    lemma_parted_at(session, '/', file);
}

/// Six endings make a video.
pub proof fn law_video_endings(e: Seq<char>)
    ensures
        review_routes::is_video_extension(e) == (e == seq!['m', 'p', '4'] || e == seq![
            'm',
            'k',
            'v',
        ] || e == seq!['w', 'e', 'b', 'm'] || e == seq!['m', 'o', 'v'] || e == seq!['m', '4', 'v']
            || e == seq!['o', 'g', 'v']),
{
    reveal_strlit("mp4");
    reveal_strlit("mkv");
    reveal_strlit("webm");
    reveal_strlit("mov");
    reveal_strlit("m4v");
    reveal_strlit("ogv");
    assert("mp4"@ =~= seq!['m', 'p', '4']);
    assert("mkv"@ =~= seq!['m', 'k', 'v']);
    assert("webm"@ =~= seq!['w', 'e', 'b', 'm']);
    assert("mov"@ =~= seq!['m', 'o', 'v']);
    assert("m4v"@ =~= seq!['m', '4', 'v']);
    assert("ogv"@ =~= seq!['o', 'g', 'v']);
}

/// Which videos cannot be found: a file of a review under a bad name, a session
/// under a bad one, a file that is not named from the root or is no video, and
/// one that was not downloaded.
pub proof fn law_videos_refused(v: VideoRef, review: Option<Seq<char>>)
    ensures
        ({
            let r = review_routes::place_problem(v, review);
            let own = v.file is Some && review is Some && review->0.len() > 0;
            &&& own ==> (r is None) == (review::file_name_ok(v.file->0@) && review::id_ok(review->0))
            &&& own && !review::file_name_ok(v.file->0@) ==> r == Some(PlaceError::BadVideoFile)
            &&& own && r == Some(PlaceError::BadReviewId) ==> !review::id_ok(review->0)
            &&& !own && v.kind is Session ==> r == (if review_routes::session_ok(v.reference@) {
                None
            } else {
                Some(PlaceError::BadSession)
            })
            &&& !own && v.kind is File && (v.reference@.len() == 0 || v.reference@[0] != '/')
                ==> r == Some(PlaceError::NotAbsolute)
            &&& !own && v.kind is File && v.reference@.len() > 0 && v.reference@[0] == '/' ==> r
                == (if review_routes::is_video_extension(
                review_routes::lower_extension(v.reference@),
            ) {
                None
            } else {
                Some(PlaceError::NotAVideo)
            })
            &&& !own && v.kind is Youtube ==> r == Some(PlaceError::NotDownloaded)
        }),
{
}

/// Where a video is found: a file of a review in the review's folder, a session
/// among the sessions, and a file where it says.
pub proof fn law_videos_found(
    reviews: Seq<char>,
    sessions: Seq<char>,
    v: VideoRef,
    review: Option<Seq<char>>,
    p: VideoPlace,
)
    requires
        review_routes::is_place(reviews, sessions, v, review, p),
        reviews.len() > 0 && reviews.last() != '/',
        sessions.len() > 0 && sessions.last() != '/',
        review_routes::place_problem(v, review) is None,
    ensures
        ({
            let own = v.file is Some && review is Some && review->0.len() > 0;
            &&& own ==> (p matches VideoPlace::InReview(path) && path@ == reviews + seq!['/']
                + review->0 + seq!['/'] + v.file->0@)
            &&& !own && v.kind is File ==> (p matches VideoPlace::AtPath(path) && path@
                == v.reference@)
            &&& !own && v.kind is Session && !v.reference@.contains('/') ==> (
            p matches VideoPlace::InSession { dir, file } && dir@ == sessions + seq!['/']
                + v.reference@ && file is None)
        }),
{
    let own = v.file is Some && review is Some && review->0.len() > 0;
    if own {
        review::law_review_paths_stay_inside(reviews, review->0, v.file->0@);
    } else if v.kind is Session && !v.reference@.contains('/') {
        lemma_parted_at(v.reference@, '/', Seq::empty());
        paths::law_names_stand_in_their_folders(sessions, v.reference@);
        if v.reference@[0] == '/' {
            assert(v.reference@.contains(v.reference@[0]));
        }
    }
}

/// An old review is a file with its name and `.json` behind it.
pub proof fn law_old_review_names(id: Seq<char>)
    ensures
        review_routes::old_review_id(id + seq!['.', 'j', 's', 'o', 'n']) == (if review::id_ok(id) {
            Some(id)
        } else {
            None
        }),
        !seq!['.', 'j', 's', 'o', 'n'].is_suffix_of(id) ==> review_routes::old_review_id(id)
            is None,
{
    reveal_strlit(".json");
    let j = seq!['.', 'j', 's', 'o', 'n'];
    assert(".json"@ =~= j);
    let name = id + j;
    assert(j =~= name.subrange(name.len() - 5, name.len() as int));
    assert(name.take(name.len() - 5) =~= id);
}

/// Three words name a kind of video, and no other does.
pub proof fn law_kinds_are_named(name: Seq<char>)
    ensures
        (review_routes::kind_named(name) == Some(VideoKind::Session)) == (name == seq![
            's',
            'e',
            's',
            's',
            'i',
            'o',
            'n',
        ]),
        (review_routes::kind_named(name) == Some(VideoKind::File)) == (name == seq![
            'f',
            'i',
            'l',
            'e',
        ]),
        (review_routes::kind_named(name) == Some(VideoKind::Youtube)) == (name == seq![
            'y',
            'o',
            'u',
            't',
            'u',
            'b',
            'e',
        ]),
{
    reveal_strlit("session");
    reveal_strlit("file");
    reveal_strlit("youtube");
    let s = seq!['s', 'e', 's', 's', 'i', 'o', 'n'];
    let f = seq!['f', 'i', 'l', 'e'];
    let y = seq!['y', 'o', 'u', 't', 'u', 'b', 'e'];
    assert("session"@ =~= s);
    assert("file"@ =~= f);
    assert("youtube"@ =~= y);
    assert(s[0] == 's' && f[0] == 'f' && y[0] == 'y');
}

/// What can be got: the two lists, the video and what is known of it, the
/// knowledge behind its own path, and each review under its name.
pub proof fn law_what_can_be_got(rest: Seq<char>, r: GetRoute, s: GetRoute, t: GetRoute)
    requires
        review_routes::is_get_route("reviews"@ + seq!['/'] + rest, r),
        review_routes::is_get_route("knowledge"@ + seq!['/'] + rest, s),
        review_routes::is_get_route(rest, t),
    ensures
        r matches GetRoute::Review(id) && id@ == rest,
        s matches GetRoute::Knowledge(k) && k@ == rest,
        !rest.contains('/') ==> (t is Reviews) == (rest == "reviews"@),
        !rest.contains('/') ==> (t is Downloads) == (rest == "downloads"@),
        !rest.contains('/') ==> (t is Video) == (rest == "video"@),
        !rest.contains('/') ==> (t is Meta) == (rest == "meta"@),
{
    reveal_strlit("reviews");
    reveal_strlit("knowledge");
    reveal_strlit("downloads");
    reveal_strlit("video");
    reveal_strlit("meta");
    assert(!"reviews"@.contains('/'));
    assert(!"knowledge"@.contains('/'));
    assert("reviews"@.len() == 7 && "knowledge"@.len() == 9 && "downloads"@.len() == 9
        && "video"@.len() == 5 && "meta"@.len() == 4);
    lemma_parted_at("reviews"@, '/', rest);
    lemma_parted_at("knowledge"@, '/', rest);
    if !rest.contains('/') {
        lemma_parted_at(rest, '/', Seq::empty());
    }
}

/// What can be changed: a review is put, deleted, or given a copy of its video;
/// a download is started and the coach asked; the knowledge has its own path.
pub proof fn law_what_can_be_changed(id: Seq<char>, a: ChangeRoute, b: ChangeRoute, c: ChangeRoute)
    requires
        review_routes::is_change_route(ChangeMethod::Put, "reviews"@ + seq!['/'] + id, a),
        review_routes::is_change_route(ChangeMethod::Delete, "reviews"@ + seq!['/'] + id, b),
        review_routes::is_change_route(
            ChangeMethod::Post,
            "reviews"@ + seq!['/'] + (id + "/copy"@),
            c,
        ),
    ensures
        a matches ChangeRoute::Save(i) && i@ == id,
        b matches ChangeRoute::Delete(i) && i@ == id,
        c matches ChangeRoute::Copy(i) && i@ == id,
{
    reveal_strlit("reviews");
    assert(!"reviews"@.contains('/'));
    lemma_parted_at("reviews"@, '/', id);
    lemma_parted_at("reviews"@, '/', id + "/copy"@);
    let copy = id + "/copy"@;
    let n = "/copy"@.len() as int;
    assert("/copy"@ =~= copy.subrange(copy.len() - n, copy.len() as int));
    if let ChangeRoute::Copy(i) = c {
        assert(i@ + "/copy"@ == copy);
        assert(i@.len() == id.len());
        assert(i@ =~= id) by {
            assert forall|k: int| 0 <= k < id.len() implies i@[k] == id[k] by {
                assert((i@ + "/copy"@)[k] == i@[k]);
                assert(copy[k] == id[k]);
            }
        }
    }
}

/// A review is refused for its name before it is missed.
pub proof fn law_reviews_refused(id: Seq<char>, there: bool)
    ensures
        !review::id_ok(id) ==> review_routes::review_refusal(id, there) == Some(400u16),
        review::id_ok(id) && !there ==> review_routes::review_refusal(id, there) == Some(404u16),
        review::id_ok(id) && there ==> review_routes::review_refusal(id, there) is None,
{
}

/// The newest review comes first, and of two of one time the one that was found
/// first.
pub proof fn law_newest_reviews_first(modified: Seq<u64>, order: Seq<usize>, i: int, j: int)
    requires
        review_routes::newest_order(modified, order),
        0 <= i < j < order.len(),
    ensures
        order.len() == modified.len(),
        order[i] != order[j],
        modified[order[i] as int] >= modified[order[j] as int],
        modified[order[i] as int] == modified[order[j] as int] ==> order[i] < order[j],
{
}

/// The comments near a place are, in order, those whose time is not before the
/// one end nor behind the other.
pub proof fn law_comments_near(times: Seq<Double>, from: Double, to: Double, n: int)
    requires
        0 <= n <= times.len(),
        n <= usize::MAX,
    ensures
        ({
            let r = review_routes::places_within(times, from, to, n);
            &&& forall|i: int, j: int|
                0 <= i < j < r.len() ==> #[trigger] r[i] < #[trigger] r[j]
            &&& forall|i: int| 0 <= i < r.len() ==> #[trigger] r[i] < n
            &&& forall|k: usize|
                #![trigger r.contains(k)]
                k < n ==> r.contains(k) == (double::at_most(from, times[k as int])
                    && double::at_most(times[k as int], to))
        }),
    decreases n,
{
    if n > 0 {
        law_comments_near(times, from, to, n - 1);
        let b = review_routes::places_within(times, from, to, n - 1);
        let r = review_routes::places_within(times, from, to, n);
        let last = (n - 1) as usize;
        assert(r == b || r == b.push(last));
        assert forall|k: usize|
            #![trigger r.contains(k)]
            k < n implies r.contains(k) == (double::at_most(from, times[k as int])
            && double::at_most(times[k as int], to)) by {
            if k == last {
                if r == b.push(last) {
                    assert(r[b.len() as int] == last);
                }
                if b.contains(k) {
                    let i = choose|i: int| 0 <= i < b.len() && b[i] == k;
                    assert(b[i] < n - 1);
                }
            } else {
                if b.contains(k) {
                    let i = choose|i: int| 0 <= i < b.len() && b[i] == k;
                    assert(r[i] == k);
                }
                if r.contains(k) {
                    let i = choose|i: int| 0 <= i < r.len() && r[i] == k;
                    assert(i < b.len());
                    assert(b[i] == k);
                }
            }
        }
    }
}

/// The coach is asked about a video at a time; the question is trimmed, and an
/// empty one, like an empty review, is none.
pub proof fn law_coach_is_asked(
    has_video: bool,
    t_s: Option<Double>,
    t_end_s: Option<Double>,
    question: Option<Seq<char>>,
    review: Option<Seq<char>>,
    r: Result<AiRequest, AiError>,
)
    requires
        review_routes::is_ai_request(has_video, t_s, t_end_s, question, review, r),
    ensures
        (r is Ok) == (has_video && t_s is Some),
        !has_video ==> (r matches Err(e) && e is NoVideo),
        has_video && t_s is None ==> (r matches Err(e) && e is NoTime),
        r matches Ok(q) ==> {
            &&& q.t_s == t_s->0
            &&& q.t_end_s == t_end_s
            &&& question is None ==> q.question is None
            &&& question matches Some(s) ==> (text::trimmed(s).len() == 0) == (q.question is None)
            &&& q.question matches Some(t) ==> t@ == text::trimmed(question->0)
            &&& review is None || review->0.len() == 0 ==> q.review is None
            &&& review is Some && review->0.len() > 0 ==> (q.review matches Some(id) && id@
                == review->0)
        },
{
}

/// A file of a session is found in that session's folder.
pub proof fn law_session_files_found(
    reviews: Seq<char>,
    sessions: Seq<char>,
    v: VideoRef,
    p: VideoPlace,
    session: Seq<char>,
    file: Seq<char>,
)
    requires
        review_routes::is_place(reviews, sessions, v, None, p),
        sessions.len() > 0 && sessions.last() != '/',
        v.kind is Session,
        v.reference@ == session + seq!['/'] + file,
        review_routes::plain_name(session),
    ensures
        p matches VideoPlace::InSession { dir, file: f } && dir@ == sessions + seq!['/'] + session
            && text::opt_text(f) == Some(file),
{
    law_plain_names(session);
    assert(!session.contains('/'));
    lemma_parted_at(session, '/', file);
    paths::law_names_stand_in_their_folders(sessions, session);
}

} // verus!
