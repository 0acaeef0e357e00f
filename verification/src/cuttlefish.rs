//! Opening, downloading and serving the videos of reviews.
use crate::inspect;
use crate::text;
use vstd::prelude::*;

verus! {

/// Largest part of a video sent in one reply; the player asks for more.
pub const VIDEO_CHUNK: u64 = 4_194_304;

/// Largest review accepted, in bytes.
pub const REVIEW_LIMIT: u64 = 16_777_216;

/// Longest message of a download, in characters.
pub const MESSAGE_LIMIT: usize = 300;

/// Marks the line with a video's title, channel and upload date in yt-dlp's
/// output.
pub const META_MARK: &'static str = "cuttlefish-meta ";

/// The first and last byte of a `bytes=start-end` header, or of the whole file
/// without one; a start left out means the last `end` bytes.
pub open spec fn byte_range_of(range: Option<Seq<char>>, total: nat) -> Option<(nat, nat)> {
    let last = (total - 1) as nat;
    let p = "bytes="@;
    if total == 0 {
        None
    } else {
        match range {
            None => Some((0nat, last)),
            Some(header) => if !p.is_prefix_of(header) {
                None
            } else {
                match text::parted(header.skip(p.len() as int), '-') {
                    None => None,
                    Some(parts) => {
                        let a = text::number(parts.0, 10, u64::MAX as nat);
                        let b = text::number(parts.1, 10, u64::MAX as nat);
                        let asked = if parts.0.len() == 0 {
                            match b {
                                Some(n) => Some(
                                    (
                                        if n < total {
                                            (total - n) as nat
                                        } else {
                                            0
                                        },
                                        last,
                                    ),
                                ),
                                None => None,
                            }
                        } else if parts.1.len() == 0 {
                            match a {
                                Some(s) => Some((s, last)),
                                None => None,
                            }
                        } else {
                            match (a, b) {
                                (Some(s), Some(e)) => Some(
                                    (
                                        s,
                                        if e < last {
                                            e
                                        } else {
                                            last
                                        },
                                    ),
                                ),
                                _ => None,
                            }
                        };
                        match asked {
                            Some(r) => if r.0 <= r.1 {
                                Some(r)
                            } else {
                                None
                            },
                            None => None,
                        }
                    },
                }
            },
        }
    }
}

/// First and last byte of a `Range: bytes=start-end` header, or of the whole
/// file without one.
pub fn byte_range(range: Option<&str>, total: u64) -> (r: Option<(u64, u64)>)
    ensures
        ({
            let asked = byte_range_of(crate::video::opt_str(range), total as nat);
            match r {
                Some(p) => asked == Some((p.0 as nat, p.1 as nat)) && p.0 <= p.1 < total,
                None => asked is None,
            }
        }),
{
    if total == 0 {
        return None;
    }
    let last: u64 = total - 1;
    let header = match range {
        Some(h) => h,
        None => {
            return Some((0, last));
        },
    };
    let rest = match text::strip_prefix(header, "bytes=") {
        Some(r) => r,
        None => {
            return None;
        },
    };
    let parts = match text::split_once(rest.as_str(), '-') {
        Some(p) => p,
        None => {
            return None;
        },
    };
    let a = text::parse_decimal(parts.0.as_str(), 0xffff_ffff_ffff_ffff);
    let b = text::parse_decimal(parts.1.as_str(), 0xffff_ffff_ffff_ffff);
    let asked: (u64, u64) = if parts.0.as_str().unicode_len() == 0 {
        match b {
            Some(n) => (total.saturating_sub(n), last),
            None => {
                return None;
            },
        }
    } else if parts.1.as_str().unicode_len() == 0 {
        match a {
            Some(s) => (s, last),
            None => {
                return None;
            },
        }
    } else {
        match (a, b) {
            (Some(s), Some(e)) => (
                s,
                if e < last {
                    e
                } else {
                    last
                },
            ),
            _ => {
                return None;
            },
        }
    };
    if asked.0 <= asked.1 {
        Some(asked)
    } else {
        None
    }
}

/// The part of a video to send: the range asked for, at most a chunk of it.
pub fn video_part(range: Option<&str>, total: u64) -> (r: Option<(u64, u64)>)
    requires
        total <= u64::MAX - VIDEO_CHUNK,
    ensures
        ({
            let asked = byte_range_of(crate::video::opt_str(range), total as nat);
            match r {
                Some(p) => asked matches Some(q) && p.0 == q.0 && p.1 == (if q.0 + VIDEO_CHUNK - 1
                    < q.1 {
                    q.0 + VIDEO_CHUNK - 1
                } else {
                    q.1 as int
                }) && p.0 <= p.1 < total && p.1 - p.0 < VIDEO_CHUNK && (p.1 == q.1 || p.1 - p.0
                    == 4_194_303) && p.1 <= q.1 && p.1 - p.0 <= 4_194_303,
                None => asked is None,
            }
        }),
{
    match byte_range(range, total) {
        Some(p) => {
            let most: u64 = p.0 + VIDEO_CHUNK - 1;
            Some(
                (
                    p.0,
                    if most < p.1 {
                        most
                    } else {
                        p.1
                    },
                ),
            )
        },
        None => None,
    }
}

/// What a browser is told a video file is; Matroska plays as WebM.
pub open spec fn content_type_of(extension: Seq<char>) -> Seq<char> {
    let e = text::lowercase(extension);
    if e == "mkv"@ || e == "webm"@ {
        "video/webm"@
    } else if e == "ogv"@ {
        "video/ogg"@
    } else {
        "video/mp4"@
    }
}

/// What a browser is told a video file with this extension is.
pub fn content_type(extension: &str) -> (r: String)
    ensures
        r@ == content_type_of(extension@),
{
    let e = text::to_lower(extension);
    if text::same(e.as_str(), "mkv") || text::same(e.as_str(), "webm") {
        "video/webm".to_owned()
    } else if text::same(e.as_str(), "ogv") {
        "video/ogg".to_owned()
    } else {
        "video/mp4".to_owned()
    }
}

/// Whether an image starts at a place.
pub open spec fn starts_at(b: Seq<u8>, i: int) -> bool {
    0 <= i && i + 2 < b.len() && b[i] == 0xff && b[i + 1] == 0xd8 && b[i + 2] == 0xff
}

/// The next start of an image at or after `i`; the length when there is none.
pub open spec fn next_start(b: Seq<u8>, i: int) -> int
    decreases b.len() - i,
{
    if i < 0 || i >= b.len() {
        b.len() as int
    } else if starts_at(b, i) {
        i
    } else {
        next_start(b, i + 1)
    }
}

/// The images from the start at `at` on.
pub open spec fn images_from(b: Seq<u8>, at: int) -> Seq<Seq<u8>>
    decreases b.len() - at,
{
    if at < 0 || at >= b.len() {
        Seq::empty()
    } else {
        let next = next_start(b, at + 1);
        if next <= at || next > b.len() {
            Seq::empty()
        } else {
            seq![b.subrange(at, next)] + images_from(b, next)
        }
    }
}

/// The next start is not before, and a start or the end.
pub proof fn lemma_next_start(b: Seq<u8>, i: int)
    requires
        0 <= i <= b.len(),
    ensures
        i <= next_start(b, i) <= b.len(),
        next_start(b, i) < b.len() ==> starts_at(b, next_start(b, i)),
        forall|j: int| i <= j < next_start(b, i) ==> !#[trigger] starts_at(b, j),
    decreases b.len() - i,
{
    if i < b.len() && !starts_at(b, i) {
        lemma_next_start(b, i + 1);
    }
}

/// The next start of an image at or after a place.
fn find_start(b: &[u8], from: usize) -> (r: usize)
    requires
        from <= b@.len(),
    ensures
        r == next_start(b@, from as int),
        from <= r <= b@.len(),
{
    let n: usize = b.len();
    let mut i: usize = from;
    while i < n
        invariant
            from <= i <= n,
            n == b@.len(),
            next_start(b@, from as int) == next_start(b@, i as int),
        decreases n - i,
    {
        if n - i > 2 && b[i] == 0xff && b[i + 1] == 0xd8 && b[i + 2] == 0xff {
            return i;
        }
        i += 1;
    }
    i
}

/// The JPEG images in a stream of them, split at each start of image marker.
pub fn split_jpegs(data: &[u8]) -> (r: Vec<Vec<u8>>)
    ensures
        inspect::bytes_of(r@) == images_from(data@, next_start(data@, 0)),
{
    let n: usize = data.len();
    let mut images: Vec<Vec<u8>> = Vec::new();
    let mut at = find_start(data, 0);
    let ghost all = images_from(data@, at as int);
    assert(inspect::bytes_of(images@) + all =~= all);
    while at < n
        invariant
            at <= n,
            n == data@.len(),
            inspect::bytes_of(images@) + images_from(data@, at as int) == all,
        decreases n - at,
    {
        let next = find_start(data, at + 1);
        let ghost before = inspect::bytes_of(images@);
        let ghost rest = images_from(data@, at as int);
        let piece = vstd::slice::slice_subrange(data, at, next);
        images.push(vstd::slice::slice_to_vec(piece));
        assert(inspect::bytes_of(images@) =~= before.push(data@.subrange(at as int, next as int)));
        assert(before + rest =~= inspect::bytes_of(images@) + images_from(data@, next as int));
        at = next;
    }
    assert(inspect::bytes_of(images@) + images_from(data@, at as int) =~= inspect::bytes_of(
        images@,
    ));
    images
}

/// From the first start on nothing is lost: the images in order are the rest of
/// the stream.
pub proof fn law_images_are_the_stream(b: Seq<u8>, at: int)
    requires
        0 <= at <= b.len(),
    ensures
        images_from(b, at).flatten() == b.subrange(at, b.len() as int),
    decreases b.len() - at,
{
    if at < b.len() {
        lemma_next_start(b, at + 1);
        let next = next_start(b, at + 1);
        law_images_are_the_stream(b, next);
        let list = images_from(b, at);
        assert(list.drop_first() =~= images_from(b, next));
        assert(b.subrange(at, next) + b.subrange(next, b.len() as int) =~= b.subrange(
            at,
            b.len() as int,
        ));
    } else {
        assert(b.subrange(at, b.len() as int) =~= Seq::empty());
        assert(images_from(b, at).flatten() =~= Seq::empty());
    }
}

/// A byte that ends a line.
pub open spec fn ends_line(b: u8) -> bool {
    b == 10 || b == 13
}

/// The place of the next line end at or after `i`; the length without one.
pub open spec fn line_end(b: Seq<u8>, i: int) -> int
    decreases b.len() - i,
{
    if i < 0 || i >= b.len() {
        b.len() as int
    } else if ends_line(b[i]) {
        i
    } else {
        line_end(b, i + 1)
    }
}

/// The lines of bytes from `from` on, split at line feeds and carriage returns;
/// what follows the last one is a line if there is anything.
pub open spec fn byte_lines(b: Seq<u8>, from: int) -> Seq<Seq<u8>>
    decreases b.len() - from,
{
    if from < 0 || from >= b.len() {
        Seq::empty()
    } else {
        let end = line_end(b, from);
        if end < from || end >= b.len() {
            seq![b.subrange(from, b.len() as int)]
        } else {
            seq![b.subrange(from, end)] + byte_lines(b, end + 1)
        }
    }
}

/// The text of each line.
pub open spec fn line_texts(lines: Seq<Seq<u8>>) -> Seq<Seq<char>> {
    lines.map_values(|l: Seq<u8>| text::lossy_text(l))
}

/// The next line end at or after a place.
fn find_line_end(b: &[u8], from: usize) -> (r: usize)
    requires
        from <= b@.len(),
    ensures
        r == line_end(b@, from as int),
        from <= r <= b@.len(),
{
    let n: usize = b.len();
    let mut i: usize = from;
    while i < n
        invariant
            from <= i <= n,
            n == b@.len(),
            line_end(b@, from as int) == line_end(b@, i as int),
        decreases n - i,
    {
        if b[i] == 10 || b[i] == 13 {
            return i;
        }
        i += 1;
    }
    i
}

/// Every line of output, split at line feeds and carriage returns, with which
/// progress lines end.
pub fn for_each_line(data: &[u8]) -> (r: Vec<String>)
    ensures
        text::texts(r@) == line_texts(byte_lines(data@, 0)),
{
    let n: usize = data.len();
    let mut lines: Vec<String> = Vec::new();
    let mut from: usize = 0;
    let ghost all = line_texts(byte_lines(data@, 0));
    assert(text::texts(lines@) + line_texts(byte_lines(data@, 0)) =~= all);
    while from < n
        invariant
            from <= n,
            n == data@.len(),
            all == line_texts(byte_lines(data@, 0)),
            text::texts(lines@) + line_texts(byte_lines(data@, from as int)) == all,
        decreases n - from,
    {
        let end = find_line_end(data, from);
        let ghost before = text::texts(lines@);
        let ghost rest = byte_lines(data@, from as int);
        let line = vstd::slice::slice_subrange(data, from, end);
        text::push_text(&mut lines, text::from_lossy(line).as_str());
        if end == n {
            assert(text::texts(lines@) =~= before + line_texts(rest));
            return lines;
        }
        assert(before + line_texts(rest) =~= text::texts(lines@) + line_texts(
            byte_lines(data@, end + 1),
        ));
        from = end + 1;
    }
    assert(text::texts(lines@) + line_texts(byte_lines(data@, from as int)) =~= text::texts(
        lines@,
    ));
    lines
}

/// Output read piece by piece: the start of a line whose end has not come yet.
#[derive(Clone, Debug)]
pub struct LineReader {
    pub partial: Vec<u8>,
}

/// The lines that are complete, each with its end; the rest waits.
pub open spec fn complete_lines(b: Seq<u8>, from: int) -> Seq<Seq<u8>>
    decreases b.len() - from,
{
    if from < 0 || from >= b.len() {
        Seq::empty()
    } else {
        let end = line_end(b, from);
        if end < from || end >= b.len() {
            Seq::empty()
        } else {
            seq![b.subrange(from, end)] + complete_lines(b, end + 1)
        }
    }
}

/// Where the line that waits for its end starts.
pub open spec fn waiting_from(b: Seq<u8>, from: int) -> int
    decreases b.len() - from,
{
    if from < 0 || from >= b.len() {
        from
    } else {
        let end = line_end(b, from);
        if end < from || end >= b.len() {
            from
        } else {
            waiting_from(b, end + 1)
        }
    }
}

impl LineReader {
    pub fn new() -> (r: LineReader)
        ensures
            r.partial@.len() == 0,
    {
        LineReader { partial: Vec::new() }
    }

    /// More output came: the lines that are now complete.
    pub fn feed(&mut self, data: &[u8]) -> (r: Vec<String>)
        ensures
            ({
                let all = old(self).partial@ + data@;
                &&& text::texts(r@) == line_texts(complete_lines(all, 0))
                &&& final(self).partial@ == all.skip(waiting_from(all, 0))
            }),
    {
        let mut all: Vec<u8> = Vec::new();
        all.append(&mut self.partial);
        let mut more = vstd::slice::slice_to_vec(data);
        all.append(&mut more);
        assert(all@ =~= old(self).partial@ + data@);
        let n: usize = all.len();
        let mut lines: Vec<String> = Vec::new();
        let mut from: usize = 0;
        let ghost wanted = line_texts(complete_lines(all@, 0));
        assert(text::texts(lines@) + line_texts(complete_lines(all@, 0)) =~= wanted);
        while from < n
            invariant
                from <= n,
                n == all@.len(),
                text::texts(lines@) + line_texts(complete_lines(all@, from as int)) == wanted,
                waiting_from(all@, from as int) == waiting_from(all@, 0),
            ensures
                from <= n,
                text::texts(lines@) == wanted,
                from == waiting_from(all@, 0),
            decreases n - from,
        {
            let end = find_line_end(all.as_slice(), from);
            let ghost before = text::texts(lines@);
            let ghost rest = complete_lines(all@, from as int);
            if end == n {
                assert(before + line_texts(rest) =~= before);
                break;
            }
            let line = vstd::slice::slice_subrange(all.as_slice(), from, end);
            text::push_text(&mut lines, text::from_lossy(line).as_str());
            assert(before + line_texts(rest) =~= text::texts(lines@) + line_texts(
                complete_lines(all@, end + 1),
            ));
            from = end + 1;
            if from == n {
                assert(text::texts(lines@) + line_texts(complete_lines(all@, from as int))
                    =~= text::texts(lines@));
            }
        }
        let tail = vstd::slice::slice_subrange(all.as_slice(), from, n);
        assert(tail@ =~= all@.skip(from as int));
        self.partial = vstd::slice::slice_to_vec(tail);
        lines
    }

    /// The output ended: the line that still waited, if there is anything of it.
    pub fn finish(&mut self) -> (r: Option<String>)
        ensures
            final(self).partial@.len() == 0,
            text::opt_text(r) == (if old(self).partial@.len() == 0 {
                None
            } else {
                Some(text::lossy_text(old(self).partial@))
            }),
    {
        if self.partial.len() == 0 {
            return None;
        }
        let line = text::from_lossy(self.partial.as_slice());
        self.partial = Vec::new();
        Some(line)
    }
}

/// Reading all at once gives the complete lines and then what still waited.
pub proof fn law_lines_at_once(b: Seq<u8>, from: int)
    requires
        0 <= from <= b.len(),
    ensures
        from <= waiting_from(b, from) <= b.len(),
        byte_lines(b, from) == complete_lines(b, from) + (if waiting_from(b, from) < b.len() {
            seq![b.skip(waiting_from(b, from))]
        } else {
            Seq::empty()
        }),
    decreases b.len() - from,
{
    if from < b.len() {
        let end = line_end(b, from);
        lemma_line_end(b, from);
        if end < b.len() {
            law_lines_at_once(b, end + 1);
            let tail = if waiting_from(b, from) < b.len() {
                seq![b.skip(waiting_from(b, from))]
            } else {
                Seq::empty()
            };
            assert(byte_lines(b, from) =~= complete_lines(b, from) + tail);
        } else {
            assert(b.subrange(from, b.len() as int) =~= b.skip(from));
            assert(byte_lines(b, from) =~= Seq::<Seq<u8>>::empty() + seq![b.skip(from)]);
        }
    } else {
        assert(byte_lines(b, from) =~= Seq::<Seq<u8>>::empty() + Seq::empty());
    }
}

/// The bytes of pieces that came one after another.
pub open spec fn all_bytes(pieces: Seq<Seq<u8>>) -> Seq<u8>
    decreases pieces.len(),
{
    if pieces.len() == 0 {
        Seq::empty()
    } else {
        all_bytes(pieces.drop_last()) + pieces.last()
    }
}

/// What a reader that pieces were fed to gave out, and what waits in it.
pub open spec fn fed(pieces: Seq<Seq<u8>>) -> (Seq<Seq<u8>>, Seq<u8>)
    decreases pieces.len(),
{
    if pieces.len() == 0 {
        (Seq::empty(), Seq::empty())
    } else {
        let before = fed(pieces.drop_last());
        let all = before.1 + pieces.last();
        (before.0 + complete_lines(all, 0), all.skip(waiting_from(all, 0)))
    }
}

/// However output is cut into pieces, feeding them one after another and
/// finishing gives the lines of the whole output.
pub proof fn law_lines_piece_by_piece(pieces: Seq<Seq<u8>>)
    ensures
        byte_lines(all_bytes(pieces), 0) == fed(pieces).0 + (if fed(pieces).1.len() > 0 {
            seq![fed(pieces).1]
        } else {
            Seq::empty()
        }),
        line_texts(byte_lines(all_bytes(pieces), 0)) == line_texts(fed(pieces).0) + (if fed(
            pieces,
        ).1.len() > 0 {
            seq![text::lossy_text(fed(pieces).1)]
        } else {
            Seq::empty()
        }),
{
    let b = all_bytes(pieces);
    lemma_fed(pieces);
    law_lines_at_once(b, 0);
    assert(fed(pieces).1.len() == b.len() - waiting_from(b, 0));
    assert(line_texts(byte_lines(b, 0)) =~= line_texts(fed(pieces).0) + (if fed(pieces).1.len()
        > 0 {
        seq![text::lossy_text(fed(pieces).1)]
    } else {
        Seq::empty()
    }));
}

/// What pieces gave and left is what the whole would have.
proof fn lemma_fed(pieces: Seq<Seq<u8>>)
    ensures
        fed(pieces).0 == complete_lines(all_bytes(pieces), 0),
        0 <= waiting_from(all_bytes(pieces), 0) <= all_bytes(pieces).len(),
        fed(pieces).1 == all_bytes(pieces).skip(waiting_from(all_bytes(pieces), 0)),
    decreases pieces.len(),
{
    if pieces.len() > 0 {
        let a = all_bytes(pieces.drop_last());
        let b = pieces.last();
        let w = waiting_from(a, 0);
        let rest = a.skip(w) + b;
        lemma_fed(pieces.drop_last());
        lemma_more_bytes(a, b, 0);
        assert((a + b).skip(w) =~= rest);
        lemma_lines_shift(a + b, w, 0);
        law_lines_at_once(a + b, 0);
        law_lines_at_once(rest, 0);
        assert(rest.skip(waiting_from(rest, 0)) =~= (a + b).skip(waiting_from(a + b, 0)));
    } else {
        assert(fed(pieces).0 =~= complete_lines(all_bytes(pieces), 0));
        assert(fed(pieces).1 =~= all_bytes(pieces).skip(0));
    }
}

/// More bytes leave the complete lines as they are and go on with the one that
/// waits.
proof fn lemma_more_bytes(a: Seq<u8>, b: Seq<u8>, from: int)
    requires
        0 <= from <= a.len(),
    ensures
        from <= waiting_from(a, from) <= a.len(),
        complete_lines(a + b, from) == complete_lines(a, from) + complete_lines(
            a + b,
            waiting_from(a, from),
        ),
        waiting_from(a + b, from) == waiting_from(a + b, waiting_from(a, from)),
    decreases a.len() - from,
{
    if from < a.len() {
        lemma_line_end(a, from);
        let end = line_end(a, from);
        if end < a.len() {
            lemma_line_end_stays(a, b, from);
            lemma_more_bytes(a, b, end + 1);
            assert((a + b).subrange(from, end) =~= a.subrange(from, end));
            assert(complete_lines(a + b, from) =~= complete_lines(a, from) + complete_lines(
                a + b,
                waiting_from(a, from),
            ));
        } else {
            assert(complete_lines(a + b, from) =~= complete_lines(a, from) + complete_lines(
                a + b,
                from,
            ));
        }
    } else {
        assert(complete_lines(a + b, from) =~= complete_lines(a, from) + complete_lines(
            a + b,
            from,
        ));
    }
}

/// A line end that is there stays the next one when more bytes come.
proof fn lemma_line_end_stays(a: Seq<u8>, b: Seq<u8>, i: int)
    requires
        0 <= i <= a.len(),
        line_end(a, i) < a.len(),
    ensures
        line_end(a + b, i) == line_end(a, i),
    decreases a.len() - i,
{
    if i < a.len() && !ends_line(a[i]) {
        lemma_line_end_stays(a, b, i + 1);
    }
}

/// The lines from a place on are those of the bytes from there on.
proof fn lemma_lines_shift(b: Seq<u8>, k: int, from: int)
    requires
        0 <= k <= b.len(),
        0 <= from <= b.len() - k,
    ensures
        complete_lines(b.skip(k), from) == complete_lines(b, k + from),
        waiting_from(b.skip(k), from) + k == waiting_from(b, k + from),
    decreases b.len() - from,
{
    let t = b.skip(k);
    if from < t.len() {
        lemma_line_end_shifts(b, k, from);
        lemma_line_end(t, from);
        let end = line_end(t, from);
        if end < t.len() {
            lemma_lines_shift(b, k, end + 1);
            assert(t.subrange(from, end) =~= b.subrange(k + from, k + end));
        }
    }
}

/// So is the next line end.
proof fn lemma_line_end_shifts(b: Seq<u8>, k: int, i: int)
    requires
        0 <= k <= b.len(),
        0 <= i <= b.len() - k,
    ensures
        line_end(b.skip(k), i) + k == line_end(b, k + i),
    decreases b.len() - i,
{
    if i < b.len() - k && !ends_line(b[k + i]) {
        lemma_line_end_shifts(b, k, i + 1);
    }
}

/// The next line end is not before.
proof fn lemma_line_end(b: Seq<u8>, i: int)
    requires
        0 <= i <= b.len(),
    ensures
        i <= line_end(b, i) <= b.len(),
    decreases b.len() - i,
{
    if i < b.len() && !ends_line(b[i]) {
        lemma_line_end(b, i + 1);
    }
}

/// FNV-1a of the first `n` bytes.
pub open spec fn fnv(b: Seq<u8>, n: int) -> u64
    decreases n,
{
    if n <= 0 {
        0xcbf2_9ce4_8422_2325
    } else {
        (fnv(b, n - 1) ^ (b[n - 1] as u64)).wrapping_mul(0x0100_0000_01b3)
    }
}

/// An optional time as it stands in a cache key.
pub open spec fn key_time(t: Option<Seq<char>>) -> Seq<char> {
    match t {
        Some(s) => "Some("@ + s + ")"@,
        None => "None"@,
    }
}

/// The key of an address and a range.
pub open spec fn cache_key(
    url: Seq<char>,
    start: Option<Seq<char>>,
    end: Option<Seq<char>>,
) -> Seq<char> {
    url + "|"@ + key_time(start) + "|"@ + key_time(end)
}

/// The file stem of a key.
pub open spec fn cache_stem(key: Seq<char>) -> Seq<char> {
    let b = vstd::utf8::encode_utf8(key);
    "yt-"@ + text::hex_text(fnv(b, b.len() as int) as nat, 16)
}

/// An optional time as it stands in a cache key.
fn time_in_key(t: Option<&str>) -> (r: String)
    ensures
        r@ == key_time(crate::video::opt_str(t)),
{
    match t {
        Some(s) => {
            let mut out = text::concat("Some(", s);
            out.append(")");
            out
        },
        None => "None".to_owned(),
    }
}

/// File stem of an address and a range in the old download cache. The times are
/// given as their shortest decimal text, with a fraction even when it is zero.
pub fn cache_id(url: &str, start: Option<&str>, end: Option<&str>) -> (r: String)
    ensures
        r@ == cache_stem(
            cache_key(url@, crate::video::opt_str(start), crate::video::opt_str(end)),
        ),
{
    let s = time_in_key(start);
    let e = time_in_key(end);
    let mut key = text::concat(url, "|");
    key.append(s.as_str());
    key.append("|");
    key.append(e.as_str());
    let bytes = key.as_str().as_bytes();
    let mut hash: u64 = 0xcbf2_9ce4_8422_2325;
    let mut i: usize = 0;
    while i < bytes.len()
        invariant
            i <= bytes@.len(),
            hash == fnv(bytes@, i as int),
        decreases bytes@.len() - i,
    {
        hash = (hash ^ (bytes[i] as u64)).wrapping_mul(0x0100_0000_01b3);
        i += 1;
    }
    let hex = text::hex16(hash);
    text::concat("yt-", hex.as_str())
}

/// `--download-sections` value of a range, such as `*60-90`; the times are given
/// as text.
pub fn section(start: Option<&str>, end: Option<&str>) -> (r: Option<String>)
    ensures
        text::opt_text(r) == (if start is None && end is None {
            None
        } else {
            Some(
                "*"@ + (match start {
                    Some(s) => s@,
                    None => "0"@,
                }) + "-"@ + (match end {
                    Some(e) => e@,
                    None => "inf"@,
                }),
            )
        }),
{
    if start.is_none() && end.is_none() {
        return None;
    }
    let mut out = match start {
        Some(s) => text::concat("*", s),
        None => text::concat("*", "0"),
    };
    out.append("-");
    match end {
        Some(e) => {
            out.append(e);
        },
        None => {
            out.append("inf");
        },
    }
    Some(out)
}

/// What a line of output says of a download's progress, still as text.
#[derive(Clone, Debug)]
pub enum Progress {
    /// Percent done.
    Percent(String),
    /// The time reached: hours, minutes and seconds, or fewer of them.
    Time(Vec<String>),
}

/// What follows the first place of a mark, up to its next place.
pub open spec fn after_mark(line: Seq<char>, mark: Seq<char>) -> Option<Seq<char>> {
    let i = text::find_pattern(line, mark, 0);
    if i < 0 {
        None
    } else {
        let from = i + mark.len();
        let next = text::find_pattern(line, mark, from);
        Some(
            line.subrange(
                from,
                if next < 0 {
                    line.len() as int
                } else {
                    next
                },
            ),
        )
    }
}

/// The percentage in a line of yt-dlp, such as `[download]  42.0% of …`.
pub open spec fn percent_in(line: Seq<char>) -> Option<Seq<char>> {
    let s = text::trimmed_start(line);
    let mark = "[download]"@;
    if mark.is_prefix_of(s) {
        let rest = text::trimmed_start(s.skip(mark.len() as int));
        Some(text::trimmed(rest.take(text::find(rest, '%', 0))))
    } else {
        None
    }
}

/// The time in a line of ffmpeg, such as `… time=00:00:12.50 …`.
pub open spec fn time_in(line: Seq<char>) -> Option<Seq<char>> {
    match after_mark(line, "time="@) {
        Some(rest) => text::first_word_of(rest),
        None => None,
    }
}

/// What follows the first place of a mark.
fn rest_after(line: &str, mark: &str) -> (r: Option<String>)
    ensures
        text::opt_text(r) == after_mark(line@, mark@),
{
    let a = text::chars_of(line);
    let p = text::chars_of(mark);
    let i = match text::find_text(a.as_slice(), p.as_slice(), 0) {
        Some(i) => i,
        None => {
            return None;
        },
    };
    assert(i + p@.len() <= a.len());
    let from: usize = i + p.len();
    let to: usize = match text::find_text(a.as_slice(), p.as_slice(), from) {
        Some(j) => j,
        None => a.len(),
    };
    let piece = vstd::slice::slice_subrange(a.as_slice(), from, to);
    Some(text::text_of(piece))
}

/// What a line of yt-dlp, or of the ffmpeg it runs for a range, says of the
/// progress; the numbers are still text.
pub fn progress_in(line: &str) -> (r: Option<Progress>)
    ensures
        match r {
            Some(Progress::Percent(p)) => percent_in(line@) == Some(p@),
            Some(Progress::Time(parts)) => percent_in(line@) is None && time_in(line@) is Some
                && text::texts(parts@) == text::parts_from(time_in(line@)->0, ':', 0),
            None => percent_in(line@) is None && time_in(line@) is None,
        },
{
    let s = text::trim_start(line);
    if let Some(rest) = text::strip_prefix(s.as_str(), "[download]") {
        let t = text::trim_start(rest.as_str());
        let a = text::chars_of(t.as_str());
        let i = text::find_char(a.as_slice(), '%', 0);
        let head = vstd::slice::slice_subrange(a.as_slice(), 0, i);
        assert(head@ =~= t@.take(i as int));
        let number = text::text_of(head);
        return Some(Progress::Percent(text::trim(number.as_str())));
    }
    match rest_after(line, "time=") {
        Some(rest) => match text::first_word(rest.as_str()) {
            Some(word) => Some(Progress::Time(text::split_on(word.as_str(), ':'))),
            None => None,
        },
        None => None,
    }
}

/// What yt-dlp says about a video.
#[derive(Clone, Debug)]
pub struct VideoMeta {
    pub title: Option<String>,
    pub channel: Option<String>,
    /// `YYYY-MM-DD`.
    pub upload_date: Option<String>,
}

/// The values of a row of JSON values as far as they are strings: what
/// `serde_json`'s stream of values yields, up to where it breaks off.
pub uninterp spec fn json_strings(row: Seq<char>) -> Seq<Option<Seq<char>>>;

/// The texts of a list of optional texts.
pub open spec fn opt_texts(list: Seq<Option<String>>) -> Seq<Option<Seq<char>>> {
    list.map_values(|s: Option<String>| text::opt_text(s))
}

/// `serde_json::Deserializer::from_str(row).into_iter::<Value>()`: its items,
/// with `None` for an item that is an error or no string, are [`json_strings`]
/// of the row.
#[verifier::external_body]
fn read_json_strings(row: &str) -> (r: Vec<Option<String>>)
    ensures
        opt_texts(r@) == json_strings(row@),
{
    serde_json::Deserializer::from_str(row)
        .into_iter::<serde_json::Value>()
        .map(|v| v.ok().and_then(|v| v.as_str().map(String::from)))
        .collect()
}

/// A value that says something.
pub open spec fn known(v: Option<Seq<char>>) -> Option<Seq<char>> {
    match v {
        Some(s) => if s.len() > 0 && s != "NA"@ {
            Some(s)
        } else {
            None
        },
        None => None,
    }
}

/// How many bytes a character takes in UTF-8.
pub open spec fn utf8_size(c: char) -> nat {
    let n = c as nat;
    if n < 0x80 {
        1
    } else if n < 0x800 {
        2
    } else if n < 0x10000 {
        3
    } else {
        4
    }
}

/// How many bytes the first `n` characters take.
pub open spec fn utf8_before(s: Seq<char>, n: int) -> nat
    decreases n,
{
    if n <= 0 {
        0
    } else {
        utf8_before(s, n - 1) + utf8_size(s[n - 1])
    }
}

/// How many characters take exactly `bytes`, counted down from `n`; -1 for none.
pub open spec fn chars_in(s: Seq<char>, bytes: nat, n: int) -> int
    decreases n + 1,
{
    if n < 0 {
        -1
    } else if utf8_before(s, n) == bytes {
        n
    } else {
        chars_in(s, bytes, n - 1)
    }
}

/// An eight-byte date with dashes after its fourth and sixth byte; any other
/// text as it is.
pub open spec fn dashed_date(d: Seq<char>) -> Seq<char> {
    let n = d.len() as int;
    let a = chars_in(d, 4, n);
    let b = chars_in(d, 6, n);
    if utf8_before(d, n) == 8 && 0 <= a <= b {
        d.subrange(0, a) + "-"@ + d.subrange(a, b) + "-"@ + d.skip(b)
    } else {
        d
    }
}

/// What the row of values says about a video.
pub open spec fn meta_of(values: Seq<Option<Seq<char>>>, m: VideoMeta) -> bool {
    &&& values.len() >= 3
    &&& text::opt_text(m.title) == known(values[0])
    &&& text::opt_text(m.channel) == known(values[1])
    &&& text::opt_text(m.upload_date) == (match known(values[2]) {
        Some(d) => Some(dashed_date(d)),
        None => None,
    })
}

/// The row of values in a line of yt-dlp's output.
pub open spec fn meta_row(line: Seq<char>) -> Option<Seq<char>> {
    let t = text::trimmed(line);
    if "cuttlefish-meta "@.is_prefix_of(t) {
        Some(t.skip("cuttlefish-meta "@.len() as int))
    } else {
        None
    }
}

/// The bytes a character takes in UTF-8.
fn size_of_char(c: char) -> (r: usize)
    ensures
        r == utf8_size(c),
{
    let n: u32 = c as u32;
    if n < 0x80 {
        1
    } else if n < 0x800 {
        2
    } else if n < 0x10000 {
        3
    } else {
        4
    }
}

/// More characters take more bytes.
proof fn lemma_utf8_grows(s: Seq<char>, i: int, j: int)
    requires
        0 <= i <= j,
    ensures
        utf8_before(s, i) + (j - i) <= utf8_before(s, j),
    decreases j,
{
    if i < j {
        lemma_utf8_grows(s, i, j - 1);
    }
}

/// Only one number of characters takes just so many bytes.
proof fn lemma_chars_in(s: Seq<char>, bytes: nat, k: int, n: int)
    requires
        0 <= k <= n,
        utf8_before(s, k) == bytes,
    ensures
        chars_in(s, bytes, n) == k,
    decreases n,
{
    if k < n {
        lemma_utf8_grows(s, k, n);
        lemma_chars_in(s, bytes, k, n - 1);
    }
}

/// No number of characters takes just so many bytes.
proof fn lemma_no_chars_in(s: Seq<char>, bytes: nat, n: int)
    requires
        forall|k: int| 0 <= k <= n ==> #[trigger] utf8_before(s, k) != bytes,
    ensures
        chars_in(s, bytes, n) == -1,
    decreases n + 1,
{
    if n >= 0 {
        assert(utf8_before(s, n) != bytes);
        lemma_no_chars_in(s, bytes, n - 1);
    }
}

/// How many characters take exactly `bytes`.
fn find_boundary(a: &[char], bytes: usize) -> (r: Option<usize>)
    requires
        bytes <= 8,
    ensures
        match r {
            Some(k) => chars_in(a@, bytes as nat, a@.len() as int) == k && k <= a@.len()
                && utf8_before(a@, k as int) == bytes,
            None => chars_in(a@, bytes as nat, a@.len() as int) == -1,
        },
{
    let mut k: usize = 0;
    let mut sum: usize = 0;
    while k < a.len() && sum < bytes
        invariant
            k <= a@.len(),
            bytes <= 8,
            sum <= 12,
            sum == utf8_before(a@, k as int),
            forall|j: int| 0 <= j < k ==> #[trigger] utf8_before(a@, j) < bytes,
        decreases a@.len() - k,
    {
        sum = sum + size_of_char(a[k]);
        k += 1;
    }
    if sum == bytes {
        proof {
            lemma_chars_in(a@, bytes as nat, k as int, a@.len() as int);
        }
        Some(k)
    } else {
        proof {
            assert forall|j: int| 0 <= j <= a@.len() implies #[trigger] utf8_before(a@, j)
                != bytes by {
                if j >= k {
                    lemma_utf8_grows(a@, k as int, j);
                }
            }
            lemma_no_chars_in(a@, bytes as nat, a@.len() as int);
        }
        None
    }
}

/// An eight-byte date with dashes.
fn dash_date(d: String) -> (r: String)
    ensures
        r@ == dashed_date(d@),
{
    let a = text::chars_of(d.as_str());
    let n: usize = a.len();
    let whole = find_boundary(a.as_slice(), 8);
    if whole != Some(n) {
        proof {
            if utf8_before(d@, d@.len() as int) == 8 {
                lemma_chars_in(d@, 8, d@.len() as int, d@.len() as int);
            }
        }
        return d;
    }
    match (find_boundary(a.as_slice(), 4), find_boundary(a.as_slice(), 6)) {
        (Some(i), Some(j)) => {
            proof {
                if j < i {
                    lemma_utf8_grows(a@, j as int, i as int);
                }
            }
            let mut out = text::text_of(vstd::slice::slice_subrange(a.as_slice(), 0, i));
            out.append("-");
            let month = text::text_of(vstd::slice::slice_subrange(a.as_slice(), i, j));
            out.append(month.as_str());
            out.append("-");
            let tail = vstd::slice::slice_subrange(a.as_slice(), j, n);
            assert(tail@ =~= d@.skip(j as int));
            let day = text::text_of(tail);
            out.append(day.as_str());
            out
        },
        _ => d,
    }
}

/// A value that says something.
fn known_value(v: &Option<String>) -> (r: Option<String>)
    ensures
        text::opt_text(r) == known(text::opt_text(*v)),
{
    match v {
        Some(s) => if s.as_str().unicode_len() > 0 && !text::same(s.as_str(), "NA") {
            Some(s.clone())
        } else {
            None
        },
        None => None,
    }
}

/// What a row of values says about a video: title, channel and upload date;
/// `None` when there are fewer.
pub fn meta_from(values: &Vec<Option<String>>) -> (r: Option<VideoMeta>)
    ensures
        match r {
            Some(m) => meta_of(opt_texts(values@), m),
            None => values@.len() < 3,
        },
{
    if values.len() < 3 {
        return None;
    }
    let upload_date = match known_value(&values[2]) {
        Some(d) => Some(dash_date(d)),
        None => None,
    };
    Some(
        VideoMeta {
            title: known_value(&values[0]),
            channel: known_value(&values[1]),
            upload_date,
        },
    )
}

/// The video's title, channel and upload date from the line that yt-dlp prints
/// for them: three JSON values, `null` or `"NA"` when unknown.
pub fn parse_meta(line: &str) -> (r: Option<VideoMeta>)
    ensures
        match (meta_row(line@), r) {
            (None, m) => m is None,
            (Some(row), Some(m)) => meta_of(json_strings(row), m),
            (Some(row), None) => json_strings(row).len() < 3,
        },
{
    let t = text::trim(line);
    match text::strip_prefix(t.as_str(), META_MARK) {
        Some(row) => {
            let values = read_json_strings(row.as_str());
            assert(opt_texts(values@).len() == values@.len());
            meta_from(&values)
        },
        None => None,
    }
}

/// The options of the ffmpeg that takes images of a range for the coach.
pub open spec fn image_args_of(
    start: Seq<char>,
    span: Seq<char>,
    path: Seq<char>,
    count: nat,
) -> Seq<Seq<char>> {
    seq!["-v"@, "error"@, "-ss"@, start, "-t"@, span, "-i"@, path, "-vf"@] + seq![
        "fps=2,scale=-2:720"@,
        "-frames:v"@,
        text::decimal_text(count),
        "-f"@,
        "image2pipe"@,
        "-c:v"@,
        "mjpeg"@,
        "-q:v"@,
        "4"@,
        "-"@,
    ]
}

/// The options of the ffmpeg that takes `count` images of a video, two a second and
/// 720 lines high, from a moment on for a span, both given as text.
pub fn image_args(start: &str, span: &str, path: &str, count: usize) -> (r: Vec<String>)
    ensures
        text::texts(r@) == image_args_of(start@, span@, path@, count as nat),
{
    let number = text::decimal(count as u64);
    let mut args: Vec<String> = Vec::new();
    text::push_text(&mut args, "-v");
    text::push_text(&mut args, "error");
    text::push_text(&mut args, "-ss");
    text::push_text(&mut args, start);
    text::push_text(&mut args, "-t");
    text::push_text(&mut args, span);
    text::push_text(&mut args, "-i");
    text::push_text(&mut args, path);
    text::push_text(&mut args, "-vf");
    text::push_text(&mut args, "fps=2,scale=-2:720");
    text::push_text(&mut args, "-frames:v");
    text::push_text(&mut args, number.as_str());
    text::push_text(&mut args, "-f");
    text::push_text(&mut args, "image2pipe");
    text::push_text(&mut args, "-c:v");
    text::push_text(&mut args, "mjpeg");
    text::push_text(&mut args, "-q:v");
    text::push_text(&mut args, "4");
    text::push_text(&mut args, "-");
    assert(text::texts(args@) =~= image_args_of(start@, span@, path@, count as nat));
    args
}

} // verus!
