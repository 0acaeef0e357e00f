//! Browsing recorded sessions frame by frame.
use crate::clock;
use crate::ranges;
use crate::text;
use vstd::prelude::*;

verus! {

/// Width of decoded frames.
pub const FRAME_WIDTH: u32 = 640;

/// Height of decoded frames.
pub const FRAME_HEIGHT: u32 = 360;

/// Frames decoded before a missed frame, for stepping back.
pub const DECODE_BEFORE: usize = 2;

/// Frames decoded from a missed frame on, for stepping forward and playback.
pub const DECODE_AFTER: usize = 45;

/// Decoded frames kept per segment.
pub const CACHED_FRAMES: usize = 400;

/// Segments kept open.
pub const OPEN_SEGMENTS: usize = 3;

/// Alignments kept per segment, one per delay tried.
pub const CACHED_ALIGNMENTS: usize = 8;

/// Angular rate in degrees per second above which a frame counts as active.
pub const ACTIVE_GYRO_DPS: u32 = 60;

/// Body of a reply.
#[derive(Clone, Debug)]
pub struct Reply {
    pub body: Vec<u8>,
    pub content_type: String,
    /// `Content-Range` of a partial reply.
    pub content_range: Option<String>,
}

impl Reply {
    /// A reply with all of a body.
    pub fn whole(body: Vec<u8>, content_type: String) -> (r: Reply)
        ensures
            r == (Reply { body, content_type, content_range: None }),
    {
        Reply { body, content_type, content_range: None }
    }
}

/// `bytes`, or the part that a `Range` header asks for.
pub fn ranged(bytes: &[u8], range: Option<&str>, content_type: &str) -> (r: Reply)
    ensures
        r.content_type@ == content_type@,
        ({
            let asked = match range {
                Some(h) => ranges::range_asked(h@, bytes@.len()),
                None => None,
            };
            match asked {
                Some(p) => r.body@ == bytes@.subrange(p.0 as int, p.1 as int + 1) && text::opt_text(
                    r.content_range,
                ) == Some(ranges::content_range_text(p.0, p.1, bytes@.len())),
                None => r.body@ == bytes@ && r.content_range is None,
            }
        }),
{
    if let Some(header) = range {
        if let Some(p) = ranges::asked(header, bytes.len()) {
            let part = vstd::slice::slice_subrange(bytes, p.0, p.1 + 1);
            return Reply {
                body: vstd::slice::slice_to_vec(part),
                content_type: content_type.to_owned(),
                content_range: Some(
                    ranges::content_range(p.0 as u64, p.1 as u64, bytes.len() as u64),
                ),
            };
        }
    }
    Reply::whole(vstd::slice::slice_to_vec(bytes), content_type.to_owned())
}

/// The end marker of a JPEG.
pub open spec fn ends_at(b: Seq<u8>, i: int) -> bool {
    0 <= i && i + 1 < b.len() && b[i] == 0xff && b[i + 1] == 0xd9
}

/// The JPEGs from `start` on whose end markers are at or after `i`.
pub open spec fn jpegs_from(b: Seq<u8>, start: int, i: int) -> Seq<Seq<u8>>
    decreases b.len() - i,
{
    if i < 0 || i + 1 >= b.len() {
        Seq::empty()
    } else if ends_at(b, i) {
        seq![b.subrange(start, i + 2)] + jpegs_from(b, i + 2, i + 2)
    } else {
        jpegs_from(b, start, i + 1)
    }
}

/// The bytes of each piece.
pub open spec fn bytes_of(list: Seq<Vec<u8>>) -> Seq<Seq<u8>> {
    list.map_values(|v: Vec<u8>| v@)
}

/// Split concatenated JPEGs at their end markers; what follows the last one is
/// left out.
pub fn split_jpegs(bytes: &[u8]) -> (r: Vec<Vec<u8>>)
    ensures
        bytes_of(r@) == jpegs_from(bytes@, 0, 0),
{
    let n: usize = bytes.len();
    let mut jpegs: Vec<Vec<u8>> = Vec::new();
    let mut start: usize = 0;
    let mut i: usize = 0;
    assert(bytes_of(jpegs@) + jpegs_from(bytes@, 0, 0) =~= jpegs_from(bytes@, 0, 0));
    while i < n && n - i > 1
        invariant
            n == bytes@.len(),
            start <= i <= n,
            bytes_of(jpegs@) + jpegs_from(bytes@, start as int, i as int) == jpegs_from(
                bytes@,
                0,
                0,
            ),
        decreases n - i,
    {
        if bytes[i] == 0xff && bytes[i + 1] == 0xd9 {
            let ghost before = bytes_of(jpegs@);
            let ghost rest = jpegs_from(bytes@, start as int, i as int);
            let piece = vstd::slice::slice_subrange(bytes, start, i + 2);
            jpegs.push(vstd::slice::slice_to_vec(piece));
            assert(bytes_of(jpegs@) =~= before.push(bytes@.subrange(start as int, i + 2)));
            assert(before + rest =~= bytes_of(jpegs@) + jpegs_from(bytes@, i + 2, i + 2));
            start = i + 2;
            i += 2;
        } else {
            i += 1;
        }
    }
    assert(bytes_of(jpegs@) + jpegs_from(bytes@, start as int, i as int) =~= bytes_of(jpegs@));
    jpegs
}

/// The pieces are the bytes in order up to the last end marker, and what is left
/// holds none.
pub proof fn law_jpegs_are_the_bytes(b: Seq<u8>, start: int, i: int)
    requires
        0 <= start <= i <= b.len(),
        forall|j: int| start <= j < i ==> !#[trigger] ends_at(b, j),
    ensures
        ({
            let all = jpegs_from(b, start, i).flatten();
            &&& start + all.len() <= b.len()
            &&& all == b.subrange(start, start + all.len())
            &&& forall|j: int| start + all.len() <= j ==> !#[trigger] ends_at(b, j)
        }),
    decreases b.len() - i,
{
    if i + 1 >= b.len() {
        assert(jpegs_from(b, start, i).flatten() =~= Seq::empty());
        assert(b.subrange(start, start) =~= Seq::empty());
    } else if ends_at(b, i) {
        law_jpegs_are_the_bytes(b, i + 2, i + 2);
        let first = b.subrange(start, i + 2);
        let rest = jpegs_from(b, i + 2, i + 2);
        let list = seq![first] + rest;
        assert(list.drop_first() =~= rest);
        assert(list.flatten() == first + rest.flatten());
        let n = rest.flatten().len() as int;
        assert(first + b.subrange(i + 2, i + 2 + n) =~= b.subrange(start, i + 2 + n));
    } else {
        law_jpegs_are_the_bytes(b, start, i + 1);
    }
}

/// Each piece ends with its only end marker.
pub proof fn law_each_jpeg_is_one(b: Seq<u8>, start: int, i: int, k: int)
    requires
        0 <= start <= i <= b.len(),
        forall|j: int| start <= j < i ==> !#[trigger] ends_at(b, j),
        0 <= k < jpegs_from(b, start, i).len(),
    ensures
        ({
            let p = jpegs_from(b, start, i)[k];
            &&& p.len() >= 2 && p[p.len() - 2] == 0xff && p[p.len() - 1] == 0xd9
            &&& forall|j: int|
                0 <= j < p.len() - 2 ==> !(#[trigger] p[j] == 0xff && p[j + 1] == 0xd9)
        }),
    decreases b.len() - i,
{
    if i + 1 < b.len() {
        if ends_at(b, i) {
            if k > 0 {
                law_each_jpeg_is_one(b, i + 2, i + 2, k - 1);
            } else {
                let p = b.subrange(start, i + 2);
                assert forall|j: int| 0 <= j < p.len() - 2 implies !(#[trigger] p[j] == 0xff && p[j
                    + 1] == 0xd9) by {
                    assert(!ends_at(b, start + j));
                    assert(p[j] == b[start + j] && p[j + 1] == b[start + j + 1]);
                }
            }
        } else {
            law_each_jpeg_is_one(b, start, i + 1, k);
        }
    }
}

/// A clock reading with its bits spread.
pub open spec fn scrambled(nanos: u64) -> u64 {
    let a = nanos ^ 0x9E37_79B9_7F4A_7C15u64;
    let b = a ^ (a << 13u64);
    let c = b ^ (b >> 7u64);
    c ^ (c << 17u64)
}

/// The number below a bound that a clock reading picks; 0 for no bound.
pub fn pick_below(nanos: u64, bound: usize) -> (r: usize)
    ensures
        r == scrambled(nanos) as int % (if bound == 0 {
            1
        } else {
            bound as int
        }),
        r == 0 || r < bound,
{
    let mut x: u64 = nanos ^ 0x9E37_79B9_7F4A_7C15;
    x = x ^ (x << 13u64);
    x = x ^ (x >> 7u64);
    x = x ^ (x << 17u64);
    let m: u64 = if bound == 0 {
        1
    } else {
        bound as u64
    };
    (x % m) as usize
}

/// The number below a bound that a reading of the clock picks: one set before
/// 1970 counts as 0, and of the others the low 64 bits count.
pub fn pick_at(nanos: Option<u128>, bound: usize) -> (r: usize)
    ensures
        ({
            let low = match nanos {
                Some(n) => (n % 0x1_0000_0000_0000_0000) as u64,
                None => 0,
            };
            r == scrambled(low) as int % (if bound == 0 {
                1
            } else {
                bound as int
            })
        }),
        r == 0 || r < bound,
{
    let low: u64 = match nanos {
        Some(n) => (n % 0x1_0000_0000_0000_0000) as u64,
        None => 0,
    };
    pick_below(low, bound)
}

/// A number in `[0, bound)` from the clock; good enough to pick a frame. Which
/// one depends on the moment: it is what [`pick_at`] gives for the clock's
/// reading.
pub fn random_below(bound: usize) -> (r: usize)
    ensures
        r == 0 || r < bound,
{
    pick_at(clock::clock_nanos(), bound)
}

/// A name that stays inside the folder of sessions.
pub open spec fn name_ok(name: Seq<char>) -> bool {
    name.len() > 0 && !name.contains('/') && !name.contains('\\') && name != ".."@
}

/// Whether a session name stays inside the folder of sessions.
pub fn session_name_ok(name: &str) -> (r: bool)
    ensures
        r == name_ok(name@),
{
    name.unicode_len() > 0 && !text::has_char(name, '/') && !text::has_char(name, '\\')
        && !text::same(name, "..")
}

/// An open segment of a session, with what is kept of it.
#[derive(Debug)]
pub struct Opened<T> {
    pub session: String,
    pub file: String,
    pub kept: T,
}

/// The open segments, least recently used first.
#[derive(Debug)]
pub struct OpenSegments<T> {
    pub open: Vec<Opened<T>>,
}

/// Whether an open segment is the one asked for; without a file any of the
/// session's is.
pub open spec fn is_asked<T>(o: Opened<T>, name: Seq<char>, file: Option<Seq<char>>) -> bool {
    o.session@ == name && match file {
        Some(f) => o.file@ == f,
        None => true,
    }
}

/// The place of the first open segment asked for, from `i` on; the length when
/// there is none.
pub open spec fn place_of<T>(
    open: Seq<Opened<T>>,
    name: Seq<char>,
    file: Option<Seq<char>>,
    i: int,
) -> int
    decreases open.len() - i,
{
    if i < 0 || i >= open.len() {
        open.len() as int
    } else if is_asked(open[i], name, file) {
        i
    } else {
        place_of(open, name, file, i + 1)
    }
}

/// Segments with one more, of which only the last ones stay open.
pub open spec fn with_opened<T>(open: Seq<Opened<T>>, o: Opened<T>) -> Seq<Opened<T>> {
    let all = open.push(o);
    if all.len() > OPEN_SEGMENTS {
        all.skip(1)
    } else {
        all
    }
}

/// The segments among the first `n` that are not of a session.
pub open spec fn without_session<T>(open: Seq<Opened<T>>, name: Seq<char>, n: int) -> Seq<Opened<T>>
    decreases n,
{
    if n <= 0 {
        Seq::empty()
    } else if open[n - 1].session@ == name {
        without_session(open, name, n - 1)
    } else {
        without_session(open, name, n - 1).push(open[n - 1])
    }
}

impl<T> OpenSegments<T> {
    pub fn new() -> (r: OpenSegments<T>)
        ensures
            r.open@.len() == 0,
    {
        OpenSegments { open: Vec::new() }
    }

    /// Use an open segment, which becomes the most recently used one; whether
    /// there is one.
    pub fn find(&mut self, name: &str, file: Option<&str>) -> (r: bool)
        ensures
            ({
                let f = match file {
                    Some(t) => Some(t@),
                    None => None,
                };
                let i = place_of(old(self).open@, name@, f, 0);
                if i < old(self).open@.len() {
                    r && final(self).open@ == old(self).open@.remove(i).push(old(self).open@[i])
                } else {
                    !r && final(self).open@ == old(self).open@
                }
            }),
    {
        let ghost f = match file {
            Some(t) => Some(t@),
            None => None,
        };
        let mut i: usize = 0;
        while i < self.open.len()
            invariant
                i <= self.open@.len(),
                self.open@ == old(self).open@,
                f == (match file {
                    Some(t) => Some(t@),
                    None => None,
                }),
                place_of(self.open@, name@, f, 0) == place_of(self.open@, name@, f, i as int),
            decreases self.open@.len() - i,
        {
            let here = text::same(self.open[i].session.as_str(), name) && match file {
                Some(t) => text::same(self.open[i].file.as_str(), t),
                None => true,
            };
            if here {
                let segment = self.open.remove(i);
                self.open.push(segment);
                return true;
            }
            i += 1;
        }
        false
    }

    /// Open a segment; the least recently used one beyond the limit is closed.
    pub fn add(&mut self, session: String, file: String, kept: T)
        ensures
            final(self).open@ == with_opened(old(self).open@, Opened { session, file, kept }),
    {
        self.open.push(Opened { session, file, kept });
        if self.open.len() > OPEN_SEGMENTS {
            let ghost all = self.open@;
            let _oldest = self.open.remove(0);
            assert(self.open@ =~= all.skip(1));
        }
    }

    /// What is kept of the most recently used segment.
    pub fn latest(&self) -> (r: Option<&T>)
        ensures
            match r {
                Some(t) => self.open@.len() > 0 && *t == self.open@.last().kept,
                None => self.open@.len() == 0,
            },
    {
        let n: usize = self.open.len();
        if n == 0 {
            None
        } else {
            Some(&self.open[n - 1].kept)
        }
    }

    /// Close a session's segments, which keep what they were opened with.
    pub fn forget(&mut self, name: &str)
        ensures
            final(self).open@ == without_session(
                old(self).open@,
                name@,
                old(self).open@.len() as int,
            ),
    {
        let mut kept: Vec<Opened<T>> = Vec::new();
        let ghost all = self.open@;
        let n: usize = self.open.len();
        let mut i: usize = 0;
        assert(self.open@ =~= all.skip(0));
        while i < n
            invariant
                i <= n,
                n == all.len(),
                self.open@ == all.skip(i as int),
                kept@ == without_session(all, name@, i as int),
            decreases n - i,
        {
            let o = self.open.remove(0);
            assert(self.open@ =~= all.skip(i + 1));
            if !text::same(o.session.as_str(), name) {
                kept.push(o);
            }
            i += 1;
        }
        self.open = kept;
    }
}

/// Never more than the limit of segments are open, the one used last is last,
/// and opening one closes at most the least recently used.
pub proof fn law_open_segments_are_bounded<T>(open: Seq<Opened<T>>, o: Opened<T>)
    requires
        open.len() <= OPEN_SEGMENTS,
    ensures
        with_opened(open, o).len() <= OPEN_SEGMENTS,
        with_opened(open, o).last() == o,
        forall|i: int|
            1 <= i < open.len() ==> with_opened(open, o).contains(#[trigger] open[i]),
{
    assert forall|i: int| 1 <= i < open.len() implies with_opened(open, o).contains(
        #[trigger] open[i],
    ) by {
        let all = open.push(o);
        if all.len() > OPEN_SEGMENTS {
            assert(all.skip(1)[i - 1] == open[i]);
        } else {
            assert(all[i] == open[i]);
        }
    }
}

/// Results by the bits of the delay they were computed for, oldest first.
#[derive(Debug)]
pub struct Alignments<T> {
    pub entries: Vec<(u64, T)>,
}

/// The place of a delay's result, from `i` on; the length when there is none.
pub open spec fn key_place<T>(entries: Seq<(u64, T)>, key: u64, i: int) -> int
    decreases entries.len() - i,
{
    if i < 0 || i >= entries.len() {
        entries.len() as int
    } else if entries[i].0 == key {
        i
    } else {
        key_place(entries, key, i + 1)
    }
}

/// Results with one more, of which only the newest stay.
pub open spec fn with_entry<T>(entries: Seq<(u64, T)>, key: u64, value: T) -> Seq<(u64, T)> {
    let all = entries.push((key, value));
    if all.len() > CACHED_ALIGNMENTS {
        all.skip(1)
    } else {
        all
    }
}

impl<T> Alignments<T> {
    pub fn new() -> (r: Alignments<T>)
        ensures
            r.entries@.len() == 0,
    {
        Alignments { entries: Vec::new() }
    }

    /// The result for a delay, if it is kept.
    pub fn get(&self, key: u64) -> (r: Option<&T>)
        ensures
            ({
                let i = key_place(self.entries@, key, 0);
                match r {
                    Some(t) => i < self.entries@.len() && *t == self.entries@[i].1,
                    None => i == self.entries@.len(),
                }
            }),
    {
        let mut i: usize = 0;
        while i < self.entries.len()
            invariant
                i <= self.entries@.len(),
                key_place(self.entries@, key, 0) == key_place(self.entries@, key, i as int),
            decreases self.entries@.len() - i,
        {
            if self.entries[i].0 == key {
                return Some(&self.entries[i].1);
            }
            i += 1;
        }
        None
    }

    /// Keep the result for a delay; the oldest beyond the limit goes.
    pub fn add(&mut self, key: u64, value: T)
        ensures
            final(self).entries@ == with_entry(old(self).entries@, key, value),
    {
        self.entries.push((key, value));
        if self.entries.len() > CACHED_ALIGNMENTS {
            let ghost all = self.entries@;
            let _oldest = self.entries.remove(0);
            assert(self.entries@ =~= all.skip(1));
        }
    }
}

/// Decoded frames by number, in order.
#[derive(Debug)]
pub struct FrameCache<T> {
    pub frames: Vec<(usize, T)>,
}

/// Frames in order of their numbers, each once.
pub open spec fn in_order<T>(f: Seq<(usize, T)>) -> bool {
    forall|i: int, j: int|
        0 <= i < j < f.len() ==> (#[trigger] f[i]).0 < (#[trigger] f[j]).0
}

/// Whether a frame is kept.
pub open spec fn keeps<T>(f: Seq<(usize, T)>, n: usize) -> bool {
    exists|i: int| 0 <= i < f.len() && (#[trigger] f[i]).0 == n
}

/// How many of the first `k` frames are before a number.
pub open spec fn count_below<T>(f: Seq<(usize, T)>, n: usize, k: int) -> int
    decreases k,
{
    if k <= 0 {
        0
    } else if f[k - 1].0 < n {
        k
    } else {
        count_below(f, n, k - 1)
    }
}

/// Frames with one put in its place, replacing one of the same number.
pub open spec fn with_frame<T>(f: Seq<(usize, T)>, n: usize, value: T) -> Seq<(usize, T)> {
    let i = count_below(f, n, f.len() as int);
    if i < f.len() && f[i].0 == n {
        f.update(i, (n, value))
    } else {
        f.insert(i, (n, value))
    }
}

/// Frames of which those farthest from `n` are forgotten until at most the
/// limit is left.
pub open spec fn evicted<T>(f: Seq<(usize, T)>, n: usize) -> Seq<(usize, T)>
    decreases f.len(),
{
    if f.len() > CACHED_FRAMES {
        let low = f[0].0;
        let high = f.last().0;
        let below = if low < n {
            n - low
        } else {
            0
        };
        let above = if high > n {
            high - n
        } else {
            0
        };
        if below > above {
            evicted(f.skip(1), n)
        } else {
            evicted(f.drop_last(), n)
        }
    } else {
        f
    }
}

/// Where a number belongs.
proof fn lemma_count_below<T>(f: Seq<(usize, T)>, n: usize, k: int)
    requires
        in_order(f),
        0 <= k <= f.len(),
    ensures
        0 <= count_below(f, n, k) <= k,
        forall|i: int| 0 <= i < count_below(f, n, k) ==> (#[trigger] f[i]).0 < n,
        forall|i: int| count_below(f, n, k) <= i < k ==> (#[trigger] f[i]).0 >= n,
    decreases k,
{
    if k > 0 && f[k - 1].0 >= n {
        lemma_count_below(f, n, k - 1);
    } else if k > 0 {
        assert forall|i: int| 0 <= i < k implies (#[trigger] f[i]).0 < n by {
            if i < k - 1 {
                assert(f[i].0 < f[k - 1].0);
            }
        }
    }
}

/// A frame put in its place is kept, the others stay, and the order too.
pub proof fn law_frame_is_kept<T>(f: Seq<(usize, T)>, n: usize, value: T, m: usize)
    requires
        in_order(f),
    ensures
        in_order(with_frame(f, n, value)),
        keeps(with_frame(f, n, value), n),
        keeps(f, m) ==> keeps(with_frame(f, n, value), m),
{
    lemma_count_below(f, n, f.len() as int);
    let i = count_below(f, n, f.len() as int);
    let g = with_frame(f, n, value);
    assert(g[i].0 == n);
    if i < f.len() && f[i].0 == n {
        assert forall|a: int, b: int| 0 <= a < b < g.len() implies (#[trigger] g[a]).0
            < (#[trigger] g[b]).0 by {
            assert(f[a].0 < f[b].0);
        }
        if keeps(f, m) {
            let k = choose|k: int| 0 <= k < f.len() && (#[trigger] f[k]).0 == m;
            assert(g[k].0 == m);
        }
    } else {
        assert forall|a: int, b: int| 0 <= a < b < g.len() implies (#[trigger] g[a]).0
            < (#[trigger] g[b]).0 by {
            if b < i {
                assert(f[a].0 < f[b].0);
            } else if b == i {
                assert(f[a].0 < n);
            } else if a < i {
                assert(f[a].0 < f[b - 1].0);
            } else if a == i {
                assert(f[b - 1].0 >= n);
                if f[b - 1].0 == n && b - 1 > i {
                    assert(f[i].0 < f[b - 1].0);
                }
            } else {
                assert(f[a - 1].0 < f[b - 1].0);
            }
        }
        if keeps(f, m) {
            let k = choose|k: int| 0 <= k < f.len() && (#[trigger] f[k]).0 == m;
            if k < i {
                assert(g[k].0 == m);
            } else {
                assert(g[k + 1].0 == m);
            }
        }
    }
}

/// However many frames are forgotten, the one looked at is not, and at most the
/// limit is left.
pub proof fn law_looked_at_frame_stays<T>(f: Seq<(usize, T)>, n: usize)
    requires
        in_order(f),
        keeps(f, n),
    ensures
        keeps(evicted(f, n), n),
        in_order(evicted(f, n)),
        evicted(f, n).len() <= CACHED_FRAMES,
    decreases f.len(),
{
    if f.len() > CACHED_FRAMES {
        let k = choose|k: int| 0 <= k < f.len() && (#[trigger] f[k]).0 == n;
        let low = f[0].0;
        let high = f.last().0;
        assert(f[0].0 < f[f.len() - 1].0);
        let below = if low < n {
            n - low
        } else {
            0
        };
        let above = if high > n {
            high - n
        } else {
            0
        };
        if below > above {
            let g = f.skip(1);
            assert(k != 0);
            assert(g[k - 1].0 == n);
            assert(in_order(g)) by {
                assert forall|i: int, j: int| 0 <= i < j < g.len() implies (#[trigger] g[i]).0
                    < (#[trigger] g[j]).0 by {
                    assert(f[i + 1].0 < f[j + 1].0);
                }
            }
            law_looked_at_frame_stays(g, n);
        } else {
            let g = f.drop_last();
            if k == f.len() - 1 {
                assert(low < n);
            }
            assert(g[k].0 == n);
            assert(in_order(g)) by {
                assert forall|i: int, j: int| 0 <= i < j < g.len() implies (#[trigger] g[i]).0
                    < (#[trigger] g[j]).0 by {
                    assert(f[i].0 < f[j].0);
                }
            }
            law_looked_at_frame_stays(g, n);
        }
    }
}

impl<T> FrameCache<T> {
    pub fn new() -> (r: FrameCache<T>)
        ensures
            r.frames@.len() == 0,
            in_order(r.frames@),
    {
        FrameCache { frames: Vec::new() }
    }

    /// A frame that is kept.
    pub fn get(&self, n: usize) -> (r: Option<&T>)
        ensures
            match r {
                Some(t) => exists|i: int|
                    0 <= i < self.frames@.len() && #[trigger] self.frames@[i] == (n, *t),
                None => !keeps(self.frames@, n),
            },
    {
        let mut i: usize = 0;
        while i < self.frames.len()
            invariant
                i <= self.frames@.len(),
                forall|j: int| 0 <= j < i ==> (#[trigger] self.frames@[j]).0 != n,
            decreases self.frames@.len() - i,
        {
            if self.frames[i].0 == n {
                assert(self.frames@[i as int] == (n, self.frames@[i as int].1));
                return Some(&self.frames[i].1);
            }
            i += 1;
        }
        None
    }

    /// Keep a frame.
    pub fn insert(&mut self, n: usize, value: T)
        requires
            in_order(old(self).frames@),
        ensures
            final(self).frames@ == with_frame(old(self).frames@, n, value),
            in_order(final(self).frames@),
    {
        let mut i: usize = self.frames.len();
        while i > 0 && self.frames[i - 1].0 >= n
            invariant
                i <= self.frames@.len(),
                self.frames@ == old(self).frames@,
                count_below(self.frames@, n, i as int) == count_below(
                    self.frames@,
                    n,
                    self.frames@.len() as int,
                ),
            ensures
                i <= self.frames@.len(),
                self.frames@ == old(self).frames@,
                i == count_below(self.frames@, n, self.frames@.len() as int),
            decreases i,
        {
            i -= 1;
        }
        proof {
            law_frame_is_kept(self.frames@, n, value, n);
        }
        if i < self.frames.len() && self.frames[i].0 == n {
            self.frames.set(i, (n, value));
        } else {
            self.frames.insert(i, (n, value));
        }
    }

    /// Forget the frames farthest from the one looked at, down to the limit.
    pub fn evict(&mut self, n: usize)
        requires
            in_order(old(self).frames@),
        ensures
            final(self).frames@ == evicted(old(self).frames@, n),
            in_order(final(self).frames@),
    {
        while self.frames.len() > CACHED_FRAMES
            invariant
                evicted(self.frames@, n) == evicted(old(self).frames@, n),
                in_order(self.frames@),
            decreases self.frames@.len(),
        {
            let count: usize = self.frames.len();
            let low: usize = self.frames[0].0;
            let high: usize = self.frames[count - 1].0;
            let below: usize = n.saturating_sub(low);
            let above: usize = high.saturating_sub(n);
            let ghost before = self.frames@;
            if below > above {
                let _far = self.frames.remove(0);
                assert(self.frames@ =~= before.skip(1));
                assert forall|i: int, j: int| 0 <= i < j < self.frames@.len() implies (
                #[trigger] self.frames@[i]).0 < (#[trigger] self.frames@[j]).0 by {
                    assert(before[i + 1].0 < before[j + 1].0);
                }
            } else {
                let _far = self.frames.pop();
                assert(self.frames@ =~= before.drop_last());
            }
        }
    }
}

/// The frames to decode when frame `n` is missed: the first and how many.
pub fn decode_window(n: usize, frames: usize) -> (r: (usize, usize))
    requires
        n < frames,
        n + DECODE_AFTER <= usize::MAX,
    ensures
        r.0 == (if n >= DECODE_BEFORE {
            n - DECODE_BEFORE
        } else {
            0
        }),
        r.0 + r.1 == (if n + DECODE_AFTER < frames {
            n + DECODE_AFTER
        } else {
            frames as int
        }),
        r.0 <= n < r.0 + r.1 <= frames,
        r.0 == 0 || r.0 == n - 2,
        n >= 2 ==> r.0 == n - 2,
        r.0 + r.1 == frames || r.0 + r.1 == n + 45,
        frames >= n + 45 ==> r.0 + r.1 == n + 45,
{
    let first: usize = n.saturating_sub(DECODE_BEFORE);
    let end: usize = if n + DECODE_AFTER < frames {
        n + DECODE_AFTER
    } else {
        frames
    };
    (first, end - first)
}

/// The bytes of a stream are its frames one behind the other and a rest in which
/// no frame ends.
pub proof fn law_frames_then_rest(b: Seq<u8>)
    ensures
        ({
            let all = jpegs_from(b, 0, 0).flatten();
            &&& all.len() <= b.len()
            &&& b == all + b.skip(all.len() as int)
            &&& forall|j: int|
                all.len() <= j < b.len() - 1 ==> !(#[trigger] b[j] == 0xff && b[j + 1] == 0xd9)
        }),
{
    law_jpegs_are_the_bytes(b, 0, 0);
    let all = jpegs_from(b, 0, 0).flatten();
    assert(b.subrange(0, all.len() as int) + b.skip(all.len() as int) =~= b);
    assert forall|j: int| all.len() <= j < b.len() - 1 implies !(#[trigger] b[j] == 0xff && b[j + 1]
        == 0xd9) by {
        assert(!ends_at(b, j));
    }
}

/// A session's name is one step of a path: it is not empty, holds no slash of
/// either kind and does not lead upwards.
pub proof fn law_session_names(name: Seq<char>)
    ensures
        name_ok(name) == (name.len() > 0 && (forall|i: int|
            0 <= i < name.len() ==> #[trigger] name[i] != '/' && name[i] != '\\') && name
            != seq!['.', '.']),
{
    reveal_strlit("..");
    assert(".."@ =~= seq!['.', '.']);
    if name.contains('/') {
        let i = choose|i: int| 0 <= i < name.len() && name[i] == '/';
        assert(name[i] == '/');
    }
    if name.contains('\\') {
        let i = choose|i: int| 0 <= i < name.len() && name[i] == '\\';
        assert(name[i] == '\\');
    }
}

/// The segment asked for is the first of the session, and of the file where one
/// is named.
pub proof fn law_first_asked_is_found<T>(
    open: Seq<Opened<T>>,
    name: Seq<char>,
    file: Option<Seq<char>>,
    from: int,
)
    requires
        0 <= from <= open.len(),
    ensures
        ({
            let p = place_of(open, name, file, from);
            &&& from <= p <= open.len()
            &&& p < open.len() ==> open[p].session@ == name && (file matches Some(f)
                ==> open[p].file@ == f)
            &&& forall|i: int|
                from <= i < p ==> !((#[trigger] open[i]).session@ == name && (file matches Some(f)
                    ==> open[i].file@ == f))
        }),
    decreases open.len() - from,
{
    if from < open.len() && !is_asked(open[from], name, file) {
        law_first_asked_is_found(open, name, file, from + 1);
    }
}

/// Three segments stay open: the one added is the last, and where three were
/// open the one that was not used for the longest time is closed.
pub proof fn law_three_segments<T>(open: Seq<Opened<T>>, o: Opened<T>)
    requires
        open.len() <= 3,
    ensures
        open.len() < 3 ==> with_opened(open, o) == open.push(o),
        open.len() == 3 ==> with_opened(open, o) == seq![open[1], open[2], o],
{
}

/// Forgetting a session closes its segments and no other, and leaves the order.
pub proof fn law_session_is_forgotten<T>(open: Seq<Opened<T>>, name: Seq<char>, n: int)
    requires
        0 <= n <= open.len(),
    ensures
        without_session(open, name, n) == open.take(n).filter(
            |o: Opened<T>| o.session@ != name,
        ),
    decreases n,
{
    reveal(Seq::filter);
    if n > 0 {
        law_session_is_forgotten(open, name, n - 1);
        assert(open.take(n).drop_last() =~= open.take(n - 1));
        assert(open.take(n).last() == open[n - 1]);
    }
}

/// Eight alignments are kept; a ninth takes the place of the oldest.
pub proof fn law_eight_alignments<T>(entries: Seq<(u64, T)>, key: u64, value: T)
    requires
        entries.len() <= 8,
    ensures
        entries.len() < 8 ==> with_entry(entries, key, value) == entries.push((key, value)),
        entries.len() == 8 ==> with_entry(entries, key, value) == entries.skip(1).push(
            (key, value),
        ),
{
    assert(entries.push((key, value)).skip(1) =~= entries.skip(1).push((key, value)) || entries.len()
        < 8);
}

/// An alignment is found under its key, the first one where there are several.
pub proof fn law_alignment_is_found<T>(entries: Seq<(u64, T)>, key: u64, from: int)
    requires
        0 <= from <= entries.len(),
    ensures
        ({
            let p = key_place(entries, key, from);
            &&& from <= p <= entries.len()
            &&& p < entries.len() ==> entries[p].0 == key
            &&& forall|i: int| from <= i < p ==> (#[trigger] entries[i]).0 != key
        }),
    decreases entries.len() - from,
{
    if from < entries.len() && entries[from].0 != key {
        law_alignment_is_found(entries, key, from + 1);
    }
}

/// A frame put into the cache is the one under its number from then on, and
/// every other number keeps the frame it had.
pub proof fn law_cache_keeps_the_others<T>(
    f: Seq<(usize, T)>,
    n: usize,
    value: T,
    m: usize,
    other: T,
)
    requires
        in_order(f),
    ensures
        with_frame(f, n, value).contains((n, value)),
        m == n && with_frame(f, n, value).contains((m, other)) ==> other == value,
        m != n ==> (with_frame(f, n, value).contains((m, other)) == f.contains((m, other))),
{
    law_frame_is_kept(f, n, value, m);
    lemma_count_below(f, n, f.len() as int);
    let i = count_below(f, n, f.len() as int);
    let g = with_frame(f, n, value);
    assert(g[i] == (n, value));
    if m == n && g.contains((m, other)) {
        let k = choose|k: int| 0 <= k < g.len() && g[k] == (m, other);
        if k < i {
            assert(g[k].0 < g[i].0);
        } else if k > i {
            assert(g[i].0 < g[k].0);
        }
    }
    if m != n {
        if f.contains((m, other)) {
            let k = choose|k: int| 0 <= k < f.len() && f[k] == (m, other);
            if i < f.len() && f[i].0 == n {
                assert(g[k] == f[k]);
            } else if k < i {
                assert(g[k] == f[k]);
            } else {
                assert(g[k + 1] == f[k]);
            }
        }
        if g.contains((m, other)) {
            let k = choose|k: int| 0 <= k < g.len() && g[k] == (m, other);
            if i < f.len() && f[i].0 == n {
                assert(f[k] == g[k]);
            } else if k < i {
                assert(f[k] == g[k]);
            } else {
                assert(f[k - 1] == g[k]);
            }
        }
    }
}

/// How far a frame is from the one that was looked at.
spec fn away(a: usize, n: usize) -> int {
    if a < n {
        n - a
    } else {
        a - n
    }
}

/// Four hundred frames stay: a stretch of what there was, and no frame that went
/// is nearer to the one looked at than one that stayed.
pub proof fn law_nearest_frames_stay<T>(f: Seq<(usize, T)>, n: usize) -> (a: int)
    requires
        in_order(f),
    ensures
        evicted(f, n).len() == (if f.len() < 400 {
            f.len() as int
        } else {
            400
        }),
        0 <= a <= a + evicted(f, n).len() <= f.len(),
        evicted(f, n) == f.subrange(a, a + evicted(f, n).len()),
        forall|i: int, j: int|
            #![trigger f[i], f[j]]
            0 <= i < f.len() && !(a <= i < a + evicted(f, n).len()) && a <= j < a + evicted(
                f,
                n,
            ).len() ==> (if f[i].0 < n {
                n - f[i].0
            } else {
                f[i].0 - n
            }) >= (if f[j].0 < n {
                n - f[j].0
            } else {
                f[j].0 - n
            }),
    decreases f.len(),
{
    let e = evicted(f, n);
    if f.len() > 400 {
        let low = f[0].0;
        let high = f.last().0;
        assert(f[0].0 < f[f.len() - 1].0);
        let below = if low < n {
            n - low
        } else {
            0
        };
        let above = if high > n {
            high - n
        } else {
            0
        };
        assert forall|j: int| 0 <= j < f.len() implies low <= (#[trigger] f[j]).0 <= high by {
            if j > 0 {
                assert(f[0].0 < f[j].0);
            }
            if j < f.len() - 1 {
                assert(f[j].0 < f[f.len() - 1].0);
            }
        }
        if below > above {
            let g = f.skip(1);
            assert forall|i: int, j: int| 0 <= i < j < g.len() implies (#[trigger] g[i]).0 < (
            #[trigger] g[j]).0 by {
                assert(f[i + 1].0 < f[j + 1].0);
            }
            let b = law_nearest_frames_stay(g, n);
            assert(e =~= f.subrange(b + 1, b + 1 + e.len()));
            assert forall|i: int, j: int|
                #![trigger f[i], f[j]]
                0 <= i < f.len() && !(b + 1 <= i < b + 1 + e.len()) && b + 1 <= j < b + 1
                    + e.len() implies away(f[i].0, n) >= away(f[j].0, n) by {
                if i > 0 {
                    assert(g[i - 1] == f[i] && g[j - 1] == f[j]);
                }
            }
            b + 1
        } else {
            let g = f.drop_last();
            assert forall|i: int, j: int| 0 <= i < j < g.len() implies (#[trigger] g[i]).0 < (
            #[trigger] g[j]).0 by {
                assert(f[i].0 < f[j].0);
            }
            let b = law_nearest_frames_stay(g, n);
            assert(e =~= f.subrange(b, b + e.len()));
            assert forall|i: int, j: int|
                #![trigger f[i], f[j]]
                0 <= i < f.len() && !(b <= i < b + e.len()) && b <= j < b + e.len() implies away(
                f[i].0,
                n,
            ) >= away(f[j].0, n) by {
                if i < f.len() - 1 {
                    assert(g[i] == f[i] && g[j] == f[j]);
                }
            }
            b
        }
    } else {
        assert(f.subrange(0, f.len() as int) =~= f);
        0
    }
}

/// A time is scrambled by three shifts of its bits, two to the left and one to
/// the right between them.
pub proof fn law_times_are_scrambled(nanos: u64, a: u64, b: u64, c: u64)
    requires
        a == nanos ^ 0x9E37_79B9_7F4A_7C15u64,
        b ^ a == a << 13u64,
        c ^ b == b >> 7u64,
    ensures
        scrambled(nanos) ^ c == c << 17u64,
{
    let s = a << 13u64;
    let t = b >> 7u64;
    let u = c << 17u64;
    assert(b ^ a == s ==> b == a ^ s) by (bit_vector);
    assert(c ^ b == t ==> c == b ^ t) by (bit_vector);
    assert((c ^ u) ^ c == u) by (bit_vector);
}

} // verus!
