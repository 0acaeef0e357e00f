//! Sound from the capture card, for the recordings.
//!
//! Raw 48 kHz stereo arrives in 10 ms chunks stamped with their arrival. The
//! last two seconds are kept, so that a recording can start its sound at the
//! sample that arrived with its first video frame, however late that frame is.
use crate::text;
use vstd::prelude::*;

verus! {

pub const SAMPLE_RATE: u32 = 48_000;

pub const CHANNELS: u32 = 2;

/// Bytes per sample frame: 16-bit samples for each channel.
pub const FRAME_BYTES: usize = 4;

/// Length of a chunk in milliseconds.
pub const CHUNK_MS: u64 = 10;

/// Length of a chunk in microseconds.
pub const CHUNK_US: u64 = 10_000;

/// Bytes of a chunk.
pub const CHUNK_BYTES: usize = 1920;

/// Sound kept for a recording whose first frame is still on its way, in
/// microseconds.
pub const HISTORY_US: u64 = 2_000_000;

/// Latest time in milliseconds that still counts in microseconds here.
pub const LAST_MS: u64 = 18_446_744_073_707_551;

/// A chunk of samples and the Unix microseconds its last sample arrived.
#[derive(Clone, Debug)]
pub struct Chunk {
    pub arrived_us: u64,
    pub data: Vec<u8>,
}

/// The capture card's sound.
#[derive(Clone, Debug)]
pub struct Audio {
    /// The chunks kept, oldest first.
    pub history: Vec<Chunk>,
    /// A recording takes the chunks as they arrive.
    pub streaming: bool,
    /// Unix milliseconds of the latest chunk.
    pub last_chunk_ms: u64,
    /// Set on exit: sound is no longer read.
    pub stopped: bool,
}

/// No chunk arrived later than can be counted.
pub open spec fn history_ok(chunks: Seq<Chunk>) -> bool {
    forall|i: int| 0 <= i < chunks.len() ==> (#[trigger] chunks[i]).arrived_us <= LAST_MS * 1000
}

/// The chunks that are still young enough, without the older ones before them.
pub open spec fn recent(chunks: Seq<Chunk>, now_us: int) -> Seq<Chunk>
    decreases chunks.len(),
{
    if chunks.len() > 0 && chunks[0].arrived_us + HISTORY_US < now_us {
        recent(chunks.skip(1), now_us)
    } else {
        chunks
    }
}

/// The chunks among the first `n` that arrived after a moment.
pub open spec fn arrived_after(chunks: Seq<Chunk>, start_us: int, n: int) -> Seq<Chunk>
    decreases n,
{
    if n <= 0 {
        Seq::empty()
    } else if chunks[n - 1].arrived_us > start_us {
        arrived_after(chunks, start_us, n - 1).push(chunks[n - 1])
    } else {
        arrived_after(chunks, start_us, n - 1)
    }
}

/// When a chunk's first sample arrived.
pub open spec fn first_us(c: Chunk) -> int {
    if c.arrived_us >= CHUNK_US {
        c.arrived_us - CHUNK_US
    } else {
        0
    }
}

/// How many bytes of a chunk are before the sample that arrived at `start_us`.
pub open spec fn skipped(c: Chunk, start_us: int) -> int {
    let frames = if start_us > first_us(c) {
        (start_us - first_us(c)) * SAMPLE_RATE / 1_000_000
    } else {
        0
    };
    if frames * 4 < c.data@.len() {
        frames * 4
    } else {
        c.data@.len() as int
    }
}

/// What a recording that starts at `start_us` gets of the history: the chunk
/// that holds its start, cut there, and all after it.
pub open spec fn given(chunks: Seq<Chunk>, start_us: int) -> Seq<Seq<u8>> {
    let c = arrived_after(chunks, start_us, chunks.len() as int);
    Seq::new(
        c.len(),
        |i: int|
            if i == 0 {
                c[0].data@.skip(skipped(c[0], start_us))
            } else {
                c[i].data@
            },
    )
}

/// When the sound of that recording starts, in milliseconds.
pub open spec fn given_start(chunks: Seq<Chunk>, start_ms: u64) -> int {
    let c = arrived_after(chunks, start_ms * 1000, chunks.len() as int);
    if c.len() == 0 {
        start_ms as int
    } else if first_us(c[0]) > start_ms * 1000 {
        first_us(c[0]) / 1000
    } else {
        start_ms as int
    }
}

/// Whether sound arrived within the last second.
pub open spec fn is_live(a: Audio, now_ms: u64) -> bool {
    now_ms < a.last_chunk_ms || now_ms - a.last_chunk_ms < 1000
}

/// The sound a recording gets when it starts.
#[derive(Clone, Debug)]
pub struct Start {
    /// Unix milliseconds of its first sample.
    pub start_ms: u64,
    /// The samples that arrived since, in order.
    pub pieces: Vec<Vec<u8>>,
}

/// The bytes of each piece.
pub open spec fn pieces_of(p: Seq<Vec<u8>>) -> Seq<Seq<u8>> {
    p.map_values(|v: Vec<u8>| v@)
}

/// What follows the first `from` bytes.
fn rest_of(data: &Vec<u8>, from: usize) -> (r: Vec<u8>)
    requires
        from <= data@.len(),
    ensures
        r@ == data@.skip(from as int),
{
    let rest = vstd::slice::slice_subrange(data.as_slice(), from, data.len());
    assert(rest@ =~= data@.skip(from as int));
    vstd::slice::slice_to_vec(rest)
}

impl Audio {
    /// No sound has arrived yet.
    pub fn new() -> (r: Audio)
        ensures
            r.history@.len() == 0,
            history_ok(r.history@),
            !r.streaming,
            r.last_chunk_ms == 0,
            !r.stopped,
    {
        Audio { history: Vec::new(), streaming: false, last_chunk_ms: 0, stopped: false }
    }

    /// Stop reading for good.
    pub fn stop(&mut self)
        ensures
            *final(self) == (Audio { stopped: true, ..*old(self) }),
    {
        self.stopped = true;
    }

    /// Sound arrived within the last second.
    pub fn live(&self, now_ms: u64) -> (r: bool)
        ensures
            r == is_live(*self, now_ms),
    {
        now_ms.saturating_sub(self.last_chunk_ms) < 1000
    }

    /// A chunk arrived: keep it, and drop what is older than two seconds.
    pub fn take_chunk(&mut self, now_ms: u64, data: Vec<u8>)
        requires
            now_ms <= LAST_MS,
            history_ok(old(self).history@),
        ensures
            final(self).history@ == recent(
                old(self).history@.push(Chunk { arrived_us: (now_ms * 1000) as u64, data }),
                now_ms * 1000,
            ),
            final(self).last_chunk_ms == now_ms,
            final(self).streaming == old(self).streaming,
            final(self).stopped == old(self).stopped,
            history_ok(final(self).history@),
    {
        self.last_chunk_ms = now_ms;
        let now_us: u64 = now_ms * 1000;
        self.history.push(Chunk { arrived_us: now_us, data });
        let ghost all = self.history@;
        while self.history.len() > 0 && self.history[0].arrived_us + HISTORY_US < now_us
            invariant
                history_ok(self.history@),
                recent(self.history@, now_us as int) == recent(all, now_us as int),
                self.last_chunk_ms == now_ms,
                self.streaming == old(self).streaming,
                self.stopped == old(self).stopped,
            decreases self.history@.len(),
        {
            let ghost before = self.history@;
            let _old = self.history.remove(0);
            assert(self.history@ =~= before.skip(1));
        }
    }

    /// What a recording gets whose first frame arrived at `start_ms`, or `None`
    /// when there is no sound to give.
    pub fn begin(&self, start_ms: u64, now_ms: u64) -> (r: Option<Start>)
        requires
            start_ms <= LAST_MS,
        ensures
            r is Some == is_live(*self, now_ms),
            r matches Some(s) ==> s.start_ms == given_start(self.history@, start_ms) && pieces_of(
                s.pieces@,
            ) == given(self.history@, start_ms * 1000),
    {
        if !self.live(now_ms) {
            return None;
        }
        let start_us: u64 = start_ms * 1000;
        let mut pieces: Vec<Vec<u8>> = Vec::new();
        let mut started: Option<u64> = None;
        let mut i: usize = 0;
        while i < self.history.len()
            invariant
                i <= self.history@.len(),
                start_us == start_ms * 1000,
                pieces@.len() == arrived_after(self.history@, start_us as int, i as int).len(),
                started is Some == (pieces@.len() > 0),
                started matches Some(t) ==> t == ({
                    let c = arrived_after(self.history@, start_us as int, i as int)[0];
                    if first_us(c) > start_us {
                        first_us(c) / 1000
                    } else {
                        start_ms as int
                    }
                }),
                forall|k: int|
                    0 <= k < pieces@.len() ==> (#[trigger] pieces@[k])@ == ({
                        let c = arrived_after(self.history@, start_us as int, i as int);
                        if k == 0 {
                            c[0].data@.skip(skipped(c[0], start_us as int))
                        } else {
                            c[k].data@
                        }
                    }),
            decreases self.history@.len() - i,
        {
            let chunk = &self.history[i];
            if chunk.arrived_us > start_us {
                if started.is_some() {
                    pieces.push(rest_of(&chunk.data, 0));
                    assert(chunk.data@.skip(0) =~= chunk.data@);
                } else {
                    let first: u64 = chunk.arrived_us.saturating_sub(CHUNK_US);
                    let late: u64 = start_us.saturating_sub(first);
                    assert(late <= CHUNK_US);
                    assert(late * 48_000 <= 480_000_000);
                    assert(SAMPLE_RATE as u64 == 48_000);
                    let frames: u64 = late * SAMPLE_RATE as u64
                        / 1_000_000;
                    let bytes: usize = frames as usize * FRAME_BYTES;
                    let skip: usize = if bytes < chunk.data.len() {
                        bytes
                    } else {
                        chunk.data.len()
                    };
                    started = Some(
                        if first > start_us {
                            first / 1000
                        } else {
                            start_us / 1000
                        },
                    );
                    pieces.push(rest_of(&chunk.data, skip));
                }
            }
            i += 1;
        }
        let start = match started {
            Some(t) => t,
            None => start_ms,
        };
        proof {
            assert(pieces_of(pieces@) =~= given(self.history@, start_us as int));
        }
        Some(Start { start_ms: start, pieces })
    }

    /// A recording took the pieces: chunks stream to it from now on.
    pub fn attach(&mut self)
        ensures
            *final(self) == (Audio { streaming: true, ..*old(self) }),
    {
        self.streaming = true;
    }

    /// Stop streaming to the recording, which ends its sound.
    pub fn end(&mut self)
        ensures
            *final(self) == (Audio { streaming: false, ..*old(self) }),
    {
        self.streaming = false;
    }
}

/// What is kept is never older than two seconds at its oldest, and only the
/// oldest were dropped.
pub proof fn law_history_is_recent(chunks: Seq<Chunk>, now_us: int)
    ensures
        recent(chunks, now_us).len() <= chunks.len(),
        recent(chunks, now_us) == chunks.skip(chunks.len() - recent(chunks, now_us).len()),
        recent(chunks, now_us).len() > 0 ==> recent(chunks, now_us)[0].arrived_us + 2_000_000
            >= now_us,
        forall|i: int|
            0 <= i < chunks.len() - recent(chunks, now_us).len() ==> (
            #[trigger] chunks[i]).arrived_us + 2_000_000 < now_us,
    decreases chunks.len(),
{
    if chunks.len() > 0 && chunks[0].arrived_us + HISTORY_US < now_us {
        law_history_is_recent(chunks.skip(1), now_us);
        assert forall|i: int| 0 <= i < chunks.len() - recent(chunks, now_us).len() implies (
        #[trigger] chunks[i]).arrived_us + 2_000_000 < now_us by {
            if i > 0 {
                assert(chunks.skip(1)[i - 1] == chunks[i]);
            }
        }
        assert(recent(chunks, now_us) =~= chunks.skip(
            chunks.len() - recent(chunks, now_us).len(),
        ));
    } else {
        assert(chunks =~= chunks.skip(0));
    }
}

/// The chunks that arrived after a moment, where chunks stand in order of arrival:
/// all from the first such one on.
proof fn lemma_arrived_after(chunks: Seq<Chunk>, start_us: int, k: int, n: int)
    requires
        0 <= k <= n <= chunks.len(),
        forall|i: int, j: int|
            0 <= i <= j < chunks.len() ==> (#[trigger] chunks[i]).arrived_us <= (
            #[trigger] chunks[j]).arrived_us,
        k > 0 ==> chunks[k - 1].arrived_us <= start_us,
        k < chunks.len() ==> chunks[k].arrived_us > start_us,
    ensures
        arrived_after(chunks, start_us, n) == chunks.subrange(k, n),
    decreases n,
{
    if n > k {
        lemma_arrived_after(chunks, start_us, k, n - 1);
        assert(chunks[k].arrived_us <= chunks[n - 1].arrived_us);
        assert(chunks.subrange(k, n) =~= chunks.subrange(k, n - 1).push(chunks[n - 1]));
    } else {
        lemma_none_arrived(chunks, start_us, n);
        assert(chunks.subrange(k, n) =~= Seq::empty());
    }
}

/// No chunk before one that had arrived by a moment arrived after it.
proof fn lemma_none_arrived(chunks: Seq<Chunk>, start_us: int, n: int)
    requires
        0 <= n <= chunks.len(),
        forall|i: int, j: int|
            0 <= i <= j < chunks.len() ==> (#[trigger] chunks[i]).arrived_us <= (
            #[trigger] chunks[j]).arrived_us,
        n > 0 ==> chunks[n - 1].arrived_us <= start_us,
    ensures
        arrived_after(chunks, start_us, n).len() == 0,
    decreases n,
{
    if n > 0 {
        if n > 1 {
            assert(chunks[n - 2].arrived_us <= chunks[n - 1].arrived_us);
        }
        lemma_none_arrived(chunks, start_us, n - 1);
    }
}

/// What a recording gets of the sound. Where the chunks stand in order of arrival and
/// `k` is the first that arrived after the start, the recording gets that chunk from
/// the sample of the start on, and every chunk after it, whole, in order: 48 sample
/// frames of 4 bytes each per millisecond that the start is after the chunk's first
/// sample, which arrived 10 milliseconds before its last, are left out. Its time is
/// the start's, or that of the chunk's first sample where that is later.
pub proof fn law_sound_from_the_start(chunks: Seq<Chunk>, start_ms: u64, k: int)
    requires
        0 <= k < chunks.len(),
        forall|i: int, j: int|
            0 <= i <= j < chunks.len() ==> (#[trigger] chunks[i]).arrived_us <= (
            #[trigger] chunks[j]).arrived_us,
        k > 0 ==> chunks[k - 1].arrived_us <= start_ms * 1000,
        chunks[k].arrived_us > start_ms * 1000,
    ensures
        ({
            let p = given(chunks, start_ms * 1000);
            let first = if chunks[k].arrived_us > 10_000 {
                chunks[k].arrived_us - 10_000
            } else {
                0
            };
            let late = start_ms * 1000 - first;
            let cut = if late > 0 {
                late * 48 / 1000 * 4
            } else {
                0
            };
            &&& p.len() == chunks.len() - k
            &&& cut <= chunks[k].data@.len() ==> p[0] == chunks[k].data@.skip(cut)
            &&& cut >= chunks[k].data@.len() ==> p[0].len() == 0
            &&& forall|i: int| 0 < i < p.len() ==> #[trigger] p[i] == chunks[k + i].data@
            &&& late >= 0 ==> given_start(chunks, start_ms) == start_ms
            &&& late <= 0 ==> given_start(chunks, start_ms) == first / 1000
        }),
{
    lemma_arrived_after(chunks, start_ms * 1000, k, chunks.len() as int);
    let c = arrived_after(chunks, start_ms * 1000, chunks.len() as int);
    assert(c =~= chunks.skip(k));
    assert(c[0] == chunks[k]);
    let late = start_ms * 1000 - (chunks[k].arrived_us - 10_000);
    assert(late > 0 ==> late * 48_000 / 1_000_000 == late * 48 / 1000);
    assert(chunks[k].data@.skip(chunks[k].data@.len() as int).len() == 0);
}

/// Nothing of the sound is reordered, repeated or left out: the pieces put one after
/// another are an end of all chunks put one after another.
pub proof fn law_sound_is_an_end_of_the_history(chunks: Seq<Chunk>, start_us: int)
    requires
        forall|i: int, j: int|
            0 <= i <= j < chunks.len() ==> (#[trigger] chunks[i]).arrived_us <= (
            #[trigger] chunks[j]).arrived_us,
    ensures
        ({
            let all = chunks.map_values(|c: Chunk| c.data@).flatten();
            let sound = given(chunks, start_us).flatten();
            &&& sound.len() <= all.len()
            &&& sound == all.skip(all.len() - sound.len())
        }),
{
    let n = chunks.len() as int;
    let data = chunks.map_values(|c: Chunk| c.data@);
    let k = first_after(chunks, start_us, 0);
    lemma_first_after(chunks, start_us, 0);
    if k > 0 {
        assert(chunks[k - 1].arrived_us <= start_us);
    }
    lemma_arrived_after(chunks, start_us, k, n);
    let c = arrived_after(chunks, start_us, n);
    assert(c =~= chunks.skip(k));
    let p = given(chunks, start_us);
    let all = data.flatten();
    let sound = p.flatten();
    assert(data =~= data.take(k) + data.skip(k));
    lemma_flatten_adds(data.take(k), data.skip(k));
    if k < n {
        let cut = skipped(chunks[k], start_us);
        let frames = if start_us > first_us(chunks[k]) {
            (start_us - first_us(chunks[k])) * SAMPLE_RATE / 1_000_000
        } else {
            0
        };
        assert(frames >= 0) by {
            if start_us > first_us(chunks[k]) {
                vstd::arithmetic::div_mod::lemma_div_pos_is_pos(
                    (start_us - first_us(chunks[k])) * SAMPLE_RATE,
                    1_000_000,
                );
            }
        }
        assert(0 <= cut <= chunks[k].data@.len());
        let tail = data.skip(k + 1);
        assert(data.skip(k) =~= seq![chunks[k].data@] + tail);
        assert(p =~= seq![chunks[k].data@.skip(cut)] + tail);
        lemma_flatten_adds(seq![chunks[k].data@], tail);
        lemma_flatten_adds(seq![chunks[k].data@.skip(cut)], tail);
        lemma_flatten_one(chunks[k].data@);
        lemma_flatten_one(chunks[k].data@.skip(cut));
        assert(sound =~= all.skip(all.len() - sound.len()));
    } else {
        assert(p =~= Seq::empty());
        assert(sound =~= Seq::empty());
        assert(sound =~= all.skip(all.len() as int));
    }
}

/// The first chunk from `i` on that arrived after a moment.
spec fn first_after(chunks: Seq<Chunk>, start_us: int, i: int) -> int
    decreases chunks.len() - i,
{
    if i < 0 || i >= chunks.len() {
        chunks.len() as int
    } else if chunks[i].arrived_us > start_us {
        i
    } else {
        first_after(chunks, start_us, i + 1)
    }
}

/// What it is.
proof fn lemma_first_after(chunks: Seq<Chunk>, start_us: int, i: int)
    requires
        0 <= i <= chunks.len(),
    ensures
        i <= first_after(chunks, start_us, i) <= chunks.len(),
        forall|j: int|
            i <= j < first_after(chunks, start_us, i) ==> (#[trigger] chunks[j]).arrived_us
                <= start_us,
        first_after(chunks, start_us, i) < chunks.len() ==> chunks[first_after(
            chunks,
            start_us,
            i,
        )].arrived_us > start_us,
    decreases chunks.len() - i,
{
    if i < chunks.len() && chunks[i].arrived_us <= start_us {
        lemma_first_after(chunks, start_us, i + 1);
    }
}

/// Lists put one after another are put one after another in full.
proof fn lemma_flatten_adds(a: Seq<Seq<u8>>, b: Seq<Seq<u8>>)
    ensures
        (a + b).flatten() == a.flatten() + b.flatten(),
    decreases a.len(),
{
    if a.len() == 0 {
        assert(a + b =~= b);
        assert(a.flatten() + b.flatten() =~= b.flatten());
    } else {
        let rest = a.drop_first();
        lemma_flatten_adds(rest, b);
        assert((a + b).drop_first() =~= rest + b);
        assert((a + b).first() == a.first());
        assert((a + b).flatten() =~= a.flatten() + b.flatten());
    }
}

/// A list of one alone.
proof fn lemma_flatten_one(a: Seq<u8>)
    ensures
        seq![a].flatten() == a,
{
    assert(seq![a].drop_first() =~= Seq::<Seq<u8>>::empty());
    assert(Seq::<Seq<u8>>::empty().flatten() =~= Seq::<u8>::empty());
    assert(seq![a].flatten() =~= a);
}

/// The options of the ffmpeg that reads a sound source.
pub open spec fn grab_args_of(source: Seq<char>) -> Seq<Seq<char>> {
    seq![
        "-hide_banner"@,
        "-nostdin"@,
        "-nostats"@,
        "-loglevel"@,
        "error"@,
        "-f"@,
        "pulse"@,
        "-fragment_size"@,
        "1920"@,
        "-i"@,
        source,
        "-f"@,
        "s16le"@,
        "-ar"@,
        "48000"@,
        "-ac"@,
        "2"@,
        "pipe:1"@,
    ]
}

/// The options of the ffmpeg that reads a sound source.
pub fn grab_args(source: &str) -> (r: Vec<String>)
    ensures
        text::texts(r@) == grab_args_of(source@),
{
    let mut args: Vec<String> = Vec::new();
    text::push_text(&mut args, "-hide_banner");
    text::push_text(&mut args, "-nostdin");
    text::push_text(&mut args, "-nostats");
    text::push_text(&mut args, "-loglevel");
    text::push_text(&mut args, "error");
    text::push_text(&mut args, "-f");
    text::push_text(&mut args, "pulse");
    text::push_text(&mut args, "-fragment_size");
    text::push_text(&mut args, "1920");
    text::push_text(&mut args, "-i");
    text::push_text(&mut args, source);
    text::push_text(&mut args, "-f");
    text::push_text(&mut args, "s16le");
    text::push_text(&mut args, "-ar");
    text::push_text(&mut args, "48000");
    text::push_text(&mut args, "-ac");
    text::push_text(&mut args, "2");
    text::push_text(&mut args, "pipe:1");
    assert(text::texts(args@) =~= grab_args_of(source@));
    args
}

/// Of a history in any order the pieces are, in its order, the chunks that came
/// after the start, each whole but for the front of the first.
pub proof fn law_later_chunks_come_whole(chunks: Seq<Chunk>, start_us: int)
    ensures
        ({
            let late = chunks.filter(|c: Chunk| c.arrived_us > start_us);
            let p = given(chunks, start_us);
            &&& p.len() == late.len()
            &&& forall|i: int| 0 < i < p.len() ==> #[trigger] p[i] == late[i].data@
            &&& p.len() > 0 ==> p[0].len() <= late[0].data@.len() && p[0] == late[0].data@.skip(
                late[0].data@.len() - p[0].len(),
            )
        }),
{
    let late = |c: Chunk| c.arrived_us > start_us;
    lemma_late_chunks(chunks, start_us, chunks.len() as int);
    assert(chunks.take(chunks.len() as int) =~= chunks);
    let c = chunks.filter(late);
    let p = given(chunks, start_us);
    if p.len() > 0 {
        let k = skipped(c[0], start_us);
        assert(0 <= k <= c[0].data@.len());
        assert(p[0] == c[0].data@.skip(k));
    }
}

proof fn lemma_late_chunks(chunks: Seq<Chunk>, start_us: int, n: int)
    requires
        0 <= n <= chunks.len(),
    ensures
        arrived_after(chunks, start_us, n) == chunks.take(n).filter(
            |c: Chunk| c.arrived_us > start_us,
        ),
    decreases n,
{
    reveal(Seq::filter);
    if n > 0 {
        lemma_late_chunks(chunks, start_us, n - 1);
        assert(chunks.take(n).drop_last() =~= chunks.take(n - 1));
        assert(chunks.take(n).last() == chunks[n - 1]);
    }
}

/// While the clock does not go back the history is in the order in which the
/// chunks came, and the newest is the last.
pub proof fn law_history_stays_in_order(chunks: Seq<Chunk>, c: Chunk)
    requires
        forall|i: int, j: int|
            0 <= i <= j < chunks.len() ==> (#[trigger] chunks[i]).arrived_us <= (
            #[trigger] chunks[j]).arrived_us,
        chunks.len() > 0 ==> chunks[chunks.len() - 1].arrived_us <= c.arrived_us,
    ensures
        ({
            let r = recent(chunks.push(c), c.arrived_us as int);
            &&& r.len() > 0 && r[r.len() - 1] == c
            &&& forall|i: int, j: int|
                0 <= i <= j < r.len() ==> (#[trigger] r[i]).arrived_us <= (
                #[trigger] r[j]).arrived_us
        }),
{
    let all = chunks.push(c);
    let r = recent(all, c.arrived_us as int);
    law_history_is_recent(all, c.arrived_us as int);
    let d = all.len() - r.len();
    if r.len() == 0 {
        assert(all[all.len() - 1].arrived_us + 2_000_000 < c.arrived_us);
    }
    assert(r[r.len() - 1] == all[all.len() - 1]);
    assert forall|i: int, j: int| 0 <= i <= j < r.len() implies (#[trigger] r[i]).arrived_us <= (
    #[trigger] r[j]).arrived_us by {
        assert(r[i] == all[d + i] && r[j] == all[d + j]);
        if d + j == chunks.len() {
            if d + i < chunks.len() {
                assert(chunks[d + i].arrived_us <= chunks[chunks.len() - 1].arrived_us);
            }
        } else {
            assert(chunks[d + i].arrived_us <= chunks[d + j].arrived_us);
        }
    }
}

/// The sound is live for a second after a chunk came.
pub proof fn law_live_for_a_second(a: Audio, now_ms: u64)
    ensures
        is_live(a, now_ms) == (now_ms < a.last_chunk_ms + 1000),
{
}

/// The sound is grabbed from its source, as two channels of 48,000 samples.
pub proof fn law_grab_arguments(source: Seq<char>)
    ensures
        ({
            let a = grab_args_of(source);
            &&& a.len() == 18
            &&& a[9] == "-i"@ && a[10] == source
            &&& a[11] == "-f"@ && a[12] == "s16le"@
            &&& a[13] == "-ar"@ && a[14] == "48000"@
            &&& a[15] == "-ac"@ && a[16] == "2"@
        }),
{
}

} // verus!
