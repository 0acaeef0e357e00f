//! What the studio dashboard sends and shows.
use crate::frame;
use crate::frame::Frame;
use crate::keystate::{ControllerState, Timestamp};
use crate::parser;
use crate::parser::ProConParser;
use crate::report;
use crate::text;
use vstd::prelude::*;

verus! {

/// How often the dashboard gets a status snapshot, in milliseconds.
pub const STATUS_EVERY_MS: u64 = 500;

/// Rates are averaged over this many snapshots (3 s).
pub const RATE_WINDOW: usize = 7;

/// The size of every session is counted again this often, in nanoseconds.
pub const ALL_SESSIONS_EVERY_NS: u64 = 10_000_000_000;

/// Whether the live view shows a frame's report: a full one.
pub open spec fn is_shown(f: Frame) -> bool {
    let d = frame::payload_of(f);
    d.len() >= 12 && d[0] == report::REPORT_FULL
}

/// The state that the live view shows for a frame, with its time; `None` for
/// reports that are not full ones.
pub fn live_state_at(f: &Frame, timestamp: Timestamp) -> (r: Option<ControllerState>)
    ensures
        r is Some == is_shown(*f),
        r matches Some(s) ==> parser::is_state(frame::payload_of(*f), s) && s.timestamp == timestamp,
{
    let data = f.payload();
    if data.len() == 0 || data[0] != report::REPORT_FULL {
        return None;
    }
    match ProConParser::parse_stamped(data, parser::MIN_REPORT, timestamp) {
        Ok(s) => Some(s),
        Err(_) => None,
    }
}

/// The state that the live view shows for a frame, stamped with the current time.
pub fn live_state(f: &Frame) -> (r: Option<ControllerState>)
    ensures
        r is Some == is_shown(*f),
        r matches Some(s) ==> parser::is_state(frame::payload_of(*f), s),
{
    live_state_at(f, parser::utc_now())
}

/// What a preview message holds.
#[derive(Clone, Copy, Debug, PartialEq, Eq, Structural)]
pub enum ChunkKind {
    /// A new stream begins.
    Init,
    /// A frame that can be shown by itself.
    Key,
    /// A frame that needs those before it.
    Delta,
}

/// What happens on a browser's connection.
#[derive(Clone, Copy, Debug, PartialEq, Eq, Structural)]
pub enum ClientEvent {
    StateChanged,
    StatusChanged,
    /// The controller state or the status will not change any more.
    SourceClosed,
    Chunk(ChunkKind),
    /// Preview messages were missed.
    Lagged,
    PreviewClosed,
    PingDue,
    /// The browser sent something.
    Incoming,
    /// The browser closed the connection, or it broke.
    Gone,
}

/// What to do about it.
#[derive(Clone, Copy, Debug, PartialEq, Eq, Structural)]
pub enum ClientStep {
    SendState,
    SendStatus,
    SendChunk,
    SendPing,
    Nothing,
    Close,
}

/// A browser's connection.
#[derive(Clone, Copy, Debug, PartialEq, Eq, Structural)]
pub struct Client {
    /// The browser can show the next preview frame.
    pub synced: bool,
}

/// A connection's next state and what to do.
pub open spec fn client_stepped(c: Client, e: ClientEvent) -> (Client, ClientStep) {
    match e {
        ClientEvent::StateChanged => (c, ClientStep::SendState),
        ClientEvent::StatusChanged => (c, ClientStep::SendStatus),
        ClientEvent::SourceClosed => (c, ClientStep::Close),
        ClientEvent::Chunk(ChunkKind::Init) => ((Client { synced: false }), ClientStep::SendChunk),
        ClientEvent::Chunk(ChunkKind::Key) => ((Client { synced: true }), ClientStep::SendChunk),
        ClientEvent::Chunk(ChunkKind::Delta) => (
            c,
            if c.synced {
                ClientStep::SendChunk
            } else {
                ClientStep::Nothing
            },
        ),
        ClientEvent::Lagged => ((Client { synced: false }), ClientStep::Nothing),
        ClientEvent::PreviewClosed => (c, ClientStep::Close),
        ClientEvent::PingDue => (c, ClientStep::SendPing),
        ClientEvent::Incoming => (c, ClientStep::Nothing),
        ClientEvent::Gone => (c, ClientStep::Close),
    }
}

impl Client {
    /// A browser that has seen no key frame.
    pub fn new() -> (r: Client)
        ensures
            r == (Client { synced: false }),
    {
        Client { synced: false }
    }

    /// Decide what to do about an event.
    pub fn step(&mut self, event: ClientEvent) -> (r: ClientStep)
        ensures
            (*final(self), r) == client_stepped(*old(self), event),
    {
        match event {
            ClientEvent::StateChanged => ClientStep::SendState,
            ClientEvent::StatusChanged => ClientStep::SendStatus,
            ClientEvent::SourceClosed => ClientStep::Close,
            ClientEvent::Chunk(kind) => match kind {
                ChunkKind::Init => {
                    self.synced = false;
                    ClientStep::SendChunk
                },
                ChunkKind::Key => {
                    self.synced = true;
                    ClientStep::SendChunk
                },
                ChunkKind::Delta => if self.synced {
                    ClientStep::SendChunk
                } else {
                    ClientStep::Nothing
                },
            },
            ClientEvent::Lagged => {
                self.synced = false;
                ClientStep::Nothing
            },
            ClientEvent::PreviewClosed => ClientStep::Close,
            ClientEvent::PingDue => ClientStep::SendPing,
            ClientEvent::Incoming => ClientStep::Nothing,
            ClientEvent::Gone => ClientStep::Close,
        }
    }
}

/// A connection after a run of events.
pub open spec fn client_after(c: Client, events: Seq<ClientEvent>) -> Client
    decreases events.len(),
{
    if events.len() == 0 {
        c
    } else {
        client_stepped(client_after(c, events.drop_last()), events.last()).0
    }
}

/// After missed messages or a new stream no frame that needs others is sent
/// until a key frame came.
pub proof fn law_frames_from_a_key_frame(c: Client, events: Seq<ClientEvent>)
    requires
        !c.synced,
        forall|i: int|
            0 <= i < events.len() ==> #[trigger] events[i] != ClientEvent::Chunk(ChunkKind::Key),
    ensures
        !client_after(c, events).synced,
        client_stepped(client_after(c, events), ClientEvent::Chunk(ChunkKind::Delta)).1
            == ClientStep::Nothing,
    decreases events.len(),
{
    if events.len() > 0 {
        law_frames_from_a_key_frame(c, events.drop_last());
        assert(events[events.len() - 1] != ClientEvent::Chunk(ChunkKind::Key));
    }
}

/// Counters at one snapshot, for rates.
#[derive(Clone, Copy, Debug, PartialEq, Eq, Structural)]
pub struct Sample {
    /// Nanoseconds of a clock that never goes back.
    pub at_ns: u64,
    pub frames: u64,
    pub controller_bytes: u64,
    pub video_bytes: u64,
}

/// The last snapshots, oldest first.
#[derive(Clone, Debug)]
pub struct RateHistory {
    pub samples: Vec<Sample>,
}

/// What changed from one snapshot to another.
pub open spec fn grown(now: u64, before: u64) -> u64 {
    if now >= before {
        (now - before) as u64
    } else {
        0
    }
}

/// What changed between two snapshots, and the time between them.
pub open spec fn span(before: Sample, now: Sample) -> Sample {
    Sample {
        at_ns: grown(now.at_ns, before.at_ns),
        frames: grown(now.frames, before.frames),
        controller_bytes: grown(now.controller_bytes, before.controller_bytes),
        video_bytes: grown(now.video_bytes, before.video_bytes),
    }
}

/// Snapshots with one more, of which the window keeps the last ones.
pub open spec fn windowed(samples: Seq<Sample>, now: Sample) -> Seq<Sample> {
    let all = samples.push(now);
    if all.len() > RATE_WINDOW {
        all.skip(1)
    } else {
        all
    }
}

impl RateHistory {
    pub fn new() -> (r: RateHistory)
        ensures
            r.samples@.len() == 0,
    {
        RateHistory { samples: Vec::new() }
    }

    /// Take a snapshot: what changed since the oldest one kept, and over what
    /// time.
    pub fn take(&mut self, now: Sample) -> (r: Sample)
        ensures
            r == span(
                if old(self).samples@.len() > 0 {
                    old(self).samples@[0]
                } else {
                    now
                },
                now,
            ),
            final(self).samples@ == windowed(old(self).samples@, now),
    {
        let then = if self.samples.len() > 0 {
            self.samples[0]
        } else {
            now
        };
        self.samples.push(now);
        if self.samples.len() > RATE_WINDOW {
            let ghost all = self.samples@;
            let _oldest = self.samples.remove(0);
            assert(self.samples@ =~= all.skip(1));
        }
        Sample {
            at_ns: now.at_ns.saturating_sub(then.at_ns),
            frames: now.frames.saturating_sub(then.frames),
            controller_bytes: now.controller_bytes.saturating_sub(then.controller_bytes),
            video_bytes: now.video_bytes.saturating_sub(then.video_bytes),
        }
    }
}

/// The window never holds more snapshots than it is long.
pub proof fn law_window_is_bounded(samples: Seq<Sample>, now: Sample)
    requires
        samples.len() <= RATE_WINDOW,
    ensures
        windowed(samples, now).len() <= RATE_WINDOW,
        windowed(samples, now).last() == now,
{
}

/// Whether the sizes of all sessions are counted again; `last_ns` is when they
/// last were.
pub fn recount_due(last_ns: Option<u64>, now_ns: u64) -> (r: bool)
    ensures
        r == (match last_ns {
            Some(t) => now_ns >= t && now_ns - t >= ALL_SESSIONS_EVERY_NS,
            None => true,
        }),
        last_ns matches Some(t) ==> r == (now_ns >= t + 10_000_000_000),
{
    match last_ns {
        Some(t) => now_ns >= t && now_ns - t >= ALL_SESSIONS_EVERY_NS,
        None => true,
    }
}

/// The size of all sessions: the earlier ones, counted now and then, plus this
/// one's controller data and video.
pub fn all_sessions_bytes(others: Option<u64>, controller: u64, video: u64) -> (r: Option<u64>)
    requires
        others matches Some(n) ==> n + controller + video <= u64::MAX,
    ensures
        r == (match others {
            Some(n) => Some((n + controller + video) as u64),
            None => None,
        }),
{
    match others {
        Some(n) => Some(n + controller + video),
        None => None,
    }
}

/// Free and total bytes of a filesystem from its block counts; `None` when they
/// are too many to count.
pub fn disk_bytes(available: u64, blocks: u64, block_size: u64) -> (r: Option<(u64, u64)>)
    ensures
        match r {
            Some(b) => b.0 == available * block_size && b.1 == blocks * block_size,
            None => available * block_size > u64::MAX || blocks * block_size > u64::MAX,
        },
{
    match (available.checked_mul(block_size), blocks.checked_mul(block_size)) {
        (Some(free), Some(total)) => Some((free, total)),
        _ => None,
    }
}

/// Most kibibytes whose bytes can be counted.
pub const MAX_KIB: u64 = 0x3f_ffff_ffff_ffff;

/// The kibibytes that a line gives for a field, like `MemTotal:  16 kB`.
pub open spec fn kib_in(line: Seq<char>, name: Seq<char>) -> Option<nat> {
    if name.is_prefix_of(line) {
        let rest = text::trimmed(line.skip(name.len() as int));
        if "kB"@.is_suffix_of(rest) {
            text::number(text::trimmed(rest.take(rest.len() - 2)), 10, MAX_KIB as nat)
        } else {
            None
        }
    } else {
        None
    }
}

/// The bytes of a field in the first line from `i` on that gives it.
pub open spec fn field_in(lines: Seq<Seq<char>>, name: Seq<char>, i: int) -> Option<nat>
    decreases lines.len() - i,
{
    if i < 0 || i >= lines.len() {
        None
    } else {
        match kib_in(lines[i], name) {
            Some(k) => Some(k * 1024),
            None => field_in(lines, name, i + 1),
        }
    }
}

/// The kibibytes that a line gives for a field.
fn line_kib(line: &str, name: &str) -> (r: Option<u64>)
    ensures
        match r {
            Some(k) => kib_in(line@, name@) == Some(k as nat) && k <= MAX_KIB,
            None => kib_in(line@, name@) is None,
        },
{
    proof {
        reveal_strlit("kB");
    }
    let rest = match text::strip_prefix(line, name) {
        Some(r) => r,
        None => {
            return None;
        },
    };
    let trimmed = text::trim(rest.as_str());
    let kib = match text::strip_suffix(trimmed.as_str(), "kB") {
        Some(k) => k,
        None => {
            return None;
        },
    };
    let number = text::trim(kib.as_str());
    text::parse_decimal(number.as_str(), MAX_KIB)
}

/// The bytes of a field in the first line that gives it.
fn field_bytes(lines: &Vec<String>, name: &str) -> (r: Option<u64>)
    ensures
        match r {
            Some(b) => field_in(text::texts(lines@), name@, 0) == Some(b as nat),
            None => field_in(text::texts(lines@), name@, 0) is None,
        },
{
    let mut i: usize = 0;
    while i < lines.len()
        invariant
            i <= lines@.len(),
            field_in(text::texts(lines@), name@, 0) == field_in(
                text::texts(lines@),
                name@,
                i as int,
            ),
        decreases lines@.len() - i,
    {
        assert(text::texts(lines@)[i as int] == lines@[i as int]@);
        if let Some(k) = line_kib(lines[i].as_str(), name) {
            return Some(k * 1024);
        }
        i += 1;
    }
    None
}

/// Available and total memory in bytes, from `/proc/meminfo`'s text.
pub fn memory(meminfo: &str) -> (r: Option<(u64, u64)>)
    ensures
        ({
            let lines = text::lines_from(meminfo@, 0);
            let available = field_in(lines, "MemAvailable:"@, 0);
            let total = field_in(lines, "MemTotal:"@, 0);
            match r {
                Some(m) => available == Some(m.0 as nat) && total == Some(m.1 as nat),
                None => available is None || total is None,
            }
        }),
{
    let lines = text::lines(meminfo);
    match (field_bytes(&lines, "MemAvailable:"), field_bytes(&lines, "MemTotal:")) {
        (Some(a), Some(t)) => Some((a, t)),
        _ => None,
    }
}

/// How a request for data fared.
#[derive(Clone, Copy, Debug, PartialEq, Eq, Structural)]
pub enum ReplyOutcome {
    /// All of it is sent.
    Whole,
    /// A part of it is sent.
    Part,
    /// The request was wrong.
    Refused,
    /// The work broke off.
    Broken,
}

/// The HTTP status of a reply.
pub fn reply_status(outcome: ReplyOutcome) -> (r: u16)
    ensures
        r == (match outcome {
            ReplyOutcome::Whole => 200,
            ReplyOutcome::Part => 206,
            ReplyOutcome::Refused => 400,
            ReplyOutcome::Broken => 500int,
        }),
{
    match outcome {
        ReplyOutcome::Whole => 200,
        ReplyOutcome::Part => 206,
        ReplyOutcome::Refused => 400,
        ReplyOutcome::Broken => 500,
    }
}

/// Whatever happens, a client is sent every new state, every new status and the
/// ping, the head of the preview and each key frame; what it says itself is
/// answered by nothing, and it is let go when it or what it watches is gone.
pub proof fn law_what_clients_are_sent(c: Client, e: ClientEvent)
    ensures
        ({
            let step = client_stepped(c, e).1;
            &&& (step is SendState) == (e is StateChanged)
            &&& (step is SendStatus) == (e is StatusChanged)
            &&& (step is SendPing) == (e is PingDue)
            &&& (step is Close) == (e is SourceClosed || e is PreviewClosed || e is Gone)
            &&& e matches ClientEvent::Chunk(k) ==> (!(k is Delta) || c.synced) == (step
                is SendChunk)
            &&& step is SendChunk ==> e is Chunk
        }),
{
}

/// From a key frame on every frame goes out, until the preview starts anew or the
/// client falls behind.
pub proof fn law_frames_follow_a_key_frame(c: Client, events: Seq<ClientEvent>)
    requires
        forall|i: int|
            0 <= i < events.len() ==> #[trigger] events[i] != ClientEvent::Chunk(ChunkKind::Init)
                && events[i] != ClientEvent::Lagged,
    ensures
        ({
            let k = client_stepped(c, ClientEvent::Chunk(ChunkKind::Key)).0;
            &&& client_stepped(
                client_after(k, events),
                ClientEvent::Chunk(ChunkKind::Delta),
            ).1 == ClientStep::SendChunk
            &&& client_stepped(
                client_stepped(client_after(k, events), ClientEvent::Lagged).0,
                ClientEvent::Chunk(ChunkKind::Delta),
            ).1 == ClientStep::Nothing
            &&& client_stepped(
                client_stepped(
                    client_after(k, events),
                    ClientEvent::Chunk(ChunkKind::Init),
                ).0,
                ClientEvent::Chunk(ChunkKind::Delta),
            ).1 == ClientStep::Nothing
        }),
    decreases events.len(),
{
    if events.len() > 0 {
        let before = events.drop_last();
        assert forall|i: int| 0 <= i < before.len() implies #[trigger] before[i]
            != ClientEvent::Chunk(ChunkKind::Init) && before[i] != ClientEvent::Lagged by {
            assert(before[i] == events[i]);
        }
        law_frames_follow_a_key_frame(c, before);
        assert(events.last() == events[events.len() - 1]);
    }
}

/// Rates are what grew between the oldest sample and the newest; a count that
/// was set back has grown by nothing.
pub proof fn law_rates_are_what_grew(before: Sample, now: Sample)
    ensures
        ({
            let r = span(before, now);
            &&& now.at_ns >= before.at_ns ==> before.at_ns + r.at_ns == now.at_ns
            &&& now.frames >= before.frames ==> before.frames + r.frames == now.frames
            &&& now.frames < before.frames ==> r.frames == 0
            &&& now.controller_bytes >= before.controller_bytes ==> before.controller_bytes
                + r.controller_bytes == now.controller_bytes
            &&& now.controller_bytes < before.controller_bytes ==> r.controller_bytes == 0
            &&& now.video_bytes >= before.video_bytes ==> before.video_bytes + r.video_bytes
                == now.video_bytes
            &&& now.video_bytes < before.video_bytes ==> r.video_bytes == 0
        }),
{
}

/// Seven samples are kept; an eighth takes the place of the oldest.
pub proof fn law_seven_samples(samples: Seq<Sample>, now: Sample)
    requires
        samples.len() <= 7,
    ensures
        samples.len() < 7 ==> windowed(samples, now) == samples.push(now),
        samples.len() == 7 ==> windowed(samples, now) == samples.skip(1).push(now),
{
    if samples.len() == 7 {
        assert(samples.push(now).skip(1) =~= samples.skip(1).push(now));
    }
}

/// A line with the name, blanks, a number and `kB` tells that many kibibytes.
pub proof fn law_memory_lines(name: Seq<char>, blanks: Seq<char>, n: nat)
    requires
        n <= 0x3f_ffff_ffff_ffff,
        forall|i: int| 0 <= i < blanks.len() ==> #[trigger] blanks[i] == ' ',
    ensures
        kib_in(name + blanks + text::decimal_text(n) + seq![' ', 'k', 'B'], name) == Some(n),
{
    reveal_strlit("kB");
    let d = text::decimal_text(n);
    text::lemma_decimal(n);
    let line = name + blanks + d + seq![' ', 'k', 'B'];
    assert(name =~= line.subrange(0, name.len() as int));
    let tail = line.skip(name.len() as int);
    let k = blanks.len() as int;
    let len = tail.len() as int;
    assert(tail =~= blanks + d + seq![' ', 'k', 'B']);
    assert(text::digit(d[0]) < 10);
    assert(text::digit(d[d.len() - 1]) < 10);
    assert(tail[k] == d[0]);
    assert(tail[len - 1] == 'B');
    assert forall|i: int| 0 <= i < k || len <= i < tail.len() implies #[trigger] tail[i] == ' '
        || tail[i] == '\t' || tail[i] == '\n' || tail[i] == '\r' by {
        assert(tail[i] == blanks[i]);
    }
    crate::text_laws::law_trim_cuts_the_ends(tail, k, len);
    let rest = tail.subrange(k, len);
    assert(rest =~= d + seq![' ', 'k', 'B']);
    assert("kB"@ =~= rest.subrange(rest.len() - 2, rest.len() as int));
    let number = rest.take(rest.len() - 2);
    assert(number =~= d.push(' '));
    assert(number[0] == d[0]);
    assert(number[d.len() - 1] == d[d.len() - 1]);
    crate::text_laws::law_trim_cuts_the_ends(number, 0, d.len() as int);
    assert(number.subrange(0, d.len() as int) =~= d);
    text::law_decimal_reads_back(n, 0x3f_ffff_ffff_ffff);
}

/// The first line that tells it gives a field, in bytes.
pub proof fn law_first_field_counts(lines: Seq<Seq<char>>, name: Seq<char>, from: int, i: int)
    requires
        0 <= from <= i < lines.len(),
        kib_in(lines[i], name) is Some,
        forall|j: int| from <= j < i ==> kib_in(#[trigger] lines[j], name) is None,
    ensures
        field_in(lines, name, from) == Some(kib_in(lines[i], name)->0 * 1024),
    decreases i - from,
{
    if from < i {
        law_first_field_counts(lines, name, from + 1, i);
    }
}

/// A frame is shown when it holds a full report with the buttons and the sticks.
pub proof fn law_frames_shown(f: Frame)
    ensures
        is_shown(f) == (f.packet_size >= 12 && f.report@[0] == 0x30),
{
}

} // verus!
