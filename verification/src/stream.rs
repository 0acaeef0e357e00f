//! Frame link between the proxy and the studio host.
//!
//! For each connection the proxy sends [`HEADER`] and then raw frames, the same
//! bytes a dump file holds. When no report arrives for a second it sends an empty
//! frame, so the host can tell an idle controller from a dead link.
use crate::frame;
use crate::frame::Frame;
use vstd::prelude::*;

verus! {

/// Sent once per connection: magic and protocol version.
pub const HEADER: [u8; 8] = [0x50, 0x52, 0x4f, 0x43, 0x4f, 0x4e, 0x00, 0x01];

/// Longest silence before the proxy sends an empty frame, in milliseconds.
pub const HEARTBEAT_MS: u64 = 1000;

/// Frames buffered per connection before a slow host starts losing them.
pub const CLIENT_QUEUE: usize = 512;

/// Window for the clock offset estimate, in nanoseconds.
pub const OFFSET_WINDOW_NS: u64 = 10_000_000_000;

/// A sequence gap from which on the proxy restarted and lost nothing.
pub const RESTART_GAP: u32 = 1_000_000;

/// How a frame handed to a connection fared.
#[derive(Clone, Copy, Debug, PartialEq, Eq, Structural)]
pub enum SendOutcome {
    Sent,
    /// The connection's queue is full: the frame is lost for that host only.
    Full,
    Disconnected,
}

/// Proxy side: the connected studio hosts, by number.
#[derive(Clone, Debug)]
pub struct FrameStreamer {
    /// The connections that are open, oldest first.
    pub clients: Vec<u64>,
    /// The number the next connection gets.
    pub next_id: u64,
}

/// The connections among the first `n` that are still there.
pub open spec fn remaining(clients: Seq<u64>, outcomes: Seq<SendOutcome>, n: int) -> Seq<u64>
    decreases n,
{
    if n <= 0 {
        Seq::empty()
    } else if outcomes[n - 1] == SendOutcome::Disconnected {
        remaining(clients, outcomes, n - 1)
    } else {
        remaining(clients, outcomes, n - 1).push(clients[n - 1])
    }
}

impl FrameStreamer {
    /// No host is connected.
    pub fn new() -> (r: FrameStreamer)
        ensures
            r.clients@.len() == 0,
            r.next_id == 0,
    {
        FrameStreamer { clients: Vec::new(), next_id: 0 }
    }

    /// A host connects and gets a number.
    pub fn accept(&mut self) -> (r: u64)
        requires
            old(self).next_id < u64::MAX,
        ensures
            r == old(self).next_id,
            final(self).next_id == old(self).next_id + 1,
            final(self).clients@ == old(self).clients@.push(r),
    {
        let id = self.next_id;
        self.next_id = id + 1;
        self.clients.push(id);
        id
    }

    /// A frame went out, with this outcome per connection: those that
    /// disconnected are dropped, the others stay, in order.
    pub fn dump(&mut self, outcomes: &Vec<SendOutcome>)
        requires
            outcomes@.len() == old(self).clients@.len(),
        ensures
            final(self).clients@ == remaining(
                old(self).clients@,
                outcomes@,
                outcomes@.len() as int,
            ),
            final(self).next_id == old(self).next_id,
    {
        let mut kept: Vec<u64> = Vec::new();
        let mut i: usize = 0;
        while i < outcomes.len()
            invariant
                i <= outcomes@.len(),
                outcomes@.len() == self.clients@.len(),
                kept@ == remaining(self.clients@, outcomes@, i as int),
            decreases outcomes@.len() - i,
        {
            if outcomes[i] != SendOutcome::Disconnected {
                kept.push(self.clients[i]);
            }
            i += 1;
        }
        self.clients = kept;
    }
}

/// What a connection's sender met when it waited for a frame.
#[derive(Clone, Copy, Debug)]
pub enum SenderEvent {
    Frame(Frame),
    /// No frame came for the heartbeat's time.
    Timeout,
    /// No more frames will come.
    Disconnected,
}

/// Proxy side: one connection.
#[derive(Clone, Copy, Debug, PartialEq, Eq, Structural)]
pub struct FrameSender {
    /// Sequence number of the last frame.
    pub last_seq: u32,
}

impl FrameSender {
    pub fn new() -> (r: FrameSender)
        ensures
            r == (FrameSender { last_seq: 0 }),
    {
        FrameSender { last_seq: 0 }
    }

    /// What to write next: the frame that came, or a heartbeat with the last
    /// sequence number; `None` ends the connection.
    pub fn next_frame(&mut self, event: SenderEvent, now_ms: u64) -> (r: Option<Frame>)
        ensures
            match event {
                SenderEvent::Frame(f) => r == Some(f) && final(self).last_seq == f.seq,
                SenderEvent::Timeout => *final(self) == *old(self) && {
                    &&& r matches Some(f)
                    &&& f.timestamp_ms == now_ms
                    &&& f.seq == old(self).last_seq
                    &&& f.packet_size == 0
                    &&& f.forward_us == 0
                    &&& frame::payload_of(f).len() == 0
                },
                SenderEvent::Disconnected => *final(self) == *old(self) && r is None,
            },
    {
        match event {
            SenderEvent::Frame(f) => {
                self.last_seq = f.seq;
                Some(f)
            },
            SenderEvent::Timeout => {
                let empty: Vec<u8> = Vec::new();
                Some(Frame::new(now_ms, self.last_seq, empty.as_slice()))
            },
            SenderEvent::Disconnected => None,
        }
    }
}

/// Host side: health of the link to the proxy.
#[derive(Clone, Copy, Debug, PartialEq, Eq, Structural)]
pub struct LinkStats {
    /// A proxy stream is currently open.
    pub connected: bool,
    /// Reports received, excluding heartbeats.
    pub frames: u64,
    /// Reports missing from the sequence.
    pub dropped: u64,
    /// Host clock minus proxy clock in milliseconds: the lowest difference seen
    /// over the last window.
    pub clock_offset_ms: i64,
    /// Sum of the forwarding times since the dashboard last took them.
    pub forward_sum_us: u64,
    /// Their count.
    pub forward_count: u64,
    /// Their maximum.
    pub forward_max_us: u64,
}

impl LinkStats {
    pub fn new() -> (r: LinkStats)
        ensures
            r == (LinkStats {
                connected: false,
                frames: 0,
                dropped: 0,
                clock_offset_ms: 0,
                forward_sum_us: 0,
                forward_count: 0,
                forward_max_us: 0,
            }),
    {
        LinkStats {
            connected: false,
            frames: 0,
            dropped: 0,
            clock_offset_ms: 0,
            forward_sum_us: 0,
            forward_count: 0,
            forward_max_us: 0,
        }
    }

    /// Sum, count and maximum of the times reports spent in the proxy since the
    /// last call, in microseconds; `None` when there were none.
    pub fn take_forward_us(&mut self) -> (r: Option<(u64, u64, u64)>)
        ensures
            r == (if old(self).forward_count > 0 {
                Some(
                    (old(self).forward_sum_us, old(self).forward_count, old(self).forward_max_us),
                )
            } else {
                None
            }),
            *final(self) == (LinkStats {
                forward_sum_us: 0,
                forward_count: 0,
                forward_max_us: 0,
                ..*old(self)
            }),
    {
        let count = self.forward_count;
        let sum = self.forward_sum_us;
        let max = self.forward_max_us;
        self.forward_count = 0;
        self.forward_sum_us = 0;
        self.forward_max_us = 0;
        if count > 0 {
            Some((sum, count, max))
        } else {
            None
        }
    }
}

/// A 64-bit time as a signed number, wrapping from 2^63 on.
pub open spec fn signed(v: u64) -> int {
    if v < 0x8000_0000_0000_0000 {
        v as int
    } else {
        v - 0x1_0000_0000_0000_0000
    }
}

/// Host clock minus a frame's time, when it fits.
pub fn clock_difference(now_ms: u64, timestamp_ms: u64) -> (r: Option<i64>)
    ensures
        match r {
            Some(d) => d == signed(now_ms) - signed(timestamp_ms),
            None => !(i64::MIN <= signed(now_ms) - signed(timestamp_ms) <= i64::MAX),
        },
{
    let a: i128 = if now_ms < 0x8000_0000_0000_0000 {
        now_ms as i128
    } else {
        now_ms as i128 - 0x1_0000_0000_0000_0000
    };
    let b: i128 = if timestamp_ms < 0x8000_0000_0000_0000 {
        timestamp_ms as i128
    } else {
        timestamp_ms as i128 - 0x1_0000_0000_0000_0000
    };
    let d: i128 = a - b;
    if -0x8000_0000_0000_0000 <= d && d <= 0x7fff_ffff_ffff_ffff {
        Some(d as i64)
    } else {
        None
    }
}

/// Whether a connection's first bytes are the link's.
pub fn header_ok(bytes: &[u8]) -> (r: bool)
    ensures
        r == (bytes@ == HEADER@),
        r == (bytes@ == seq![0x50u8, 0x52, 0x4f, 0x43, 0x4f, 0x4e, 0x00, 0x01]),
{
    if bytes.len() != 8 {
        return false;
    }
    let mut i: usize = 0;
    while i < 8
        invariant
            i <= 8,
            bytes@.len() == 8,
            HEADER@.len() == 8,
            forall|j: int| 0 <= j < i ==> bytes@[j] == HEADER@[j],
        decreases 8 - i,
    {
        if bytes[i] != HEADER[i] {
            return false;
        }
        i += 1;
    }
    assert(bytes@ =~= HEADER@);
    true
}

/// Host side: where one connection is.
#[derive(Clone, Copy, Debug, PartialEq, Eq, Structural)]
pub struct Link {
    /// Sequence number the next report should have.
    pub next_seq: Option<u32>,
    /// No window has completed yet.
    pub first_window: bool,
    /// When the running window began.
    pub window_start_ns: u64,
    /// Lowest clock difference of the running window.
    pub window_min: i64,
}

/// The smaller of two differences.
pub open spec fn lower(a: i64, b: i64) -> i64 {
    if b < a {
        b
    } else {
        a
    }
}

/// Reports that a sequence number skips; a huge jump skips none, as the proxy
/// restarted then.
pub open spec fn missing(next_seq: Option<u32>, seq: u32) -> u32 {
    match next_seq {
        Some(expected) => {
            let gap = seq.wrapping_sub(expected);
            if gap < RESTART_GAP {
                gap
            } else {
                0
            }
        },
        None => 0,
    }
}

/// A link after a frame came with a clock difference.
pub open spec fn link_after(l: Link, f: Frame, offset_ms: i64, now_ns: u64) -> Link {
    let done = now_ns - l.window_start_ns >= OFFSET_WINDOW_NS;
    Link {
        next_seq: if f.packet_size == 0 {
            l.next_seq
        } else {
            Some(f.seq.wrapping_add(1))
        },
        first_window: l.first_window && !done,
        window_start_ns: if done {
            now_ns
        } else {
            l.window_start_ns
        },
        window_min: if done {
            i64::MAX
        } else {
            lower(l.window_min, offset_ms)
        },
    }
}

/// The health of a link after a frame came.
pub open spec fn stats_after(
    l: Link,
    s: LinkStats,
    f: Frame,
    offset_ms: i64,
    now_ns: u64,
) -> LinkStats {
    let done = now_ns - l.window_start_ns >= OFFSET_WINDOW_NS;
    let clocked = LinkStats {
        clock_offset_ms: if l.first_window || done {
            lower(l.window_min, offset_ms)
        } else {
            s.clock_offset_ms
        },
        ..s
    };
    if f.packet_size == 0 {
        clocked
    } else {
        let counted = LinkStats {
            dropped: s.dropped.wrapping_add(missing(l.next_seq, f.seq) as u64),
            frames: s.frames.wrapping_add(1),
            ..clocked
        };
        if f.forward_us > 0 {
            LinkStats {
                forward_sum_us: s.forward_sum_us.wrapping_add(f.forward_us as u64),
                forward_count: s.forward_count.wrapping_add(1),
                forward_max_us: if f.forward_us > s.forward_max_us {
                    f.forward_us as u64
                } else {
                    s.forward_max_us
                },
                ..counted
            }
        } else {
            counted
        }
    }
}

impl Link {
    /// A connection of which no frame was read.
    pub fn new(now_ns: u64) -> (r: Link)
        ensures
            r == (Link {
                next_seq: None,
                first_window: true,
                window_start_ns: now_ns,
                window_min: i64::MAX,
            }),
    {
        Link {
            next_seq: None,
            first_window: true,
            window_start_ns: now_ns,
            window_min: 0x7fff_ffff_ffff_ffff,
        }
    }

    /// A frame came, `offset_ms` being the host's clock minus its time. Returns
    /// whether it is a report to hand on; a heartbeat is not.
    pub fn take_frame(
        &mut self,
        stats: &mut LinkStats,
        frame: &Frame,
        offset_ms: i64,
        now_ns: u64,
    ) -> (r: bool)
        requires
            old(self).window_start_ns <= now_ns,
        ensures
            r == (frame.packet_size > 0),
            *final(self) == link_after(*old(self), *frame, offset_ms, now_ns),
            *final(stats) == stats_after(*old(self), *old(stats), *frame, offset_ms, now_ns),
    {
        if offset_ms < self.window_min {
            self.window_min = offset_ms;
        }
        let done = now_ns - self.window_start_ns >= OFFSET_WINDOW_NS;
        if self.first_window || done {
            stats.clock_offset_ms = self.window_min;
        }
        if done {
            self.first_window = false;
            self.window_start_ns = now_ns;
            self.window_min = 0x7fff_ffff_ffff_ffff;
        }
        if frame.packet_size == 0 {
            return false;
        }
        if let Some(expected) = self.next_seq {
            let gap: u32 = frame.seq.wrapping_sub(expected);
            if gap > 0 && gap < RESTART_GAP {
                stats.dropped = stats.dropped.wrapping_add(gap as u64);
            }
        }
        self.next_seq = Some(frame.seq.wrapping_add(1));
        stats.frames = stats.frames.wrapping_add(1);
        let forward_us: u64 = frame.forward_us as u64;
        if forward_us > 0 {
            stats.forward_sum_us = stats.forward_sum_us.wrapping_add(forward_us);
            stats.forward_count = stats.forward_count.wrapping_add(1);
            if forward_us > stats.forward_max_us {
                stats.forward_max_us = forward_us;
            }
        }
        true
    }
}

/// A heartbeat moves only the clock estimate: no count changes and the next
/// report is still expected where it was.
pub proof fn law_heartbeats_do_not_count(
    l: Link,
    s: LinkStats,
    f: Frame,
    offset_ms: i64,
    now_ns: u64,
)
    requires
        f.packet_size == 0,
    ensures
        stats_after(l, s, f, offset_ms, now_ns) == (LinkStats {
            clock_offset_ms: stats_after(l, s, f, offset_ms, now_ns).clock_offset_ms,
            ..s
        }),
        link_after(l, f, offset_ms, now_ns).next_seq == l.next_seq,
{
}

/// Two reports in sequence lose nothing; one with `k` left out, fewer than a
/// restart's jump, loses `k`.
pub proof fn law_gaps_are_counted(l: Link, s: LinkStats, f: Frame, k: u32, offset_ms: i64, now: u64)
    requires
        l.next_seq is Some,
        f.packet_size > 0,
        k < 1_000_000,
        f.seq == (l.next_seq->0 + k) % 0x1_0000_0000,
        s.dropped + k <= u64::MAX,
    ensures
        stats_after(l, s, f, offset_ms, now).dropped == s.dropped + k,
{
}

/// While the first window runs the estimate is the lowest difference so far.
pub proof fn law_offset_is_lowest(l: Link, s: LinkStats, f: Frame, offset_ms: i64, now_ns: u64)
    requires
        l.first_window,
    ensures
        stats_after(l, s, f, offset_ms, now_ns).clock_offset_ms <= offset_ms,
        stats_after(l, s, f, offset_ms, now_ns).clock_offset_ms <= l.window_min,
        stats_after(l, s, f, offset_ms, now_ns).clock_offset_ms == offset_ms || stats_after(
            l,
            s,
            f,
            offset_ms,
            now_ns,
        ).clock_offset_ms == l.window_min,
{
}

/// A report further on than a million, one behind the expected one, and the
/// first report of a connection lose nothing: the proxy started again.
pub proof fn law_restart_loses_nothing(l: Link, s: LinkStats, f: Frame, offset_ms: i64, now: u64)
    requires
        l.next_seq matches Some(e) ==> (f.seq - e) % 0x1_0000_0000 >= 1_000_000,
    ensures
        stats_after(l, s, f, offset_ms, now).dropped == s.dropped,
{
}

/// A report counts once, and the next one expected is the one behind it.
pub proof fn law_reports_are_counted(l: Link, s: LinkStats, f: Frame, offset_ms: i64, now: u64)
    requires
        f.packet_size > 0,
        s.frames < u64::MAX,
    ensures
        stats_after(l, s, f, offset_ms, now).frames == s.frames + 1,
        stats_after(l, s, f, offset_ms, now).connected == s.connected,
        link_after(l, f, offset_ms, now).next_seq matches Some(e) && e == (f.seq + 1)
            % 0x1_0000_0000,
{
}

/// The proxy's times add up, their count goes with them, and the longest one is
/// kept; a report without a time leaves all three.
pub proof fn law_forward_times_add_up(l: Link, s: LinkStats, f: Frame, offset_ms: i64, now: u64)
    requires
        f.packet_size > 0,
        s.forward_sum_us + f.forward_us <= u64::MAX,
        s.forward_count < u64::MAX,
    ensures
        ({
            let r = stats_after(l, s, f, offset_ms, now);
            &&& r.forward_sum_us == s.forward_sum_us + f.forward_us
            &&& r.forward_count == s.forward_count + (if f.forward_us > 0 {
                1int
            } else {
                0
            })
            &&& r.forward_max_us >= s.forward_max_us
            &&& r.forward_max_us >= f.forward_us
            &&& r.forward_max_us == s.forward_max_us || r.forward_max_us == f.forward_us
        }),
{
}

/// Ten seconds make a window. Inside one the lowest difference so far is carried
/// on and, after the first, the estimate stays; the frame that ends one makes
/// the lowest difference of the window the estimate and starts the next afresh.
pub proof fn law_windows_of_ten_seconds(
    l: Link,
    s: LinkStats,
    f: Frame,
    offset_ms: i64,
    now_ns: u64,
)
    requires
        l.window_start_ns <= now_ns,
    ensures
        ({
            let m = link_after(l, f, offset_ms, now_ns);
            let r = stats_after(l, s, f, offset_ms, now_ns);
            if now_ns - l.window_start_ns < 10_000_000_000 {
                &&& m.window_start_ns == l.window_start_ns
                &&& m.first_window == l.first_window
                &&& m.window_min <= l.window_min && m.window_min <= offset_ms
                &&& m.window_min == l.window_min || m.window_min == offset_ms
                &&& !l.first_window ==> r.clock_offset_ms == s.clock_offset_ms
            } else {
                &&& m.window_start_ns == now_ns
                &&& !m.first_window
                &&& m.window_min == 0x7fff_ffff_ffff_ffff
                &&& r.clock_offset_ms <= l.window_min && r.clock_offset_ms <= offset_ms
                &&& r.clock_offset_ms == l.window_min || r.clock_offset_ms == offset_ms
            }
        }),
{
}

/// The clients that stay are those whose channel still has its other end, full
/// or not, in the order in which they came.
pub proof fn law_clients_stay_in_order(clients: Seq<u64>, outcomes: Seq<SendOutcome>, n: int)
    requires
        clients.len() == outcomes.len(),
        0 <= n <= clients.len(),
    ensures
        remaining(clients, outcomes, n) == clients.zip_with(outcomes).take(n).filter(
            |p: (u64, SendOutcome)| !(p.1 is Disconnected),
        ).map_values(|p: (u64, SendOutcome)| p.0),
    decreases n,
{
    let keep = |p: (u64, SendOutcome)| !(p.1 is Disconnected);
    let id = |p: (u64, SendOutcome)| p.0;
    let z = clients.zip_with(outcomes);
    reveal(Seq::filter);
    if n > 0 {
        law_clients_stay_in_order(clients, outcomes, n - 1);
        assert(z.take(n).drop_last() =~= z.take(n - 1));
        assert(z.take(n).last() == (clients[n - 1], outcomes[n - 1]));
        let before = z.take(n - 1).filter(keep);
        if !(outcomes[n - 1] is Disconnected) {
            assert(z.take(n).filter(keep) =~= before.push(z[n - 1]));
            assert(before.push(z[n - 1]).map_values(id) =~= before.map_values(id).push(
                clients[n - 1],
            ));
        }
    } else {
        assert(z.take(n).filter(keep).map_values(id) =~= Seq::empty());
    }
}

/// Clocks that count less than 2^63 milliseconds are compared as they are, and
/// the later ones as far below zero as they are from 2^64.
pub proof fn law_clocks_as_signed(v: u64)
    ensures
        v < 0x8000_0000_0000_0000 ==> signed(v) == v,
        v >= 0x8000_0000_0000_0000 ==> signed(v) + 0x1_0000_0000_0000_0000 == v,
{
}

} // verus!
