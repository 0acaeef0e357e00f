//! Dumping frames without holding up the controller.
//!
//! Frames go through a queue to a writing thread. The queue holds a bounded
//! number of them; what arrives beyond that is dropped and counted.
use crate::clock;
use crate::frame;
use crate::frame::Frame;
use vstd::prelude::*;

verus! {

/// Frames between two flushes of a dump file.
pub const FLUSH_INTERVAL: u64 = 1000;

/// Frames the dump queue holds.
pub const DUMP_CHANNEL_CAPACITY: usize = 1000;

/// Queue length beyond which warnings are logged: 80 % of the capacity.
pub const QUEUE_WARNING: usize = 800;

/// Messages between two looks at the queue.
pub const QUEUE_CHECK_INTERVAL: u64 = 100;

/// A frame of `data` that a clock reading stamps.
pub open spec fn is_stamped(f: Frame, ms: u64, seq: u32, data: Seq<u8>) -> bool {
    &&& f.timestamp_ms == ms
    &&& f.seq == seq
    &&& f.forward_us == 0
    &&& f.packet_size == (if data.len() < 64 {
        data.len() as int
    } else {
        64
    })
    &&& f.report@ == frame::padded(data)
    &&& frame::payload_of(f) == data.take(f.packet_size as int)
}

/// A frame of `data` (empty for a heartbeat) stamped with a clock reading, if
/// there is one.
pub fn stamped_at(now_ms: Option<u64>, seq: u32, data: &[u8]) -> (r: Option<Frame>)
    ensures
        match (now_ms, r) {
            (Some(ms), Some(f)) => is_stamped(f, ms, seq, data@),
            (None, None) => true,
            _ => false,
        },
{
    match now_ms {
        Some(ms) => Some(Frame::new(ms, seq, data)),
        None => None,
    }
}

/// A frame of `data` (empty for a heartbeat) stamped with the current time;
/// `None` when the clock is set before 1970. The clock decides: it is what
/// [`stamped_at`] gives for its milliseconds.
pub fn stamped(seq: u32, data: &[u8]) -> (r: Option<Frame>)
    ensures
        r matches Some(f) ==> is_stamped(f, f.timestamp_ms, seq, data@),
{
    stamped_at(clock::unix_ms(), seq, data)
}

/// What the dump thread is sent.
#[derive(Clone, Copy, Debug)]
pub enum DumpMessage {
    Data(Frame),
    Flush,
    Shutdown,
}

/// The dump queue's counters, shared by both of its ends.
#[derive(Clone, Copy, Debug, PartialEq, Eq, Structural)]
pub struct DumpQueue {
    /// Messages sent and not yet taken off.
    pub size: usize,
    /// Frames dropped because the queue was full.
    pub drops: u64,
}

/// A queue that a frame was offered to.
pub open spec fn offered(q: DumpQueue) -> DumpQueue {
    if q.size < DUMP_CHANNEL_CAPACITY {
        DumpQueue { size: (q.size + 1) as usize, ..q }
    } else {
        DumpQueue { drops: q.drops.wrapping_add(1), ..q }
    }
}

/// A queue that a number of frames were offered to.
pub open spec fn offered_all(q: DumpQueue, arriving: nat) -> DumpQueue
    decreases arriving,
{
    if arriving == 0 {
        q
    } else {
        offered_all(offered(q), (arriving - 1) as nat)
    }
}

impl DumpQueue {
    /// An empty queue.
    pub fn new() -> (r: DumpQueue)
        ensures
            r == (DumpQueue { size: 0, drops: 0 }),
    {
        DumpQueue { size: 0, drops: 0 }
    }

    /// A frame arrives: count it and let it be sent, or drop it when the queue
    /// is full. It is counted before it is sent, so that the other end never
    /// subtracts what was not added.
    pub fn offer(&mut self) -> (r: bool)
        ensures
            r == (old(self).size < DUMP_CHANNEL_CAPACITY),
            *final(self) == offered(*old(self)),
    {
        if self.size >= DUMP_CHANNEL_CAPACITY {
            self.drops = self.drops.wrapping_add(1);
            return false;
        }
        self.size = self.size + 1;
        true
    }

    /// A flush is always sent, and counted like a frame.
    pub fn offer_flush(&mut self)
        ensures
            *final(self) == (DumpQueue { size: old(self).size.wrapping_add(1), ..*old(self) }),
    {
        self.size = self.size.wrapping_add(1);
    }

    /// What was counted could not be sent: the dump thread has shut down.
    pub fn send_failed(&mut self)
        ensures
            *final(self) == (DumpQueue { size: old(self).size.wrapping_sub(1), ..*old(self) }),
    {
        self.size = self.size.wrapping_sub(1);
    }
}

/// What the log says of the queue.
#[derive(Clone, Copy, Debug, PartialEq, Eq)]
pub struct QueueReport {
    /// The queue is long: its length and the frames dropped so far.
    pub backpressure: Option<(usize, u64)>,
    /// The frames dropped so far, now and then.
    pub dropped: Option<u64>,
}

/// What the dump thread does next.
#[derive(Clone, Copy, Debug, PartialEq, Eq, Structural)]
pub enum WorkerOrder {
    /// Take the next message if there is one.
    Poll,
    /// Wait for the next message.
    Wait,
    /// Flush and end.
    Stop,
}

/// What the dump thread does with a message.
#[derive(Clone, Copy, Debug, PartialEq, Eq, Structural)]
pub enum MessageOrder {
    Write,
    Flush,
    Nothing,
}

/// What the dump thread met when it looked for a message.
#[derive(Clone, Copy, Debug)]
pub enum WorkerEvent {
    Message(DumpMessage),
    /// There was none.
    Empty,
    /// The other end is gone.
    Disconnected,
}

/// The dump thread.
#[derive(Clone, Copy, Debug, PartialEq, Eq, Structural)]
pub struct DumpWorker {
    /// Messages taken since the start.
    pub processed: u64,
    /// Messages taken since the queue was last looked at.
    pub batch: usize,
    /// The message that comes was waited for.
    pub waiting: bool,
}

/// What the log says of a queue after `processed` messages.
pub open spec fn report_of(q: DumpQueue, processed: u64) -> QueueReport {
    QueueReport {
        backpressure: if processed % QUEUE_CHECK_INTERVAL == 0 && q.size > QUEUE_WARNING {
            Some((q.size, q.drops))
        } else {
            None
        },
        dropped: if processed % QUEUE_CHECK_INTERVAL == 0 && q.drops > 0 && processed % 1000 == 0 {
            Some(q.drops)
        } else {
            None
        },
    }
}

/// What the log says when nothing is looked at.
pub open spec fn no_report() -> QueueReport {
    QueueReport { backpressure: None, dropped: None }
}

/// A queue after `n` messages were taken off it.
pub open spec fn taken(q: DumpQueue, n: usize) -> DumpQueue {
    DumpQueue { size: q.size.wrapping_sub(n), ..q }
}

/// What the dump thread does with what it met: the next state of both, what
/// becomes of the message, what comes next and what the log says.
pub open spec fn worked(w: DumpWorker, q: DumpQueue, event: WorkerEvent) -> (
    DumpWorker,
    DumpQueue,
    MessageOrder,
    WorkerOrder,
    QueueReport,
) {
    match event {
        WorkerEvent::Message(m) => {
            let processed = (w.processed + 1) as u64;
            let todo = match m {
                DumpMessage::Data(_) => MessageOrder::Write,
                DumpMessage::Flush => MessageOrder::Flush,
                DumpMessage::Shutdown => MessageOrder::Nothing,
            };
            if m is Shutdown {
                (
                    (DumpWorker { processed, ..w }),
                    q,
                    todo,
                    WorkerOrder::Stop,
                    no_report(),
                )
            } else if w.waiting {
                (
                    (DumpWorker { processed, batch: 0, waiting: false }),
                    taken(q, 1),
                    todo,
                    WorkerOrder::Poll,
                    report_of(taken(q, 1), processed),
                )
            } else {
                (
                    (DumpWorker { processed, batch: (w.batch + 1) as usize, waiting: false }),
                    q,
                    todo,
                    WorkerOrder::Poll,
                    no_report(),
                )
            }
        },
        WorkerEvent::Empty => (
            (DumpWorker { batch: 0, waiting: w.batch == 0, ..w }),
            taken(q, w.batch),
            MessageOrder::Nothing,
            if w.batch == 0 {
                WorkerOrder::Wait
            } else {
                WorkerOrder::Poll
            },
            report_of(taken(q, w.batch), w.processed),
        ),
        WorkerEvent::Disconnected => (w, q, MessageOrder::Nothing, WorkerOrder::Stop, no_report()),
    }
}

/// Take `n` messages off the queue's count and say what the log says of it.
fn check_queue_overflow(q: &mut DumpQueue, n: usize, processed: u64) -> (r: QueueReport)
    ensures
        *final(q) == taken(*old(q), n),
        r == report_of(*final(q), processed),
{
    q.size = q.size.wrapping_sub(n);
    let mut report = QueueReport { backpressure: None, dropped: None };
    if processed % QUEUE_CHECK_INTERVAL == 0 {
        if q.size > QUEUE_WARNING {
            report.backpressure = Some((q.size, q.drops));
        }
        if q.drops > 0 && processed % 1000 == 0 {
            report.dropped = Some(q.drops);
        }
    }
    report
}

impl DumpWorker {
    /// A thread that has taken nothing yet.
    pub fn new() -> (r: DumpWorker)
        ensures
            r == (DumpWorker { processed: 0, batch: 0, waiting: false }),
    {
        DumpWorker { processed: 0, batch: 0, waiting: false }
    }

    /// Decide what to do with what the thread met.
    pub fn step(&mut self, queue: &mut DumpQueue, event: WorkerEvent) -> (r: (
        MessageOrder,
        WorkerOrder,
        QueueReport,
    ))
        requires
            old(self).processed < u64::MAX,
            old(self).batch < usize::MAX,
        ensures
            (*final(self), *final(queue), r.0, r.1, r.2) == worked(*old(self), *old(queue), event),
    {
        let quiet = QueueReport { backpressure: None, dropped: None };
        match event {
            WorkerEvent::Message(m) => {
                self.processed = self.processed + 1;
                let todo = match m {
                    DumpMessage::Data(_) => MessageOrder::Write,
                    DumpMessage::Flush => MessageOrder::Flush,
                    DumpMessage::Shutdown => {
                        return (MessageOrder::Nothing, WorkerOrder::Stop, quiet);
                    },
                };
                if self.waiting {
                    self.batch = 0;
                    self.waiting = false;
                    let report = check_queue_overflow(queue, 1, self.processed);
                    return (todo, WorkerOrder::Poll, report);
                }
                self.batch = self.batch + 1;
                (todo, WorkerOrder::Poll, quiet)
            },
            WorkerEvent::Empty => {
                let batch = self.batch;
                let report = check_queue_overflow(queue, batch, self.processed);
                self.batch = 0;
                self.waiting = batch == 0;
                let order = if batch == 0 {
                    WorkerOrder::Wait
                } else {
                    WorkerOrder::Poll
                };
                (MessageOrder::Nothing, order, report)
            },
            WorkerEvent::Disconnected => (MessageOrder::Nothing, WorkerOrder::Stop, quiet),
        }
    }
}

/// The queue counts what is on its way: with `n` messages in it of which the
/// thread has taken `batch` without saying so yet, looking at the queue leaves
/// the count of those still in it.
pub proof fn law_queue_counts(w: DumpWorker, q: DumpQueue, n: nat)
    requires
        q.size == n + w.batch,
    ensures
        worked(w, q, WorkerEvent::Empty).1.size == n,
        worked(w, q, WorkerEvent::Empty).0.batch == 0,
{
}

/// The count never passes the capacity through frames, however many arrive, and
/// a frame is either counted in or counted as dropped.
pub proof fn law_frames_stay_in_capacity(q: DumpQueue, arriving: nat)
    requires
        q.size <= DUMP_CHANNEL_CAPACITY,
        q.drops + arriving <= u64::MAX,
    ensures
        offered_all(q, arriving).size <= DUMP_CHANNEL_CAPACITY,
        offered_all(q, arriving).size + offered_all(q, arriving).drops == q.size + q.drops
            + arriving,
    decreases arriving,
{
    if arriving > 0 {
        law_frames_stay_in_capacity(offered(q), (arriving - 1) as nat);
    }
}

/// A frame went to a dump file: count it and say whether the file is flushed.
pub fn frame_dumped(count: &mut u64) -> (r: bool)
    requires
        *old(count) < u64::MAX,
    ensures
        *final(count) == *old(count) + 1,
        r == (*final(count) % FLUSH_INTERVAL == 0),
        r == (*final(count) % 1000 == 0),
{
    *count = *count + 1;
    *count % FLUSH_INTERVAL == 0
}

/// A thousand messages fit: a frame that comes while fewer wait is counted in,
/// one that comes later is counted as dropped and nothing else changes.
pub proof fn law_queue_holds_a_thousand(q: DumpQueue)
    requires
        q.drops < u64::MAX,
    ensures
        q.size < 1000 ==> offered(q).size == q.size + 1 && offered(q).drops == q.drops,
        q.size >= 1000 ==> offered(q).size == q.size && offered(q).drops == q.drops + 1,
{
}

/// Every frame is written and every flush order flushes, whether the thread
/// waited for it or not; a shutdown and a closed queue end the thread, and
/// nothing else does.
pub proof fn law_messages_are_carried_out(w: DumpWorker, q: DumpQueue, event: WorkerEvent)
    ensures
        ({
            let r = worked(w, q, event);
            &&& (r.2 is Write) == (event matches WorkerEvent::Message(m) && m is Data)
            &&& (r.2 is Flush) == (event matches WorkerEvent::Message(m) && m is Flush)
            &&& (r.3 is Stop) == (event is Disconnected || (event matches WorkerEvent::Message(m)
                && m is Shutdown))
            &&& (r.3 is Wait) == (event is Empty && w.batch == 0)
        }),
{
}

/// What was taken leaves the count once: a message that was waited for at once,
/// one that was found there when the queue has been emptied.
pub proof fn law_taken_once(w: DumpWorker, q: DumpQueue, m: DumpMessage)
    requires
        !(m is Shutdown),
        w.processed < u64::MAX,
        w.batch < usize::MAX,
        w.waiting ==> w.batch == 0,
        q.size >= w.batch + 1,
    ensures
        ({
            let one = worked(w, q, WorkerEvent::Message(m));
            let two = worked(one.0, one.1, WorkerEvent::Empty);
            &&& one.0.processed == w.processed + 1
            &&& two.1.size == q.size - w.batch - 1
            &&& two.1.drops == q.drops
            &&& two.0.batch == 0
            &&& two.0.processed == w.processed + 1
        }),
{
}

/// Every hundredth message more than 800 waiting ones are reported with the
/// drops so far, and every thousandth the drops, if there were any.
pub proof fn law_queue_is_reported(q: DumpQueue, processed: u64)
    ensures
        report_of(q, processed).backpressure is Some == (processed % 100 == 0 && q.size > 800),
        report_of(q, processed).backpressure matches Some(p) ==> p == (q.size, q.drops),
        report_of(q, processed).dropped is Some == (processed % 1000 == 0 && q.drops > 0),
        report_of(q, processed).dropped matches Some(n) ==> n == q.drops,
{
}

/// A stamped frame holds the first 64 bytes as they were, and zeros behind them.
pub proof fn law_stamped_holds_the_bytes(f: Frame, ms: u64, seq: u32, data: Seq<u8>, i: int)
    requires
        is_stamped(f, ms, seq, data),
        0 <= i < 64,
    ensures
        f.timestamp_ms == ms,
        f.seq == seq,
        f.forward_us == 0,
        f.packet_size == (if data.len() < 64 {
            data.len() as int
        } else {
            64
        }),
        i < data.len() ==> f.report@[i] == data[i],
        i >= data.len() ==> f.report@[i] == 0,
{
}

} // verus!
