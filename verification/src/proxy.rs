//! Forwarding between the controller and the console.
//!
//! The proxy reads input reports from the controller and writes them to the USB
//! gadget, and reads output reports from the gadget and writes them to the
//! controller. [`Proxy`] decides what to do next from what came of the last
//! thing done. A console that sleeps takes no input: reports are dropped until it
//! wakes. While a replay client is connected its actions stand in for the
//! controller's, for the console and for every reader of the frames.
use crate::frame;
use crate::frame::Frame;
use crate::replay;
use crate::replay::Replay;
use crate::report;
use vstd::prelude::*;

verus! {

/// Home's place in the table of buttons.
pub const HOME: usize = 12;

/// What the proxy does next.
#[derive(Clone, Copy, Debug, PartialEq, Eq, Structural)]
pub enum Order {
    /// Open the gadget device.
    OpenGadget,
    /// Wait before opening the gadget device again.
    RetryLater,
    /// Read an input report from the controller.
    ReadController,
    /// Write this many bytes of input to the gadget and dump them.
    Forward(usize),
    /// Read an output report from the gadget.
    ReadGadget,
    /// Write this many bytes of output to the controller.
    WriteController(usize),
    /// Connect to the controller again.
    Reconnect,
    /// Give up: the controller is gone.
    Fail,
}

/// What came of it.
#[derive(Clone, Copy, Debug, PartialEq, Eq, Structural)]
pub enum Outcome {
    /// It went well; reads and writes with this many bytes.
    Done(usize),
    /// There was nothing to read in time, or the console did not take what was
    /// written.
    Nothing,
    Failed,
}

/// The forwarding loop.
#[derive(Clone, Copy, Debug, PartialEq, Eq, Structural)]
pub struct Proxy {
    /// What is being done.
    pub order: Order,
    /// The gadget device is open.
    pub gadget_open: bool,
    /// Numbers every report read, so that readers can spot dropped frames.
    pub seq: u32,
    /// Reports forwarded to the console.
    pub frame_count: u64,
    /// The console took the last report.
    pub taking: bool,
}

/// The gadget is used only while it is open.
pub open spec fn proxy_ok(p: Proxy) -> bool {
    p.gadget_open == !(p.order is OpenGadget || p.order is RetryLater)
}

/// The loop's next state.
pub open spec fn advanced(p: Proxy, o: Outcome) -> Proxy {
    match p.order {
        Order::OpenGadget => if o is Failed {
            Proxy { order: Order::RetryLater, ..p }
        } else {
            Proxy { order: Order::ReadController, gadget_open: true, ..p }
        },
        Order::RetryLater => Proxy { order: Order::OpenGadget, ..p },
        Order::ReadController => match o {
            Outcome::Done(size) => if size > 0 {
                Proxy { order: Order::Forward(size), ..p }
            } else {
                Proxy { order: Order::ReadGadget, ..p }
            },
            Outcome::Nothing => Proxy { order: Order::ReadGadget, ..p },
            Outcome::Failed => Proxy { order: Order::Reconnect, ..p },
        },
        Order::Forward(_) => match o {
            Outcome::Done(_) => Proxy {
                order: Order::ReadGadget,
                frame_count: p.frame_count.wrapping_add(1),
                taking: true,
                ..p
            },
            Outcome::Nothing => Proxy { order: Order::ReadGadget, taking: false, ..p },
            Outcome::Failed => Proxy { order: Order::OpenGadget, gadget_open: false, ..p },
        },
        Order::ReadGadget => match o {
            Outcome::Done(size) => if size > 0 {
                Proxy { order: Order::WriteController(size), ..p }
            } else {
                Proxy { order: Order::ReadController, ..p }
            },
            Outcome::Nothing => Proxy { order: Order::ReadController, ..p },
            Outcome::Failed => Proxy { order: Order::OpenGadget, gadget_open: false, ..p },
        },
        Order::WriteController(_) => if o is Failed {
            Proxy { order: Order::Reconnect, ..p }
        } else {
            Proxy { order: Order::ReadController, ..p }
        },
        Order::Reconnect => if o is Failed {
            Proxy { order: Order::Fail, ..p }
        } else {
            Proxy { order: Order::ReadController, ..p }
        },
        Order::Fail => p,
    }
}

impl Proxy {
    /// A proxy whose gadget is not open yet.
    pub fn new() -> (r: Proxy)
        ensures
            r == (Proxy {
                order: Order::OpenGadget,
                gadget_open: false,
                seq: 0,
                frame_count: 0,
                taking: true,
            }),
            proxy_ok(r),
    {
        Proxy {
            order: Order::OpenGadget,
            gadget_open: false,
            seq: 0,
            frame_count: 0,
            taking: true,
        }
    }

    /// Stamp an input report with the time and the next sequence number, once,
    /// so that every reader sees the same frame.
    pub fn stamp(&mut self, now_ms: u64, data: &[u8]) -> (r: Frame)
        ensures
            r.timestamp_ms == now_ms,
            r.seq == old(self).seq,
            r.forward_us == 0,
            r.report@ == frame::padded(data@),
            frame::payload_of(r) == data@.take(r.packet_size as int),
            r.packet_size == (if data@.len() < 64 {
                data@.len() as int
            } else {
                64
            }),
            *final(self) == (Proxy { seq: old(self).seq.wrapping_add(1), ..*old(self) }),
    {
        let frame = Frame::new(now_ms, self.seq, data);
        self.seq = self.seq.wrapping_add(1);
        frame
    }

    /// Take a report that the controller sent: a replay client's action is put into
    /// it, and it is stamped as it then is, so that what the console gets is what is
    /// recorded.
    pub fn take_report(&mut self, replay: &Replay, now_ms: u64, data: &mut [u8]) -> (r: Frame)
        ensures
            final(data)@ == (match replay.current {
                Some(a) => replay::applied(a, old(data)@),
                None => old(data)@,
            }),
            r.timestamp_ms == now_ms,
            r.seq == old(self).seq,
            r.forward_us == 0,
            r.report@ == frame::padded(final(data)@),
            frame::payload_of(r) == final(data)@.take(r.packet_size as int),
            r.packet_size == (if final(data)@.len() < 64 {
                final(data)@.len() as int
            } else {
                64
            }),
            final(data)@.len() <= 64 ==> frame::payload_of(r) == final(data)@,
            *final(self) == (Proxy { seq: old(self).seq.wrapping_add(1), ..*old(self) }),
    {
        replay.apply(data);
        let frame = self.stamp(now_ms, data);
        assert(data@.take(data@.len() as int) =~= data@);
        frame
    }

    /// Whether this many forwarded reports are logged.
    pub fn log_due(&self, interval: u64) -> (r: bool)
        requires
            interval > 0,
        ensures
            r == (self.frame_count % interval == 0),
    {
        self.frame_count % interval == 0
    }

    /// Decide what to do next from what came of the last order.
    pub fn step(&mut self, outcome: Outcome) -> (r: Order)
        requires
            proxy_ok(*old(self)),
        ensures
            *final(self) == advanced(*old(self), outcome),
            r == final(self).order,
            proxy_ok(*final(self)),
    {
        match self.order {
            Order::OpenGadget => match outcome {
                Outcome::Failed => {
                    self.order = Order::RetryLater;
                },
                _ => {
                    self.gadget_open = true;
                    self.order = Order::ReadController;
                },
            },
            Order::RetryLater => {
                self.order = Order::OpenGadget;
            },
            Order::ReadController => match outcome {
                Outcome::Done(size) => {
                    self.order = if size > 0 {
                        Order::Forward(size)
                    } else {
                        Order::ReadGadget
                    };
                },
                Outcome::Nothing => {
                    self.order = Order::ReadGadget;
                },
                Outcome::Failed => {
                    self.order = Order::Reconnect;
                },
            },
            Order::Forward(_) => match outcome {
                Outcome::Failed => {
                    self.gadget_open = false;
                    self.order = Order::OpenGadget;
                },
                Outcome::Nothing => {
                    self.taking = false;
                    self.order = Order::ReadGadget;
                },
                Outcome::Done(_) => {
                    self.frame_count = self.frame_count.wrapping_add(1);
                    self.taking = true;
                    self.order = Order::ReadGadget;
                },
            },
            Order::ReadGadget => match outcome {
                Outcome::Done(size) => {
                    self.order = if size > 0 {
                        Order::WriteController(size)
                    } else {
                        Order::ReadController
                    };
                },
                Outcome::Nothing => {
                    self.order = Order::ReadController;
                },
                Outcome::Failed => {
                    self.gadget_open = false;
                    self.order = Order::OpenGadget;
                },
            },
            Order::WriteController(_) => match outcome {
                Outcome::Failed => {
                    self.order = Order::Reconnect;
                },
                _ => {
                    self.order = Order::ReadController;
                },
            },
            Order::Reconnect => match outcome {
                Outcome::Failed => {
                    self.order = Order::Fail;
                },
                _ => {
                    self.order = Order::ReadController;
                },
            },
            Order::Fail => {},
        }
        self.order
    }
}

/// The longest time that a frame holds, in microseconds.
pub const LONGEST_US: u64 = 0xffff;

/// A frame as it is dumped once its report was written: when the console took it,
/// with the microseconds from reading it until then, as far as they fit; else with
/// 0, as they are not known.
pub fn forwarded(frame: Frame, outcome: Outcome, us: u64) -> (r: Frame)
    ensures
        r == (Frame {
            forward_us: if outcome is Done {
                if us <= LONGEST_US {
                    us as u16
                } else {
                    LONGEST_US as u16
                }
            } else {
                0
            },
            ..frame
        }),
        outcome is Done && us <= 65535 ==> r.forward_us == us,
        outcome is Done && us > 65535 ==> r.forward_us == 65535,
{
    let forward_us: u16 = match outcome {
        Outcome::Done(_) => if us <= LONGEST_US {
            us as u16
        } else {
            LONGEST_US as u16
        },
        _ => 0,
    };
    Frame { forward_us, ..frame }
}

/// Whether a report asks a sleeping console to wake: Home is held.
pub fn home_held(data: &[u8]) -> (r: bool)
    ensures
        r == (report::is_input(data@) && report::held(data@, HOME as int)),
{
    if data.len() < 12 {
        return false;
    }
    let input = data[0] == report::REPORT_FULL || data[0] == report::REPORT_REPLY;
    let (_, byte, mask) = report::button(HOME);
    input && data[byte] & mask != 0
}

/// The gadget is touched only while it is open, after every step.
pub proof fn law_gadget_open_when_used(p: Proxy, o: Outcome)
    requires
        proxy_ok(p),
    ensures
        proxy_ok(advanced(p, o)),
        advanced(p, o).order is Forward ==> advanced(p, o).gadget_open,
        advanced(p, o).order is ReadGadget ==> advanced(p, o).gadget_open,
{
}

/// Every report the controller sends is forwarded next, and a write that goes
/// well turns to the console's output: both directions take turns.
pub proof fn law_both_directions_take_turns(p: Proxy, size: usize, written: usize)
    requires
        p.order is ReadController,
        size > 0,
    ensures
        advanced(p, Outcome::Done(size)).order == Order::Forward(size),
        advanced(advanced(p, Outcome::Done(size)), Outcome::Done(written)).order
            == Order::ReadGadget,
        advanced(
            advanced(advanced(p, Outcome::Done(size)), Outcome::Done(written)),
            Outcome::Nothing,
        ).order == Order::ReadController,
{
}

/// A report that the console does not take is dropped: it is not counted, the gadget
/// stays open, and the next report of the controller is tried again.
pub proof fn law_sleeping_console_drops_reports(p: Proxy, size: usize)
    requires
        p.order == Order::Forward(size),
        proxy_ok(p),
    ensures
        advanced(p, Outcome::Nothing).frame_count == p.frame_count,
        advanced(p, Outcome::Nothing).gadget_open,
        advanced(advanced(p, Outcome::Nothing), Outcome::Nothing).order == Order::ReadController,
{
}

/// Only a controller that cannot be reconnected ends the loop; a gadget that
/// fails is opened again.
pub proof fn law_gadget_failures_recover(p: Proxy, o: Outcome)
    requires
        p.order !is Fail,
        advanced(p, o).order is Fail,
    ensures
        p.order is Reconnect,
        o is Failed,
{
}

/// A report that was read is forwarded, whole, and counted once the console took
/// it; what the console says goes to the controller.
pub proof fn law_reports_go_both_ways(p: Proxy, size: usize, o: Outcome)
    requires
        size > 0,
        p.frame_count < u64::MAX,
    ensures
        p.order is ReadController ==> advanced(p, Outcome::Done(size)).order == Order::Forward(
            size,
        ),
        p.order is ReadGadget ==> advanced(p, Outcome::Done(size)).order == Order::WriteController(
            size,
        ),
        advanced(p, o).frame_count == p.frame_count + (if p.order is Forward && o is Done {
            1int
        } else {
            0
        }),
        advanced(p, o).seq == p.seq,
        p.order is Forward && !(o is Failed) ==> advanced(p, o).taking == o is Done,
        !(p.order is Forward) ==> advanced(p, o).taking == p.taking,
{
}

/// A gadget that fails is closed and opened again, after a while where that
/// failed too; a controller that fails is looked for again, and only where it
/// cannot be found the proxy gives up.
pub proof fn law_failures(p: Proxy)
    ensures
        p.order is OpenGadget ==> advanced(p, Outcome::Failed).order is RetryLater,
        p.order is RetryLater ==> advanced(p, Outcome::Nothing).order is OpenGadget,
        p.order is Forward || p.order is ReadGadget ==> advanced(p, Outcome::Failed).order
            is OpenGadget && !advanced(p, Outcome::Failed).gadget_open,
        p.order is ReadController || p.order is WriteController ==> advanced(
            p,
            Outcome::Failed,
        ).order is Reconnect,
        p.order is Reconnect ==> advanced(p, Outcome::Failed).order is Fail && advanced(
            p,
            Outcome::Nothing,
        ).order is ReadController,
        p.order is OpenGadget ==> advanced(p, Outcome::Nothing).order is ReadController && advanced(
            p,
            Outcome::Nothing,
        ).gadget_open,
{
}

} // verus!
