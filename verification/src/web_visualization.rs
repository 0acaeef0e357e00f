//! The proxy's own controller view in a browser.
use crate::keystate::{ControllerState, Timestamp};
use crate::parser;
use crate::parser::ProConParser;
use crate::report;
use vstd::prelude::*;

verus! {

/// Data must have come within this time for the device to count as connected.
pub const CONNECTED_NS: u64 = 3_000_000_000;

/// What the page shows.
#[derive(Clone, Debug)]
pub struct WebVisualizationServer {
    /// The last state, if one came.
    pub controller_state: Option<ControllerState>,
    pub is_device_connected: bool,
}

/// Whether data carries a state for the page.
pub open spec fn is_state_data(data: Seq<u8>) -> bool {
    data.len() >= 12 && data[0] == report::REPORT_FULL
}

impl WebVisualizationServer {
    /// Nothing has come yet.
    pub fn new() -> (r: WebVisualizationServer)
        ensures
            r.controller_state is None,
            !r.is_device_connected,
    {
        WebVisualizationServer { controller_state: None, is_device_connected: false }
    }

    /// Data came from the controller: it is connected, and a full report gives
    /// the state. Returns whether the state is to be sent to the browsers.
    pub fn update_from_hid(&mut self, data: &[u8], timestamp: Timestamp) -> (r: bool)
        ensures
            final(self).is_device_connected,
            r == is_state_data(data@),
            r ==> (final(self).controller_state matches Some(s) && parser::is_state(data@, s)
                && s.timestamp == timestamp),
            !r ==> final(self).controller_state == old(self).controller_state,
    {
        self.is_device_connected = true;
        if data.len() > 0 && data[0] == report::REPORT_FULL {
            if let Ok(state) = ProConParser::parse_stamped(data, parser::MIN_REPORT, timestamp) {
                self.controller_state = Some(state);
                return true;
            }
        }
        false
    }

    /// What a new browser is told first: the state, if one came, and whether the
    /// controller is connected.
    pub fn greeting(&self) -> (r: Vec<Greeting>)
        ensures
            r@ == (if self.controller_state is Some {
                seq![Greeting::State, Greeting::Status(self.is_device_connected)]
            } else {
                seq![Greeting::Status(self.is_device_connected)]
            }),
    {
        let mut out: Vec<Greeting> = Vec::new();
        if self.controller_state.is_some() {
            out.push(Greeting::State);
        }
        out.push(Greeting::Status(self.is_device_connected));
        out
    }

    /// The connection changed; returns whether the browsers are to be told, which
    /// is when it is another than before.
    pub fn update_device_status(&mut self, connected: bool) -> (r: bool)
        ensures
            r == (old(self).is_device_connected != connected),
            final(self).is_device_connected == connected,
            final(self).controller_state == old(self).controller_state,
    {
        let changed = self.is_device_connected != connected;
        self.is_device_connected = connected;
        changed
    }
}

/// What happens on a browser's connection.
#[derive(Clone, Copy, Debug, PartialEq, Eq, Structural)]
pub enum SocketEvent {
    /// There is something for all browsers.
    Broadcast,
    /// There will be nothing more, or some was missed.
    BroadcastEnded,
    /// The browser closed the connection.
    Close,
    Ping,
    /// The browser sent something else.
    Other,
    /// The connection broke.
    Gone,
    PingDue,
}

/// What to do about it.
#[derive(Clone, Copy, Debug, PartialEq, Eq, Structural)]
pub enum SocketStep {
    /// Hand it on; a browser that cannot take it is left.
    Forward,
    Pong,
    /// Ask whether the browser is there; one that cannot take it is left.
    AskAlive,
    Nothing,
    Leave,
}

/// What to do about an event on a browser's connection.
pub fn socket_step(event: SocketEvent) -> (r: SocketStep)
    ensures
        r == (match event {
            SocketEvent::Broadcast => SocketStep::Forward,
            SocketEvent::BroadcastEnded => SocketStep::Leave,
            SocketEvent::Close => SocketStep::Leave,
            SocketEvent::Ping => SocketStep::Pong,
            SocketEvent::Other => SocketStep::Nothing,
            SocketEvent::Gone => SocketStep::Leave,
            SocketEvent::PingDue => SocketStep::AskAlive,
        }),
{
    match event {
        SocketEvent::Broadcast => SocketStep::Forward,
        SocketEvent::BroadcastEnded => SocketStep::Leave,
        SocketEvent::Close => SocketStep::Leave,
        SocketEvent::Ping => SocketStep::Pong,
        SocketEvent::Other => SocketStep::Nothing,
        SocketEvent::Gone => SocketStep::Leave,
        SocketEvent::PingDue => SocketStep::AskAlive,
    }
}

/// Whether a browser's connection goes on after a step, by whether what the step sent
/// could be sent: an answer to a ping may get lost, anything else may not.
pub fn stays(step: SocketStep, sent: bool) -> (r: bool)
    ensures
        r == (match step {
            SocketStep::Forward => sent,
            SocketStep::AskAlive => sent,
            SocketStep::Pong => true,
            SocketStep::Nothing => true,
            SocketStep::Leave => false,
        }),
{
    match step {
        SocketStep::Forward => sent,
        SocketStep::AskAlive => sent,
        SocketStep::Pong => true,
        SocketStep::Nothing => true,
        SocketStep::Leave => false,
    }
}

/// What a new browser is told, one after another.
#[derive(Clone, Copy, Debug, PartialEq, Eq, Structural)]
pub enum Greeting {
    /// The controller's last state.
    State,
    /// Whether the controller is connected.
    Status(bool),
}

/// Whether the device counts as connected by when data last came; it does when
/// that cannot be told.
pub fn is_device_connected(since_data_ns: Option<u64>) -> (r: bool)
    ensures
        r == (match since_data_ns {
            Some(t) => t < CONNECTED_NS,
            None => true,
        }),
        since_data_ns matches Some(t) ==> r == (t < 3_000_000_000),
{
    match since_data_ns {
        Some(t) => t < CONNECTED_NS,
        None => true,
    }
}

/// A state is read from full reports that hold the buttons and the sticks.
pub proof fn law_reports_with_a_state(data: Seq<u8>)
    ensures
        is_state_data(data) == (data.len() >= 12 && data[0] == 0x30),
{
}

} // verus!
