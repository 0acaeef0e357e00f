//! Playing loaded actions to the proxy.
//!
//! Each action is sent at its `t_ms`. Stopping, or reaching the end, closes the
//! connection and gives the controller back; pausing does too, until resuming
//! reconnects and carries on where it paused. Times are nanoseconds of a clock
//! that never goes back.
use crate::replay::Action;
use vstd::prelude::*;

verus! {

/// Longest sleep between checks for Stop, in nanoseconds.
pub const STOP_CHECK_NS: u64 = 50_000_000;

/// Nanoseconds per millisecond.
pub const NS_PER_MS: u64 = 1_000_000;

/// A loaded file of actions.
#[derive(Clone, Debug)]
pub struct Track {
    pub path: String,
    pub actions: Vec<Action>,
}

/// What the dashboard shows.
#[derive(Clone, Debug)]
pub struct PlayerStatus {
    /// Loaded file, if any.
    pub path: Option<String>,
    pub actions: usize,
    pub duration_ms: u64,
    pub position_ms: u64,
    pub playing: bool,
    /// Playing but paused, with the controller back.
    pub paused: bool,
    /// Combine with the controller instead of replacing it.
    pub mix: bool,
    pub error: Option<String>,
}

/// Why the player refuses.
#[derive(Clone, Copy, Debug, PartialEq, Eq, Structural)]
pub enum PlayerError {
    /// A replay must stop before another file is loaded.
    StopFirst,
    AlreadyPlaying,
    NothingLoaded,
    NothingPlaying,
}

/// Plays loaded actions to the proxy's replay port.
#[derive(Clone, Debug)]
pub struct Player {
    /// `host:port` of the proxy's replay port.
    pub address: String,
    pub track: Option<Track>,
    pub playing: bool,
    pub paused: bool,
    pub stop: bool,
    pub mix: bool,
    pub position_ms: u64,
    /// Why the last playback ended early.
    pub error: Option<String>,
}

/// When an action plays, in milliseconds.
pub open spec fn due_ms(a: Action) -> u64 {
    match a.t_ms {
        Some(t) => t,
        None => 0,
    }
}

impl Player {
    /// A player with nothing loaded.
    pub fn new(address: String, mix: bool) -> (r: Player)
        ensures
            r.address == address,
            r.mix == mix,
            r.track is None,
            !r.playing,
            !r.paused,
            !r.stop,
            r.position_ms == 0,
            r.error is None,
    {
        Player {
            address,
            track: None,
            playing: false,
            paused: false,
            stop: false,
            mix,
            position_ms: 0,
            error: None,
        }
    }

    /// Take the actions of a file, unless a replay is playing.
    pub fn load(&mut self, path: String, actions: Vec<Action>) -> (r: Result<(), PlayerError>)
        ensures
            match r {
                Ok(_) => !old(self).playing && *final(self) == (Player {
                    track: Some(Track { path, actions }),
                    position_ms: 0,
                    error: None,
                    ..*old(self)
                }),
                Err(e) => old(self).playing && e == PlayerError::StopFirst && *final(self) == *old(
                    self),
            },
    {
        if self.is_playing() {
            return Err(PlayerError::StopFirst);
        }
        self.track = Some(Track { path, actions });
        self.position_ms = 0;
        self.error = None;
        Ok(())
    }

    /// Path of the loaded file.
    pub fn path(&self) -> (r: Option<String>)
        ensures
            r is Some == self.track is Some,
            r matches Some(p) ==> p == self.track->0.path,
    {
        match &self.track {
            Some(t) => Some(t.path.clone()),
            None => None,
        }
    }

    /// Whether playing may start.
    pub fn check_play(&self) -> (r: Result<(), PlayerError>)
        ensures
            match r {
                Ok(_) => !self.playing && self.track is Some,
                Err(e) => if self.playing {
                    e == PlayerError::AlreadyPlaying
                } else {
                    self.track is None && e == PlayerError::NothingLoaded
                },
            },
    {
        if self.is_playing() {
            return Err(PlayerError::AlreadyPlaying);
        }
        if self.track.is_none() {
            return Err(PlayerError::NothingLoaded);
        }
        Ok(())
    }

    /// The proxy is connected: play the loaded actions from the beginning.
    pub fn play(&mut self) -> (r: Result<(), PlayerError>)
        ensures
            match r {
                Ok(_) => !old(self).playing && old(self).track is Some && *final(self) == (Player {
                    stop: false,
                    paused: false,
                    position_ms: 0,
                    playing: true,
                    error: None,
                    ..*old(self)
                }),
                Err(e) => *final(self) == *old(self) && if old(self).playing {
                    e == PlayerError::AlreadyPlaying
                } else {
                    old(self).track is None && e == PlayerError::NothingLoaded
                },
            },
    {
        match self.check_play() {
            Ok(_) => {},
            Err(e) => {
                return Err(e);
            },
        }
        self.stop = false;
        self.paused = false;
        self.position_ms = 0;
        self.playing = true;
        self.error = None;
        Ok(())
    }

    /// Stop playing; the controller takes over.
    pub fn stop(&mut self)
        ensures
            *final(self) == (Player { stop: true, ..*old(self) }),
    {
        self.stop = true;
    }

    /// Pause, handing the console back to the controller, or resume.
    pub fn set_paused(&mut self, paused: bool) -> (r: Result<(), PlayerError>)
        ensures
            match r {
                Ok(_) => old(self).playing && *final(self) == (Player { paused, ..*old(self) }),
                Err(e) => !old(self).playing && e == PlayerError::NothingPlaying && *final(self)
                    == *old(self),
            },
    {
        if !self.is_playing() {
            return Err(PlayerError::NothingPlaying);
        }
        self.paused = paused;
        Ok(())
    }

    /// Mix with the controller from the next action on.
    pub fn set_mix(&mut self, enabled: bool)
        ensures
            *final(self) == (Player { mix: enabled, ..*old(self) }),
    {
        self.mix = enabled;
    }

    pub fn mix(&self) -> (r: bool)
        ensures
            r == self.mix,
    {
        self.mix
    }

    /// An action as it is sent now: mixed as the player mixes at this moment.
    pub fn outgoing(&self, action: Action) -> (r: Action)
        ensures
            r == (Action { mix: self.mix, ..action }),
    {
        let mut out = action;
        out.mix = self.mix;
        out
    }

    pub fn is_playing(&self) -> (r: bool)
        ensures
            r == self.playing,
    {
        self.playing
    }

    /// The playing thread ended, with an error if it ended early.
    pub fn finished(&mut self, error: Option<String>)
        ensures
            *final(self) == (Player {
                playing: false,
                error: if error is Some {
                    error
                } else {
                    old(self).error
                },
                ..*old(self)
            }),
    {
        self.playing = false;
        if error.is_some() {
            self.error = error;
        }
    }

    /// Take a snapshot for the dashboard.
    pub fn status(&self) -> (r: PlayerStatus)
        ensures
            r.path is Some == self.track is Some,
            r.path matches Some(p) ==> p == self.track->0.path,
            r.actions == (match self.track {
                Some(t) => t.actions@.len(),
                None => 0,
            }),
            r.duration_ms == (match self.track {
                Some(t) => if t.actions@.len() > 0 {
                    due_ms(t.actions@.last())
                } else {
                    0
                },
                None => 0,
            }),
            r.position_ms == self.position_ms,
            r.playing == self.playing,
            r.paused == (self.playing && self.paused),
            r.mix == self.mix,
            r.error == self.error,
    {
        let mut actions: usize = 0;
        let mut duration_ms: u64 = 0;
        if let Some(t) = &self.track {
            actions = t.actions.len();
            if actions > 0 {
                duration_ms = match t.actions[actions - 1].t_ms {
                    Some(ms) => ms,
                    None => 0,
                };
            }
        }
        PlayerStatus {
            path: self.path(),
            actions,
            duration_ms,
            position_ms: self.position_ms,
            playing: self.is_playing(),
            paused: self.is_playing() && self.paused,
            mix: self.mix(),
            error: self.error.clone(),
        }
    }
}

/// Where a playback is.
#[derive(Clone, Copy, Debug)]
pub struct Playback {
    /// The next action to send.
    pub next: usize,
    /// Whether the proxy is connected.
    pub connected: bool,
    /// When time zero of the actions fell, moved later by every pause.
    pub start_ns: u64,
    /// When the pause that holds began.
    pub paused_at: Option<u64>,
}

/// What the playing thread does next.
#[derive(Clone, Copy, Debug, PartialEq, Eq, Structural)]
pub enum Step {
    /// All is sent, or Stop was pressed.
    Finish,
    /// Close the connection; the controller is back.
    Disconnect,
    /// Connect to the proxy.
    Connect,
    /// Sleep this many nanoseconds and ask again.
    Wait(u64),
    /// Send the action at this place.
    Send(usize),
}

/// Times of a playback are in order.
pub open spec fn playback_ok(p: Playback, now: u64) -> bool {
    &&& p.start_ns <= now
    &&& p.paused_at matches Some(t) ==> p.start_ns <= t <= now
}

/// A playback whose pause is over, if it is: time zero moves by the pause.
pub open spec fn after_pause(p: Playback, stop: bool, paused: bool, now: u64) -> Playback {
    match p.paused_at {
        Some(t) => if paused && !stop {
            p
        } else {
            Playback { start_ns: (p.start_ns + (now - t)) as u64, paused_at: None, ..p }
        },
        None => p,
    }
}

/// The next state of a playback and what to do.
pub open spec fn stepped(
    p: Playback,
    actions: Seq<Action>,
    stop: bool,
    paused: bool,
    now: u64,
) -> (Playback, Step) {
    let q = after_pause(p, stop, paused, now);
    if p.next >= actions.len() {
        (p, Step::Finish)
    } else if q.paused_at is Some {
        (q, Step::Wait(STOP_CHECK_NS))
    } else if stop {
        (q, Step::Finish)
    } else if paused {
        if q.connected {
            ((Playback { paused_at: Some(now), connected: false, ..q }), Step::Disconnect)
        } else {
            ((Playback { paused_at: Some(now), ..q }), Step::Wait(STOP_CHECK_NS))
        }
    } else if !q.connected {
        (q, Step::Connect)
    } else {
        let due = due_ms(actions[q.next as int]) * NS_PER_MS;
        let elapsed = now - q.start_ns;
        if elapsed > due {
            (q, Step::Send(q.next))
        } else if due - elapsed < STOP_CHECK_NS {
            (q, Step::Wait((due - elapsed) as u64))
        } else {
            (q, Step::Wait(STOP_CHECK_NS))
        }
    }
}

impl Playback {
    /// A connected playback of which nothing is sent.
    pub fn new(now: u64) -> (r: Playback)
        ensures
            r == (Playback { next: 0, connected: true, start_ns: now, paused_at: None }),
            playback_ok(r, now),
    {
        Playback { next: 0, connected: true, start_ns: now, paused_at: None }
    }

    /// Decide what to do now.
    pub fn step(&mut self, actions: &Vec<Action>, stop: bool, paused: bool, now: u64) -> (r: Step)
        requires
            playback_ok(*old(self), now),
        ensures
            (*final(self), r) == stepped(*old(self), actions@, stop, paused, now),
            playback_ok(*final(self), now),
    {
        if self.next >= actions.len() {
            return Step::Finish;
        }
        if let Some(t) = self.paused_at {
            if paused && !stop {
                return Step::Wait(STOP_CHECK_NS);
            }
            self.start_ns = self.start_ns + (now - t);
            self.paused_at = None;
        }
        if stop {
            return Step::Finish;
        }
        if paused {
            self.paused_at = Some(now);
            if self.connected {
                self.connected = false;
                return Step::Disconnect;
            }
            return Step::Wait(STOP_CHECK_NS);
        }
        if !self.connected {
            return Step::Connect;
        }
        let due: u128 = match actions[self.next].t_ms {
            Some(t) => t as u128 * NS_PER_MS as u128,
            None => 0,
        };
        let elapsed: u128 = (now - self.start_ns) as u128;
        if elapsed > due {
            Step::Send(self.next)
        } else if due - elapsed < STOP_CHECK_NS as u128 {
            Step::Wait((due - elapsed) as u64)
        } else {
            Step::Wait(STOP_CHECK_NS)
        }
    }

    /// The proxy is connected again.
    pub fn reconnected(&mut self)
        ensures
            *final(self) == (Playback { connected: true, ..*old(self) }),
    {
        self.connected = true;
    }

    /// An action was sent; the position is when it was due.
    pub fn sent(&mut self, player: &mut Player, action: &Action)
        requires
            old(self).next < usize::MAX,
        ensures
            *final(self) == (Playback { next: (old(self).next + 1) as usize, ..*old(self) }),
            *final(player) == (Player { position_ms: due_ms(*action), ..*old(player) }),
    {
        self.next = self.next + 1;
        player.position_ms = match action.t_ms {
            Some(t) => t,
            None => 0,
        };
    }
}

/// An action is sent only when it is the next one, after it is due, while
/// connected, and neither stopped nor paused.
pub proof fn law_sent_when_due(
    p: Playback,
    actions: Seq<Action>,
    stop: bool,
    paused: bool,
    now: u64,
    i: usize,
)
    requires
        playback_ok(p, now),
        stepped(p, actions, stop, paused, now).1 == Step::Send(i),
    ensures
        i == p.next,
        i < actions.len(),
        !stop,
        !paused,
        p.connected,
        now - stepped(p, actions, stop, paused, now).0.start_ns > match actions[i as int].t_ms {
            Some(t) => t * 1_000_000,
            None => 0,
        },
{
}

/// An action that is due is sent at the next step, once connected, unless the
/// replay is stopped or paused.
pub proof fn law_due_is_sent(p: Playback, actions: Seq<Action>, now: u64)
    requires
        playback_ok(p, now),
        p.next < actions.len(),
        p.connected,
        p.paused_at is None,
        now - p.start_ns > match actions[p.next as int].t_ms {
            Some(t) => t * 1_000_000,
            None => 0,
        },
    ensures
        stepped(p, actions, false, false, now) == (p, Step::Send(p.next)),
{
}

/// The timeline waits while paused: after a pause from `t1` to `t2`, what had
/// passed of it at `t1` is what has passed at `t2`.
pub proof fn law_pause_holds_the_timeline(p: Playback, actions: Seq<Action>, t1: u64, t2: u64)
    requires
        playback_ok(p, t1),
        p.paused_at is None,
        p.next < actions.len(),
        t1 <= t2,
    ensures
        ({
            let held = stepped(p, actions, false, true, t1).0;
            let back = stepped(held, actions, false, false, t2).0;
            &&& !held.connected
            &&& t2 - back.start_ns == t1 - p.start_ns
            &&& back.next == p.next
        }),
{
}

/// Stop ends a replay at the next step, whatever else holds.
pub proof fn law_stop_ends(p: Playback, actions: Seq<Action>, paused: bool, now: u64)
    requires
        playback_ok(p, now),
    ensures
        stepped(p, actions, true, paused, now).1 == Step::Finish,
{
}

/// What the playing thread finds when it asks what to do.
#[derive(Clone, Copy, Debug)]
pub struct Moment {
    pub stop: bool,
    pub paused: bool,
    pub mix: bool,
    pub now: u64,
}

/// A run after the first `n` moments, when every connection and every write goes
/// well: it connects and sends as the steps say, until one of them ends it. The
/// playback, the actions as they were sent, each with the place of its moment,
/// and whether the run is over.
pub open spec fn run_after(
    start: u64,
    actions: Seq<Action>,
    moments: Seq<Moment>,
    n: int,
) -> (Playback, Seq<(int, Action)>, bool)
    decreases n,
{
    if n <= 0 {
        (
            (Playback { next: 0, connected: true, start_ns: start, paused_at: None }),
            Seq::empty(),
            false,
        )
    } else {
        let (p, sent, over) = run_after(start, actions, moments, n - 1);
        let m = moments[n - 1];
        let (q, step) = stepped(p, actions, m.stop, m.paused, m.now);
        if over {
            (p, sent, over)
        } else {
            match step {
                Step::Finish => (q, sent, true),
                Step::Connect => ((Playback { connected: true, ..q }), sent, false),
                Step::Send(i) => (
                    (Playback { next: (q.next + 1) as usize, ..q }),
                    sent.push((n - 1, (Action { mix: m.mix, ..actions[i as int] }))),
                    false,
                ),
                _ => (q, sent, false),
            }
        }
    }
}

/// Moments come one after another, none before the start.
pub open spec fn moments_in_order(start: u64, moments: Seq<Moment>) -> bool {
    &&& forall|i: int| 0 <= i < moments.len() ==> start <= (#[trigger] moments[i]).now
    &&& forall|i: int, j: int|
        0 <= i <= j < moments.len() ==> (#[trigger] moments[i]).now <= (#[trigger] moments[j]).now
}

/// What is sent in a run is a beginning of the actions, in order and each once,
/// changed only in that each mixes as the player did at that moment. An action
/// is sent when a step says so: neither stopped nor paused, and after its time
/// of unpaused time has passed. A run that is over without a stop has sent all.
pub proof fn law_run_sends_in_order(
    start: u64,
    actions: Seq<Action>,
    moments: Seq<Moment>,
    n: int,
)
    requires
        0 <= n <= moments.len(),
        actions.len() < usize::MAX,
        moments_in_order(start, moments),
    ensures
        ({
            let (p, sent, over) = run_after(start, actions, moments, n);
            &&& sent.len() == p.next <= actions.len()
            &&& forall|i: int|
                #![trigger sent[i]]
                0 <= i < sent.len() ==> {
                    let k = sent[i].0;
                    let m = moments[k];
                    let before = run_after(start, actions, moments, k).0;
                    let step = stepped(before, actions, m.stop, m.paused, m.now);
                    &&& 0 <= k < n
                    &&& sent[i].1 == (Action { mix: m.mix, ..actions[i] })
                    &&& step.1 == Step::Send(i as usize)
                    &&& !m.stop
                    &&& !m.paused
                    &&& m.now - step.0.start_ns > match actions[i].t_ms {
                        Some(t) => t * 1_000_000,
                        None => 0,
                    }
                    &&& start <= step.0.start_ns
                }
            &&& forall|i: int, j: int|
                0 <= i < j < sent.len() ==> (#[trigger] sent[i]).0 < (#[trigger] sent[j]).0
            &&& over && (forall|k: int| 0 <= k < n ==> !(#[trigger] moments[k]).stop)
                ==> sent.len() == actions.len()
            &&& start <= p.start_ns
            &&& n > 0 ==> playback_ok(p, moments[n - 1].now)
        }),
    decreases n,
{
    if n > 0 {
        law_run_sends_in_order(start, actions, moments, n - 1);
        let (p, sent, over) = run_after(start, actions, moments, n - 1);
        let m = moments[n - 1];
        if n > 1 {
            assert(moments[n - 2].now <= m.now);
        }
        assert(start <= m.now);
        assert(playback_ok(p, m.now));
    }
}

/// Before an action is due the sender waits for the rest of its time, but looks
/// for a stop or a pause every 50 milliseconds; nothing else changes meanwhile.
pub proof fn law_waits_until_due(p: Playback, actions: Seq<Action>, now: u64, t: u64)
    requires
        playback_ok(p, now),
        p.next < actions.len(),
        p.connected,
        p.paused_at is None,
        actions[p.next as int].t_ms == Some(t),
        now - p.start_ns <= t * 1_000_000,
    ensures
        ({
            let (q, step) = stepped(p, actions, false, false, now);
            &&& q == p
            &&& step matches Step::Wait(w) && w == (if t * 1_000_000 - (now - p.start_ns)
                < 50_000_000 {
                t * 1_000_000 - (now - p.start_ns)
            } else {
                50_000_000
            })
        }),
{
}

/// A pause closes the connection and is looked at every 50 milliseconds; the end
/// of it opens the connection again before anything is sent.
pub proof fn law_pause_closes_and_opens(p: Playback, actions: Seq<Action>, t1: u64, t2: u64, t3: u64)
    requires
        playback_ok(p, t1),
        p.paused_at is None,
        p.connected,
        p.next < actions.len(),
        t1 <= t2 <= t3,
    ensures
        ({
            let one = stepped(p, actions, false, true, t1);
            let two = stepped(one.0, actions, false, true, t2);
            let three = stepped(two.0, actions, false, false, t3);
            &&& one.1 == Step::Disconnect
            &&& two == (one.0, Step::Wait(50_000_000))
            &&& three.1 == Step::Connect
            &&& three.0.paused_at is None
            &&& three.0.start_ns == p.start_ns + (t3 - t1)
        }),
{
}

/// Behind the last action the track is over.
pub proof fn law_ends_behind_the_last(
    p: Playback,
    actions: Seq<Action>,
    stop: bool,
    paused: bool,
    now: u64,
)
    requires
        playback_ok(p, now),
    ensures
        p.next >= actions.len() ==> stepped(p, actions, stop, paused, now).1 == Step::Finish,
        p.next < actions.len() && !stop ==> stepped(p, actions, stop, paused, now).1
            != Step::Finish,
{
}

} // verus!
