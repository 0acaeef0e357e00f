//! Recording sessions controlled from the dashboard.
//!
//! Each session is a new folder named after a path prefix and the start time.
//! Controller frames go to `controller.bin` inside it; pausing keeps the file
//! open and skips frames. Times are nanoseconds of a clock that never goes back.
use crate::frame;
use crate::paths;
use crate::text;
use vstd::prelude::*;

verus! {

/// File name of the controller data inside a session folder.
pub const CONTROLLER_FILE: &'static str = "controller.bin";

/// What the recorder is doing.
#[derive(Clone, Copy, Debug, PartialEq, Eq, Structural)]
pub enum RecorderState {
    /// No session is open.
    Idle,
    /// Frames are written to the session.
    Recording,
    /// The session is open but frames are skipped.
    Paused,
}

/// Snapshot of the recorder for the dashboard.
#[derive(Clone, Debug)]
pub struct RecorderStatus {
    pub state: RecorderState,
    /// Path prefix for new sessions.
    pub prefix: String,
    /// Folder the next session would get.
    pub next: String,
    /// Current session folder, or the last one once stopped.
    pub session: Option<String>,
    /// Bytes of controller data in `session`.
    pub bytes: u64,
    /// Frames written to `session`.
    pub frames: u64,
    /// Recording time of `session`, excluding pauses.
    pub elapsed_ms: u64,
    /// Write error that ended the last session.
    pub error: Option<String>,
}

/// Why the recorder refuses.
#[derive(Clone, Copy, Debug, PartialEq, Eq, Structural)]
pub enum RecorderError {
    AlreadyRecording,
    NotRecording,
    NotPaused,
    EmptyPrefix,
    /// The prefix's folder does not exist.
    NoFolder,
    /// The path cannot change while a session is open.
    StopFirst,
}

/// A session's controller file with start, pause, resume and stop.
#[derive(Clone, Debug)]
pub struct Recorder {
    /// Path prefix for new sessions.
    pub prefix: String,
    /// Whether the controller file is open.
    pub open: bool,
    /// Current or last session folder.
    pub session: Option<String>,
    /// Frames written to the session.
    pub frames: u64,
    /// Recording time before the last resume.
    pub active_ns: u64,
    /// Set while recording, cleared while paused or idle.
    pub resumed_at: Option<u64>,
    /// Write error that ended the last session.
    pub error: Option<String>,
}

/// The clock runs only while a session is open.
pub open spec fn recorder_ok(r: Recorder) -> bool {
    r.resumed_at is Some ==> r.open
}

/// What the recorder is doing.
pub open spec fn state_of(r: Recorder) -> RecorderState {
    if !r.open {
        RecorderState::Idle
    } else if r.resumed_at is Some {
        RecorderState::Recording
    } else {
        RecorderState::Paused
    }
}

/// Recording time until `now`, excluding pauses.
pub open spec fn elapsed_ns(r: Recorder, now: int) -> int {
    r.active_ns + match r.resumed_at {
        Some(since) => now - since,
        None => 0,
    }
}

/// `now` is not before the last resume, and the time so far is countable.
pub open spec fn clock_ok(r: Recorder, now: u64) -> bool {
    &&& r.resumed_at matches Some(since) ==> since <= now
    &&& elapsed_ns(r, now as int) <= u64::MAX
}

/// A session that starts.
pub open spec fn started(r: Recorder, dir: String, now: u64) -> Recorder {
    Recorder {
        open: true,
        session: Some(dir),
        frames: 0,
        active_ns: 0,
        resumed_at: Some(now),
        error: None,
        ..r
    }
}

/// The clock stops, its time added up.
pub open spec fn clock_stopped(r: Recorder, now: u64) -> Recorder {
    Recorder { active_ns: elapsed_ns(r, now as int) as u64, resumed_at: None, ..r }
}

/// The clock runs again.
pub open spec fn resumed(r: Recorder, now: u64) -> Recorder {
    Recorder { resumed_at: Some(now), ..r }
}

/// The session closes.
pub open spec fn stopped(r: Recorder, now: u64) -> Recorder {
    Recorder { open: false, ..clock_stopped(r, now) }
}

/// A typed prefix without white space around it and with a leading `~` that
/// means the home folder expanded.
pub open spec fn home_expanded(typed: Seq<char>, home: Option<Seq<char>>) -> Seq<char> {
    let p = text::trimmed(typed);
    match home {
        Some(h) => if p.len() > 0 && p[0] == '~' && (p.len() == 1 || p[1] == '/') {
            h + p.skip(1)
        } else {
            p
        },
        None => p,
    }
}

/// A prefix that names an existing folder gets a slash.
pub open spec fn folder_marked(p: Seq<char>, is_dir: bool) -> Seq<char> {
    if is_dir && (p.len() == 0 || p.last() != '/') {
        p.push('/')
    } else {
        p
    }
}

/// Expand a leading `~` of a typed path to the home folder.
pub fn expand_home(typed: &str, home: Option<&str>) -> (r: String)
    ensures
        r@ == home_expanded(
            typed@,
            match home {
                Some(h) => Some(h@),
                None => None,
            },
        ),
{
    let p = text::trim(typed);
    let a = text::chars_of(p.as_str());
    if let Some(h) = home {
        if a.len() > 0 && a[0] == '~' && (a.len() == 1 || a[1] == '/') {
            let rest = vstd::slice::slice_subrange(a.as_slice(), 1, a.len());
            let tail = text::text_of(rest);
            let mut out = h.to_owned();
            out.append(tail.as_str());
            assert(rest@ =~= p@.skip(1));
            return out;
        }
    }
    p
}

/// Clean up a typed prefix: expand `~`, and treat an existing folder as a folder
/// even without a trailing slash. `is_dir` says whether the expanded prefix is
/// a folder.
pub fn normalize_prefix(typed: &str, home: Option<&str>, is_dir: bool) -> (r: String)
    ensures
        r@ == folder_marked(
            home_expanded(
                typed@,
                match home {
                    Some(h) => Some(h@),
                    None => None,
                },
            ),
            is_dir,
        ),
{
    let mut p = expand_home(typed, home);
    let a = text::chars_of(p.as_str());
    if is_dir && (a.len() == 0 || a[a.len() - 1] != '/') {
        p.push('/');
    }
    p
}

/// A time stamp `YYYY-MM-DD_HH-MM-SS`; a year that four digits cannot hold has a
/// sign before it.
pub open spec fn is_stamp(s: Seq<char>) -> bool {
    let y = s.len() - 15;
    &&& 4 <= y <= 7
    &&& s[y] == '-' && s[y + 3] == '-' && s[y + 6] == '_' && s[y + 9] == '-' && s[y + 12] == '-'
    &&& y > 4 ==> s[0] == '+' || s[0] == '-'
    &&& forall|i: int|
        0 <= i < s.len() && i != y && i != y + 3 && i != y + 6 && i != y + 9 && i != y + 12 && (i > 0
            || y == 4) ==> '0' <= #[trigger] s[i] <= '9'
}

/// The local time as `YYYY-MM-DD_HH-MM-SS`, from `chrono::Local::now` and
/// `DateTime::format`. Its shape is stated; which time it is depends on the clock
/// and the machine's time zone. The call ends the program on a machine whose clock
/// is set before 1970, or whose time zone is a day or more off.
#[verifier::external_body]
pub(crate) fn local_stamp() -> (r: String)
    ensures
        is_stamp(r@),
{
    chrono::Local::now().format("%Y-%m-%d_%H-%M-%S").to_string()
}

/// Folder a session with this time stamp gets.
pub fn session_dir_at(prefix: &str, stamp: &str) -> (r: String)
    ensures
        r@ == prefix@ + stamp@,
{
    let mut out = prefix.to_owned();
    out.append(stamp);
    out
}

/// Folder a session starting now would get: the prefix and a time stamp.
pub fn session_dir(prefix: &str) -> (r: String)
    ensures
        prefix@.is_prefix_of(r@),
        is_stamp(r@.skip(prefix@.len() as int)),
{
    let stamp = local_stamp();
    let r = session_dir_at(prefix, stamp.as_str());
    assert(prefix@ =~= r@.subrange(0, prefix@.len() as int));
    assert(r@.skip(prefix@.len() as int) =~= stamp@);
    r
}

impl Recorder {
    /// An idle recorder that names sessions with a normalized prefix.
    pub fn new(prefix: String) -> (r: Recorder)
        ensures
            recorder_ok(r),
            r.prefix == prefix,
            state_of(r) == RecorderState::Idle,
            r.session is None,
            r.frames == 0,
            r.active_ns == 0,
            r.error is None,
    {
        Recorder {
            prefix,
            open: false,
            session: None,
            frames: 0,
            active_ns: 0,
            resumed_at: None,
            error: None,
        }
    }

    /// Whether a session may start, and if so the folder that must exist for it.
    pub fn check_start(&self) -> (r: Result<String, RecorderError>)
        ensures
            match r {
                Ok(parent) => !self.open && parent@ == paths::parent_of_prefix(self.prefix@),
                Err(e) => self.open && e == RecorderError::AlreadyRecording,
            },
    {
        if self.open {
            return Err(RecorderError::AlreadyRecording);
        }
        Ok(paths::prefix_parent(self.prefix.as_str()))
    }

    /// The session folder and its file exist: frames are written from now on.
    pub fn start(&mut self, dir: String, now: u64) -> (r: Result<(), RecorderError>)
        ensures
            match r {
                Ok(_) => !old(self).open && *final(self) == started(*old(self), dir, now)
                    && recorder_ok(*final(self)),
                Err(e) => old(self).open && e == RecorderError::AlreadyRecording && *final(self)
                    == *old(self),
            },
    {
        if self.open {
            return Err(RecorderError::AlreadyRecording);
        }
        self.open = true;
        self.session = Some(dir);
        self.frames = 0;
        self.active_ns = 0;
        self.resumed_at = Some(now);
        self.error = None;
        Ok(())
    }

    /// Move the running time into the total and stop the clock.
    fn stop_clock(&mut self, now: u64)
        requires
            clock_ok(*old(self), now),
        ensures
            *final(self) == clock_stopped(*old(self), now),
    {
        if let Some(since) = self.resumed_at {
            self.active_ns = self.active_ns + (now - since);
            self.resumed_at = None;
        }
    }

    /// Stop writing frames but keep the session open.
    pub fn pause(&mut self, now: u64) -> (r: Result<(), RecorderError>)
        requires
            recorder_ok(*old(self)),
            clock_ok(*old(self), now),
        ensures
            recorder_ok(*final(self)),
            match r {
                Ok(_) => state_of(*old(self)) == RecorderState::Recording && *final(self)
                    == clock_stopped(*old(self), now) && state_of(*final(self))
                    == RecorderState::Paused,
                Err(e) => state_of(*old(self)) != RecorderState::Recording && e
                    == RecorderError::NotRecording && *final(self) == *old(self),
            },
    {
        if self.resumed_at.is_none() {
            return Err(RecorderError::NotRecording);
        }
        self.stop_clock(now);
        Ok(())
    }

    /// Continue writing frames into the paused session.
    pub fn resume(&mut self, now: u64) -> (r: Result<(), RecorderError>)
        requires
            recorder_ok(*old(self)),
        ensures
            recorder_ok(*final(self)),
            match r {
                Ok(_) => state_of(*old(self)) == RecorderState::Paused && *final(self) == resumed(
                    *old(self),
                    now,
                ) && state_of(*final(self)) == RecorderState::Recording,
                Err(e) => state_of(*old(self)) != RecorderState::Paused && e
                    == RecorderError::NotPaused && *final(self) == *old(self),
            },
    {
        if !self.open || self.resumed_at.is_some() {
            return Err(RecorderError::NotPaused);
        }
        self.resumed_at = Some(now);
        Ok(())
    }

    /// Close the session.
    pub fn stop(&mut self, now: u64) -> (r: Result<(), RecorderError>)
        requires
            recorder_ok(*old(self)),
            clock_ok(*old(self), now),
        ensures
            recorder_ok(*final(self)),
            match r {
                Ok(_) => old(self).open && *final(self) == stopped(*old(self), now) && state_of(
                    *final(self),
                ) == RecorderState::Idle,
                Err(e) => !old(self).open && e == RecorderError::NotRecording && *final(self)
                    == *old(self),
            },
    {
        if !self.open {
            return Err(RecorderError::NotRecording);
        }
        self.open = false;
        self.stop_clock(now);
        Ok(())
    }

    /// Change the normalized path prefix for the next session; `folder_exists`
    /// says whether the prefix's folder does.
    pub fn set_prefix(&mut self, prefix: String, folder_exists: bool) -> (r: Result<
        (),
        RecorderError,
    >)
        ensures
            match r {
                Ok(_) => prefix@.len() > 0 && folder_exists && !old(self).open && *final(self) == (
                Recorder { prefix, ..*old(self) }),
                Err(e) => *final(self) == *old(self) && e == (if prefix@.len() == 0 {
                    RecorderError::EmptyPrefix
                } else if !folder_exists {
                    RecorderError::NoFolder
                } else {
                    RecorderError::StopFirst
                }) && (prefix@.len() == 0 || !folder_exists || old(self).open),
            },
    {
        if prefix.as_str().unicode_len() == 0 {
            return Err(RecorderError::EmptyPrefix);
        }
        if !folder_exists {
            return Err(RecorderError::NoFolder);
        }
        if self.open {
            return Err(RecorderError::StopFirst);
        }
        self.prefix = prefix;
        Ok(())
    }

    /// Path prefix for new sessions.
    pub fn prefix(&self) -> (r: String)
        ensures
            r == self.prefix,
    {
        self.prefix.clone()
    }

    /// Folder holding new sessions, for disk space checks.
    pub fn prefix_dir(&self) -> (r: String)
        ensures
            r@ == paths::parent_of_prefix(self.prefix@),
    {
        paths::prefix_parent(self.prefix.as_str())
    }

    /// Whether a frame that arrives is written.
    pub fn wants_frame(&self) -> (r: bool)
        ensures
            r == (state_of(*self) == RecorderState::Recording),
    {
        self.open && self.resumed_at.is_some()
    }

    /// A frame was written.
    pub fn frame_written(&mut self)
        requires
            old(self).frames < u64::MAX,
        ensures
            *final(self) == (Recorder { frames: (old(self).frames + 1) as u64, ..*old(self) }),
    {
        self.frames = self.frames + 1;
    }

    /// A frame could not be written: the session ends instead of failing every
    /// frame.
    pub fn write_failed(&mut self, message: String, now: u64)
        requires
            recorder_ok(*old(self)),
            clock_ok(*old(self), now),
        ensures
            recorder_ok(*final(self)),
            *final(self) == (Recorder { error: Some(message), ..stopped(*old(self), now) }),
    {
        self.error = Some(message);
        self.open = false;
        self.stop_clock(now);
    }

    /// Take a snapshot for the dashboard; `next` is the folder the next session
    /// would get.
    pub fn status(&self, next: String, now: u64) -> (r: RecorderStatus)
        requires
            clock_ok(*self, now),
            self.frames * 80 <= u64::MAX,
        ensures
            r.state == state_of(*self),
            r.prefix == self.prefix,
            r.next == next,
            r.session == self.session,
            r.bytes == self.frames * 80,
            r.frames == self.frames,
            r.elapsed_ms == elapsed_ns(*self, now as int) / 1_000_000,
            r.error == self.error,
    {
        let state = if !self.open {
            RecorderState::Idle
        } else if self.resumed_at.is_some() {
            RecorderState::Recording
        } else {
            RecorderState::Paused
        };
        let elapsed: u64 = match self.resumed_at {
            Some(since) => self.active_ns + (now - since),
            None => self.active_ns,
        };
        RecorderStatus {
            state,
            prefix: self.prefix.clone(),
            next,
            session: self.session.clone(),
            bytes: self.frames * frame::FRAME_SIZE as u64,
            frames: self.frames,
            elapsed_ms: elapsed / 1_000_000,
            error: self.error.clone(),
        }
    }
}

/// The time of a pause does not count: after pausing at `t1` and resuming at
/// `t2`, the recording time at `t3` is what it was at `t1` plus what passed
/// since `t2`.
pub proof fn law_pauses_do_not_count(r: Recorder, t1: u64, t2: u64, t3: u64)
    requires
        state_of(r) == RecorderState::Recording,
        clock_ok(r, t1),
        t1 <= t2 <= t3,
    ensures
        elapsed_ns(resumed(clock_stopped(r, t1), t2), t3 as int) == elapsed_ns(r, t1 as int) + (t3
            - t2),
        elapsed_ns(clock_stopped(r, t1), t2 as int) == elapsed_ns(r, t1 as int),
{
}

/// A session that starts counts from zero and keeps the prefix; stopping keeps
/// its folder and its frames for the dashboard.
pub proof fn law_session_life(r: Recorder, dir: String, t0: u64, t1: u64)
    requires
        t0 <= t1,
    ensures
        elapsed_ns(started(r, dir, t0), t1 as int) == t1 - t0,
        started(r, dir, t0).prefix == r.prefix,
        stopped(started(r, dir, t0), t1).session == Some(dir),
        stopped(started(r, dir, t0), t1).frames == 0,
        state_of(stopped(started(r, dir, t0), t1)) == RecorderState::Idle,
        elapsed_ns(stopped(started(r, dir, t0), t1), t1 as int) == t1 - t0,
{
}

/// A prefix typed with the home sign in front, alone or before a slash, stands in
/// the home folder; any other, and every one where no home is known, is what was
/// typed without the space round it.
pub proof fn law_home_is_put_in_front(typed: Seq<char>, home: Seq<char>)
    requires
        text::trimmed(typed) == typed,
    ensures
        home_expanded(typed, None) == typed,
        typed == seq!['~'] ==> home_expanded(typed, Some(home)) == home,
        typed.len() > 1 && typed[0] == '~' && typed[1] == '/' ==> home_expanded(typed, Some(home))
            == home + typed.skip(1),
        typed.len() > 1 && typed[0] == '~' && typed[1] != '/' ==> home_expanded(typed, Some(home))
            == typed,
        typed.len() > 0 && typed[0] != '~' ==> home_expanded(typed, Some(home)) == typed,
{
    assert(seq!['~'].skip(1) =~= Seq::empty());
    assert(home + Seq::empty() =~= home);
}

/// A folder's prefix ends with a slash, one and no second; another prefix stays.
pub proof fn law_folders_end_with_a_slash(p: Seq<char>)
    ensures
        folder_marked(p, false) == p,
        folder_marked(p, true).len() > 0 && folder_marked(p, true).last() == '/',
        folder_marked(p, true) == p || folder_marked(p, true) == p.push('/'),
        p.len() > 0 && p.last() == '/' ==> folder_marked(p, true) == p,
{
}

/// The state tells whether the session is open and its clock runs.
pub proof fn law_states(r: Recorder, dir: String, t0: u64, t1: u64, t2: u64)
    requires
        t0 <= t1 <= t2,
    ensures
        ({
            let a = started(r, dir, t0);
            let b = clock_stopped(a, t1);
            let c = resumed(b, t2);
            &&& state_of(a) == RecorderState::Recording
            &&& state_of(b) == RecorderState::Paused
            &&& state_of(c) == RecorderState::Recording
            &&& state_of(stopped(a, t1)) == RecorderState::Idle
            &&& state_of(stopped(b, t2)) == RecorderState::Idle
            &&& b.active_ns == t1 - t0
            &&& c.active_ns == t1 - t0
            &&& stopped(c, t2).active_ns == t1 - t0
            &&& b.frames == a.frames && c.frames == a.frames && a.frames == 0
            &&& c.session == Some(dir) && c.prefix == r.prefix
        }),
{
}

} // verus!
