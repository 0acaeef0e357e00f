//! Sessions: controller recording and video capture started and stopped together.
//!
//! A session folder holds `controller.bin`, `video-01.mkv`, `video-02.mkv`, …
//! (one per stretch between pauses) and `session.json`, which describes how to
//! line them up.
use crate::config::VideoConfig;
use crate::paths;
use crate::recorder;
use crate::recorder::{Recorder, RecorderError, RecorderState};
use crate::text;
use crate::video;
use crate::video::{Restart, Video, VideoError};
use vstd::prelude::*;

verus! {

/// Dashboard settings kept across restarts.
#[derive(Clone, Debug)]
pub struct SavedState {
    pub prefix: Option<String>,
    /// Video input id; empty for none.
    pub video_input: Option<String>,
    /// Recorded height in pixels.
    pub video_height: Option<u32>,
    /// Recorded frame rate.
    pub video_fps: Option<u32>,
    pub preview_matches_recording: Option<bool>,
    pub record_audio: Option<bool>,
    pub replay_mix: Option<bool>,
    pub replay_path: Option<String>,
}

/// Command sent by the dashboard.
#[derive(Clone, Debug)]
pub enum Command {
    Start,
    Pause,
    Resume,
    Stop,
    SetPrefix { prefix: String },
    SetVideoInput { input: String },
}

/// One recorded video file of the session.
#[derive(Clone, Debug)]
pub struct Segment {
    pub file: String,
    /// Unix milliseconds of the first frame.
    pub start_unix_ms: Option<u64>,
}

/// The session being recorded, or the last one.
#[derive(Clone, Debug)]
pub struct Session {
    pub dir: String,
    pub started_at_ms: u64,
    pub stopped_at_ms: Option<u64>,
    pub video_input: Option<String>,
    pub segments: Vec<Segment>,
    /// Frames the link had dropped when the session started.
    pub dropped_before: u64,
}

/// Why a command is refused.
#[derive(Clone, Copy, Debug, PartialEq, Eq, Structural)]
pub enum StudioError {
    Recorder(RecorderError),
    Video(VideoError),
    /// A recording must stop before the video input changes.
    StopFirst,
}

/// Session coordinator.
#[derive(Clone, Debug)]
pub struct Studio {
    pub recorder: Recorder,
    pub video: Video,
    pub session: Option<Session>,
}

/// What is left to do for a command.
#[derive(Clone, Copy, Debug, PartialEq, Eq, Structural)]
pub struct Effects {
    /// Restart ffmpeg this way.
    pub restart: Option<Restart>,
    /// Describe the session in `session.json`.
    pub write_session: bool,
    /// Save the dashboard settings.
    pub save_state: bool,
}

/// The name of a session's video file.
pub open spec fn segment_name_of(n: nat, extension: Seq<char>) -> Seq<char> {
    "video-"@ + text::two_digit_text(n) + "."@ + extension
}

/// The name of a session's video file, counted from 1.
pub fn segment_name(n: usize, extension: &str) -> (r: String)
    ensures
        r@ == segment_name_of(n as nat, extension@),
{
    let number = text::two_digits(n as u64);
    let mut name = text::concat("video-", number.as_str());
    name.append(".");
    name.append(extension);
    name
}

/// A segment by its texts.
pub open spec fn segment_view(s: Segment) -> (Seq<char>, Option<u64>) {
    (s.file@, s.start_unix_ms)
}

/// The segments of a session.
pub open spec fn segments_view(s: Session) -> Seq<(Seq<char>, Option<u64>)> {
    s.segments@.map_values(|g: Segment| segment_view(g))
}

/// A session but for its segments and its end.
pub open spec fn same_session(a: Session, b: Session) -> bool {
    &&& a.dir == b.dir
    &&& a.started_at_ms == b.started_at_ms
    &&& a.video_input == b.video_input
    &&& a.dropped_before == b.dropped_before
}

/// The segments after the next video file was started, where there is an input.
pub open spec fn with_next_segment(
    segments: Seq<(Seq<char>, Option<u64>)>,
    extension: Seq<char>,
    has_input: bool,
) -> Seq<(Seq<char>, Option<u64>)> {
    if has_input {
        segments.push((segment_name_of((segments.len() + 1) as nat, extension), None))
    } else {
        segments
    }
}

/// The segments after a recording that started at `started` was finished: the
/// last one gets the time unless it has one.
pub open spec fn with_finished(
    segments: Seq<(Seq<char>, Option<u64>)>,
    started: Option<u64>,
) -> Seq<(Seq<char>, Option<u64>)> {
    if segments.len() > 0 && segments.last().1 is None {
        segments.drop_last().push((segments.last().0, started))
    } else {
        segments
    }
}

/// The time of the first frame of what the video records.
pub open spec fn recorded_start(v: Video) -> Option<u64> {
    if v.recording is Some {
        v.started_at_ms
    } else {
        None
    }
}

/// A session's video that records into the next file, where there is an input.
pub open spec fn recording_next(before: Video, after: Video, dir: Seq<char>, n: nat) -> bool {
    if before.input is Some {
        &&& after.recording matches Some(p)
        &&& p@ == paths::joined_path(dir, segment_name_of(n, before.config.extension@))
        &&& after == video::restarting((Video { recording: after.recording, ..before }))
    } else {
        after == before
    }
}

/// A session's video that records no more.
pub open spec fn recording_ended(before: Video, after: Video) -> bool {
    if before.recording is Some {
        after == video::restarting((Video { recording: None, ..before }))
    } else {
        after == before
    }
}

/// Settings chosen on the dashboard win over the configuration file.
#[derive(Clone, Debug)]
pub struct StartSettings {
    pub prefix: String,
    pub input: Option<String>,
    pub record_height: u32,
    pub record_fps: u32,
    pub preview_matches_recording: bool,
    pub record_audio: bool,
    pub replay_mix: bool,
}

/// A text unless it is empty.
pub fn non_empty(s: String) -> (r: Option<String>)
    ensures
        r == (if s@.len() > 0 {
            Some(s)
        } else {
            None
        }),
{
    if s.as_str().unicode_len() > 0 {
        Some(s)
    } else {
        None
    }
}

/// The settings to start with.
pub fn start_settings(saved: SavedState, prefix: String, video: &VideoConfig) -> (r: StartSettings)
    ensures
        r.prefix == (match saved.prefix {
            Some(p) => p,
            None => prefix,
        }),
        ({
            let id = match saved.video_input {
                Some(i) => i,
                None => video.input,
            };
            r.input == (if id@.len() > 0 {
                Some(id)
            } else {
                None
            })
        }),
        r.record_height == (match saved.video_height {
            Some(h) => h,
            None => video.record_height,
        }),
        r.record_fps == (match saved.video_fps {
            Some(f) => f,
            None => video.record_fps,
        }),
        r.preview_matches_recording == (saved.preview_matches_recording == Some(true)),
        r.record_audio == (saved.record_audio != Some(false)),
        r.replay_mix == (saved.replay_mix == Some(true)),
{
    let input = match saved.video_input {
        Some(i) => i,
        None => video.input.clone(),
    };
    StartSettings {
        prefix: match saved.prefix {
            Some(p) => p,
            None => prefix,
        },
        input: non_empty(input),
        record_height: match saved.video_height {
            Some(h) => h,
            None => video.record_height,
        },
        record_fps: match saved.video_fps {
            Some(f) => f,
            None => video.record_fps,
        },
        preview_matches_recording: match saved.preview_matches_recording {
            Some(b) => b,
            None => false,
        },
        record_audio: match saved.record_audio {
            Some(b) => b,
            None => true,
        },
        replay_mix: match saved.replay_mix {
            Some(b) => b,
            None => false,
        },
    }
}

/// What the dashboard's settings are saved as.
pub fn saved_settings(prefix: String, input: Option<String>) -> (r: (String, String))
    ensures
        r.0 == prefix,
        r.1@ == (match input {
            Some(i) => i@,
            None => Seq::empty(),
        }),
{
    let id = match input {
        Some(i) => i,
        None => String::new(),
    };
    (prefix, id)
}

/// Record the next video file of a session, if there is a video input.
fn start_segment(video: &mut Video, session: &mut Session) -> (r: Option<Restart>)
    requires
        old(session).segments@.len() < usize::MAX,
    ensures
        recording_next(
            *old(video),
            *final(video),
            old(session).dir@,
            (old(session).segments@.len() + 1) as nat,
        ),
        r == (if old(video).input is Some {
            Some(video::restart_of(*old(video)))
        } else {
            None
        }),
        segments_view(*final(session)) == with_next_segment(
            segments_view(*old(session)),
            old(video).config.extension@,
            old(video).input is Some,
        ),
        same_session(*final(session), *old(session)),
        final(session).stopped_at_ms == old(session).stopped_at_ms,
{
    let ghost before = segments_view(*session);
    let extension = video.extension();
    let name = segment_name(session.segments.len() + 1, extension.as_str());
    let path = paths::join_path(session.dir.as_str(), name.as_str());
    let restart = video.start_recording(path);
    if restart.is_some() {
        session.segments.push(Segment { file: name, start_unix_ms: None });
        assert(segments_view(*session) =~= with_next_segment(
            before,
            old(video).config.extension@,
            true,
        ));
    }
    restart
}

/// Finish the video file of a session.
fn finish_segment(video: &mut Video, session: &mut Session) -> (r: Option<Restart>)
    ensures
        recording_ended(*old(video), *final(video)),
        r == (if old(video).recording is Some {
            Some(video::restart_of(*old(video)))
        } else {
            None
        }),
        segments_view(*final(session)) == with_finished(
            segments_view(*old(session)),
            recorded_start(*old(video)),
        ),
        same_session(*final(session), *old(session)),
        final(session).stopped_at_ms == old(session).stopped_at_ms,
{
    let ghost before = segments_view(*session);
    let ended = video.stop_recording();
    let started = match ended {
        Some(e) => e.0,
        None => None,
    };
    let restart = match ended {
        Some(e) => Some(e.1),
        None => None,
    };
    let n: usize = session.segments.len();
    if n > 0 {
        assert(before.last() == segment_view(session.segments@[n - 1]));
        if session.segments[n - 1].start_unix_ms.is_none() {
            let last = session.segments.remove(n - 1);
            session.segments.push(Segment { file: last.file, start_unix_ms: started });
            assert(segments_view(*session) =~= with_finished(before, started));
        }
    }
    restart
}

/// What starting a session comes to.
pub open spec fn is_start(
    before: Studio,
    after: Studio,
    dir: String,
    now_ns: u64,
    now_ms: u64,
    dropped: u64,
    r: Result<(Session, Effects), StudioError>,
) -> bool {
    &&& after.session == before.session
    &&& match r {
        Ok(s) => {
            &&& !before.recorder.open
            &&& after.recorder == recorder::started(before.recorder, dir, now_ns)
            &&& recording_next(before.video, after.video, dir@, 1)
            &&& s.0.dir == dir
            &&& s.0.started_at_ms == now_ms
            &&& s.0.stopped_at_ms is None
            &&& s.0.video_input == before.video.input
            &&& s.0.dropped_before == dropped
            &&& segments_view(s.0) == with_next_segment(
                Seq::empty(),
                before.video.config.extension@,
                before.video.input is Some,
            )
            &&& s.1 == (Effects {
                restart: if before.video.input is Some {
                    Some(video::restart_of(before.video))
                } else {
                    None
                },
                write_session: true,
                save_state: false,
            })
        },
        Err(e) => before.recorder.open && e == StudioError::Recorder(
            RecorderError::AlreadyRecording,
        ) && after == before,
    }
}

/// What pausing comes to.
pub open spec fn is_pause(
    before: Studio,
    after: Studio,
    now_ns: u64,
    r: Result<Effects, StudioError>,
) -> bool {
    match r {
        Ok(effects) => {
            &&& recorder::state_of(before.recorder) == RecorderState::Recording
            &&& after.recorder == recorder::clock_stopped(before.recorder, now_ns)
            &&& effects.write_session == before.session is Some
            &&& !effects.save_state
            &&& segment_finished(before, after, effects)
            &&& after.session matches Some(s) ==> s.stopped_at_ms == before.session->0.stopped_at_ms
        },
        Err(e) => recorder::state_of(before.recorder) != RecorderState::Recording && e
            == StudioError::Recorder(RecorderError::NotRecording) && after
            == before,
    }
}

/// What resuming comes to.
pub open spec fn is_resume(
    before: Studio,
    after: Studio,
    now_ns: u64,
    r: Result<Effects, StudioError>,
) -> bool {
    match r {
        Ok(effects) => {
            &&& recorder::state_of(before.recorder) == RecorderState::Paused
            &&& after.recorder == recorder::resumed(before.recorder, now_ns)
            &&& effects.write_session == before.session is Some
            &&& !effects.save_state
            &&& segment_started(before, after, effects)
        },
        Err(e) => recorder::state_of(before.recorder) != RecorderState::Paused && e
            == StudioError::Recorder(RecorderError::NotPaused) && after == before,
    }
}

/// What stopping comes to.
pub open spec fn is_stop(
    before: Studio,
    after: Studio,
    now_ns: u64,
    now_ms: u64,
    r: Result<Effects, StudioError>,
) -> bool {
    match r {
        Ok(effects) => {
            &&& before.recorder.open
            &&& after.recorder == recorder::stopped(before.recorder, now_ns)
            &&& effects.write_session == before.session is Some
            &&& !effects.save_state
            &&& segment_finished(before, after, effects)
            &&& after.session matches Some(s) ==> s.stopped_at_ms == Some(now_ms)
        },
        Err(e) => !before.recorder.open && e == StudioError::Recorder(
            RecorderError::NotRecording,
        ) && after == before,
    }
}

/// What changing the path prefix comes to.
pub open spec fn is_set_prefix(
    before: Studio,
    after: Studio,
    prefix: String,
    folder_exists: bool,
    r: Result<Effects, StudioError>,
) -> bool {
    match r {
        Ok(effects) => prefix@.len() > 0 && folder_exists && !before.recorder.open
            && after == (Studio {
            recorder: (Recorder { prefix, ..before.recorder }),
            ..before
        }) && effects == (Effects { restart: None, write_session: false, save_state: true }),
        Err(e) => after == before && e == StudioError::Recorder(
            if prefix@.len() == 0 {
                RecorderError::EmptyPrefix
            } else if !folder_exists {
                RecorderError::NoFolder
            } else {
                RecorderError::StopFirst
            },
        ) && (prefix@.len() == 0 || !folder_exists || before.recorder.open),
    }
}

/// What switching the video input comes to.
pub open spec fn is_set_video_input(
    before: Studio,
    after: Studio,
    input: String,
    r: Result<Effects, StudioError>,
) -> bool {
    let id = if input@.len() > 0 {
        Some(input)
    } else {
        None
    };
    let chosen = Video { input: id, ..before.video };
    match r {
        Ok(effects) => !before.recorder.open && before.video.recording is None
            && after == (Studio {
            video: video::restarting(chosen),
            ..before
        }) && effects == (Effects {
            restart: Some(video::restart_of(chosen)),
            write_session: false,
            save_state: true,
        }),
        Err(e) => after == before && (if before.recorder.open {
            e == StudioError::StopFirst
        } else {
            before.video.recording is Some && e == StudioError::Video(
                VideoError::StopFirst,
            )
        }),
    }
}

/// What a command finds outside when it runs.
#[derive(Clone, Debug)]
pub struct Outside {
    /// The folder that was made for a session that starts.
    pub dir: String,
    /// Whether the folder of a new path prefix exists.
    pub folder_exists: bool,
    pub now_ns: u64,
    pub now_ms: u64,
    /// Frames that the link dropped so far.
    pub dropped: u64,
}

/// What a command comes to: what is left to do, and the session that it started, if
/// it did.
pub open spec fn is_run(
    before: Studio,
    after: Studio,
    command: Command,
    at: Outside,
    r: Result<(Option<Session>, Effects), StudioError>,
) -> bool {
    let done = match r {
        Ok((_, effects)) => Ok(effects),
        Err(e) => Err(e),
    };
    &&& r matches Ok(d) ==> (d.0 is Some == command is Start)
    &&& match command {
        Command::Start => {
            let started = match r {
                Ok(d) => Ok((d.0->0, d.1)),
                Err(e) => Err(e),
            };
            is_start(before, after, at.dir, at.now_ns, at.now_ms, at.dropped, started)
        },
        Command::Pause => is_pause(before, after, at.now_ns, done),
        Command::Resume => is_resume(before, after, at.now_ns, done),
        Command::Stop => is_stop(before, after, at.now_ns, at.now_ms, done),
        Command::SetPrefix { prefix } => is_set_prefix(
            before,
            after,
            prefix,
            at.folder_exists,
            done,
        ),
        Command::SetVideoInput { input } => is_set_video_input(before, after, input, done),
    }
}

impl Studio {
    /// A studio without a session.
    pub fn new(recorder: Recorder, video: Video) -> (r: Studio)
        ensures
            r == (Studio { recorder, video, session: None }),
    {
        Studio { recorder, video, session: None }
    }

    /// Start a session in a folder that was made for it. The session it returns
    /// is the studio's once it is described on disk.
    pub fn start(
        &mut self,
        dir: String,
        now_ns: u64,
        now_ms: u64,
        dropped: u64,
    ) -> (r: Result<(Session, Effects), StudioError>)
        ensures
            is_start(*old(self), *final(self), dir, now_ns, now_ms, dropped, r),
    {
        match self.recorder.start(dir.clone(), now_ns) {
            Ok(_) => {},
            Err(e) => {
                return Err(StudioError::Recorder(e));
            },
        }
        let mut session = Session {
            dir,
            started_at_ms: now_ms,
            stopped_at_ms: None,
            video_input: self.video.input(),
            segments: Vec::new(),
            dropped_before: dropped,
        };
        assert(segments_view(session) =~= Seq::empty());
        let restart = start_segment(&mut self.video, &mut session);
        Ok((session, Effects { restart, write_session: true, save_state: false }))
    }

    /// The new session is described on disk.
    pub fn adopt(&mut self, session: Session)
        ensures
            *final(self) == (Studio { session: Some(session), ..*old(self) }),
    {
        self.session = Some(session);
    }

    /// Stop writing frames and finish the video file; the session stays open.
    pub fn pause(&mut self, now_ns: u64) -> (r: Result<Effects, StudioError>)
        requires
            recorder::recorder_ok(old(self).recorder),
            recorder::clock_ok(old(self).recorder, now_ns),
        ensures
            recorder::recorder_ok(final(self).recorder),
            is_pause(*old(self), *final(self), now_ns, r),
    {
        match self.recorder.pause(now_ns) {
            Ok(_) => {},
            Err(e) => {
                return Err(StudioError::Recorder(e));
            },
        }
        let mut effects = Effects { restart: None, write_session: false, save_state: false };
        if let Some(mut current) = self.session.take() {
            effects.restart = finish_segment(&mut self.video, &mut current);
            effects.write_session = true;
            self.session = Some(current);
        }
        Ok(effects)
    }

    /// Continue writing frames, with the next video file.
    pub fn resume(&mut self, now_ns: u64) -> (r: Result<Effects, StudioError>)
        requires
            recorder::recorder_ok(old(self).recorder),
            old(self).session matches Some(s) ==> s.segments@.len() < usize::MAX,
        ensures
            recorder::recorder_ok(final(self).recorder),
            is_resume(*old(self), *final(self), now_ns, r),
    {
        match self.recorder.resume(now_ns) {
            Ok(_) => {},
            Err(e) => {
                return Err(StudioError::Recorder(e));
            },
        }
        let mut effects = Effects { restart: None, write_session: false, save_state: false };
        if let Some(mut current) = self.session.take() {
            effects.restart = start_segment(&mut self.video, &mut current);
            effects.write_session = true;
            self.session = Some(current);
        }
        Ok(effects)
    }

    /// Close the session.
    pub fn stop(&mut self, now_ns: u64, now_ms: u64) -> (r: Result<Effects, StudioError>)
        requires
            recorder::recorder_ok(old(self).recorder),
            recorder::clock_ok(old(self).recorder, now_ns),
        ensures
            recorder::recorder_ok(final(self).recorder),
            is_stop(*old(self), *final(self), now_ns, now_ms, r),
    {
        match self.recorder.stop(now_ns) {
            Ok(_) => {},
            Err(e) => {
                return Err(StudioError::Recorder(e));
            },
        }
        let mut effects = Effects { restart: None, write_session: false, save_state: false };
        if let Some(mut current) = self.session.take() {
            effects.restart = finish_segment(&mut self.video, &mut current);
            effects.write_session = true;
            current.stopped_at_ms = Some(now_ms);
            self.session = Some(current);
        }
        Ok(effects)
    }

    /// Change the path prefix; see [`Recorder::set_prefix`].
    pub fn set_prefix(&mut self, prefix: String, folder_exists: bool) -> (r: Result<
        Effects,
        StudioError,
    >)
        ensures
            is_set_prefix(*old(self), *final(self), prefix, folder_exists, r),
    {
        match self.recorder.set_prefix(prefix, folder_exists) {
            Ok(_) => Ok(Effects { restart: None, write_session: false, save_state: true }),
            Err(e) => Err(StudioError::Recorder(e)),
        }
    }

    /// Switch to another video input; an empty one is none. Not while a session
    /// is open.
    pub fn set_video_input(&mut self, input: String) -> (r: Result<Effects, StudioError>)
        ensures
            is_set_video_input(*old(self), *final(self), input, r),
    {
        if self.recorder.open {
            return Err(StudioError::StopFirst);
        }
        match self.video.set_input(non_empty(input)) {
            Ok(restart) => Ok(
                Effects { restart: Some(restart), write_session: false, save_state: true },
            ),
            Err(e) => Err(StudioError::Video(e)),
        }
    }

    /// Apply a dashboard command. A session that it starts is the studio's once it is
    /// described on disk; a prefix is given as it was normalized.
    pub fn run(&mut self, command: Command, at: Outside) -> (r: Result<
        (Option<Session>, Effects),
        StudioError,
    >)
        requires
            recorder::recorder_ok(old(self).recorder),
            recorder::clock_ok(old(self).recorder, at.now_ns),
            old(self).session matches Some(s) ==> s.segments@.len() < usize::MAX,
        ensures
            recorder::recorder_ok(final(self).recorder),
            is_run(*old(self), *final(self), command, at, r),
    {
        let done = match command {
            Command::Start => {
                return match self.start(at.dir, at.now_ns, at.now_ms, at.dropped) {
                    Ok(s) => Ok((Some(s.0), s.1)),
                    Err(e) => Err(e),
                };
            },
            Command::Pause => self.pause(at.now_ns),
            Command::Resume => self.resume(at.now_ns),
            Command::Stop => self.stop(at.now_ns, at.now_ms),
            Command::SetPrefix { prefix } => self.set_prefix(prefix, at.folder_exists),
            Command::SetVideoInput { input } => self.set_video_input(input),
        };
        match done {
            Ok(effects) => Ok((None, effects)),
            Err(e) => Err(e),
        }
    }
}

/// The session's video file, if there is a session, is finished.
pub open spec fn segment_finished(before: Studio, after: Studio, effects: Effects) -> bool {
    match before.session {
        Some(s) => {
            &&& recording_ended(before.video, after.video)
            &&& effects.restart == (if before.video.recording is Some {
                Some(video::restart_of(before.video))
            } else {
                None
            })
            &&& after.session matches Some(t)
            &&& same_session(t, s)
            &&& segments_view(t) == with_finished(segments_view(s), recorded_start(before.video))
        },
        None => after.session is None && after.video == before.video && effects.restart is None,
    }
}

/// The session's next video file, if there is a session and an input, is started.
pub open spec fn segment_started(before: Studio, after: Studio, effects: Effects) -> bool {
    match before.session {
        Some(s) => {
            &&& recording_next(
                before.video,
                after.video,
                s.dir@,
                (s.segments@.len() + 1) as nat,
            )
            &&& effects.restart == (if before.video.input is Some {
                Some(video::restart_of(before.video))
            } else {
                None
            })
            &&& after.session matches Some(t)
            &&& same_session(t, s)
            &&& t.stopped_at_ms == s.stopped_at_ms
            &&& segments_view(t) == with_next_segment(
                segments_view(s),
                before.video.config.extension@,
                before.video.input is Some,
            )
        },
        None => after.session is None && after.video == before.video && effects.restart is None,
    }
}

/// Frames the link dropped during a session.
pub fn dropped_in_session(dropped: u64, session: &Session) -> (r: u64)
    requires
        session.dropped_before <= dropped,
    ensures
        r == dropped - session.dropped_before,
{
    dropped - session.dropped_before
}

/// Numbers of at least two digits write themselves.
proof fn lemma_two_digits(n: nat)
    ensures
        text::digits_value(text::two_digit_text(n), 10) == n,
{
    if n < 10 {
        let s = text::two_digit_text(n);
        reveal_with_fuel(text::digits_value, 3);
        assert(s.drop_last().drop_last() =~= Seq::empty());
        assert(s.drop_last() =~= seq!['0']);
    } else {
        text::lemma_decimal(n);
    }
}

/// No two video files of a session share a name.
pub proof fn law_segment_names_differ(a: nat, b: nat, extension: Seq<char>)
    requires
        a != b,
    ensures
        segment_name_of(a, extension) != segment_name_of(b, extension),
{
    let x = segment_name_of(a, extension);
    let y = segment_name_of(b, extension);
    let tail = 1 + extension.len();
    if x == y {
        let s = text::two_digit_text(a);
        let t = text::two_digit_text(b);
        reveal_strlit("video-");
        reveal_strlit(".");
        assert(s =~= x.subrange(6, x.len() - tail));
        assert(t =~= y.subrange(6, y.len() - tail));
        lemma_two_digits(a);
        lemma_two_digits(b);
    }
}

/// Each stretch between pauses has a file of its own: starting a segment adds
/// one, and the segments stay numbered from 1.
pub proof fn law_segments_are_numbered(
    segments: Seq<(Seq<char>, Option<u64>)>,
    extension: Seq<char>,
    started: Option<u64>,
)
    requires
        forall|i: int|
            0 <= i < segments.len() ==> (#[trigger] segments[i]).0 == segment_name_of(
                (i + 1) as nat,
                extension,
            ),
    ensures
        forall|i: int|
            0 <= i < with_next_segment(segments, extension, true).len() ==> (
            #[trigger] with_next_segment(segments, extension, true)[i]).0 == segment_name_of(
                (i + 1) as nat,
                extension,
            ),
        forall|i: int|
            0 <= i < with_finished(segments, started).len() ==> (#[trigger] with_finished(
                segments,
                started,
            )[i]).0 == segment_name_of((i + 1) as nat, extension),
{
}

/// Pausing or stopping a session times its last segment, the file that was being
/// recorded, by the first frame that its own ffmpeg reported; every other segment, and
/// a time that was there, stays, and so do the files' names.
pub proof fn law_last_segment_gets_its_time(
    before: Studio,
    after: Studio,
    now_ns: u64,
    now_ms: u64,
    r: Result<Effects, StudioError>,
    stopping: bool,
)
    requires
        before.session is Some,
        r is Ok,
        if stopping {
            is_stop(before, after, now_ns, now_ms, r)
        } else {
            is_pause(before, after, now_ns, r)
        },
    ensures
        after.session is Some,
        ({
            let s = before.session->0.segments@;
            let t = after.session->0.segments@;
            &&& t.len() == s.len()
            &&& forall|i: int| 0 <= i < s.len() ==> (#[trigger] t[i]).file@ == s[i].file@
            &&& forall|i: int|
                0 <= i < s.len() - 1 ==> (#[trigger] t[i]).start_unix_ms == s[i].start_unix_ms
            &&& s.len() > 0 && s.last().start_unix_ms is Some ==> t.last().start_unix_ms
                == s.last().start_unix_ms
            &&& s.len() > 0 && s.last().start_unix_ms is None && before.video.recording is Some
                ==> t.last().start_unix_ms == before.video.started_at_ms
            &&& s.len() > 0 && s.last().start_unix_ms is None && before.video.recording is None
                ==> t.last().start_unix_ms is None
        }),
        after.session->0.dir == before.session->0.dir,
        after.session->0.started_at_ms == before.session->0.started_at_ms,
        after.session->0.dropped_before == before.session->0.dropped_before,
        after.session->0.video_input == before.session->0.video_input,
        after.session->0.stopped_at_ms == (if stopping {
            Some(now_ms)
        } else {
            before.session->0.stopped_at_ms
        }),
        after.video.recording is None,
        after.recorder.resumed_at is None,
        after.recorder.open == !stopping,
{
    let b = before.session->0;
    let a = after.session->0;
    let s = segments_view(b);
    let t = segments_view(a);
    assert(s.len() == b.segments@.len() && t.len() == a.segments@.len());
    assert forall|i: int| 0 <= i < s.len() implies #[trigger] s[i] == (
        b.segments@[i].file@,
        b.segments@[i].start_unix_ms,
    ) by {}
    assert forall|i: int| 0 <= i < t.len() implies #[trigger] t[i] == (
        a.segments@[i].file@,
        a.segments@[i].start_unix_ms,
    ) by {}
    assert(t.len() == s.len());
    assert forall|i: int| 0 <= i < s.len() implies (#[trigger] a.segments@[i]).file@
        == b.segments@[i].file@ && (i < s.len() - 1 ==> a.segments@[i].start_unix_ms
        == b.segments@[i].start_unix_ms) by {
        assert(t[i].0 == s[i].0);
        if i < s.len() - 1 {
            assert(t[i] == s[i]);
        }
    }
    if s.len() > 0 {
        let n = s.len() - 1;
        assert(s[n] == s.last() && t[n] == t.last());
    }
}

/// Resuming starts one more file, after all that were there, which stay as they are: it
/// is numbered by its place, has no time yet, and is what ffmpeg records into.
pub proof fn law_resuming_starts_the_next_segment(
    before: Studio,
    after: Studio,
    now_ns: u64,
    r: Result<Effects, StudioError>,
)
    requires
        before.session is Some,
        r is Ok,
        is_resume(before, after, now_ns, r),
        before.video.input is Some,
        before.session->0.dir@.len() > 0,
        before.session->0.dir@.last() != '/',
    ensures
        after.session is Some,
        ({
            let s = before.session->0.segments@;
            let t = after.session->0.segments@;
            let name = "video-"@ + text::two_digit_text((s.len() + 1) as nat) + "."@
                + before.video.config.extension@;
            &&& t.len() == s.len() + 1
            &&& forall|i: int|
                0 <= i < s.len() ==> (#[trigger] t[i]).file@ == s[i].file@ && t[i].start_unix_ms
                    == s[i].start_unix_ms
            &&& t.last().file@ == name
            &&& t.last().start_unix_ms is None
            &&& text::opt_text(after.video.recording) == Some(
                before.session->0.dir@ + "/"@ + name,
            )
        }),
        after.video.started_at_ms is None,
        after.session->0.dir == before.session->0.dir,
        after.session->0.stopped_at_ms == before.session->0.stopped_at_ms,
        after.recorder.open && after.recorder.resumed_at == Some(now_ns),
{
    reveal_strlit("/");
    reveal_strlit("video-");
    let b = before.session->0;
    let a = after.session->0;
    let s = segments_view(b);
    let t = segments_view(a);
    assert(s.len() == b.segments@.len() && t.len() == a.segments@.len());
    assert(t == with_next_segment(s, before.video.config.extension@, true));
    assert forall|i: int| 0 <= i < s.len() implies (#[trigger] a.segments@[i]).file@
        == b.segments@[i].file@ && a.segments@[i].start_unix_ms == b.segments@[i].start_unix_ms by {
        assert(t[i] == s[i]);
        assert(s[i] == segment_view(b.segments@[i]));
        assert(t[i] == segment_view(a.segments@[i]));
    }
    assert(t.last() == segment_view(a.segments@.last()));
    let name = segment_name_of((s.len() + 1) as nat, before.video.config.extension@);
    assert(name[0] == 'v');
    assert(b.dir@.push('/') + name =~= b.dir@ + "/"@ + name);
}

/// Every segment holds the time that its own ffmpeg reported: a session that records,
/// pauses, resumes and stops ends with the time of the first stretch in its file and
/// that of the second in the next one, and with all earlier files as they were.
pub proof fn law_each_stretch_has_its_time(
    recording: Studio,
    paused: Studio,
    resumed: Studio,
    recording_again: Studio,
    stopped: Studio,
    first_ms: u64,
    second_ms: u64,
    at: (u64, u64, u64, u64),
    done: (Result<Effects, StudioError>, Result<Effects, StudioError>, Result<Effects, StudioError>),
)
    requires
        recording.session is Some,
        recording.session->0.segments@.len() > 0,
        recording.session->0.segments@.last().start_unix_ms is None,
        recording.session->0.dir@.len() > 0,
        recording.session->0.dir@.last() != '/',
        recording.video.recording is Some,
        recording.video.input is Some,
        recording.video.started_at_ms == Some(first_ms),
        is_pause(recording, paused, at.0, done.0),
        is_resume(paused, resumed, at.1, done.1),
        recording_again == (Studio {
            video: (Video { started_at_ms: Some(second_ms), ..resumed.video }),
            ..resumed
        }),
        is_stop(recording_again, stopped, at.2, at.3, done.2),
        done.0 is Ok,
        done.1 is Ok,
        done.2 is Ok,
    ensures
        stopped.session is Some,
        ({
            let s = recording.session->0.segments@;
            let t = stopped.session->0.segments@;
            let n = s.len() as int;
            &&& t.len() == n + 1
            &&& forall|i: int|
                0 <= i < n - 1 ==> (#[trigger] t[i]).start_unix_ms == s[i].start_unix_ms
            &&& forall|i: int| 0 <= i < n ==> (#[trigger] t[i]).file@ == s[i].file@
            &&& t[n - 1].start_unix_ms == Some(first_ms)
            &&& t[n].start_unix_ms == Some(second_ms)
        }),
        stopped.session->0.stopped_at_ms == Some(at.3),
{
    law_last_segment_gets_its_time(recording, paused, at.0, 0, done.0, false);
    assert(paused.video.input == recording.video.input);
    law_resuming_starts_the_next_segment(paused, resumed, at.1, done.1);
    law_last_segment_gets_its_time(recording_again, stopped, at.2, at.3, done.2, true);
    let s = recording.session->0.segments@;
    let p = paused.session->0.segments@;
    let q = resumed.session->0.segments@;
    let t = stopped.session->0.segments@;
    let n = s.len() as int;
    assert(q[n - 1].start_unix_ms == p[n - 1].start_unix_ms);
    assert(t[n - 1].start_unix_ms == q[n - 1].start_unix_ms);
    assert(p.last() == p[n - 1] && q.last() == q[n] && t.last() == t[n]);
    assert forall|i: int| 0 <= i < n implies (#[trigger] t[i]).file@ == s[i].file@ && (i < n - 1
        ==> t[i].start_unix_ms == s[i].start_unix_ms) by {
        assert(p[i].file@ == s[i].file@ && q[i].file@ == p[i].file@);
        if i < n - 1 {
            assert(p[i].start_unix_ms == s[i].start_unix_ms);
            assert(q[i].start_unix_ms == p[i].start_unix_ms);
        }
    }
}

/// A segment's name is `video-`, its number on at least two places and the
/// ending.
pub proof fn law_segment_names(n: nat, extension: Seq<char>)
    ensures
        n < 10 ==> segment_name_of(n, extension) == "video-"@ + seq!['0'] + text::decimal_text(n)
            + "."@ + extension,
        n >= 10 ==> segment_name_of(n, extension) == "video-"@ + text::decimal_text(n) + "."@
            + extension,
{
    if n < 10 {
        assert(text::two_digit_text(n) =~= seq!['0'] + text::decimal_text(n));
        assert("video-"@ + (seq!['0'] + text::decimal_text(n)) + "."@ + extension =~= "video-"@
            + seq!['0'] + text::decimal_text(n) + "."@ + extension);
    }
}

/// A start opens a session in its folder, with the clock running and, where there
/// is an input, the first segment under way; a session that is open stays.
pub proof fn law_starting_opens_the_session(
    before: Studio,
    after: Studio,
    dir: String,
    now_ns: u64,
    now_ms: u64,
    dropped: u64,
    r: Result<(Session, Effects), StudioError>,
)
    requires
        is_start(before, after, dir, now_ns, now_ms, dropped, r),
        dir@.len() > 0,
        dir@.last() != '/',
    ensures
        (r is Err) == before.recorder.open,
        r is Err ==> after == before,
        r matches Ok(s) ==> {
            &&& after.recorder.open && after.recorder.resumed_at == Some(now_ns)
            &&& after.recorder.frames == 0 && after.recorder.active_ns == 0
            &&& after.recorder.session == Some(dir) && after.recorder.prefix
                == before.recorder.prefix
            &&& s.0.dir == dir && s.0.started_at_ms == now_ms && s.0.dropped_before == dropped
            &&& s.0.stopped_at_ms is None && s.0.video_input == before.video.input
            &&& before.video.input is None ==> s.0.segments@.len() == 0
            &&& before.video.input is Some ==> s.0.segments@.len() == 1
                && s.0.segments@[0].start_unix_ms is None && s.0.segments@[0].file@
                == "video-01."@ + before.video.config.extension@ && text::opt_text(
                after.video.recording,
            ) == Some(dir@ + seq!['/'] + ("video-01."@ + before.video.config.extension@))
            &&& s.1.write_session
        },
{
    if let Ok(s) = r {
        let view = segments_view(s.0);
        assert(view.len() == s.0.segments@.len());
        if before.video.input is Some {
            reveal_strlit("video-");
            reveal_strlit(".");
            reveal_strlit("video-01.");
            let extension = before.video.config.extension@;
            let name = segment_name_of(1, extension);
            assert(name =~= "video-01."@ + extension);
            assert(view[0] == (name, None::<u64>));
            assert(segment_view(s.0.segments@[0]) == view[0]);
            paths::law_names_stand_in_their_folders(dir@, name);
            assert(name[0] == 'v');
        }
    }
}

/// A prefix is taken while nothing is recorded, when it is not empty and its
/// folder is there; everything else stays.
pub proof fn law_prefixes_are_taken(
    before: Studio,
    after: Studio,
    prefix: String,
    folder_exists: bool,
    r: Result<Effects, StudioError>,
)
    requires
        is_set_prefix(before, after, prefix, folder_exists, r),
    ensures
        (r is Ok) == (prefix@.len() > 0 && folder_exists && !before.recorder.open),
        r is Ok ==> after.recorder.prefix == prefix && r->Ok_0.save_state,
        r is Err ==> after == before,
        after.video == before.video && after.session == before.session,
        after.recorder.open == before.recorder.open && after.recorder.session
            == before.recorder.session && after.recorder.frames == before.recorder.frames,
{
}

/// An input is taken while nothing is recorded; an empty name means none. ffmpeg
/// is started anew with it.
pub proof fn law_inputs_are_taken(
    before: Studio,
    after: Studio,
    input: String,
    r: Result<Effects, StudioError>,
)
    requires
        is_set_video_input(before, after, input, r),
    ensures
        (r is Ok) == (!before.recorder.open && before.video.recording is None),
        r is Err ==> after == before,
        r is Ok ==> (input@.len() > 0 ==> after.video.input == Some(input)) && (input@.len() == 0
            ==> after.video.input is None),
        r is Ok ==> r->Ok_0.save_state && (r->Ok_0.restart matches Some(again) && again.start == (
        input@.len() > 0)),
        after.recorder == before.recorder && after.session == before.session,
        after.video.config == before.video.config && after.video.recording
            == before.video.recording,
{
}

/// A pause needs a recording that runs, a resumption one that is paused and a
/// stop one of either; where it is refused nothing changes.
pub proof fn law_commands_need_their_state(
    before: Studio,
    after: Studio,
    now_ns: u64,
    now_ms: u64,
    r: Result<Effects, StudioError>,
)
    ensures
        is_pause(before, after, now_ns, r) ==> (r is Ok) == (before.recorder.open
            && before.recorder.resumed_at is Some),
        is_resume(before, after, now_ns, r) ==> (r is Ok) == (before.recorder.open
            && before.recorder.resumed_at is None),
        is_stop(before, after, now_ns, now_ms, r) ==> (r is Ok) == before.recorder.open,
        (is_pause(before, after, now_ns, r) || is_resume(before, after, now_ns, r) || is_stop(
            before,
            after,
            now_ns,
            now_ms,
            r,
        )) && r is Err ==> after == before,
        is_stop(before, after, now_ns, now_ms, r) && r is Ok ==> !after.recorder.open,
        is_pause(before, after, now_ns, r) && r is Ok ==> after.recorder.open
            && after.recorder.resumed_at is None,
{
}

/// A command does what it is named for: a start opens the recording with its
/// clock running and gives back the session, a pause stops the clock, a
/// resumption starts it again, a stop closes the recording; the two settings
/// change the prefix and the input.
pub proof fn law_commands_do_what_they_say(
    before: Studio,
    after: Studio,
    command: Command,
    at: Outside,
    r: Result<(Option<Session>, Effects), StudioError>,
)
    requires
        is_run(before, after, command, at, r),
    ensures
        r is Err ==> after == before,
        r matches Ok(d) ==> {
            &&& (d.0 is Some) == (command is Start)
            &&& command is Start ==> !before.recorder.open && after.recorder.open
                && after.recorder.resumed_at == Some(at.now_ns) && after.recorder.session == Some(
                at.dir,
            ) && d.0->0.dir == at.dir && d.0->0.started_at_ms == at.now_ms
            &&& command is Pause ==> before.recorder.resumed_at is Some && after.recorder.open
                && after.recorder.resumed_at is None
            &&& command is Resume ==> before.recorder.open && before.recorder.resumed_at is None
                && after.recorder.resumed_at == Some(at.now_ns)
            &&& command is Stop ==> before.recorder.open && !after.recorder.open && (
            after.session matches Some(s) ==> s.stopped_at_ms == Some(at.now_ms))
            &&& command matches Command::SetPrefix { prefix } ==> after.recorder.prefix == prefix
                && prefix@.len() > 0 && at.folder_exists
            &&& command matches Command::SetVideoInput { input } ==> (input@.len() > 0
                ==> after.video.input == Some(input)) && (input@.len() == 0 ==> after.video.input
                is None)
            &&& !(command is SetPrefix) ==> after.recorder.prefix == before.recorder.prefix
            &&& !(command is SetVideoInput) ==> after.video.input == before.video.input
        },
{
}

} // verus!
