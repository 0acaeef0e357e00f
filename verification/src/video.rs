//! Video capture with ffmpeg: a live preview, plus recording to files.
//!
//! One ffmpeg process owns the input. It always writes a preview; while recording
//! it also encodes the same frames into a file. Starting or stopping a recording
//! restarts it. [`Video`] decides when, and what the dashboard is told.
use crate::config::VideoConfig;
use crate::text;
use vstd::prelude::*;

verus! {

/// How long a new ffmpeg may take to deliver its first frame, in milliseconds.
pub const FIRST_FRAME_TIMEOUT_MS: u64 = 1500;

/// Input id for capturing the screen.
pub const SCREEN: &'static str = "screen";

/// A capture source the dashboard can pick.
#[derive(Clone, Debug)]
pub struct VideoInput {
    /// `screen` or a device path.
    pub id: String,
    pub name: String,
}

/// A video device of the system: its name and what its `index` and `name` files
/// hold, where they can be read.
#[derive(Clone, Debug)]
pub struct VideoNode {
    pub file_name: String,
    pub index: Option<String>,
    pub name: Option<String>,
}

/// An input by its texts: id and name.
pub open spec fn input_view(v: VideoInput) -> (Seq<char>, Seq<char>) {
    (v.id@, v.name@)
}

/// The texts of each input.
pub open spec fn inputs_view(list: Seq<VideoInput>) -> Seq<(Seq<char>, Seq<char>)> {
    list.map_values(|v: VideoInput| input_view(v))
}

/// A device that captures: index 0 is the capture node, others are metadata
/// nodes of the same device.
pub open spec fn captures(n: VideoNode) -> bool {
    &&& n.index matches Some(i) && text::trimmed(i@) == "0"@
    &&& n.name is Some
}

/// The input of a device that captures.
pub open spec fn node_input(n: VideoNode) -> (Seq<char>, Seq<char>) {
    let id = "/dev/"@ + n.file_name@;
    (id, text::trimmed(n.name->0@) + " ("@ + id + ")"@)
}

/// A list in order of id with one more input in its place: after those that it
/// does not come before.
pub open spec fn inserted(
    list: Seq<(Seq<char>, Seq<char>)>,
    x: (Seq<char>, Seq<char>),
) -> Seq<(Seq<char>, Seq<char>)>
    decreases list.len(),
{
    if list.len() > 0 && text::comes_before(x.0, list.last().0) {
        inserted(list.drop_last(), x).push(list.last())
    } else {
        list.push(x)
    }
}

/// The inputs of the first `n` devices that capture, in order of id.
pub open spec fn device_inputs(nodes: Seq<VideoNode>, n: int) -> Seq<(Seq<char>, Seq<char>)>
    decreases n,
{
    if n <= 0 {
        Seq::empty()
    } else if captures(nodes[n - 1]) {
        inserted(device_inputs(nodes, n - 1), node_input(nodes[n - 1]))
    } else {
        device_inputs(nodes, n - 1)
    }
}

/// The screen, where there is a display.
pub open spec fn screen_input(display: Option<Seq<char>>) -> Seq<(Seq<char>, Seq<char>)> {
    match display {
        Some(d) => seq![("screen"@, "Screen ("@ + d + ")"@)],
        None => Seq::empty(),
    }
}

/// The characters of an optional text slice.
pub open spec fn opt_str(s: Option<&str>) -> Option<Seq<char>> {
    match s {
        Some(t) => Some(t@),
        None => None,
    }
}

/// Put an input in its place.
fn insert_input(list: &mut Vec<VideoInput>, x: VideoInput)
    ensures
        inputs_view(final(list)@) == inserted(inputs_view(old(list)@), input_view(x)),
{
    let ghost all = inputs_view(list@);
    let ghost xv = input_view(x);
    let mut at: usize = list.len();
    assert(all.take(at as int) =~= all);
    assert(inserted(all.take(at as int), xv) + all.skip(at as int) =~= inserted(all, xv));
    while at > 0 && text::precedes(x.id.as_str(), list[at - 1].id.as_str())
        invariant
            at <= list@.len(),
            all == inputs_view(list@),
            xv == input_view(x),
            inserted(all.take(at as int), xv) + all.skip(at as int) == inserted(all, xv),
        ensures
            at <= list@.len(),
            inserted(all, xv) == all.take(at as int).push(xv) + all.skip(at as int),
        decreases at,
    {
        let ghost t = all.take(at as int);
        assert(t.last() == input_view(list@[at - 1]));
        assert(t.drop_last() =~= all.take(at - 1));
        assert(inserted(t, xv) + all.skip(at as int) =~= inserted(all.take(at - 1), xv) + all.skip(
            at - 1,
        ));
        at -= 1;
    }
    list.insert(at, x);
    assert(inputs_view(list@) =~= all.take(at as int).push(xv) + all.skip(at as int));
}

/// The screen (when there is a display) and the capture devices, in order of id.
pub fn list_inputs(display: Option<&str>, nodes: &Vec<VideoNode>) -> (r: Vec<VideoInput>)
    ensures
        inputs_view(r@) == screen_input(opt_str(display)) + device_inputs(
            nodes@,
            nodes@.len() as int,
        ),
{
    let mut devices: Vec<VideoInput> = Vec::new();
    let mut i: usize = 0;
    assert(inputs_view(devices@) =~= Seq::empty());
    while i < nodes.len()
        invariant
            i <= nodes@.len(),
            inputs_view(devices@) == device_inputs(nodes@, i as int),
        decreases nodes@.len() - i,
    {
        let node = &nodes[i];
        if let (Some(index), Some(name)) = (&node.index, &node.name) {
            let trimmed = text::trim(index.as_str());
            if text::same(trimmed.as_str(), "0") {
                let id = text::concat("/dev/", node.file_name.as_str());
                let mut label = text::trim(name.as_str());
                label.append(" (");
                label.append(id.as_str());
                label.append(")");
                insert_input(&mut devices, VideoInput { id, name: label });
            }
        }
        i += 1;
    }
    let mut inputs: Vec<VideoInput> = Vec::new();
    if let Some(d) = display {
        let mut label = text::concat("Screen (", d);
        label.append(")");
        inputs.push(VideoInput { id: SCREEN.to_owned(), name: label });
    }
    let ghost head = inputs@;
    assert(inputs_view(head) =~= screen_input(opt_str(display)));
    let ghost tail = devices@;
    inputs.append(&mut devices);
    assert(inputs_view(inputs@) =~= inputs_view(head) + inputs_view(tail));
    inputs
}

/// Inputs are in order of id.
pub open spec fn in_id_order(list: Seq<(Seq<char>, Seq<char>)>) -> bool {
    forall|i: int, j: int|
        0 <= i < j < list.len() ==> !text::comes_before(
            #[trigger] list[j].0,
            #[trigger] list[i].0,
        )
}

/// Putting an input in its place keeps the order and adds just that input.
proof fn lemma_inserted(list: Seq<(Seq<char>, Seq<char>)>, x: (Seq<char>, Seq<char>))
    requires
        in_id_order(list),
    ensures
        in_id_order(inserted(list, x)),
        inserted(list, x).to_multiset() == list.to_multiset().insert(x),
    decreases list.len(),
{
    broadcast use vstd::seq_lib::group_to_multiset_ensures;

    if list.len() > 0 && text::comes_before(x.0, list.last().0) {
        let rest = list.drop_last();
        assert(in_id_order(rest)) by {
            assert forall|i: int, j: int| 0 <= i < j < rest.len() implies !text::comes_before(
                #[trigger] rest[j].0,
                #[trigger] rest[i].0,
            ) by {
                assert(list[i].0 == rest[i].0 && list[j].0 == rest[j].0);
            }
        }
        lemma_inserted(rest, x);
        let inner = inserted(rest, x);
        let all = inner.push(list.last());
        assert(list =~= rest.push(list.last()));
        assert forall|i: int, j: int| 0 <= i < j < all.len() implies !text::comes_before(
            #[trigger] all[j].0,
            #[trigger] all[i].0,
        ) by {
            if j == all.len() - 1 {
                assert(inner.to_multiset().contains(inner[i]));
                assert(rest.to_multiset().insert(x).contains(inner[i]));
                if inner[i] == x {
                    text::law_order_total(x.0, list.last().0);
                } else {
                    assert(rest.to_multiset().contains(inner[i]));
                    assert(rest.contains(inner[i]));
                    let k = choose|k: int| 0 <= k < rest.len() && rest[k] == inner[i];
                    assert(!text::comes_before(list[list.len() - 1].0, list[k].0));
                }
            } else {
                assert(!text::comes_before(inner[j].0, inner[i].0));
            }
        }
    } else {
        let all = list.push(x);
        assert forall|i: int, j: int| 0 <= i < j < all.len() implies !text::comes_before(
            #[trigger] all[j].0,
            #[trigger] all[i].0,
        ) by {
            if j == all.len() - 1 {
                if i < list.len() - 1 {
                    assert(!text::comes_before(list[list.len() - 1].0, list[i].0));
                    if text::comes_before(x.0, list[i].0) {
                        text::law_order_total(list[i].0, list.last().0);
                        if list[i].0 != list.last().0 {
                            text::law_order_transitive(x.0, list[i].0, list.last().0);
                        }
                    }
                }
            } else {
                assert(!text::comes_before(list[j].0, list[i].0));
            }
        }
    }
}

/// The inputs of the first `n` devices that capture, in the order of the devices.
pub open spec fn captured_inputs(nodes: Seq<VideoNode>, n: int) -> Seq<(Seq<char>, Seq<char>)> {
    nodes.take(n).filter(|d: VideoNode| captures(d)).map_values(|d: VideoNode| node_input(d))
}

/// The devices that the dashboard lists come in order of id, and are just those
/// that capture, each as often as it is there.
pub proof fn law_inputs_in_order(nodes: Seq<VideoNode>, n: int)
    requires
        0 <= n <= nodes.len(),
    ensures
        in_id_order(device_inputs(nodes, n)),
        device_inputs(nodes, n).to_multiset() == captured_inputs(nodes, n).to_multiset(),
    decreases n,
{
    broadcast use vstd::seq_lib::group_to_multiset_ensures;

    reveal(Seq::filter);
    if n > 0 {
        law_inputs_in_order(nodes, n - 1);
        let before = captured_inputs(nodes, n - 1);
        assert(nodes.take(n).drop_last() =~= nodes.take(n - 1));
        if captures(nodes[n - 1]) {
            lemma_inserted(device_inputs(nodes, n - 1), node_input(nodes[n - 1]));
            assert(captured_inputs(nodes, n) =~= before.push(node_input(nodes[n - 1])));
        } else {
            assert(captured_inputs(nodes, n) =~= before);
        }
    } else {
        assert(captured_inputs(nodes, n) =~= device_inputs(nodes, n));
    }
}

/// Snapshot of the video capture for the dashboard.
#[derive(Clone, Debug)]
pub struct VideoStatus {
    /// Selected input id, if any.
    pub input: Option<String>,
    pub inputs: Vec<VideoInput>,
    /// File being recorded.
    pub recording: Option<String>,
    /// Size of that file so far.
    pub bytes: u64,
    /// Preview frames arrived within the last two seconds.
    pub live: bool,
    /// Why ffmpeg is not running.
    pub error: Option<String>,
}

/// Why the video refuses.
#[derive(Clone, Copy, Debug, PartialEq, Eq, Structural)]
pub enum VideoError {
    /// A recording must stop before the input changes.
    StopFirst,
}

/// The capture process.
#[derive(Clone, Debug)]
pub struct Video {
    pub config: VideoConfig,
    /// Selected input id.
    pub input: Option<String>,
    /// File the running ffmpeg records into.
    pub recording: Option<String>,
    /// An ffmpeg runs.
    pub running: bool,
    /// Unix milliseconds of the first frame of the running ffmpeg, from its log.
    pub started_at_ms: Option<u64>,
    pub error: Option<String>,
    /// Counts restarts, so that threads of an old ffmpeg know they are stale.
    pub generation: u64,
    /// Unix milliseconds of the latest preview frame, 0 before any.
    pub last_preview_ms: u64,
}

/// What a restart does.
#[derive(Clone, Copy, Debug, PartialEq, Eq, Structural)]
pub struct Restart {
    /// End the running ffmpeg, if one runs: with time to finish its files, or,
    /// if it never produced a frame, at once.
    pub end: Option<bool>,
    /// Start one for the current input and recording.
    pub start: bool,
}

/// The capture after a restart began.
pub open spec fn restarting(v: Video) -> Video {
    Video {
        generation: v.generation.wrapping_add(1),
        running: false,
        started_at_ms: None,
        error: None,
        last_preview_ms: 0,
        ..v
    }
}

/// What a restart of this capture does.
pub open spec fn restart_of(v: Video) -> Restart {
    Restart {
        end: if v.running {
            Some(v.last_preview_ms != 0)
        } else {
            None
        },
        start: v.input is Some,
    }
}

/// What the dashboard is told while a device delivers no frames.
pub open spec fn no_frames(input: Seq<char>) -> Seq<char> {
    "No frames from "@ + input + " yet; retrying. Is the console on?"@
}

/// What stands in a log line between its first `start: ` and the next comma,
/// without white space around it.
pub open spec fn start_in(line: Seq<char>) -> Option<Seq<char>> {
    let i = text::find_pattern(line, "start: "@, 0);
    if i < 0 {
        None
    } else {
        let from = i + "start: "@.len();
        let next = text::find_pattern(line, "start: "@, from);
        let piece = line.subrange(
            from,
            if next < 0 {
                line.len() as int
            } else {
                next
            },
        );
        let comma = text::find(piece, ',', 0);
        Some(text::trimmed(piece.take(comma)))
    }
}

/// What stands in a log line as the start time, to be read as seconds.
pub fn start_text(line: &str) -> (r: Option<String>)
    ensures
        text::opt_text(r) == start_in(line@),
{
    let a = text::chars_of(line);
    let p = text::chars_of("start: ");
    let i = match text::find_text(a.as_slice(), p.as_slice(), 0) {
        Some(i) => i,
        None => {
            return None;
        },
    };
    assert(i + p@.len() <= a.len());
    let from: usize = i + p.len();
    let to: usize = match text::find_text(a.as_slice(), p.as_slice(), from) {
        Some(j) => j,
        None => a.len(),
    };
    let piece = vstd::slice::slice_subrange(a.as_slice(), from, to);
    let comma = text::find_char(piece, ',', 0);
    let head = vstd::slice::slice_subrange(piece, 0, comma);
    assert(head@ =~= piece@.take(comma as int));
    let t = text::text_of(head);
    Some(text::trim(t.as_str()))
}

/// Whether a log line tells of a fault.
pub open spec fn is_fault(line: Seq<char>) -> bool {
    text::holds_pattern(line, "rror"@) || text::holds_pattern(line, "busy"@)
}

impl Video {
    /// A capture of an input (if any) that is not started yet.
    pub fn new(config: VideoConfig, input: Option<String>) -> (r: Video)
        ensures
            r.config == config,
            r.input == input,
            r.recording is None,
            !r.running,
            r.started_at_ms is None,
            r.error is None,
            r.generation == 0,
            r.last_preview_ms == 0,
    {
        Video {
            config,
            input,
            recording: None,
            running: false,
            started_at_ms: None,
            error: None,
            generation: 0,
            last_preview_ms: 0,
        }
    }

    /// Stop the running ffmpeg and start one for the current input and
    /// recording; threads of the old one are stale from now on.
    pub fn restart(&mut self) -> (r: Restart)
        ensures
            *final(self) == restarting(*old(self)),
            r == restart_of(*old(self)),
    {
        self.generation = self.generation.wrapping_add(1);
        let end = if self.running {
            Some(self.last_preview_ms != 0)
        } else {
            None
        };
        self.running = false;
        self.started_at_ms = None;
        self.error = None;
        self.last_preview_ms = 0;
        Restart { end, start: self.input.is_some() }
    }

    /// ffmpeg runs.
    pub fn spawned(&mut self)
        ensures
            *final(self) == (Video { running: true, ..*old(self) }),
    {
        self.running = true;
    }

    /// ffmpeg could not be started.
    pub fn spawn_failed(&mut self, message: String)
        ensures
            *final(self) == (Video { error: Some(message), ..*old(self) }),
    {
        self.error = Some(message);
    }

    /// Switch to another input, or none; not while recording.
    pub fn set_input(&mut self, input: Option<String>) -> (r: Result<Restart, VideoError>)
        ensures
            match r {
                Ok(restart) => old(self).recording is None && *final(self) == restarting(
                    (Video { input, ..*old(self) }),
                ) && restart == restart_of((Video { input, ..*old(self) })),
                Err(e) => old(self).recording is Some && e == VideoError::StopFirst && *final(self)
                    == *old(self),
            },
    {
        if self.recording.is_some() {
            return Err(VideoError::StopFirst);
        }
        self.input = input;
        Ok(self.restart())
    }

    /// Selected input id.
    pub fn input(&self) -> (r: Option<String>)
        ensures
            r == self.input,
    {
        self.input.clone()
    }

    /// File extension for recordings.
    pub fn extension(&self) -> (r: String)
        ensures
            r == self.config.extension,
    {
        self.config.extension.clone()
    }

    /// Record into `path`, restarting ffmpeg; `None` when there is no input.
    pub fn start_recording(&mut self, path: String) -> (r: Option<Restart>)
        ensures
            match r {
                Some(restart) => old(self).input is Some && *final(self) == restarting(
                    (Video { recording: Some(path), ..*old(self) }),
                ) && restart == restart_of(*old(self)),
                None => old(self).input is None && *final(self) == *old(self),
            },
    {
        if self.input.is_none() {
            return None;
        }
        self.recording = Some(path);
        Some(self.restart())
    }

    /// Finish the recording and go back to preview only; the time of the
    /// recording's first frame, when ffmpeg reported it. `None` when nothing was
    /// recorded.
    pub fn stop_recording(&mut self) -> (r: Option<(Option<u64>, Restart)>)
        ensures
            match r {
                Some(s) => old(self).recording is Some && s.0 == old(self).started_at_ms
                    && *final(self) == restarting((Video { recording: None, ..*old(self) })) && s.1
                    == restart_of(*old(self)),
                None => old(self).recording is None && *final(self) == *old(self),
            },
    {
        if self.recording.is_none() {
            return None;
        }
        let started = self.started_at_ms;
        self.recording = None;
        Some((started, self.restart()))
    }

    /// Whether an ffmpeg's threads are those of the running one.
    pub fn is_current(&self, generation: u64) -> (r: bool)
        ensures
            r == (self.generation == generation),
    {
        self.generation == generation
    }

    /// The time for a first frame is over: reopen an input that delivered none,
    /// and tell the dashboard. `None` when a frame came or ffmpeg is another.
    pub fn first_frame_due(&mut self, generation: u64, input: &str) -> (r: Option<Restart>)
        ensures
            match r {
                Some(restart) => {
                    &&& old(self).generation == generation
                    &&& old(self).last_preview_ms == 0
                    &&& restart == restart_of(*old(self))
                    &&& text::opt_text(final(self).error) == Some(no_frames(input@))
                    &&& *final(self) == (Video {
                        error: final(self).error,
                        ..restarting(*old(self))
                    })
                },
                None => (old(self).generation != generation || old(self).last_preview_ms != 0)
                    && *final(self) == *old(self),
            },
    {
        if self.generation != generation || self.last_preview_ms != 0 {
            return None;
        }
        let restart = self.restart();
        let mut message = text::concat("No frames from ", input);
        message.append(" yet; retrying. Is the console on?");
        self.error = Some(message);
        Some(restart)
    }

    /// A preview frame came; whether it is published.
    pub fn preview_frame(&mut self, generation: u64, now_ms: u64) -> (r: bool)
        ensures
            r == (old(self).generation == generation),
            *final(self) == (if r {
                Video { last_preview_ms: now_ms, ..*old(self) }
            } else {
                *old(self)
            }),
    {
        if self.generation == generation {
            self.last_preview_ms = now_ms;
            true
        } else {
            false
        }
    }

    /// ffmpeg exited on its own: start it again and keep the reason visible until
    /// frames flow. `None` for an ffmpeg that was already replaced.
    pub fn exited(&mut self, generation: u64) -> (r: Option<Restart>)
        ensures
            match r {
                Some(restart) => {
                    &&& old(self).generation == generation
                    &&& restart == restart_of(*old(self))
                    &&& text::opt_text(final(self).error) == Some(
                        match old(self).error {
                            Some(was) => was@,
                            None => "ffmpeg exited"@,
                        },
                    )
                    &&& *final(self) == (Video {
                        error: final(self).error,
                        ..restarting(*old(self))
                    })
                },
                None => old(self).generation != generation && *final(self) == *old(self),
            },
    {
        if self.generation != generation {
            return None;
        }
        let error = self.error.clone();
        let restart = self.restart();
        self.error = match error {
            Some(e) => Some(e),
            None => Some("ffmpeg exited".to_owned()),
        };
        Some(restart)
    }

    /// A line of ffmpeg's log: the first that reports a start time gives it,
    /// others that tell of a fault become the error. `start_ms` is the line's
    /// start time, where it has one that can be read.
    pub fn log_line(&mut self, generation: u64, line: &str, start_ms: Option<u64>)
        ensures
            *final(self) == (if old(self).generation != generation {
                *old(self)
            } else if old(self).started_at_ms is None && start_ms is Some {
                Video { started_at_ms: start_ms, ..*old(self) }
            } else if is_fault(line@) {
                Video { error: final(self).error, ..*old(self) }
            } else {
                *old(self)
            }),
            old(self).generation == generation && !(old(self).started_at_ms is None && start_ms is Some)
                && is_fault(line@) ==> text::opt_text(final(self).error) == Some(
                text::trimmed(line@),
            ),
    {
        if self.generation != generation {
            return;
        }
        if self.started_at_ms.is_none() && start_ms.is_some() {
            self.started_at_ms = start_ms;
        } else if text::contains_text(line, "rror") || text::contains_text(line, "busy") {
            self.error = Some(text::trim(line));
        }
    }

    /// Take a snapshot for the dashboard; `bytes` is the size of the recorded
    /// file so far.
    pub fn status(&self, inputs: Vec<VideoInput>, bytes: u64, now_ms: u64) -> (r: VideoStatus)
        ensures
            r.input == self.input,
            r.inputs == inputs,
            r.recording == self.recording,
            r.bytes == (if self.recording is Some {
                bytes
            } else {
                0
            }),
            r.live == (now_ms < self.last_preview_ms || now_ms - self.last_preview_ms < 2000),
            r.error == self.error,
    {
        VideoStatus {
            input: self.input.clone(),
            inputs,
            recording: self.recording.clone(),
            bytes: if self.recording.is_some() {
                bytes
            } else {
                0
            },
            live: now_ms.saturating_sub(self.last_preview_ms) < 2000,
            error: self.error.clone(),
        }
    }
}

/// A restart makes every thread of the ffmpeg before it stale: what they report
/// changes nothing.
pub proof fn law_restart_makes_stale(v: Video, generation: u64)
    requires
        v.generation == generation,
    ensures
        restarting(v).generation != generation,
        restarting(v).last_preview_ms == 0,
        restarting(v).error is None,
{
}

/// The options that read an input.
pub open spec fn input_args(
    config: VideoConfig,
    input: Seq<char>,
    display: Option<Seq<char>>,
) -> Seq<Seq<char>> {
    if input == "screen"@ {
        seq![
            "-f"@,
            "x11grab"@,
            "-framerate"@,
            text::decimal_text(config.fps as nat),
            "-i"@,
            match display {
                Some(d) => d,
                None => ":0"@,
            },
        ]
    } else {
        seq!["-f"@, "v4l2"@] + text::texts(config.v4l2_args@) + seq![
            "-framerate"@,
            text::decimal_text(config.fps as nat),
            "-i"@,
            input,
        ]
    }
}

/// The filter of the preview.
pub open spec fn preview_filter(config: VideoConfig) -> Seq<char> {
    "scale=-2:"@ + text::decimal_text(config.preview_height as nat) + ",fps="@ + text::decimal_text(
        config.preview_fps as nat,
    )
}

/// The filter of the recording: its height, unless that is the source's, and its
/// frame rate.
pub open spec fn record_filter_text(config: VideoConfig) -> Seq<char> {
    let fps = "fps="@ + text::decimal_text(config.record_fps as nat);
    if config.record_height == 0 {
        fps
    } else {
        "scale=-2:"@ + text::decimal_text(config.record_height as nat) + ","@ + fps
    }
}

/// The filter that gives recordings their height and frame rate.
pub fn record_filter(config: &VideoConfig) -> (r: String)
    ensures
        r@ == record_filter_text(*config),
{
    let rate = text::decimal(config.record_fps as u64);
    let fps = text::concat("fps=", rate.as_str());
    if config.record_height == 0 {
        return fps;
    }
    let height = text::decimal(config.record_height as u64);
    let mut filter = text::concat("scale=-2:", height.as_str());
    filter.append(",");
    filter.append(fps.as_str());
    filter
}

/// The options that write the recording, if any, and choose the preview.
pub open spec fn output_args(
    config: VideoConfig,
    record_filter: Seq<char>,
    recording: Option<Seq<char>>,
) -> Seq<Seq<char>> {
    let preview = preview_filter(config);
    match recording {
        Some(path) => seq![
            "-filter_complex"@,
            "[0:v]split=2[rec][pv];[rec]"@ + record_filter + "[r];[pv]"@ + preview + "[p]"@,
            "-map"@,
            "[r]"@,
        ] + text::texts(config.encoder@) + seq!["-y"@, path, "-map"@, "[p]"@],
        None => seq!["-vf"@, preview],
    }
}

/// ffmpeg's options.
pub open spec fn all_args(
    config: VideoConfig,
    input: Seq<char>,
    display: Option<Seq<char>>,
    record_filter: Seq<char>,
    recording: Option<Seq<char>>,
) -> Seq<Seq<char>> {
    seq![
        "-hide_banner"@,
        "-nostdin"@,
        "-nostats"@,
        "-loglevel"@,
        "info"@,
        "-use_wallclock_as_timestamps"@,
        "1"@,
    ] + input_args(config, input, display) + output_args(config, record_filter, recording) + seq![
        "-c:v"@,
        "mjpeg"@,
        "-q:v"@,
        "7"@,
        "-f"@,
        "mpjpeg"@,
        "pipe:1"@,
    ]
}

fn add_input_args(args: &mut Vec<String>, config: &VideoConfig, input: &str, display: Option<&str>)
    ensures
        text::texts(final(args)@) == text::texts(old(args)@) + input_args(
            *config,
            input@,
            opt_str(display),
        ),
{
    let fps = text::decimal(config.fps as u64);
    if text::same(input, SCREEN) {
        text::push_text(args, "-f");
        text::push_text(args, "x11grab");
        text::push_text(args, "-framerate");
        text::push_text(args, fps.as_str());
        text::push_text(args, "-i");
        match display {
            Some(d) => {
                text::push_text(args, d);
            },
            None => {
                text::push_text(args, ":0");
            },
        }
    } else {
        text::push_text(args, "-f");
        text::push_text(args, "v4l2");
        text::push_texts(args, &config.v4l2_args);
        text::push_text(args, "-framerate");
        text::push_text(args, fps.as_str());
        text::push_text(args, "-i");
        text::push_text(args, input);
    }
    assert(text::texts(args@) =~= text::texts(old(args)@) + input_args(
        *config,
        input@,
        opt_str(display),
    ));
}

fn add_output_args(
    args: &mut Vec<String>,
    config: &VideoConfig,
    record_filter: &str,
    recording: Option<&str>,
)
    ensures
        text::texts(final(args)@) == text::texts(old(args)@) + output_args(
            *config,
            record_filter@,
            opt_str(recording),
        ),
{
    let height = text::decimal(config.preview_height as u64);
    let fps = text::decimal(config.preview_fps as u64);
    let mut preview = text::concat("scale=-2:", height.as_str());
    preview.append(",fps=");
    preview.append(fps.as_str());
    match recording {
        Some(path) => {
            let mut filter = text::concat("[0:v]split=2[rec][pv];[rec]", record_filter);
            filter.append("[r];[pv]");
            filter.append(preview.as_str());
            filter.append("[p]");
            text::push_text(args, "-filter_complex");
            text::push_text(args, filter.as_str());
            text::push_text(args, "-map");
            text::push_text(args, "[r]");
            text::push_texts(args, &config.encoder);
            text::push_text(args, "-y");
            text::push_text(args, path);
            text::push_text(args, "-map");
            text::push_text(args, "[p]");
        },
        None => {
            text::push_text(args, "-vf");
            text::push_text(args, preview.as_str());
        },
    }
    assert(text::texts(args@) =~= text::texts(old(args)@) + output_args(
        *config,
        record_filter@,
        opt_str(recording),
    ));
}

/// Command line for capturing `input`, previewing to standard output and
/// optionally recording.
pub fn ffmpeg_args(
    config: &VideoConfig,
    input: &str,
    display: Option<&str>,
    record_filter: &str,
    recording: Option<&str>,
) -> (r: Vec<String>)
    ensures
        text::texts(r@) == all_args(
            *config,
            input@,
            opt_str(display),
            record_filter@,
            opt_str(recording),
        ),
{
    let mut args: Vec<String> = Vec::new();
    text::push_text(&mut args, "-hide_banner");
    text::push_text(&mut args, "-nostdin");
    text::push_text(&mut args, "-nostats");
    text::push_text(&mut args, "-loglevel");
    text::push_text(&mut args, "info");
    text::push_text(&mut args, "-use_wallclock_as_timestamps");
    text::push_text(&mut args, "1");
    add_input_args(&mut args, config, input, display);
    add_output_args(&mut args, config, record_filter, recording);
    text::push_text(&mut args, "-c:v");
    text::push_text(&mut args, "mjpeg");
    text::push_text(&mut args, "-q:v");
    text::push_text(&mut args, "7");
    text::push_text(&mut args, "-f");
    text::push_text(&mut args, "mpjpeg");
    text::push_text(&mut args, "pipe:1");
    assert(text::texts(args@) =~= all_args(
        *config,
        input@,
        opt_str(display),
        record_filter@,
        opt_str(recording),
    ));
    args
}

/// Whether a header line gives the length of the body, and which: `Some(None)`
/// for a length that is no number.
pub open spec fn length_in(line: Seq<char>) -> Option<Option<nat>> {
    let l = text::ascii_lower(text::trimmed(line));
    let p = "content-length:"@;
    if p.is_prefix_of(l) {
        Some(text::number(text::trimmed(l.skip(p.len() as int)), 10, usize::MAX as nat))
    } else {
        None
    }
}

/// A line of a part's header: the body's length known so far may change, and a
/// blank line after it ends the header. Returns the body's length then.
pub fn next_part(length: &mut Option<usize>, line: &str) -> (r: Option<usize>)
    ensures
        match length_in(line@) {
            Some(n) => r is None && (match *final(length) {
                Some(v) => n == Some(v as nat),
                None => n is None,
            }),
            None => *final(length) == *old(length) && r == (if text::trimmed(line@).len() == 0 {
                *old(length)
            } else {
                None
            }),
        },
{
    let trimmed = text::trim(line);
    let lower = text::to_ascii_lower(trimmed.as_str());
    match text::strip_prefix(lower.as_str(), "content-length:") {
        Some(value) => {
            let v = text::trim(value.as_str());
            *length = match text::parse_decimal(v.as_str(), usize::MAX as u64) {
                Some(n) => Some(n as usize),
                None => None,
            };
            None
        },
        None => if trimmed.as_str().unicode_len() == 0 {
            *length
        } else {
            None
        },
    }
}

} // verus!
