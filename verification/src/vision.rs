//! Object detection and tracking on recorded sessions: settings, requests and runs.
//!
//! A run detects objects in a range of a segment's frames: the first, then every
//! `step`-th, `count` of them. One run at a time; the network is loaded once and
//! kept until another model or device is asked for.
use crate::double;
use crate::double::Double;
use crate::json;
use crate::knowledge;
use crate::paths;
use crate::review::BadName;
use crate::review_routes;
use crate::text;
use vstd::prelude::*;

verus! {

/// COCO model sizes on offer; larger ones take seconds per frame on a CPU.
pub const SIZES: [char; 3] = ['n', 's', 'm'];

/// Most frames in one run.
pub const MAX_COUNT: u64 = 20_000;

/// The bits of one.
pub const ONE: u64 = 0x3ff0_0000_0000_0000;

/// The bits of a quarter, the lowest score kept unless the settings say otherwise.
pub const QUARTER: u64 = 0x3fd0_0000_0000_0000;

/// Suffix of a run's file in the results folder.
pub const RUN_SUFFIX: &'static str = ".run.json";

/// The `[vision]` section of the settings file.
#[derive(Clone, Debug)]
pub struct VisionConfig {
    pub results: Option<String>,
    pub size: Option<String>,
    pub weights: Option<String>,
    pub weights_size: Option<String>,
    pub classes: Option<String>,
    pub confidence: Option<Double>,
}

/// Our own network, offered as "custom".
#[derive(Clone, Debug)]
pub struct CustomModel {
    /// The safetensors file.
    pub weights: String,
    /// Its size: `n`, `s`, `m`, `l` or `x`.
    pub size: char,
    /// Its class names.
    pub classes: String,
}

/// The settings.
#[derive(Clone, Debug)]
pub struct Settings {
    /// Folder of the last results per segment.
    pub results: String,
    /// COCO size chosen at first.
    pub size: char,
    /// Our own network, if configured.
    pub custom: Option<CustomModel>,
    /// Lowest score kept.
    pub confidence: Double,
}

/// Why settings are refused.
#[derive(Clone, Copy, Debug, PartialEq, Eq, Structural)]
pub enum SettingsError {
    /// The custom model's size is none of its sizes.
    WeightsSize,
    /// Weights and classes go together.
    Apart,
    /// The confidence is not in 0..1.
    Confidence,
    /// The COCO size is not on offer.
    Size,
}

/// A COCO model size on offer.
pub open spec fn is_coco_size(c: char) -> bool {
    c == SIZES@[0] || c == SIZES@[1] || c == SIZES@[2]
}

/// The sizes of a network.
pub open spec fn is_size(c: char) -> bool {
    is_coco_size(c) || c == 'l' || c == 'x'
}

/// The size that a text names, `n` by default: its one character.
pub open spec fn size_named(name: Option<Seq<char>>) -> Option<char> {
    match name {
        None => Some('n'),
        Some(s) => if s.len() == 1 {
            Some(s[0])
        } else {
            None
        },
    }
}

/// The COCO size that a setting chooses.
pub open spec fn coco_size(name: Option<Seq<char>>) -> Option<char> {
    match size_named(name) {
        Some(c) => if is_coco_size(c) {
            Some(c)
        } else {
            None
        },
        None => None,
    }
}

/// The size of our own network that a setting gives.
pub open spec fn weights_size(name: Option<Seq<char>>) -> Option<char> {
    match size_named(name) {
        Some(c) => if is_size(c) {
            Some(c)
        } else {
            None
        },
        None => None,
    }
}

/// A score that can be the lowest one kept.
pub open spec fn is_confidence(c: Double) -> bool {
    double::at_most(Double { bits: double::ZERO }, c) && double::below(c, Double { bits: ONE })
}

/// The confidence of a setting.
pub open spec fn confidence_of(c: Option<Double>) -> Double {
    match c {
        Some(v) => v,
        None => Double { bits: QUARTER },
    }
}

/// Why settings are refused; the first problem in this order.
pub open spec fn settings_problem(c: VisionConfig) -> Option<SettingsError> {
    if c.weights is Some != c.classes is Some {
        Some(SettingsError::Apart)
    } else if c.weights is Some && weights_size(text::opt_text(c.weights_size)) is None {
        Some(SettingsError::WeightsSize)
    } else if !is_confidence(confidence_of(c.confidence)) {
        Some(SettingsError::Confidence)
    } else if coco_size(text::opt_text(c.size)) is None {
        Some(SettingsError::Size)
    } else {
        None
    }
}

/// Settings read from a section; relative paths start at `dir`.
pub open spec fn is_settings(
    c: VisionConfig,
    dir: Seq<char>,
    default_results: Seq<char>,
    s: Settings,
) -> bool {
    &&& s.results@ == (match c.results {
        Some(r) => paths::joined_path(dir, r@),
        None => default_results,
    })
    &&& Some(s.size) == coco_size(text::opt_text(c.size))
    &&& s.confidence == confidence_of(c.confidence)
    &&& match s.custom {
        Some(m) => {
            &&& c.weights is Some && c.classes is Some
            &&& m.weights@ == paths::joined_path(dir, c.weights->0@)
            &&& m.classes@ == paths::joined_path(dir, c.classes->0@)
            &&& Some(m.size) == weights_size(text::opt_text(c.weights_size))
        },
        None => c.weights is None && c.classes is None,
    }
}

/// The one character that a size setting holds, `n` by default.
fn one_char(name: &Option<String>) -> (r: Option<char>)
    ensures
        r == size_named(text::opt_text(*name)),
{
    match name {
        None => Some('n'),
        Some(s) => if s.as_str().unicode_len() == 1 {
            Some(s.as_str().get_char(0))
        } else {
            None
        },
    }
}

/// Whether a COCO size is on offer.
fn on_offer(c: char) -> (r: bool)
    ensures
        r == is_coco_size(c),
{
    c == SIZES[0] || c == SIZES[1] || c == SIZES[2]
}

impl Settings {
    /// Settings from the `[vision]` section; relative paths start at `dir`, and the
    /// results folder has a default.
    pub fn from_config(config: &VisionConfig, dir: &str, default_results: &str) -> (r: Result<
        Settings,
        SettingsError,
    >)
        ensures
            match r {
                Ok(s) => settings_problem(*config) is None && is_settings(
                    *config,
                    dir@,
                    default_results@,
                    s,
                ),
                Err(e) => settings_problem(*config) == Some(e),
            },
    {
        let custom = match (&config.weights, &config.classes) {
            (Some(weights), Some(classes)) => {
                let size = match one_char(&config.weights_size) {
                    Some(c) => if on_offer(c) || c == 'l' || c == 'x' {
                        c
                    } else {
                        return Err(SettingsError::WeightsSize);
                    },
                    None => {
                        return Err(SettingsError::WeightsSize);
                    },
                };
                Some(
                    CustomModel {
                        weights: paths::join_path(dir, weights.as_str()),
                        size,
                        classes: paths::join_path(dir, classes.as_str()),
                    },
                )
            },
            (None, None) => None,
            _ => {
                return Err(SettingsError::Apart);
            },
        };
        let confidence = match config.confidence {
            Some(c) => c,
            None => Double { bits: QUARTER },
        };
        let zero = Double { bits: double::ZERO };
        let one = Double { bits: ONE };
        if !zero.at_most(&confidence) || !confidence.below(&one) {
            return Err(SettingsError::Confidence);
        }
        let size = match one_char(&config.size) {
            Some(c) => if on_offer(c) {
                c
            } else {
                return Err(SettingsError::Size);
            },
            None => {
                return Err(SettingsError::Size);
            },
        };
        let results = match &config.results {
            Some(r) => paths::join_path(dir, r.as_str()),
            None => default_results.to_owned(),
        };
        Ok(Settings { results, size, custom, confidence })
    }
}

/// Frames between two processed frames, unless a request says otherwise.
pub fn default_step() -> (r: u64)
    ensures
        r == 2,
{
    2
}

/// Frames to process, unless a request says otherwise.
pub fn default_count() -> (r: u64)
    ensures
        r == 300,
{
    300
}

/// What to run: a segment's frames and a model.
#[derive(Clone, Debug)]
pub struct RunRequest {
    /// Session folder name.
    pub s: String,
    /// Segment video file.
    pub seg: String,
    /// First frame.
    pub start: u64,
    /// Frames between two processed frames.
    pub step: u64,
    /// Frames to process.
    pub count: u64,
    /// `n`, `s`, `m` or `custom`; by default the configured size.
    pub model: Option<String>,
    /// Run on the CPU even when a GPU is there.
    pub cpu: bool,
    /// Track the boxes, giving them ids.
    pub track: bool,
}

/// A model on a device: runs with the same key reuse the loaded network.
#[derive(Clone, Debug)]
pub struct ModelKey {
    /// `n`, `s`, `m` or `custom`.
    pub model: String,
    pub cpu: bool,
}

/// Why a request is refused.
#[derive(Clone, Copy, Debug, PartialEq, Eq, Structural)]
pub enum RequestError {
    BadSession,
    BadSegment,
    /// The step must be at least 1.
    Step,
    /// The count must be 1 to [`MAX_COUNT`].
    Count,
    /// No custom model is configured.
    NoCustom,
    UnknownModel,
}

/// Check a session or segment file name: no path in it.
pub fn check_name(name: &str) -> (r: Result<(), BadName>)
    ensures
        r is Ok == review_routes::plain_name(name@),
{
    if review_routes::is_plain(name) {
        Ok(())
    } else {
        Err(BadName)
    }
}

/// The model that a request asks for.
pub open spec fn model_asked(model: Option<Seq<char>>, size: char) -> Seq<char> {
    match model {
        Some(m) => m,
        None => seq![size],
    }
}

/// The model is one of the COCO sizes on offer.
pub open spec fn is_coco(model: Seq<char>) -> bool {
    model.len() == 1 && is_coco_size(model[0])
}

/// Why a request is refused; the first problem in this order.
pub open spec fn request_problem(q: RunRequest, settings: Settings) -> Option<RequestError> {
    let model = model_asked(text::opt_text(q.model), settings.size);
    if !review_routes::plain_name(q.s@) {
        Some(RequestError::BadSession)
    } else if !review_routes::plain_name(q.seg@) {
        Some(RequestError::BadSegment)
    } else if q.step < 1 {
        Some(RequestError::Step)
    } else if !(1 <= q.count <= MAX_COUNT) {
        Some(RequestError::Count)
    } else if model == "custom"@ {
        if settings.custom is None {
            Some(RequestError::NoCustom)
        } else {
            None
        }
    } else if !is_coco(model) {
        Some(RequestError::UnknownModel)
    } else {
        None
    }
}

impl RunRequest {
    /// Check the request; answers with the model to use.
    pub fn check(&self, settings: &Settings) -> (r: Result<ModelKey, RequestError>)
        ensures
            match r {
                Ok(key) => {
                    &&& request_problem(*self, *settings) is None
                    &&& key.model@ == model_asked(text::opt_text(self.model), settings.size)
                    &&& key.cpu == self.cpu
                },
                Err(e) => request_problem(*self, *settings) == Some(e),
            },
    {
        if check_name(self.s.as_str()).is_err() {
            return Err(RequestError::BadSession);
        }
        if check_name(self.seg.as_str()).is_err() {
            return Err(RequestError::BadSegment);
        }
        if self.step < 1 {
            return Err(RequestError::Step);
        }
        if self.count < 1 || self.count > MAX_COUNT {
            return Err(RequestError::Count);
        }
        let model = match &self.model {
            Some(m) => m.clone(),
            None => {
                let one = vec![settings.size];
                let t = text::text_of(one.as_slice());
                assert(t@ =~= seq![settings.size]);
                t
            },
        };
        if text::same(model.as_str(), "custom") {
            if settings.custom.is_none() {
                return Err(RequestError::NoCustom);
            }
        } else {
            let known = model.as_str().unicode_len() == 1 && on_offer(model.as_str().get_char(0));
            if !known {
                return Err(RequestError::UnknownModel);
            }
        }
        Ok(ModelKey { model, cpu: self.cpu })
    }
}

/// State of a run.
#[derive(Clone, Copy, Debug, PartialEq, Eq, Structural)]
pub enum JobState {
    /// Loading (or downloading) the network.
    Loading,
    /// Detecting frames.
    Running,
    Done,
    Failed,
    /// Stopped by the user; the frames done so far are kept.
    Cancelled,
}

/// A run, but for its timings.
#[derive(Clone, Debug)]
pub struct Job {
    pub id: u64,
    /// Session and segment file.
    pub s: String,
    pub seg: String,
    pub start: u64,
    pub step: u64,
    pub count: u64,
    /// `n`, `s`, `m` or `custom`.
    pub model: String,
    /// What the model is called.
    pub model_name: String,
    /// `cpu` or `cuda`, once loaded.
    pub device: Option<String>,
    pub track: bool,
    pub state: JobState,
    /// Frames processed.
    pub done: u64,
    /// Boxes found.
    pub boxes: usize,
    /// Time to load the network; none when it was loaded already.
    pub load_ms: Option<Double>,
    pub error: Option<String>,
    pub started_ms: u64,
    pub finished_ms: Option<u64>,
}

/// A run in this state has ended.
pub open spec fn is_finished(state: JobState) -> bool {
    state == JobState::Done || state == JobState::Failed || state == JobState::Cancelled
}

impl Job {
    /// Whether the run has ended.
    pub fn finished(&self) -> (r: bool)
        ensures
            r == is_finished(self.state),
    {
        match self.state {
            JobState::Done | JobState::Failed | JobState::Cancelled => true,
            JobState::Loading | JobState::Running => false,
        }
    }
}

/// Runs detection jobs and knows which network is loaded.
#[derive(Clone, Debug)]
pub struct Vision {
    pub settings: Settings,
    /// The current or last run.
    pub job: Option<Job>,
    /// The current run is to stop after its frame.
    pub cancel: bool,
    /// The network that is loaded.
    pub loaded: Option<ModelKey>,
    pub next_id: u64,
}

/// Why no run starts.
#[derive(Clone, Copy, Debug, PartialEq, Eq, Structural)]
pub enum RunError {
    Request(RequestError),
    /// A run is under way.
    Busy,
}

/// A run is under way.
pub open spec fn is_busy(job: Option<Job>) -> bool {
    job matches Some(j) && !is_finished(j.state)
}

/// What a model is called: the file name of our own network, or the COCO network's
/// name.
pub open spec fn name_of_model(model: Seq<char>, custom: Option<CustomModel>) -> Seq<char> {
    match custom {
        Some(m) if model == "custom"@ => if paths::last_name(m.weights@).len() == 0 {
            "custom"@
        } else {
            paths::last_name(m.weights@)
        },
        _ => "YOLOv8"@ + model + " \u{b7} COCO"@,
    }
}

/// The run that a request starts.
pub open spec fn is_new_job(
    q: RunRequest,
    settings: Settings,
    id: u64,
    now_ms: u64,
    j: Job,
) -> bool {
    let model = model_asked(text::opt_text(q.model), settings.size);
    &&& j.id == id
    &&& j.s == q.s
    &&& j.seg == q.seg
    &&& j.start == q.start
    &&& j.step == q.step
    &&& j.count == q.count
    &&& j.model@ == model
    &&& j.model_name@ == name_of_model(model, settings.custom)
    &&& j.device is None
    &&& j.track == q.track
    &&& j.state == JobState::Loading
    &&& j.done == 0
    &&& j.boxes == 0
    &&& j.load_ms is None
    &&& j.error is None
    &&& j.started_ms == now_ms
    &&& j.finished_ms is None
}

/// What network to load.
#[derive(Clone, Debug)]
pub enum Load {
    /// The loaded one serves.
    Reuse,
    /// Our own network.
    File(CustomModel),
    /// A COCO network.
    Coco(char),
    /// The model has no size.
    NoSize,
}

/// What came of the next frame.
#[derive(Clone, Debug)]
pub enum FrameOutcome {
    /// No more frames.
    End,
    Failed(String),
    /// A frame with this many boxes.
    Found(usize),
}

/// How a run's frames ended.
#[derive(Clone, Debug)]
pub enum WorkEnd {
    Finished,
    Failed(String),
}

/// A run but for its state, its counts and its end.
pub open spec fn same_run(a: Job, b: Job) -> bool {
    &&& a.id == b.id
    &&& a.s == b.s
    &&& a.seg == b.seg
    &&& a.start == b.start
    &&& a.step == b.step
    &&& a.count == b.count
    &&& a.model == b.model
    &&& a.model_name == b.model_name
    &&& a.track == b.track
    &&& a.started_ms == b.started_ms
}

/// A run's device and the time to load its network.
pub open spec fn same_network(a: Job, b: Job) -> bool {
    a.device == b.device && a.load_ms == b.load_ms
}

/// What is not part of the current run.
pub open spec fn same_rest(a: Vision, b: Vision) -> bool {
    a.settings == b.settings && a.loaded == b.loaded && a.next_id == b.next_id
}

/// What the end of its frames makes of a run.
pub open spec fn is_run_end(before: Job, after: Job, end: WorkEnd, now_ms: u64) -> bool {
    &&& same_run(before, after)
    &&& same_network(before, after)
    &&& after.done == before.done
    &&& after.boxes == before.boxes
    &&& after.finished_ms == Some(now_ms)
    &&& match end {
        WorkEnd::Finished => {
            &&& after.error == before.error
            &&& after.state == if before.state == JobState::Cancelled {
                JobState::Cancelled
            } else {
                JobState::Done
            }
        },
        WorkEnd::Failed(e) => after.state == JobState::Failed && after.error == Some(e),
    }
}

impl Vision {
    pub fn new(settings: Settings) -> (r: Vision)
        ensures
            r.settings == settings,
            r.job is None,
            !r.cancel,
            r.loaded is None,
            r.next_id == 1,
    {
        Vision { settings, job: None, cancel: false, loaded: None, next_id: 1 }
    }

    /// Whether a run is under way.
    pub fn running(&self) -> (r: bool)
        ensures
            r == is_busy(self.job),
    {
        match &self.job {
            Some(j) => !j.finished(),
            None => false,
        }
    }

    /// What a model is called.
    pub fn model_name(&self, model: &str) -> (r: String)
        ensures
            r@ == name_of_model(model@, self.settings.custom),
    {
        if let Some(m) = &self.settings.custom {
            if text::same(model, "custom") {
                let name = paths::file_name(m.weights.as_str());
                if name.as_str().unicode_len() == 0 {
                    return "custom".to_owned();
                }
                return name;
            }
        }
        let mut out = text::concat("YOLOv8", model);
        out.append(" \u{b7} COCO");
        out
    }

    /// Start a run, unless one is under way; the model to use.
    pub fn run(&mut self, request: &RunRequest, now_ms: u64) -> (r: Result<ModelKey, RunError>)
        requires
            old(self).next_id < u64::MAX,
        ensures
            final(self).settings == old(self).settings,
            final(self).loaded == old(self).loaded,
            match r {
                Ok(key) => {
                    &&& request_problem(*request, old(self).settings) is None
                    &&& !is_busy(old(self).job)
                    &&& key.model@ == model_asked(
                        text::opt_text(request.model),
                        old(self).settings.size,
                    )
                    &&& key.cpu == request.cpu
                    &&& final(self).job is Some
                    &&& is_new_job(
                        *request,
                        old(self).settings,
                        old(self).next_id,
                        now_ms,
                        final(self).job->0,
                    )
                    &&& !final(self).cancel
                    &&& final(self).next_id == old(self).next_id + 1
                },
                Err(RunError::Request(e)) => {
                    &&& request_problem(*request, old(self).settings) == Some(e)
                    &&& *final(self) == *old(self)
                },
                Err(RunError::Busy) => {
                    &&& request_problem(*request, old(self).settings) is None
                    &&& is_busy(old(self).job)
                    &&& *final(self) == *old(self)
                },
            },
    {
        let key = match request.check(&self.settings) {
            Ok(key) => key,
            Err(e) => {
                return Err(RunError::Request(e));
            },
        };
        if self.running() {
            return Err(RunError::Busy);
        }
        let id = self.next_id;
        self.next_id = id + 1;
        let model_name = self.model_name(key.model.as_str());
        self.job = Some(
            Job {
                id,
                s: request.s.clone(),
                seg: request.seg.clone(),
                start: request.start,
                step: request.step,
                count: request.count,
                model: key.model.clone(),
                model_name,
                device: None,
                track: request.track,
                state: JobState::Loading,
                done: 0,
                boxes: 0,
                load_ms: None,
                error: None,
                started_ms: now_ms,
                finished_ms: None,
            },
        );
        self.cancel = false;
        Ok(key)
    }

    /// Answer a request for a run: while one is under way it is refused, whatever it
    /// asks for.
    pub fn post_run(&mut self, request: &RunRequest, now_ms: u64) -> (r: Result<ModelKey, RunError>)
        requires
            old(self).next_id < u64::MAX,
        ensures
            final(self).settings == old(self).settings,
            final(self).loaded == old(self).loaded,
            match r {
                Ok(key) => {
                    &&& request_problem(*request, old(self).settings) is None
                    &&& !is_busy(old(self).job)
                    &&& key.model@ == model_asked(
                        text::opt_text(request.model),
                        old(self).settings.size,
                    )
                    &&& key.cpu == request.cpu
                    &&& final(self).job is Some
                    &&& is_new_job(
                        *request,
                        old(self).settings,
                        old(self).next_id,
                        now_ms,
                        final(self).job->0,
                    )
                    &&& !final(self).cancel
                    &&& final(self).next_id == old(self).next_id + 1
                },
                Err(RunError::Request(e)) => {
                    &&& !is_busy(old(self).job)
                    &&& request_problem(*request, old(self).settings) == Some(e)
                    &&& *final(self) == *old(self)
                },
                Err(RunError::Busy) => is_busy(old(self).job) && *final(self) == *old(self),
            },
    {
        if self.running() {
            return Err(RunError::Busy);
        }
        self.run(request, now_ms)
    }

    /// Stop the current run after its frame.
    pub fn cancel(&mut self)
        ensures
            *final(self) == (Vision { cancel: true, ..*old(self) }),
    {
        self.cancel = true;
    }

    /// The network for a key: the loaded one, or the one to load, for which the
    /// loaded one is freed first.
    pub fn detector(&mut self, key: &ModelKey) -> (r: Load)
        ensures
            final(self).settings == old(self).settings,
            final(self).job == old(self).job,
            final(self).cancel == old(self).cancel,
            final(self).next_id == old(self).next_id,
            ({
                let serves = old(self).loaded matches Some(k) && k.model@ == key.model@ && k.cpu
                    == key.cpu;
                if serves {
                    r is Reuse && final(self).loaded == old(self).loaded
                } else {
                    &&& final(self).loaded is None
                    &&& if key.model@ == "custom"@ && old(self).settings.custom is Some {
                        &&& r is File
                        &&& r->File_0.weights == old(self).settings.custom->0.weights
                        &&& r->File_0.size == old(self).settings.custom->0.size
                        &&& r->File_0.classes == old(self).settings.custom->0.classes
                    } else if key.model@.len() == 0 {
                        r is NoSize
                    } else {
                        r == Load::Coco(key.model@[0])
                    }
                }
            }),
    {
        if let Some(k) = &self.loaded {
            if text::same(k.model.as_str(), key.model.as_str()) && k.cpu == key.cpu {
                return Load::Reuse;
            }
        }
        self.loaded = None;
        if let Some(m) = &self.settings.custom {
            if text::same(key.model.as_str(), "custom") {
                return Load::File(
                    CustomModel {
                        weights: m.weights.clone(),
                        size: m.size,
                        classes: m.classes.clone(),
                    },
                );
            }
        }
        if key.model.as_str().unicode_len() == 0 {
            return Load::NoSize;
        }
        Load::Coco(key.model.as_str().get_char(0))
    }

    /// The network for a key was loaded.
    pub fn network_loaded(&mut self, key: ModelKey)
        ensures
            *final(self) == (Vision { loaded: Some(key), ..*old(self) }),
    {
        self.loaded = Some(key);
    }

    /// The network is ready: frames are detected from now on.
    pub fn work_started(&mut self, on_cpu: bool, load_ms: Option<Double>)
        ensures
            same_rest(*old(self), *final(self)),
            final(self).cancel == old(self).cancel,
            final(self).job is Some == old(self).job is Some,
            old(self).job matches Some(b) ==> {
                let a = final(self).job->0;
                &&& same_run(b, a)
                &&& a.state == JobState::Running
                &&& a.device is Some
                &&& a.device->0@ == if on_cpu {
                    "cpu"@
                } else {
                    "cuda"@
                }
                &&& a.load_ms == load_ms
                &&& a.done == b.done
                &&& a.boxes == b.boxes
                &&& a.error == b.error
                &&& a.finished_ms == b.finished_ms
            },
    {
        let mut job = None;
        std::mem::swap(&mut job, &mut self.job);
        if let Some(mut j) = job {
            j.state = JobState::Running;
            let device = if on_cpu {
                "cpu".to_owned()
            } else {
                "cuda".to_owned()
            };
            j.device = Some(device);
            j.load_ms = load_ms;
            self.job = Some(j);
        }
    }

    /// Whether to go on to the next frame; a cancelled run stops here.
    pub fn wants_frame(&mut self) -> (r: bool)
        ensures
            r == !old(self).cancel,
            same_rest(*old(self), *final(self)),
            final(self).cancel == old(self).cancel,
            final(self).job == (match old(self).job {
                Some(b) => Some(
                    if r {
                        b
                    } else {
                        Job { state: JobState::Cancelled, ..b }
                    },
                ),
                None => None,
            }),
    {
        if !self.cancel {
            return true;
        }
        let mut job = None;
        std::mem::swap(&mut job, &mut self.job);
        if let Some(mut j) = job {
            j.state = JobState::Cancelled;
            self.job = Some(j);
        }
        false
    }

    /// Take what came of the next frame; how the frames ended, if they did.
    pub fn take_frame(&mut self, outcome: FrameOutcome) -> (r: Option<WorkEnd>)
        requires
            old(self).job matches Some(j) ==> j.done < u64::MAX && (outcome matches FrameOutcome::Found(
                n,
            ) ==> j.boxes + n <= usize::MAX),
        ensures
            same_rest(*old(self), *final(self)),
            final(self).cancel == old(self).cancel,
            match outcome {
                FrameOutcome::End => r matches Some(e) && e is Finished && final(self).job == old(
                    self,
                ).job,
                FrameOutcome::Failed(e) => r == Some(WorkEnd::Failed(e)) && final(self).job == old(
                    self,
                ).job,
                FrameOutcome::Found(n) => r is None && final(self).job == (match old(self).job {
                    Some(b) => Some(
                        Job { done: (b.done + 1) as u64, boxes: (b.boxes + n) as usize, ..b },
                    ),
                    None => None,
                }),
            },
    {
        match outcome {
            FrameOutcome::End => Some(WorkEnd::Finished),
            FrameOutcome::Failed(e) => Some(WorkEnd::Failed(e)),
            FrameOutcome::Found(n) => {
                let mut job = None;
                std::mem::swap(&mut job, &mut self.job);
                if let Some(mut j) = job {
                    j.done = j.done + 1;
                    j.boxes = j.boxes + n;
                    self.job = Some(j);
                }
                None
            },
        }
    }

    /// What a run comes to when its frames ended: without any frame it failed, unless
    /// it was cancelled; whether there are results to keep.
    pub fn work_end(&self, end: WorkEnd, frames: usize, start: u64) -> (r: (WorkEnd, bool))
        ensures
            r.1 == (frames > 0),
            if end is Finished && frames == 0 && !self.cancel {
                &&& r.0 is Failed
                &&& r.0->Failed_0@ == "no frames from frame "@ + text::decimal_text(start as nat)
                    + ": the segment is shorter"@
            } else {
                r.0 == end
            },
    {
        if frames == 0 && !self.cancel {
            if let WorkEnd::Finished = end {
                let n = text::decimal(start);
                let mut e = text::concat("no frames from frame ", n.as_str());
                e.append(": the segment is shorter");
                return (WorkEnd::Failed(e), false);
            }
        }
        (end, frames > 0)
    }

    /// The run ended; whether it did any frame, so that its file is written.
    pub fn finish(&mut self, end: WorkEnd, now_ms: u64) -> (r: bool)
        ensures
            same_rest(*old(self), *final(self)),
            final(self).cancel == old(self).cancel,
            final(self).job is Some == old(self).job is Some,
            old(self).job matches Some(b) ==> is_run_end(b, final(self).job->0, end, now_ms),
            r == (old(self).job matches Some(b) && b.done > 0),
    {
        let mut job = None;
        std::mem::swap(&mut job, &mut self.job);
        if let Some(mut j) = job {
            j.finished_ms = Some(now_ms);
            match end {
                WorkEnd::Finished => {
                    if j.state != JobState::Cancelled {
                        j.state = JobState::Done;
                    }
                },
                WorkEnd::Failed(e) => {
                    j.state = JobState::Failed;
                    j.error = Some(e);
                },
            }
            let some = j.done > 0;
            self.job = Some(j);
            some
        } else {
            false
        }
    }

    /// A file of a segment's results.
    pub fn results_path(&self, session: &str, stem: &str, suffix: &str) -> (r: String)
        ensures
            r@ == paths::joined_path(
                paths::joined_path(self.settings.results@, session@),
                stem@ + suffix@,
            ),
    {
        let dir = paths::join_path(self.settings.results.as_str(), session);
        let name = text::concat(stem, suffix);
        paths::join_path(dir.as_str(), name.as_str())
    }
}

/// While a run is under way no other starts, and every run has an id of its own:
/// the next one's is larger.
pub proof fn law_one_run_at_a_time(before: Vision, request: RunRequest, now_ms: u64, job: Job)
    requires
        is_new_job(request, before.settings, before.next_id, now_ms, job),
        before.job matches Some(j) ==> j.id < before.next_id,
    ensures
        is_busy(Some(job)),
        before.job matches Some(j) ==> j.id < job.id,
        job.id < before.next_id + 1,
{
}

/// A run that ended stays ended, and another may start: it is done, failed or
/// cancelled. One that was cancelled is not done.
pub proof fn law_run_ends(before: Job, after: Job, end: WorkEnd, now_ms: u64)
    requires
        is_run_end(before, after, end, now_ms),
    ensures
        !is_busy(Some(after)),
        before.state == JobState::Cancelled ==> after.state != JobState::Done,
{
}

/// The first segment with this file.
pub open spec fn segment_place(files: Seq<String>, file: Seq<char>, i: int) -> int
    decreases files.len() - i,
{
    if i < 0 || i >= files.len() {
        files.len() as int
    } else if files[i]@ == file {
        i
    } else {
        segment_place(files, file, i + 1)
    }
}

/// The first segment of a session with a file.
pub fn segment_index(files: &Vec<String>, file: &str) -> (r: Option<usize>)
    ensures
        ({
            let i = segment_place(files@, file@, 0);
            match r {
                Some(n) => n == i && i < files@.len(),
                None => i == files@.len(),
            }
        }),
{
    let mut i: usize = 0;
    while i < files.len()
        invariant
            i <= files@.len(),
            segment_place(files@, file@, 0) == segment_place(files@, file@, i as int),
        decreases files@.len() - i,
    {
        if text::same(files[i].as_str(), file) {
            return Some(i);
        }
        i += 1;
    }
    None
}

/// What the page asks for.
#[derive(Clone, Copy, Debug, PartialEq, Eq, Structural)]
pub enum VisionRoute {
    Info,
    Job,
    Results,
    Run,
    Cancel,
    Send,
    Unknown,
}

/// What a `GET` asks for.
pub fn vision_get(path: &str) -> (r: VisionRoute)
    ensures
        r == (if path@ == "info"@ {
            VisionRoute::Info
        } else if path@ == "job"@ {
            VisionRoute::Job
        } else if path@ == "results"@ {
            VisionRoute::Results
        } else {
            VisionRoute::Unknown
        }),
{
    if text::same(path, "info") {
        VisionRoute::Info
    } else if text::same(path, "job") {
        VisionRoute::Job
    } else if text::same(path, "results") {
        VisionRoute::Results
    } else {
        VisionRoute::Unknown
    }
}

/// What a `POST` asks for.
pub fn vision_post(path: &str) -> (r: VisionRoute)
    ensures
        r == (if path@ == "run"@ {
            VisionRoute::Run
        } else if path@ == "cancel"@ {
            VisionRoute::Cancel
        } else if path@ == "send"@ {
            VisionRoute::Send
        } else {
            VisionRoute::Unknown
        }),
{
    if text::same(path, "run") {
        VisionRoute::Run
    } else if text::same(path, "cancel") {
        VisionRoute::Cancel
    } else if text::same(path, "send") {
        VisionRoute::Send
    } else {
        VisionRoute::Unknown
    }
}

/// What to send to the labels: a segment's results, with classes renamed.
#[derive(Clone, Debug)]
pub struct SendRequest {
    pub s: String,
    pub seg: String,
    /// Pairs `from=to`.
    pub map: String,
}

/// Why results are not sent.
#[derive(Clone, Copy, Debug, PartialEq, Eq, Structural)]
pub enum SendError {
    /// The body is no JSON.
    BadJson,
    BadSession,
    BadSegment,
}

/// What a request to send results comes to; what is not given is empty.
pub open spec fn is_send(
    s: Option<Seq<char>>,
    seg: Option<Seq<char>>,
    map: Option<Seq<char>>,
    r: Result<SendRequest, SendError>,
) -> bool {
    let session = knowledge::or_empty(s);
    let segment = knowledge::or_empty(seg);
    match r {
        Ok(q) => {
            &&& review_routes::plain_name(session)
            &&& review_routes::plain_name(segment)
            &&& q.s@ == session
            &&& q.seg@ == segment
            &&& q.map@ == knowledge::or_empty(map)
        },
        Err(SendError::BadSession) => !review_routes::plain_name(session),
        Err(SendError::BadSegment) => review_routes::plain_name(session)
            && !review_routes::plain_name(segment),
        Err(SendError::BadJson) => false,
    }
}

/// The results to send, by the names of session and segment.
pub fn sending(s: Option<String>, seg: Option<String>, map: Option<String>) -> (r: Result<
    SendRequest,
    SendError,
>)
    ensures
        is_send(text::opt_text(s), text::opt_text(seg), text::opt_text(map), r),
{
    let s = knowledge::text_or_empty(s);
    let seg = knowledge::text_or_empty(seg);
    if check_name(s.as_str()).is_err() {
        return Err(SendError::BadSession);
    }
    if check_name(seg.as_str()).is_err() {
        return Err(SendError::BadSegment);
    }
    Ok(SendRequest { s, seg, map: knowledge::text_or_empty(map) })
}

/// The results that the body of a request asks to send.
pub fn send_request(body: &[u8]) -> (r: Result<SendRequest, SendError>)
    ensures
        if json::is_json(body@) {
            is_send(
                json::text_in(json::json_at(body@, "/s"@)),
                json::text_in(json::json_at(body@, "/seg"@)),
                json::text_in(json::json_at(body@, "/map"@)),
                r,
            )
        } else {
            r == Err::<SendRequest, SendError>(SendError::BadJson)
        },
{
    match json::fields(body, &["/s", "/seg", "/map"]) {
        Some(f) => sending(f[0].text(), f[1].text(), f[2].text()),
        None => Err(SendError::BadJson),
    }
}

} // verus!
