//! What a run of the detector may be and how it ends, said of the requests and
//! jobs themselves.
use vstd::prelude::*;

use crate::double::Double;
use crate::paths;
use crate::review_routes;
use crate::text;
use crate::vision;
use crate::vision::{
    CustomModel, Job, JobState, RequestError, RunRequest, SendError, SendRequest, Settings, SettingsError,
    VisionConfig, WorkEnd,
};

verus! {

/// Three sizes of the COCO network are offered and five of one's own; where none
/// is named it is the smallest, and a name of more letters than one is none.
pub proof fn law_sizes(name: Seq<char>)
    ensures
        vision::coco_size(None) == Some('n'),
        vision::weights_size(None) == Some('n'),
        vision::coco_size(Some(name)) == (if name == seq!['n'] {
            Some('n')
        } else if name == seq!['s'] {
            Some('s')
        } else if name == seq!['m'] {
            Some('m')
        } else {
            None
        }),
        vision::weights_size(Some(name)) is Some == (name == seq!['n'] || name == seq!['s'] || name
            == seq!['m'] || name == seq!['l'] || name == seq!['x']),
        vision::weights_size(Some(name)) matches Some(c) ==> name == seq![c],
{
    if name.len() == 1 {
        assert(name =~= seq![name[0]]);
    }
    assert(seq!['n'][0] == 'n' && seq!['s'][0] == 's' && seq!['m'][0] == 'm' && seq!['l'][0] == 'l'
        && seq!['x'][0] == 'x');
}

/// A confidence is at least nothing and less than one; where none is given it is
/// a quarter.
pub proof fn law_confidences(bits: u64, c: Double)
    requires
        bits < 0x8000_0000_0000_0000,
    ensures
        vision::is_confidence(Double { bits }) == (bits < 0x3ff0_0000_0000_0000),
        bits > 0 ==> !vision::is_confidence(
            Double { bits: (bits + 0x8000_0000_0000_0000) as u64 },
        ),
        vision::confidence_of(Some(c)) == c,
        vision::confidence_of(None) == (Double { bits: 0x3fd0_0000_0000_0000 }),
{
}

/// Settings are refused for a network without classes or the other way round,
/// then for its size, for the confidence and for the size of the COCO network.
pub proof fn law_settings_refused(c: VisionConfig)
    ensures
        ({
            let apart = c.weights is Some != c.classes is Some;
            let size = c.weights is Some && vision::weights_size(text::opt_text(c.weights_size))
                is None;
            let sure = c.confidence matches Some(v) ==> vision::is_confidence(v);
            let coco = vision::coco_size(text::opt_text(c.size)) is Some;
            match vision::settings_problem(c) {
                None => !apart && !size && sure && coco,
                Some(SettingsError::Apart) => apart,
                Some(SettingsError::WeightsSize) => !apart && size,
                Some(SettingsError::Confidence) => !apart && !size && !sure,
                Some(SettingsError::Size) => !apart && !size && sure && !coco,
            }
        }),
{
}

/// Paths of the settings start at the folder of the file they stand in.
pub proof fn law_settings_paths(
    c: VisionConfig,
    dir: Seq<char>,
    default_results: Seq<char>,
    s: Settings,
)
    requires
        vision::is_settings(c, dir, default_results, s),
        dir.len() > 0 && dir.last() != '/',
    ensures
        c.results is None ==> s.results@ == default_results,
        c.results matches Some(r) ==> (r@.len() > 0 && r@[0] != '/' ==> s.results@ == dir + seq![
            '/',
        ] + r@) && (r@.len() > 0 && r@[0] == '/' ==> s.results@ == r@),
        (s.custom is Some) == (c.weights is Some && c.classes is Some),
        s.custom matches Some(m) ==> m.weights@ == paths::joined_path(dir, c.weights->0@)
            && m.classes@ == paths::joined_path(dir, c.classes->0@),
        c.confidence matches Some(v) ==> s.confidence == v,
        c.size is None ==> s.size == 'n',
{
    if let Some(r) = c.results {
        if r@.len() > 0 {
            paths::law_names_stand_in_their_folders(dir, r@);
        }
    }
}

/// A run is refused for its session, its segment, a step of nothing, a count of
/// nothing or of more than 20,000 frames, and a network that is not there, in
/// this order.
pub proof fn law_runs_refused(q: RunRequest, settings: Settings)
    ensures
        ({
            let own = q.model matches Some(m) && m@ == "custom"@;
            let coco = match q.model {
                Some(m) => m@ == seq!['n'] || m@ == seq!['s'] || m@ == seq!['m'],
                None => settings.size == 'n' || settings.size == 's' || settings.size == 'm',
            };
            let session = review_routes::plain_name(q.s@);
            let segment = review_routes::plain_name(q.seg@);
            let counted = 1 <= q.count <= 20_000;
            match vision::request_problem(q, settings) {
                None => session && segment && q.step > 0 && counted && (own ==> settings.custom
                    is Some) && (!own ==> coco),
                Some(RequestError::BadSession) => !session,
                Some(RequestError::BadSegment) => session && !segment,
                Some(RequestError::Step) => session && segment && q.step == 0,
                Some(RequestError::Count) => session && segment && q.step > 0 && !counted,
                Some(RequestError::NoCustom) => session && segment && q.step > 0 && counted && own
                    && settings.custom is None,
                Some(RequestError::UnknownModel) => session && segment && q.step > 0 && counted
                    && !own && !coco,
            }
        }),
{
    reveal_strlit("custom");
    assert("custom"@.len() == 6);
    if let Some(m) = q.model {
        if m@.len() == 1 {
            assert(m@ =~= seq![m@[0]]);
        }
    }
    assert(seq!['n'][0] == 'n' && seq!['s'][0] == 's' && seq!['m'][0] == 'm');
}

/// A new job is what was asked for and has done nothing yet.
pub proof fn law_new_jobs(q: RunRequest, settings: Settings, id: u64, now_ms: u64, j: Job)
    requires
        vision::is_new_job(q, settings, id, now_ms, j),
    ensures
        j.id == id && j.started_ms == now_ms,
        j.s == q.s && j.seg == q.seg && j.start == q.start && j.step == q.step && j.count
            == q.count && j.track == q.track,
        q.model matches Some(m) ==> j.model@ == m@,
        q.model is None ==> j.model@ == seq![settings.size],
        j.state is Loading && j.done == 0 && j.boxes == 0,
        j.error is None && j.finished_ms is None && j.device is None && j.load_ms is None,
{
}

/// A job is finished when it is done, failed or was stopped; while it loads or
/// runs it is not.
pub proof fn law_finished_jobs(state: JobState)
    ensures
        vision::is_finished(state) == !(state is Loading || state is Running),
{
}

/// The end of a run: it failed with its error, or it is done unless it was
/// stopped. What it found stays.
pub proof fn law_ends_of_runs(before: Job, after: Job, end: WorkEnd, now_ms: u64)
    requires
        vision::is_run_end(before, after, end, now_ms),
    ensures
        after.id == before.id && after.s == before.s && after.seg == before.seg && after.start
            == before.start && after.step == before.step && after.count == before.count
            && after.model == before.model && after.started_ms == before.started_ms,
        after.done == before.done && after.boxes == before.boxes,
        after.finished_ms == Some(now_ms),
        end matches WorkEnd::Failed(e) ==> after.state is Failed && after.error == Some(e),
        end is Finished && before.state is Cancelled ==> after.state is Cancelled,
        end is Finished && !(before.state is Cancelled) ==> after.state is Done,
        end is Finished ==> after.error == before.error,
{
}

/// A segment is found under its file's name, the first where there are several.
pub proof fn law_segments_found(files: Seq<String>, file: Seq<char>, from: int)
    requires
        0 <= from <= files.len(),
    ensures
        ({
            let p = vision::segment_place(files, file, from);
            &&& from <= p <= files.len()
            &&& p < files.len() ==> files[p]@ == file
            &&& forall|i: int| from <= i < p ==> (#[trigger] files[i])@ != file
        }),
    decreases files.len() - from,
{
    if from < files.len() && files[from]@ != file {
        law_segments_found(files, file, from + 1);
    }
}

/// Results are sent of a session and a segment with plain names; what is not
/// given is empty.
pub proof fn law_sendings(
    s: Option<Seq<char>>,
    seg: Option<Seq<char>>,
    map: Option<Seq<char>>,
    r: Result<SendRequest, SendError>,
)
    requires
        vision::is_send(s, seg, map, r),
    ensures
        (r is Ok) == (s is Some && seg is Some && review_routes::plain_name(s->0)
            && review_routes::plain_name(seg->0)),
        s is None ==> (r matches Err(e) && e is BadSession),
        s is Some && review_routes::plain_name(s->0) && r is Err ==> r->Err_0 is BadSegment,
        r matches Ok(q) ==> q.s@ == s->0 && q.seg@ == seg->0 && (map matches Some(m) ==> q.map@
            == m) && (map is None ==> q.map@.len() == 0),
{
}

/// One's own network is named by its file, another by its size.
pub proof fn law_models_are_named(model: Seq<char>, m: CustomModel)
    ensures
        vision::name_of_model(model, None) == "YOLOv8"@ + model + " \u{b7} COCO"@,
        model != "custom"@ ==> vision::name_of_model(model, Some(m)) == "YOLOv8"@ + model
            + " \u{b7} COCO"@,
        paths::last_name(m.weights@).len() > 0 ==> vision::name_of_model("custom"@, Some(m))
            == paths::last_name(m.weights@),
        paths::last_name(m.weights@).len() == 0 ==> vision::name_of_model("custom"@, Some(m))
            == "custom"@,
{
}

} // verus!
