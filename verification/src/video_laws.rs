//! What ffmpeg is told and what is read from it, said of the arguments and
//! lines themselves.
use vstd::prelude::*;

use crate::config::VideoConfig;
use crate::text;
use crate::text_laws;
use crate::video;
use crate::video::{Video, VideoNode};

verus! {

/// A node is an input when it is the first of its device and has a name; its
/// place is under `/dev/`, and it is shown with its name and its place.
pub proof fn law_nodes_and_inputs(n: VideoNode)
    ensures
        video::captures(n) == (n.name is Some && (n.index matches Some(i) && text::trimmed(i@)
            == seq!['0'])),
        video::node_input(n).0 == seq!['/', 'd', 'e', 'v', '/'] + n.file_name@,
        n.name matches Some(name) ==> video::node_input(n).1 == text::trimmed(name@) + seq![
            ' ',
            '(',
        ] + (seq!['/', 'd', 'e', 'v', '/'] + n.file_name@) + seq![')'],
{
    reveal_strlit("0");
    reveal_strlit("/dev/");
    reveal_strlit(" (");
    reveal_strlit(")");
    assert("0"@ =~= seq!['0']);
    assert("/dev/"@ =~= seq!['/', 'd', 'e', 'v', '/']);
    assert(" ("@ =~= seq![' ', '(']);
    assert(")"@ =~= seq![')']);
}

/// A display can be recorded; without one there is no such input.
pub proof fn law_screen_is_an_input(display: Seq<char>)
    ensures
        video::screen_input(None).len() == 0,
        video::screen_input(Some(display)).len() == 1,
        video::screen_input(Some(display))[0].0 == "screen"@,
{
}

/// A restart keeps what is configured, chosen and recorded, and forgets the rest.
pub proof fn law_restarts(v: Video)
    ensures
        ({
            let r = video::restarting(v);
            &&& r.config == v.config && r.input == v.input && r.recording == v.recording
            &&& !r.running && r.started_at_ms is None && r.error is None && r.last_preview_ms == 0
            &&& v.generation < u64::MAX ==> r.generation == v.generation + 1
            &&& video::restart_of(v).start == (v.input is Some)
            &&& (video::restart_of(v).end is Some) == v.running
            &&& video::restart_of(v).end matches Some(gently) ==> gently == (v.last_preview_ms != 0)
        }),
{
}

/// A line tells of a fault when `rror` or `busy` stands in it.
pub proof fn law_fault_lines(line: Seq<char>, i: int)
    ensures
        0 <= i <= line.len() - 4 && (line.subrange(i, i + 4) == seq!['r', 'r', 'o', 'r']
            || line.subrange(i, i + 4) == seq!['b', 'u', 's', 'y']) ==> video::is_fault(line),
        video::is_fault(line) ==> exists|j: int|
            0 <= j <= line.len() - 4 && (#[trigger] line.subrange(j, j + 4) == seq![
                'r',
                'r',
                'o',
                'r',
            ] || line.subrange(j, j + 4) == seq!['b', 'u', 's', 'y']),
{
    reveal_strlit("rror");
    reveal_strlit("busy");
    assert("rror"@ =~= seq!['r', 'r', 'o', 'r']);
    assert("busy"@ =~= seq!['b', 'u', 's', 'y']);
    text_laws::law_pattern_found_first(line, "rror"@, 0);
    text_laws::law_pattern_found_first(line, "busy"@, 0);
    if 0 <= i <= line.len() - 4 {
        assert(line.subrange(i, i + "rror"@.len()) == line.subrange(i, i + 4));
        assert(line.subrange(i, i + "busy"@.len()) == line.subrange(i, i + 4));
    }
    let a = text::find_pattern(line, "rror"@, 0);
    let b = text::find_pattern(line, "busy"@, 0);
    if a >= 0 {
        assert(line.subrange(a, a + 4) == seq!['r', 'r', 'o', 'r']);
    }
    if b >= 0 {
        assert(line.subrange(b, b + 4) == seq!['b', 'u', 's', 'y']);
    }
}

/// The start that a line tells stands between `start: ` and the next comma.
pub proof fn law_start_is_read(before: Seq<char>, t: Seq<char>, rest: Seq<char>)
    requires
        !before.contains('s'),
        t.len() > 0,
        forall|i: int| 0 <= i < t.len() ==> '!' <= #[trigger] t[i] <= '~',
        !t.contains(','),
        !t.contains(':'),
        !rest.contains(':'),
    ensures
        video::start_in(
            before + seq!['s', 't', 'a', 'r', 't', ':', ' '] + t + seq![','] + rest,
        ) == Some(t),
{
    reveal_strlit("start: ");
    let mark = "start: "@;
    assert(mark =~= seq!['s', 't', 'a', 'r', 't', ':', ' ']);
    let line = before + mark + t + seq![','] + rest;
    let n = before.len() as int;
    assert(line.subrange(n, n + 7) =~= mark);
    text_laws::law_pattern_found_first(line, mark, 0);
    let i = text::find_pattern(line, mark, 0);
    if i < 0 {
        assert(line.subrange(n, n + 7) != mark);
    } else if i < n {
        assert(line.subrange(i, i + 7)[0] == line[i]);
        assert(line[i] == before[i]);
        assert(before.contains(before[i]));
    } else if i > n {
        assert(line.subrange(n, n + 7) != mark);
    }
    assert(i == n);
    let from = n + 7;
    text_laws::law_pattern_found_first(line, mark, from);
    let k = text::find_pattern(line, mark, from);
    let tail = t + seq![','] + rest;
    if k >= 0 {
        assert(line.subrange(k, k + 7)[5] == line[k + 5]);
        let j = k + 5 - from;
        assert(line[k + 5] == tail[j]);
        if j < t.len() {
            assert(t.contains(t[j]));
        } else if j > t.len() {
            assert(tail[j] == rest[j - t.len() - 1]);
            assert(rest.contains(rest[j - t.len() - 1]));
        }
    }
    let piece = line.subrange(from, line.len() as int);
    assert(piece =~= tail);
    text::lemma_find(piece, ',', 0);
    assert forall|j: int| 0 <= j < t.len() implies piece[j] != ',' by {
        assert(piece[j] == t[j]);
        assert(t.contains(t[j]));
    }
    assert(piece[t.len() as int] == ',');
    assert(text::find(piece, ',', 0) == t.len());
    assert(piece.take(t.len() as int) =~= t);
    text_laws::law_trim_cuts_the_ends(t, 0, t.len() as int);
    assert(t.subrange(0, t.len() as int) =~= t);
}

/// The screen is grabbed from its display, a device is opened with its own
/// arguments, both at the configured rate.
pub proof fn law_input_arguments(c: VideoConfig, input: Seq<char>, display: Seq<char>)
    ensures
        ({
            let screen = video::input_args(c, "screen"@, Some(display));
            let device = video::input_args(c, input, Some(display));
            let n = device.len() as int;
            &&& screen.len() == 6
            &&& screen[1] == "x11grab"@
            &&& screen[3] == text::decimal_text(c.fps as nat)
            &&& screen[4] == seq!['-', 'i'] && screen[5] == display
            &&& input != "screen"@ ==> {
                &&& n == c.v4l2_args@.len() + 6
                &&& device[1] == "v4l2"@
                &&& forall|i: int|
                    0 <= i < c.v4l2_args@.len() ==> device[2 + i] == #[trigger] c.v4l2_args@[i]@
                &&& device[n - 3] == text::decimal_text(c.fps as nat)
                &&& device[n - 2] == seq!['-', 'i'] && device[n - 1] == input
            }
        }),
{
    reveal_strlit("-i");
    assert("-i"@ =~= seq!['-', 'i']);
}

/// The recording has the configured rate, and the configured height unless that
/// is nothing; the preview has its own.
pub proof fn law_filters(c: VideoConfig)
    ensures
        c.record_height == 0 ==> video::record_filter_text(c) == "fps="@ + text::decimal_text(
            c.record_fps as nat,
        ),
        c.record_height > 0 ==> video::record_filter_text(c) == "scale=-2:"@ + text::decimal_text(
            c.record_height as nat,
        ) + ","@ + ("fps="@ + text::decimal_text(c.record_fps as nat)),
        video::preview_filter(c) == "scale=-2:"@ + text::decimal_text(c.preview_height as nat)
            + ",fps="@ + text::decimal_text(c.preview_fps as nat),
{
}

/// While recording the picture goes both into the file, through the encoder, and
/// into the preview; otherwise only into the preview.
pub proof fn law_output_arguments(c: VideoConfig, filter: Seq<char>, path: Seq<char>)
    ensures
        ({
            let quiet = video::output_args(c, filter, None);
            let rec = video::output_args(c, filter, Some(path));
            let n = rec.len() as int;
            &&& quiet == seq!["-vf"@, video::preview_filter(c)]
            &&& n == c.encoder@.len() + 8
            &&& rec[1] == "[0:v]split=2[rec][pv];[rec]"@ + filter + "[r];[pv]"@
                + video::preview_filter(c) + "[p]"@
            &&& rec[2] == "-map"@ && rec[3] == "[r]"@
            &&& forall|i: int| 0 <= i < c.encoder@.len() ==> rec[4 + i] == #[trigger] c.encoder@[i]@
            &&& rec[n - 3] == path
            &&& rec[n - 2] == "-map"@ && rec[n - 1] == "[p]"@
        }),
{
}

/// The arguments are the input's, then the output's, and the preview leaves by
/// the pipe.
pub proof fn law_all_arguments(
    c: VideoConfig,
    input: Seq<char>,
    display: Option<Seq<char>>,
    filter: Seq<char>,
    recording: Option<Seq<char>>,
)
    ensures
        ({
            let a = video::all_args(c, input, display, filter, recording);
            let i = video::input_args(c, input, display);
            let o = video::output_args(c, filter, recording);
            &&& a.len() == 14 + i.len() + o.len()
            &&& a.subrange(7, (7 + i.len()) as int) == i
            &&& a.subrange((7 + i.len()) as int, (7 + i.len() + o.len()) as int) == o
            &&& a.last() == "pipe:1"@
        }),
{
    let a = video::all_args(c, input, display, filter, recording);
    let i = video::input_args(c, input, display);
    let o = video::output_args(c, filter, recording);
    assert(a.subrange(7, (7 + i.len()) as int) =~= i);
    assert(a.subrange((7 + i.len()) as int, (7 + i.len() + o.len()) as int) =~= o);
}

/// A part's length is the number behind its header, in letters of any size.
pub proof fn law_lengths_are_read(name: Seq<char>, n: nat)
    requires
        n <= usize::MAX,
        text::ascii_lower(name) == "content-length:"@,
    ensures
        video::length_in(name + seq![' '] + text::decimal_text(n)) == Some(Some(n)),
{
    reveal_strlit("content-length:");
    let p = "content-length:"@;
    let d = text::decimal_text(n);
    text::lemma_decimal(n);
    let line = name + seq![' '] + d;
    assert(name.len() == p.len()) by {
        assert(text::ascii_lower(name).len() == name.len());
    }
    assert(p.len() == 15);
    text_laws::law_lower_moves_capitals(name, 0);
    assert(p[0] == 'c');
    assert(line[0] == name[0]);
    assert('!' <= line[0] <= '~');
    assert(text::digit(d[d.len() - 1]) < 10);
    assert(line.last() == d[d.len() - 1]);
    text_laws::law_trim_cuts_the_ends(line, 0, line.len() as int);
    assert(line.subrange(0, line.len() as int) =~= line);
    let l = text::ascii_lower(line);
    assert(p =~= l.subrange(0, 15)) by {
        assert forall|i: int| 0 <= i < 15 implies p[i] == l[i] by {
            assert(line[i] == name[i]);
            assert(text::ascii_lower(name)[i] == p[i]);
        }
    }
    let rest = l.skip(15);
    assert(rest =~= seq![' '] + d) by {
        assert forall|i: int| 0 <= i < rest.len() implies rest[i] == (seq![' '] + d)[i] by {
            assert(rest[i] == text::ascii_lower_char(line[15 + i]));
            if i > 0 {
                assert(line[15 + i] == d[i - 1]);
                assert(text::digit(d[i - 1]) < 10);
            }
        }
    }
    assert(text::digit(d[0]) < 10);
    assert(rest[1] == d[0]);
    assert(rest[rest.len() - 1] == d[d.len() - 1]);
    text_laws::law_trim_cuts_the_ends(rest, 1, rest.len() as int);
    assert(rest.subrange(1, rest.len() as int) =~= d);
    text::law_decimal_reads_back(n, usize::MAX as nat);
}

/// An input without frames is named in what the dashboard is told.
pub proof fn law_inputs_without_frames(input: Seq<char>)
    ensures
        video::no_frames(input) == "No frames from "@ + input
            + " yet; retrying. Is the console on?"@,
{
}

} // verus!
