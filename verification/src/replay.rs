//! Replaying actions to the console instead of the physical controller.
//!
//! An [`Action`] is one controller state. Every field is optional, and each one
//! given replaces the controller's own value; with `mix` set it is combined with
//! the controller instead: buttons pressed on either count, for each stick and
//! the gyro whichever moves more wins, and the accelerometer stays the
//! controller's.
use crate::frame;
use crate::report;
use crate::text;
use crate::paths;
use crate::recorder;
use vstd::prelude::*;

verus! {

/// Stick value at rest.
pub const STICK_CENTER: i64 = 2048;

/// One controller state to play.
#[derive(Clone, Debug)]
pub struct Action {
    /// When to play it, in milliseconds from the first line.
    pub t_ms: Option<u64>,
    /// Names of the pressed buttons; all others are released.
    pub buttons: Option<Vec<String>>,
    /// Raw 12-bit `[x, y]`.
    pub left_stick: Option<[u16; 2]>,
    /// Raw 12-bit `[x, y]`.
    pub right_stick: Option<[u16; 2]>,
    /// Raw gyro `[x, y, z]`.
    pub gyro: Option<[i16; 3]>,
    /// Raw accelerometer `[x, y, z]`.
    pub accel: Option<[i16; 3]>,
    /// Combine with the controller instead of replacing it.
    pub mix: bool,
}

/// Why a decoded line is no action.
#[derive(Clone, Debug)]
pub enum ActionError {
    /// A button of this name does not exist.
    UnknownButton(String),
    /// A stick value is not 12-bit.
    StickRange(u16, u16),
}

/// A stick whose values are 12-bit.
pub open spec fn stick_in_range(s: Option<[u16; 2]>) -> bool {
    s matches Some(v) ==> v@[0] <= 0xfff && v@[1] <= 0xfff
}

/// The names listed, if any.
pub open spec fn listed(buttons: Option<Vec<String>>) -> Seq<Seq<char>> {
    match buttons {
        Some(list) => text::texts(list@),
        None => Seq::empty(),
    }
}

/// All listed buttons exist.
pub open spec fn buttons_known(buttons: Option<Vec<String>>) -> bool {
    forall|i: int|
        0 <= i < listed(buttons).len() ==> report::is_button(#[trigger] listed(buttons)[i])
}

/// The position of the first listed button that does not exist.
pub open spec fn first_unknown(buttons: Option<Vec<String>>, i: int) -> bool {
    &&& 0 <= i < listed(buttons).len()
    &&& !report::is_button(listed(buttons)[i])
    &&& forall|j: int| 0 <= j < i ==> report::is_button(#[trigger] listed(buttons)[j])
}

/// The actions that may be played: known buttons and 12-bit sticks.
pub open spec fn action_ok(a: Action) -> bool {
    buttons_known(a.buttons) && stick_in_range(a.left_stick) && stick_in_range(a.right_stick)
}

/// What is wrong with an action: the first button that does not exist, else the
/// first stick that is not 12-bit.
pub open spec fn is_error_of(a: Action, e: ActionError) -> bool {
    match e {
        ActionError::UnknownButton(name) => exists|i: int| #[trigger]
            first_unknown(a.buttons, i) && listed(a.buttons)[i] == name@,
        ActionError::StickRange(x, y) => buttons_known(a.buttons) && {
            let s = if stick_in_range(a.left_stick) {
                a.right_stick
            } else {
                a.left_stick
            };
            !stick_in_range(s) && s->0@[0] == x && s->0@[1] == y
        },
    }
}

/// How far a stick is from its centre, squared.
pub open spec fn reach(x: int, y: int) -> int {
    (x - 2048) * (x - 2048) + (y - 2048) * (y - 2048)
}

/// How fast three gyro axes turn, squared.
pub open spec fn speed(x: int, y: int, z: int) -> int {
    x * x + y * y + z * z
}

/// The sum of three samples of an axis over three, towards zero.
pub open spec fn mean(r: Seq<u8>, n: int) -> int {
    let at = 13 + 2 * n;
    let sum = report::axis(r, at) + report::axis(r, at + 12) + report::axis(r, at + 24);
    if sum >= 0 {
        sum / 3
    } else {
        -((-sum) / 3)
    }
}

/// The action that an input report carries.
pub open spec fn carries(r: Seq<u8>, a: Action) -> bool {
    &&& a.t_ms is None
    &&& !a.mix
    &&& a.buttons is Some
    &&& listed(a.buttons) == report::held_names(r, 22)
    &&& a.left_stick matches Some(s) && s@[0] == report::stick_x(r, 6) && s@[1]
        == report::stick_y(r, 6)
    &&& a.right_stick matches Some(s) && s@[0] == report::stick_x(r, 9) && s@[1]
        == report::stick_y(r, 9)
    &&& a.accel is Some == report::has_motion(r)
    &&& a.gyro is Some == report::has_motion(r)
    &&& a.accel matches Some(v) ==> v@[0] == mean(r, 0) && v@[1] == mean(r, 1) && v@[2] == mean(
        r,
        2,
    )
    &&& a.gyro matches Some(v) ==> v@[0] == mean(r, 3) && v@[1] == mean(r, 4) && v@[2] == mean(r, 5)
}

/// A button byte: the controller's own bits stay only when mixing.
pub open spec fn kept_bits(b: u8, mix: bool) -> u8 {
    if mix {
        b
    } else {
        0
    }
}

/// A report with the buttons of an action.
pub open spec fn with_buttons(r: Seq<u8>, buttons: Option<Vec<String>>, mix: bool) -> Seq<u8> {
    if buttons is Some {
        let names = listed(buttons);
        r.update(3, kept_bits(r[3], mix) | report::pressed_bits(names, 3, 22)).update(
            4,
            kept_bits(r[4], mix) | report::pressed_bits(names, 4, 22),
        ).update(5, kept_bits(r[5], mix) | report::pressed_bits(names, 5, 22))
    } else {
        r
    }
}

/// A report with a stick of an action.
pub open spec fn stick_applied(r: Seq<u8>, stick: Option<[u16; 2]>, at: int, mix: bool) -> Seq<u8> {
    match stick {
        Some(s) => if !mix || reach(s@[0] as int, s@[1] as int) > reach(
            report::stick_x(r, at),
            report::stick_y(r, at),
        ) {
            report::with_stick(r, at, s@[0] as int, s@[1] as int)
        } else {
            r
        },
        None => r,
    }
}

/// A report with the motion of an action in the sample at `at`.
pub open spec fn sample_applied(
    r: Seq<u8>,
    accel: Option<[i16; 3]>,
    gyro: Option<[i16; 3]>,
    at: int,
    mix: bool,
) -> Seq<u8> {
    let r1 = match accel {
        Some(a) => if mix {
            r
        } else {
            report::with_axes(r, at, a@)
        },
        None => r,
    };
    match gyro {
        Some(g) => if !mix || speed(g@[0] as int, g@[1] as int, g@[2] as int) > speed(
            report::axis(r1, at + 6),
            report::axis(r1, at + 8),
            report::axis(r1, at + 10),
        ) {
            report::with_axes(r1, at + 6, g@)
        } else {
            r1
        },
        None => r1,
    }
}

/// A report with both sticks of an action.
pub open spec fn with_sticks(r: Seq<u8>, a: Action) -> Seq<u8> {
    stick_applied(stick_applied(r, a.left_stick, 6, a.mix), a.right_stick, 9, a.mix)
}

/// A report with the motion of an action in all three samples.
pub open spec fn with_motion(r: Seq<u8>, a: Action) -> Seq<u8> {
    if report::has_motion(r) {
        sample_applied(
            sample_applied(
                sample_applied(r, a.accel, a.gyro, 13, a.mix),
                a.accel,
                a.gyro,
                25,
                a.mix,
            ),
            a.accel,
            a.gyro,
            37,
            a.mix,
        )
    } else {
        r
    }
}

/// What an action makes of a report.
pub open spec fn applied(a: Action, r: Seq<u8>) -> Seq<u8> {
    if report::is_input(r) {
        with_motion(with_sticks(with_buttons(r, a.buttons, a.mix), a), a)
    } else {
        r
    }
}

/// The names of the held buttons.
fn held_buttons(r: &[u8]) -> (out: Vec<String>)
    requires
        r@.len() >= 12,
    ensures
        text::texts(out@) == report::held_names(r@, 22),
{
    let mut out: Vec<String> = Vec::new();
    let mut i: usize = 0;
    assert(text::texts(out@) =~= Seq::empty());
    while i < report::BUTTON_COUNT
        invariant
            i <= 22,
            r@.len() >= 12,
            text::texts(out@) == report::held_names(r@, i as int),
        decreases 22 - i,
    {
        let b = report::button(i);
        if r[b.1] & b.2 != 0 {
            let ghost before = text::texts(out@);
            out.push(b.0.to_owned());
            assert(text::texts(out@) =~= before.push(report::button_name(i as int)));
        }
        i += 1;
    }
    out
}

/// The bits that pressing the named buttons sets in a byte.
fn bits_for(names: &Vec<String>, byte: usize) -> (r: u8)
    ensures
        r == report::pressed_bits(text::texts(names@), byte as int, 22),
{
    let mut bits: u8 = 0;
    let mut i: usize = 0;
    while i < report::BUTTON_COUNT
        invariant
            i <= 22,
            bits == report::pressed_bits(text::texts(names@), byte as int, i as int),
        decreases 22 - i,
    {
        let b = report::button(i);
        if b.1 == byte && text::has_text(names, b.0) {
            bits = bits | b.2;
        }
        i += 1;
    }
    bits
}

/// Whether some button has a name.
fn known_button(name: &str) -> (r: bool)
    ensures
        r == report::is_button(name@),
{
    let mut i: usize = 0;
    while i < report::BUTTON_COUNT
        invariant
            i <= 22,
            forall|j: int| 0 <= j < i ==> #[trigger] report::button_name(j) != name@,
        decreases 22 - i,
    {
        let b = report::button(i);
        if text::same(b.0, name) {
            return true;
        }
        i += 1;
    }
    false
}

/// The mean of the three samples of an axis.
fn mean_of(r: &[u8], n: usize) -> (out: i16)
    requires
        n < 6,
        report::has_motion(r@),
    ensures
        out == mean(r@, n as int),
{
    let at: usize = 13 + 2 * n;
    let sum: i32 = report::read_axis(r, at) as i32 + report::read_axis(r, at + 12) as i32
        + report::read_axis(r, at + 24) as i32;
    if sum >= 0 {
        (sum as u32 / 3) as i16
    } else {
        let part: i32 = ((-sum) as u32 / 3) as i32;
        (-part) as i16
    }
}

/// The square of a number of at most 17 bits.
fn square(v: i64) -> (r: i64)
    requires
        -0x10000 <= v <= 0x10000,
    ensures
        r == v * v,
        0 <= r <= 0x1_0000_0000,
{
    assert(0 <= v * v <= 0x1_0000_0000) by (nonlinear_arith)
        requires
            -0x10000 <= v <= 0x10000,
    ;
    v * v
}

/// How far a stick is from its centre, squared.
fn reach_of(x: u16, y: u16) -> (r: i64)
    ensures
        r == reach(x as int, y as int),
{
    square(x as i64 - STICK_CENTER) + square(y as i64 - STICK_CENTER)
}

/// How fast three gyro axes turn, squared.
fn speed_of(x: i16, y: i16, z: i16) -> (r: i64)
    ensures
        r == speed(x as int, y as int, z as int),
{
    square(x as i64) + square(y as i64) + square(z as i64)
}

/// Apply a stick at `at`.
fn apply_stick(r: &mut [u8], stick: Option<[u16; 2]>, at: usize, mix: bool)
    requires
        at + 3 <= old(r)@.len(),
    ensures
        final(r)@ == stick_applied(old(r)@, stick, at as int, mix),
{
    if let Some(s) = stick {
        assert(at + 3 <= r.len());
        let own = report::read_stick_at(r, at);
        if !mix || reach_of(s[0], s[1]) > reach_of(own[0], own[1]) {
            report::write_stick_at(r, at, s);
        }
    }
}

/// Apply motion to the sample at `at`.
fn apply_sample(
    r: &mut [u8],
    accel: Option<[i16; 3]>,
    gyro: Option<[i16; 3]>,
    at: usize,
    mix: bool,
)
    requires
        at + 12 <= old(r)@.len(),
    ensures
        final(r)@ == sample_applied(old(r)@, accel, gyro, at as int, mix),
{
    assert(at + 12 <= r.len());
    if let Some(a) = accel {
        if !mix {
            report::write_axes_at(r, at, a);
        }
    }
    if let Some(g) = gyro {
        let own = speed_of(
            report::read_axis(r, at + 6),
            report::read_axis(r, at + 8),
            report::read_axis(r, at + 10),
        );
        if !mix || speed_of(g[0], g[1], g[2]) > own {
            report::write_axes_at(r, at + 6, g);
        }
    }
}

impl Action {
    /// Check a decoded line: its button names exist and its sticks are 12-bit.
    pub fn parse(decoded: Action) -> (r: Result<Action, ActionError>)
        ensures
            match r {
                Ok(a) => a == decoded && action_ok(decoded),
                Err(e) => is_error_of(decoded, e),
            },
    {
        if let Some(list) = &decoded.buttons {
            let mut i: usize = 0;
            while i < list.len()
                invariant
                    i <= list@.len(),
                    decoded.buttons == Some(*list),
                    forall|j: int|
                        0 <= j < i ==> report::is_button(#[trigger] listed(decoded.buttons)[j]),
                decreases list@.len() - i,
            {
                assert(listed(decoded.buttons)[i as int] == list@[i as int]@);
                if !known_button(list[i].as_str()) {
                    assert(first_unknown(decoded.buttons, i as int));
                    return Err(ActionError::UnknownButton(list[i].clone()));
                }
                i += 1;
            }
        }
        if let Some(s) = decoded.left_stick {
            if s[0] > 0xfff || s[1] > 0xfff {
                return Err(ActionError::StickRange(s[0], s[1]));
            }
        }
        if let Some(s) = decoded.right_stick {
            if s[0] > 0xfff || s[1] > 0xfff {
                return Err(ActionError::StickRange(s[0], s[1]));
            }
        }
        Ok(decoded)
    }

    /// The state an input report carries, or `None` for other reports.
    pub fn from_report(r: &[u8]) -> (out: Option<Action>)
        ensures
            out is Some == report::is_input(r@),
            out matches Some(a) ==> carries(r@, a),
    {
        if r.len() < 12 || (r[0] != report::REPORT_FULL && r[0] != report::REPORT_REPLY) {
            return None;
        }
        let mut action = Action {
            t_ms: None,
            buttons: Some(held_buttons(r)),
            left_stick: Some(report::read_stick_at(r, 6)),
            right_stick: Some(report::read_stick_at(r, 9)),
            gyro: None,
            accel: None,
            mix: false,
        };
        if r[0] == report::REPORT_FULL && r.len() >= 49 {
            action.accel = Some([mean_of(r, 0), mean_of(r, 1), mean_of(r, 2)]);
            action.gyro = Some([mean_of(r, 3), mean_of(r, 4), mean_of(r, 5)]);
        }
        Some(action)
    }

    /// Write the given fields into an input report, or combine them with it
    /// when `mix` is set; other reports are left alone.
    pub fn apply(&self, r: &mut [u8])
        ensures
            final(r)@ == applied(*self, old(r)@),
    {
        if r.len() < 12 || (r[0] != report::REPORT_FULL && r[0] != report::REPORT_REPLY) {
            return;
        }
        if let Some(pressed) = &self.buttons {
            let b3: u8 = if self.mix { r[3] } else { 0 };
            let b4: u8 = if self.mix { r[4] } else { 0 };
            let b5: u8 = if self.mix { r[5] } else { 0 };
            r[3] = b3 | bits_for(pressed, 3);
            r[4] = b4 | bits_for(pressed, 4);
            r[5] = b5 | bits_for(pressed, 5);
        }
        apply_stick(r, self.left_stick, 6, self.mix);
        apply_stick(r, self.right_stick, 9, self.mix);
        if r[0] == report::REPORT_FULL && r.len() >= 49 {
            apply_sample(r, self.accel, self.gyro, 13, self.mix);
            apply_sample(r, self.accel, self.gyro, 25, self.mix);
            apply_sample(r, self.accel, self.gyro, 37, self.mix);
        }
    }
}

/// What one line of a replay file was decoded as.
#[derive(Clone, Debug)]
pub enum Line {
    /// Nothing but white space.
    Blank,
    /// No JSON of an action.
    Unreadable,
    /// An action, not yet checked.
    Decoded(Action),
}

/// What is wrong with a line.
#[derive(Clone, Debug)]
pub enum LineProblem {
    /// It is no JSON of an action.
    Unreadable,
    /// Its values are no action's.
    Bad(ActionError),
    /// It has no `t_ms`.
    NoTime,
    /// Its `t_ms` is before the last one's.
    TimeGoesBack { from: u64, to: u64 },
}

/// Why there is nothing to replay.
#[derive(Clone, Debug)]
pub enum LoadError {
    /// The line of this number, from 1, is wrong.
    Line(usize, LineProblem),
    /// There is no action.
    Empty,
}

/// The actions of the first `n` lines.
pub open spec fn actions_of(lines: Seq<Line>, n: int) -> Seq<Action>
    decreases n,
{
    if n <= 0 {
        Seq::empty()
    } else {
        match lines[n - 1] {
            Line::Decoded(a) => actions_of(lines, n - 1).push(a),
            _ => actions_of(lines, n - 1),
        }
    }
}

/// When the last action of the first `n` lines plays; 0 before any.
pub open spec fn last_time(lines: Seq<Line>, n: int) -> u64 {
    let a = actions_of(lines, n);
    if a.len() == 0 {
        0
    } else {
        match a.last().t_ms {
            Some(t) => t,
            None => 0,
        }
    }
}

/// A line that can follow those before it.
pub open spec fn line_ok(lines: Seq<Line>, i: int) -> bool {
    match lines[i] {
        Line::Blank => true,
        Line::Unreadable => false,
        Line::Decoded(a) => action_ok(a) && a.t_ms is Some && a.t_ms->0 >= last_time(lines, i),
    }
}

/// What is wrong with a line.
pub open spec fn line_problem(lines: Seq<Line>, i: int, p: LineProblem) -> bool {
    match p {
        LineProblem::Unreadable => lines[i] is Unreadable,
        LineProblem::Bad(e) => lines[i] is Decoded && is_error_of(lines[i]->Decoded_0, e),
        LineProblem::NoTime => lines[i] is Decoded && action_ok(lines[i]->Decoded_0)
            && lines[i]->Decoded_0.t_ms is None,
        LineProblem::TimeGoesBack { from, to } => lines[i] is Decoded && action_ok(
            lines[i]->Decoded_0,
        ) && lines[i]->Decoded_0.t_ms == Some(to) && from == last_time(lines, i) && to < from,
    }
}

/// Whether a line has nothing but white space.
pub fn is_blank(line: &str) -> (r: bool)
    ensures
        r == (text::trimmed(line@).len() == 0),
{
    text::trim(line).as_str().unicode_len() == 0
}

/// The actions of a replay file's lines, which must be in order of time.
pub fn load_lines(lines: Vec<Line>) -> (r: Result<Vec<Action>, LoadError>)
    ensures
        match r {
            Ok(actions) => actions@ == actions_of(lines@, lines@.len() as int) && actions@.len() > 0
                && forall|i: int| 0 <= i < lines@.len() ==> #[trigger] line_ok(lines@, i),
            Err(LoadError::Empty) => actions_of(lines@, lines@.len() as int).len() == 0 && forall|
                i: int,
            |
                0 <= i < lines@.len() ==> #[trigger] line_ok(lines@, i),
            Err(LoadError::Line(n, p)) => 1 <= n <= lines@.len() && line_problem(lines@, n - 1, p)
                && forall|i: int| 0 <= i < n - 1 ==> #[trigger] line_ok(lines@, i),
        },
{
    let ghost all = lines@;
    let total: usize = lines.len();
    let mut actions: Vec<Action> = Vec::new();
    let mut last_ms: u64 = 0;
    let mut number: usize = 0;
    for line in it: lines
        invariant
            it.seq() == all,
            all.len() == total,
            number == it.index(),
            actions@ == actions_of(all, number as int),
            last_ms == last_time(all, number as int),
            forall|i: int| 0 <= i < number ==> #[trigger] line_ok(all, i),
    {
        assert(line == all[number as int]);
        match line {
            Line::Blank => {},
            Line::Unreadable => {
                return Err(LoadError::Line(number + 1, LineProblem::Unreadable));
            },
            Line::Decoded(decoded) => {
                let action = match Action::parse(decoded) {
                    Ok(a) => a,
                    Err(e) => {
                        return Err(LoadError::Line(number + 1, LineProblem::Bad(e)));
                    },
                };
                match action.t_ms {
                    None => {
                        return Err(LoadError::Line(number + 1, LineProblem::NoTime));
                    },
                    Some(t) => {
                        if t < last_ms {
                            return Err(
                                LoadError::Line(
                                    number + 1,
                                    LineProblem::TimeGoesBack { from: last_ms, to: t },
                                ),
                            );
                        }
                        last_ms = t;
                    },
                }
                actions.push(action);
            },
        }
        assert(line_ok(all, number as int));
        number += 1;
    }
    if actions.len() == 0 {
        return Err(LoadError::Empty);
    }
    Ok(actions)
}

/// The frame at place `i` of a recording.
pub open spec fn frame_at(b: Seq<u8>, i: int) -> Seq<u8> {
    b.subrange(80 * i, 80 * i + 80)
}

/// The time of the frame at place `i`.
pub open spec fn time_at(b: Seq<u8>, i: int) -> nat {
    crate::bytes::le_value(frame_at(b, i).subrange(0, 8))
}

/// The report of the frame at place `i`: the report bytes that count.
pub open spec fn report_at(b: Seq<u8>, i: int) -> Seq<u8> {
    let f = frame_at(b, i);
    f.subrange(
        16,
        16 + if f[8] <= 64 {
            f[8] as int
        } else {
            64
        },
    )
}

/// The places of the input reports among the first `n` frames.
pub open spec fn input_places(b: Seq<u8>, n: int) -> Seq<int>
    decreases n,
{
    if n <= 0 {
        Seq::empty()
    } else if report::is_input(report_at(b, n - 1)) {
        input_places(b, n - 1).push(n - 1)
    } else {
        input_places(b, n - 1)
    }
}

/// No input report is before the first one.
pub open spec fn in_order(b: Seq<u8>) -> bool {
    let p = input_places(b, b.len() as int / 80);
    forall|i: int| 0 <= i < p.len() ==> time_at(b, #[trigger] p[i]) >= time_at(b, p[0])
}

/// An action played at a time.
pub open spec fn plays_at(r: Seq<u8>, t: int, a: Action) -> bool {
    &&& a.t_ms matches Some(m) && m == t
    &&& carries(r, (Action { t_ms: None, ..a }))
}

/// More frames only add places.
proof fn lemma_places_grow(b: Seq<u8>, n: int, m: int)
    requires
        0 <= n <= m,
    ensures
        input_places(b, n).len() <= input_places(b, m).len(),
        forall|i: int|
            0 <= i < input_places(b, n).len() ==> #[trigger] input_places(b, n)[i] == input_places(
                b,
                m,
            )[i],
    decreases m,
{
    if n < m {
        lemma_places_grow(b, n, m - 1);
    }
}

/// Whether no input report of a recording is before its first one.
pub fn recording_in_order(bytes: &[u8]) -> (r: bool)
    ensures
        r == in_order(bytes@),
{
    let count: usize = bytes.len() / frame::FRAME_SIZE;
    let mut first: Option<u64> = None;
    let mut i: usize = 0;
    while i < count
        invariant
            i <= count,
            count == bytes@.len() / 80,
            80 * count <= bytes@.len() <= usize::MAX,
            first is Some == (input_places(bytes@, i as int).len() > 0),
            first matches Some(t) ==> t == time_at(bytes@, input_places(bytes@, i as int)[0]),
            forall|k: int|
                0 <= k < input_places(bytes@, i as int).len() ==> time_at(
                    bytes@,
                    #[trigger] input_places(bytes@, i as int)[k],
                ) >= time_at(bytes@, input_places(bytes@, i as int)[0]),
        decreases count - i,
    {
        let chunk = vstd::slice::slice_subrange(bytes, 80 * i, 80 * i + 80);
        assert(chunk@ == frame_at(bytes@, i as int));
        let f = frame::Frame::parse(chunk);
        let payload = f.payload();
        assert(payload@ =~= report_at(bytes@, i as int));
        if payload.len() >= 12 && (payload[0] == report::REPORT_FULL || payload[0]
            == report::REPORT_REPLY) {
            match first {
                None => {
                    first = Some(f.timestamp_ms);
                },
                Some(t) => {
                    if f.timestamp_ms < t {
                        proof {
                            lemma_places_grow(bytes@, i as int + 1, count as int);
                            lemma_places_grow(bytes@, i as int, count as int);
                            let p = input_places(bytes@, count as int);
                            let k = input_places(bytes@, i as int).len() as int;
                            assert(input_places(bytes@, i as int + 1)[k] == i);
                            assert(p[k] == i);
                            assert(time_at(bytes@, p[k]) < time_at(bytes@, p[0]));
                        }
                        return false;
                    }
                },
            }
        }
        i += 1;
    }
    true
}

/// The actions of a recording's input reports, counted from the first one.
pub fn load_frames(bytes: &[u8]) -> (r: Result<Vec<Action>, LoadError>)
    requires
        in_order(bytes@),
    ensures
        ({
            let p = input_places(bytes@, bytes@.len() as int / 80);
            match r {
                Ok(actions) => actions@.len() == p.len() && p.len() > 0 && forall|i: int|
                    0 <= i < p.len() ==> plays_at(
                        report_at(bytes@, p[i]),
                        time_at(bytes@, p[i]) - time_at(bytes@, p[0]),
                        #[trigger] actions@[i],
                    ),
                Err(e) => e is Empty && p.len() == 0,
            }
        }),
{
    let count: usize = bytes.len() / frame::FRAME_SIZE;
    let mut actions: Vec<Action> = Vec::new();
    let mut first: Option<u64> = None;
    let mut i: usize = 0;
    while i < count
        invariant
            i <= count,
            count == bytes@.len() / 80,
            80 * count <= bytes@.len() <= usize::MAX,
            in_order(bytes@),
            first is Some == (input_places(bytes@, i as int).len() > 0),
            first matches Some(t) ==> t == time_at(bytes@, input_places(bytes@, i as int)[0]),
            actions@.len() == input_places(bytes@, i as int).len(),
            forall|k: int|
                0 <= k < actions@.len() ==> plays_at(
                    report_at(bytes@, input_places(bytes@, i as int)[k]),
                    time_at(bytes@, input_places(bytes@, i as int)[k]) - time_at(
                        bytes@,
                        input_places(bytes@, i as int)[0],
                    ),
                    #[trigger] actions@[k],
                ),
        decreases count - i,
    {
        let chunk = vstd::slice::slice_subrange(bytes, 80 * i, 80 * i + 80);
        assert(chunk@ == frame_at(bytes@, i as int));
        let f = frame::Frame::parse(chunk);
        let payload = f.payload();
        assert(payload@ =~= report_at(bytes@, i as int));
        if let Some(mut action) = Action::from_report(payload) {
            let ghost state = action;
            let ghost before = actions@;
            let ghost place = input_places(bytes@, i as int).len() as int;
            let start: u64 = match first {
                Some(t) => t,
                None => f.timestamp_ms,
            };
            first = Some(start);
            proof {
                lemma_places_grow(bytes@, i as int + 1, count as int);
                lemma_places_grow(bytes@, i as int, count as int);
                let p = input_places(bytes@, count as int);
                assert(input_places(bytes@, i as int + 1)[place] == i);
                assert(p[place] == i);
                assert(time_at(bytes@, p[place]) >= time_at(bytes@, p[0]));
            }
            action.t_ms = Some(f.timestamp_ms - start);
            proof {
                assert((Action { t_ms: None, ..action }) == state);
                assert(input_places(bytes@, i as int + 1) == input_places(bytes@, i as int).push(
                    i as int,
                ));
            }
            actions.push(action);
        }
        i += 1;
    }
    if actions.len() == 0 {
        return Err(LoadError::Empty);
    }
    Ok(actions)
}

/// The action a connected replay client wants applied.
#[derive(Clone, Debug)]
pub struct Replay {
    /// The latest line of the client, if it sent one.
    pub current: Option<Action>,
}

impl Replay {
    /// No client is connected.
    pub fn new() -> (r: Replay)
        ensures
            r.current is None,
    {
        Replay { current: None }
    }

    /// The client sent a line: a good action becomes the current one, anything
    /// else leaves what was.
    pub fn take_line(&mut self, line: Line) -> (r: Result<(), LineProblem>)
        ensures
            match line {
                Line::Blank => r is Ok && *final(self) == *old(self),
                Line::Unreadable => r == Err::<(), LineProblem>(LineProblem::Unreadable)
                    && *final(self) == *old(self),
                Line::Decoded(a) => if action_ok(a) {
                    r is Ok && final(self).current == Some(a)
                } else {
                    &&& *final(self) == *old(self)
                    &&& r matches Err(LineProblem::Bad(e)) && is_error_of(a, e)
                },
            },
    {
        match line {
            Line::Blank => Ok(()),
            Line::Unreadable => Err(LineProblem::Unreadable),
            Line::Decoded(decoded) => match Action::parse(decoded) {
                Ok(action) => {
                    self.current = Some(action);
                    Ok(())
                },
                Err(e) => Err(LineProblem::Bad(e)),
            },
        }
    }

    /// The client left; the controller is back.
    pub fn disconnect(&mut self)
        ensures
            final(self).current is None,
    {
        self.current = None;
    }

    /// Apply the current action, if any, to an input report.
    pub fn apply(&self, r: &mut [u8])
        ensures
            final(r)@ == (match self.current {
                Some(a) => applied(a, old(r)@),
                None => old(r)@,
            }),
    {
        if let Some(action) = &self.current {
            action.apply(r);
        }
    }
}

/// The file to replay: a session folder's recording, or the file itself.
pub fn replay_file(path: &str, is_dir: bool) -> (r: String)
    ensures
        r@ == (if is_dir {
            paths::joined_path(path@, recorder::CONTROLLER_FILE@)
        } else {
            path@
        }),
{
    if is_dir {
        paths::join_path(path, recorder::CONTROLLER_FILE)
    } else {
        path.to_owned()
    }
}

/// Whether a file holds action lines; any other is a recording.
pub fn is_lines_file(file: &str) -> (r: bool)
    ensures
        r == (paths::extension_of(paths::last_name(file@)) == Some("jsonl"@)),
{
    let name = paths::file_name(file);
    match paths::extension(name.as_str()) {
        Some(e) => text::same(e.as_str(), "jsonl"),
        None => false,
    }
}

} // verus!
