//! Input reports as controller state.
use crate::keystate;
use crate::keystate::{ButtonState, ControllerState, GyroData, StickData, Timestamp};
use crate::report;
use vstd::prelude::*;

verus! {

/// Fewest bytes of a report with buttons and sticks.
pub const MIN_REPORT: usize = 12;

/// Bytes of a full report as the capture tool wants it.
pub const FULL_REPORT: usize = 64;

/// The report has too few bytes: this many.
#[derive(Clone, Copy, Debug, PartialEq, Eq, Structural)]
pub struct TooShort(pub usize);

/// How many motion samples a report of `len` bytes holds whole.
pub open spec fn sample_count(len: int) -> int {
    if len < 25 {
        0
    } else if len < 37 {
        1
    } else if len < 49 {
        2
    } else {
        3
    }
}

/// A motion sample at `at`.
pub open spec fn is_sample(d: Seq<u8>, at: int, g: GyroData) -> bool {
    &&& g.accel_x == report::axis(d, at)
    &&& g.accel_y == report::axis(d, at + 2)
    &&& g.accel_z == report::axis(d, at + 4)
    &&& g.gyro_x == report::axis(d, at + 6)
    &&& g.gyro_y == report::axis(d, at + 8)
    &&& g.gyro_z == report::axis(d, at + 10)
}

/// The buttons that three bytes say are held.
pub open spec fn is_buttons(b: Seq<u8>, s: ButtonState) -> bool {
    forall|i: int|
        0 <= i < 22 ==> #[trigger] keystate::shows(s, i) == (b[report::button_byte(i) - 3]
            & report::button_mask(i) != 0)
}

/// Buttons that stand in their bits are those that the bytes say are held.
proof fn lemma_buttons(b: Seq<u8>, s: ButtonState)
    requires
        forall|i: int|
            0 <= i < 8 ==> #[trigger] keystate::shows(s, i) == (b[0] & report::bit(i) != 0),
        forall|i: int|
            8 <= i < 14 ==> #[trigger] keystate::shows(s, i) == (b[1] & report::bit(i - 8) != 0),
        forall|i: int|
            14 <= i < 22 ==> #[trigger] keystate::shows(s, i) == (b[2] & report::bit(i - 14) != 0),
    ensures
        is_buttons(b, s),
{
}

/// The state that a report carries.
pub open spec fn is_state(d: Seq<u8>, s: ControllerState) -> bool {
    &&& forall|i: int| 0 <= i < 22 ==> #[trigger] keystate::shows(s.buttons, i) == report::held(d, i)
    &&& s.left_stick.x == report::stick_x(d, 6)
    &&& s.left_stick.y == report::stick_y(d, 6)
    &&& s.right_stick.x == report::stick_x(d, 9)
    &&& s.right_stick.y == report::stick_y(d, 9)
    &&& s.gyro@.len() == sample_count(d.len() as int)
    &&& forall|i: int|
        0 <= i < s.gyro@.len() ==> is_sample(d, 13 + 12 * i, #[trigger] s.gyro@[i])
    &&& s.battery_level == d[2] / 16
    &&& s.connection_info == d[2] % 16
}

/// The current time from `chrono::Utc::now`, as `timestamp` and
/// `timestamp_subsec_nanos` give it. Nothing is said of the numbers: they depend
/// on when the call is made. The call ends the program on a machine whose clock
/// is set before 1970.
#[verifier::external_body]
pub(crate) fn utc_now() -> (r: Timestamp) {
    let now = chrono::Utc::now();
    Timestamp { secs: now.timestamp(), nanos: now.timestamp_subsec_nanos() }
}

/// Reads controller data.
#[derive(Clone, Copy, Debug, PartialEq, Eq, Structural)]
pub struct ProConParser;

impl ProConParser {
    /// The state of an input report, stamped with the current time.
    pub fn parse_input_report(data: &[u8]) -> (r: Result<ControllerState, TooShort>)
        ensures
            match r {
                Ok(s) => data@.len() >= 12 && is_state(data@, s),
                Err(e) => data@.len() < 12 && e.0 == data@.len(),
            },
    {
        Self::parse_stamped(data, MIN_REPORT, utc_now())
    }

    /// The state of a report of at least `least` bytes, with its time.
    pub fn parse_stamped(data: &[u8], least: usize, timestamp: Timestamp) -> (r: Result<
        ControllerState,
        TooShort,
    >)
        requires
            least >= 12,
        ensures
            match r {
                Ok(s) => data@.len() >= least && is_state(data@, s) && s.timestamp == timestamp,
                Err(e) => data@.len() < least && e.0 == data@.len(),
            },
    {
        if data.len() < least {
            return Err(TooShort(data.len()));
        }
        let buttons = Self::parse_buttons(&[data[3], data[4], data[5]]);
        let left = report::read_stick_at(data, 6);
        let right = report::read_stick_at(data, 9);
        let mut gyro: Vec<GyroData> = Vec::new();
        let mut i: usize = 0;
        while i < 3
            invariant
                i <= 3,
                data@.len() <= usize::MAX,
                gyro@.len() == (if i < sample_count(data@.len() as int) {
                    i as int
                } else {
                    sample_count(data@.len() as int)
                }),
                forall|k: int|
                    0 <= k < gyro@.len() ==> is_sample(data@, 13 + 12 * k, #[trigger] gyro@[k]),
            decreases 3 - i,
        {
            let at: usize = 13 + 12 * i;
            if at + 11 < data.len() {
                gyro.push(
                    GyroData {
                        accel_x: report::read_axis(data, at),
                        accel_y: report::read_axis(data, at + 2),
                        accel_z: report::read_axis(data, at + 4),
                        gyro_x: report::read_axis(data, at + 6),
                        gyro_y: report::read_axis(data, at + 8),
                        gyro_z: report::read_axis(data, at + 10),
                    },
                );
            }
            i += 1;
        }
        Ok(
            ControllerState {
                timestamp,
                buttons,
                left_stick: StickData { x: left[0], y: left[1] },
                right_stick: StickData { x: right[0], y: right[1] },
                gyro,
                battery_level: data[2] / 16,
                connection_info: data[2] % 16,
            },
        )
    }

    /// The buttons of the three button bytes.
    pub fn parse_buttons(button_data: &[u8; 3]) -> (r: ButtonState)
        ensures
            is_buttons(button_data@, r),
    {
        let b0: u8 = button_data[0];
        let b1: u8 = button_data[1];
        let b2: u8 = button_data[2];
        let r = ButtonState {
            y: b0 & 0x01 != 0,
            x: b0 & 0x02 != 0,
            b: b0 & 0x04 != 0,
            a: b0 & 0x08 != 0,
            sr_right: b0 & 0x10 != 0,
            sl_right: b0 & 0x20 != 0,
            r: b0 & 0x40 != 0,
            zr: b0 & 0x80 != 0,
            minus: b1 & 0x01 != 0,
            plus: b1 & 0x02 != 0,
            r_stick: b1 & 0x04 != 0,
            l_stick: b1 & 0x08 != 0,
            home: b1 & 0x10 != 0,
            capture: b1 & 0x20 != 0,
            down: b2 & 0x01 != 0,
            up: b2 & 0x02 != 0,
            right: b2 & 0x04 != 0,
            left: b2 & 0x08 != 0,
            sr_left: b2 & 0x10 != 0,
            sl_left: b2 & 0x20 != 0,
            l: b2 & 0x40 != 0,
            zl: b2 & 0x80 != 0,
        };
        proof {
            lemma_buttons(button_data@, r);
        }
        r
    }
}

/// The capture tool's parser, which wants full reports.
#[derive(Clone, Copy, Debug, PartialEq, Eq, Structural)]
pub struct ProControllerParser;

impl ProControllerParser {
    /// The state of a full report, stamped with the current time.
    pub fn parse_input_report(&self, data: &[u8]) -> (r: Result<ControllerState, TooShort>)
        ensures
            match r {
                Ok(s) => data@.len() >= 64 && is_state(data@, s),
                Err(e) => data@.len() < 64 && e.0 == data@.len(),
            },
    {
        ProConParser::parse_stamped(data, FULL_REPORT, utc_now())
    }
}

/// The buttons of an input report's three button bytes are those that the action it
/// carries lists by name.
pub proof fn law_buttons_are_listed(d: Seq<u8>, s: ButtonState, a: crate::replay::Action, i: int)
    requires
        report::is_input(d),
        is_buttons(d.subrange(3, 6), s),
        crate::replay::carries(d, a),
        0 <= i < 22,
    ensures
        keystate::shows(s, i) == crate::replay::listed(a.buttons).contains(report::button_name(i)),
{
    crate::replay_laws::lemma_held_names(d, 22, i);
    assert(d.subrange(3, 6)[report::button_byte(i) - 3] == d[report::button_byte(i)]);
}

/// One button.
proof fn lemma_button(b: Seq<u8>, s: ButtonState, i: int)
    requires
        is_buttons(b, s),
        0 <= i < 22,
    ensures
        keystate::shows(s, i) == (b[report::button_byte(i) - 3] & report::button_mask(i) != 0),
{
}

/// Which bit of the first button byte each button is.
pub proof fn law_first_byte_buttons(b: Seq<u8>, s: ButtonState)
    requires
        b.len() == 3,
        is_buttons(b, s),
    ensures
        s.y == (b[0] & 0x01u8 != 0),
        s.x == (b[0] & 0x02u8 != 0),
        s.b == (b[0] & 0x04u8 != 0),
        s.a == (b[0] & 0x08u8 != 0),
        s.sr_right == (b[0] & 0x10u8 != 0),
        s.sl_right == (b[0] & 0x20u8 != 0),
        s.r == (b[0] & 0x40u8 != 0),
        s.zr == (b[0] & 0x80u8 != 0),
{
    lemma_button(b, s, 0);
    lemma_button(b, s, 1);
    lemma_button(b, s, 2);
    lemma_button(b, s, 3);
    lemma_button(b, s, 4);
    lemma_button(b, s, 5);
    lemma_button(b, s, 6);
    lemma_button(b, s, 7);
}

/// Which bit of the second button byte each button is.
pub proof fn law_second_byte_buttons(b: Seq<u8>, s: ButtonState)
    requires
        b.len() == 3,
        is_buttons(b, s),
    ensures
        s.minus == (b[1] & 0x01u8 != 0),
        s.plus == (b[1] & 0x02u8 != 0),
        s.r_stick == (b[1] & 0x04u8 != 0),
        s.l_stick == (b[1] & 0x08u8 != 0),
        s.home == (b[1] & 0x10u8 != 0),
        s.capture == (b[1] & 0x20u8 != 0),
{
    lemma_button(b, s, 8);
    lemma_button(b, s, 9);
    lemma_button(b, s, 10);
    lemma_button(b, s, 11);
    lemma_button(b, s, 12);
    lemma_button(b, s, 13);
}

/// Which bit of the third button byte each button is.
pub proof fn law_third_byte_buttons(b: Seq<u8>, s: ButtonState)
    requires
        b.len() == 3,
        is_buttons(b, s),
    ensures
        s.down == (b[2] & 0x01u8 != 0),
        s.up == (b[2] & 0x02u8 != 0),
        s.right == (b[2] & 0x04u8 != 0),
        s.left == (b[2] & 0x08u8 != 0),
        s.sr_left == (b[2] & 0x10u8 != 0),
        s.sl_left == (b[2] & 0x20u8 != 0),
        s.l == (b[2] & 0x40u8 != 0),
        s.zl == (b[2] & 0x80u8 != 0),
{
    lemma_button(b, s, 14);
    lemma_button(b, s, 15);
    lemma_button(b, s, 16);
    lemma_button(b, s, 17);
    lemma_button(b, s, 18);
    lemma_button(b, s, 19);
    lemma_button(b, s, 20);
    lemma_button(b, s, 21);
}

/// The two spare bits of the second button byte change no button.
pub proof fn law_spare_bits_change_nothing(b: Seq<u8>, flip: u8, s: ButtonState, t: ButtonState)
    requires
        b.len() == 3,
        flip == 0x40 || flip == 0x80 || flip == 0xc0,
        is_buttons(b, s),
        is_buttons(b.update(1, b[1] ^ flip), t),
    ensures
        s == t,
{
    let x = b[1];
    assert(flip == 0x40 || flip == 0x80 || flip == 0xc0 ==> (x ^ flip) & 0x01 == x & 0x01 && (x
        ^ flip) & 0x02 == x & 0x02 && (x ^ flip) & 0x04 == x & 0x04 && (x ^ flip) & 0x08 == x & 0x08
        && (x ^ flip) & 0x10 == x & 0x10 && (x ^ flip) & 0x20 == x & 0x20) by (bit_vector);
    assert forall|i: int| 0 <= i < 22 implies #[trigger] keystate::shows(s, i) == keystate::shows(
        t,
        i,
    ) by {
        if 8 <= i < 14 {
            assert(b.update(1, x ^ flip)[1] == x ^ flip);
        } else {
            assert(b.update(1, x ^ flip)[report::button_byte(i) - 3] == b[report::button_byte(i)
                - 3]);
        }
    }
    assert(keystate::shows(s, 0) == keystate::shows(t, 0));
    assert(keystate::shows(s, 1) == keystate::shows(t, 1));
    assert(keystate::shows(s, 2) == keystate::shows(t, 2));
    assert(keystate::shows(s, 3) == keystate::shows(t, 3));
    assert(keystate::shows(s, 4) == keystate::shows(t, 4));
    assert(keystate::shows(s, 5) == keystate::shows(t, 5));
    assert(keystate::shows(s, 6) == keystate::shows(t, 6));
    assert(keystate::shows(s, 7) == keystate::shows(t, 7));
    assert(keystate::shows(s, 8) == keystate::shows(t, 8));
    assert(keystate::shows(s, 9) == keystate::shows(t, 9));
    assert(keystate::shows(s, 10) == keystate::shows(t, 10));
    assert(keystate::shows(s, 11) == keystate::shows(t, 11));
    assert(keystate::shows(s, 12) == keystate::shows(t, 12));
    assert(keystate::shows(s, 13) == keystate::shows(t, 13));
    assert(keystate::shows(s, 14) == keystate::shows(t, 14));
    assert(keystate::shows(s, 15) == keystate::shows(t, 15));
    assert(keystate::shows(s, 16) == keystate::shows(t, 16));
    assert(keystate::shows(s, 17) == keystate::shows(t, 17));
    assert(keystate::shows(s, 18) == keystate::shows(t, 18));
    assert(keystate::shows(s, 19) == keystate::shows(t, 19));
    assert(keystate::shows(s, 20) == keystate::shows(t, 20));
    assert(keystate::shows(s, 21) == keystate::shows(t, 21));
}

/// The state of an input report and the action it carries agree: the same
/// buttons are held and the sticks stand the same.
pub proof fn law_state_and_action_agree(
    d: Seq<u8>,
    s: ControllerState,
    a: crate::replay::Action,
    i: int,
)
    requires
        report::is_input(d),
        is_state(d, s),
        crate::replay::carries(d, a),
        0 <= i < 22,
    ensures
        keystate::shows(s.buttons, i) == crate::replay::listed(a.buttons).contains(
            report::button_name(i),
        ),
        s.left_stick.x == a.left_stick->0@[0],
        s.left_stick.y == a.left_stick->0@[1],
        s.right_stick.x == a.right_stick->0@[0],
        s.right_stick.y == a.right_stick->0@[1],
{
    crate::replay_laws::lemma_held_names(d, 22, i);
}

/// A state is read from its places in the report: the sticks from the three
/// bytes of each, the samples one behind the other from byte 13 on, the battery
/// from the upper half of byte 2 and the connection from the lower half.
pub proof fn law_state_by_bytes(d: Seq<u8>, s: ControllerState, i: int)
    requires
        is_state(d, s),
        d.len() >= 12,
    ensures
        s.left_stick.x == d[6] + (d[7] % 16) * 256,
        s.left_stick.y == d[7] / 16 + d[8] * 16,
        s.right_stick.x == d[9] + (d[10] % 16) * 256,
        s.right_stick.y == d[10] / 16 + d[11] * 16,
        s.battery_level == d[2] / 16,
        s.connection_info == d[2] % 16,
        d.len() < 25 ==> s.gyro@.len() == 0,
        25 <= d.len() < 49 ==> s.gyro@.len() == (d.len() - 13) / 12,
        d.len() >= 49 ==> s.gyro@.len() == 3,
        0 <= i < s.gyro@.len() ==> {
            let at = 13 + 12 * i;
            let g = s.gyro@[i];
            &&& (g.accel_x - (d[at] + d[at + 1] * 256)) % 0x10000 == 0
            &&& (g.accel_y - (d[at + 2] + d[at + 3] * 256)) % 0x10000 == 0
            &&& (g.accel_z - (d[at + 4] + d[at + 5] * 256)) % 0x10000 == 0
            &&& (g.gyro_x - (d[at + 6] + d[at + 7] * 256)) % 0x10000 == 0
            &&& (g.gyro_y - (d[at + 8] + d[at + 9] * 256)) % 0x10000 == 0
            &&& (g.gyro_z - (d[at + 10] + d[at + 11] * 256)) % 0x10000 == 0
        },
{
    if 0 <= i < s.gyro@.len() {
        let g = s.gyro@[i];
        assert(is_sample(d, 13 + 12 * i, g));
    }
}

/// The buttons of a state are those of bytes 3 to 5 of its report.
pub proof fn law_state_buttons(d: Seq<u8>, s: ControllerState)
    requires
        is_state(d, s),
        d.len() >= 12,
    ensures
        is_buttons(d.subrange(3, 6), s.buttons),
{
    let b = d.subrange(3, 6);
    assert forall|i: int| 0 <= i < 22 implies #[trigger] keystate::shows(s.buttons, i) == (b[
    report::button_byte(i) - 3] & report::button_mask(i) != 0) by {
        assert(b[report::button_byte(i) - 3] == d[report::button_byte(i)]);
    }
}

} // verus!
