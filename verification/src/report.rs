//! Layout of an input report: buttons, sticks and motion samples.
use vstd::prelude::*;

verus! {

/// Standard input report: buttons, sticks and three motion samples.
pub const REPORT_FULL: u8 = 0x30;

/// Subcommand reply: buttons and sticks, no motion.
pub const REPORT_REPLY: u8 = 0x21;

/// Offset of the first of three motion samples in a full report.
pub const IMU_OFFSET: usize = 13;

/// Bytes per motion sample: accelerometer x, y, z, then gyro x, y, z.
pub const IMU_SAMPLE: usize = 12;

/// Number of named buttons.
pub const BUTTON_COUNT: usize = 22;

/// The name of each button.
pub open spec fn button_name(i: int) -> Seq<char> {
    if i == 0 {
        "y"@
    } else if i == 1 {
        "x"@
    } else if i == 2 {
        "b"@
    } else if i == 3 {
        "a"@
    } else if i == 4 {
        "sr_right"@
    } else if i == 5 {
        "sl_right"@
    } else if i == 6 {
        "r"@
    } else if i == 7 {
        "zr"@
    } else if i == 8 {
        "minus"@
    } else if i == 9 {
        "plus"@
    } else if i == 10 {
        "r_stick"@
    } else if i == 11 {
        "l_stick"@
    } else if i == 12 {
        "home"@
    } else if i == 13 {
        "capture"@
    } else if i == 14 {
        "down"@
    } else if i == 15 {
        "up"@
    } else if i == 16 {
        "right"@
    } else if i == 17 {
        "left"@
    } else if i == 18 {
        "sr_left"@
    } else if i == 19 {
        "sl_left"@
    } else if i == 20 {
        "l"@
    } else {
        "zl"@
    }
}

/// The report byte that holds each button.
pub open spec fn button_byte(i: int) -> int {
    if i < 8 {
        3
    } else if i < 14 {
        4
    } else {
        5
    }
}

/// The bit of a byte at a position.
pub open spec fn bit(n: int) -> u8 {
    if n == 0 {
        0x01u8
    } else if n == 1 {
        0x02u8
    } else if n == 2 {
        0x04u8
    } else if n == 3 {
        0x08u8
    } else if n == 4 {
        0x10u8
    } else if n == 5 {
        0x20u8
    } else if n == 6 {
        0x40u8
    } else {
        0x80u8
    }
}

/// The bit of each button in its byte.
pub open spec fn button_mask(i: int) -> u8 {
    if i < 8 {
        bit(i)
    } else if i < 14 {
        bit(i - 8)
    } else {
        bit(i - 14)
    }
}

/// Whether the report says that a button is held.
pub open spec fn held(report: Seq<u8>, i: int) -> bool {
    report[button_byte(i)] & button_mask(i) != 0
}

/// The names of the held buttons among the first `n`, in table order.
pub open spec fn held_names(report: Seq<u8>, n: int) -> Seq<Seq<char>>
    decreases n,
{
    if n <= 0 {
        Seq::empty()
    } else if held(report, n - 1) {
        held_names(report, n - 1).push(button_name(n - 1))
    } else {
        held_names(report, n - 1)
    }
}

/// The bits that pressing the named buttons among the first `n` sets in a byte.
pub open spec fn pressed_bits(names: Seq<Seq<char>>, byte: int, n: int) -> u8
    decreases n,
{
    if n <= 0 {
        0
    } else if button_byte(n - 1) == byte && names.contains(button_name(n - 1)) {
        pressed_bits(names, byte, n - 1) | button_mask(n - 1)
    } else {
        pressed_bits(names, byte, n - 1)
    }
}

/// Whether some button has a name.
pub open spec fn is_button(name: Seq<char>) -> bool {
    exists|i: int| 0 <= i < 22 && #[trigger] button_name(i) == name
}

/// A report that carries buttons and sticks.
pub open spec fn is_input(report: Seq<u8>) -> bool {
    report.len() >= 12 && (report[0] == REPORT_FULL || report[0] == REPORT_REPLY)
}

/// A report that carries motion samples too.
pub open spec fn has_motion(report: Seq<u8>) -> bool {
    report.len() >= 49 && report[0] == REPORT_FULL
}

/// The 12-bit x of a stick packed at `at`.
pub open spec fn stick_x(b: Seq<u8>, at: int) -> int {
    b[at] + (b[at + 1] % 16) * 256
}

/// The 12-bit y of a stick packed at `at`.
pub open spec fn stick_y(b: Seq<u8>, at: int) -> int {
    b[at + 1] / 16 + b[at + 2] * 16
}

/// A report with a stick packed at `at`: each coordinate by its low 12 bits.
pub open spec fn with_stick(b: Seq<u8>, at: int, x: int, y: int) -> Seq<u8> {
    b.update(at, (x % 256) as u8).update(
        at + 1,
        ((x / 256) % 16 + (y % 16) * 16) as u8,
    ).update(at + 2, ((y / 16) % 256) as u8)
}

/// A little-endian signed 16-bit value at `at`.
pub open spec fn axis(b: Seq<u8>, at: int) -> int {
    let v = b[at] + b[at + 1] * 256;
    if v >= 0x8000 {
        v - 0x10000
    } else {
        v
    }
}

/// A report with a little-endian signed 16-bit value at `at`.
pub open spec fn with_axis(b: Seq<u8>, at: int, v: int) -> Seq<u8> {
    let u = if v < 0 {
        v + 0x10000
    } else {
        v
    };
    b.update(at, (u % 256) as u8).update(at + 1, (u / 256) as u8)
}

/// Three signed 16-bit values in a row.
pub open spec fn with_axes(b: Seq<u8>, at: int, axes: Seq<i16>) -> Seq<u8> {
    with_axis(
        with_axis(with_axis(b, at, axes[0] as int), at + 2, axes[1] as int),
        at + 4,
        axes[2] as int,
    )
}

/// The name, byte and bit of each button.
pub fn button(i: usize) -> (r: (&'static str, usize, u8))
    requires
        i < BUTTON_COUNT,
    ensures
        r.0@ == button_name(i as int),
        r.1 == button_byte(i as int),
        r.2 == button_mask(i as int),
{
    match i {
        0 => ("y", 3, 0x01),
        1 => ("x", 3, 0x02),
        2 => ("b", 3, 0x04),
        3 => ("a", 3, 0x08),
        4 => ("sr_right", 3, 0x10),
        5 => ("sl_right", 3, 0x20),
        6 => ("r", 3, 0x40),
        7 => ("zr", 3, 0x80),
        8 => ("minus", 4, 0x01),
        9 => ("plus", 4, 0x02),
        10 => ("r_stick", 4, 0x04),
        11 => ("l_stick", 4, 0x08),
        12 => ("home", 4, 0x10),
        13 => ("capture", 4, 0x20),
        14 => ("down", 5, 0x01),
        15 => ("up", 5, 0x02),
        16 => ("right", 5, 0x04),
        17 => ("left", 5, 0x08),
        18 => ("sr_left", 5, 0x10),
        19 => ("sl_left", 5, 0x20),
        20 => ("l", 5, 0x40),
        _ => ("zl", 5, 0x80),
    }
}

/// Unpack a 12-bit `[x, y]` pair from three report bytes.
pub fn read_stick(bytes: &[u8]) -> (r: [u16; 2])
    requires
        bytes@.len() >= 3,
    ensures
        r@[0] == stick_x(bytes@, 0),
        r@[1] == stick_y(bytes@, 0),
        r@[0] < 4096,
        r@[1] < 4096,
{
    read_stick_at(bytes, 0)
}

/// Unpack a 12-bit `[x, y]` pair from the three bytes at `at`.
pub fn read_stick_at(bytes: &[u8], at: usize) -> (r: [u16; 2])
    requires
        at + 3 <= bytes@.len(),
    ensures
        r@[0] == stick_x(bytes@, at as int),
        r@[1] == stick_y(bytes@, at as int),
        r@[0] < 4096,
        r@[1] < 4096,
{
    assert(at + 3 <= bytes.len());
    let x: u16 = bytes[at] as u16 + (bytes[at + 1] % 16) as u16 * 256;
    let y: u16 = (bytes[at + 1] / 16) as u16 + bytes[at + 2] as u16 * 16;
    [x, y]
}

/// Pack a 12-bit `[x, y]` pair into three report bytes.
pub fn write_stick(bytes: &mut [u8], stick: [u16; 2])
    requires
        old(bytes)@.len() >= 3,
    ensures
        final(bytes)@ == with_stick(old(bytes)@, 0, stick@[0] as int, stick@[1] as int),
{
    write_stick_at(bytes, 0, stick);
}

/// Pack a 12-bit `[x, y]` pair into the three bytes from `at` on.
pub fn write_stick_at(bytes: &mut [u8], at: usize, stick: [u16; 2])
    requires
        at + 3 <= old(bytes)@.len(),
    ensures
        final(bytes)@ == with_stick(old(bytes)@, at as int, stick@[0] as int, stick@[1] as int),
{
    let x: u16 = stick[0];
    let y: u16 = stick[1];
    bytes[at] = (x % 256) as u8;
    bytes[at + 1] = ((x / 256) % 16 + (y % 16) * 16) as u8;
    bytes[at + 2] = ((y / 16) % 256) as u8;
}

/// A little-endian signed 16-bit value.
pub fn read_axis(bytes: &[u8], at: usize) -> (r: i16)
    requires
        at + 2 <= bytes@.len(),
    ensures
        r == axis(bytes@, at as int),
{
    let v: i32 = bytes[at] as i32 + bytes[at + 1] as i32 * 256;
    if v >= 0x8000 {
        (v - 0x10000) as i16
    } else {
        v as i16
    }
}

/// Write a little-endian signed 16-bit value.
fn write_axis(bytes: &mut [u8], at: usize, value: i16)
    requires
        at + 2 <= old(bytes)@.len(),
    ensures
        final(bytes)@ == with_axis(old(bytes)@, at as int, value as int),
{
    let u: i32 = if value < 0 {
        value as i32 + 0x10000
    } else {
        value as i32
    };
    bytes[at] = (u as u32 % 256) as u8;
    bytes[at + 1] = (u as u32 / 256) as u8;
}

/// Read three little-endian signed 16-bit values.
pub fn read_axes(bytes: &[u8]) -> (r: [i16; 3])
    requires
        bytes@.len() >= 6,
    ensures
        forall|i: int| 0 <= i < 3 ==> #[trigger] r@[i] == axis(bytes@, 2 * i),
{
    [read_axis(bytes, 0), read_axis(bytes, 2), read_axis(bytes, 4)]
}

/// Write three little-endian signed 16-bit values.
pub fn write_axes(bytes: &mut [u8], axes: [i16; 3])
    requires
        old(bytes)@.len() >= 6,
    ensures
        final(bytes)@ == with_axes(old(bytes)@, 0, axes@),
{
    write_axes_at(bytes, 0, axes);
}

/// Write three little-endian signed 16-bit values from `at` on.
pub fn write_axes_at(bytes: &mut [u8], at: usize, axes: [i16; 3])
    requires
        at + 6 <= old(bytes)@.len(),
    ensures
        final(bytes)@ == with_axes(old(bytes)@, at as int, axes@),
{
    assert(at + 6 <= bytes.len());
    write_axis(bytes, at, axes[0]);
    write_axis(bytes, at + 2, axes[1]);
    write_axis(bytes, at + 4, axes[2]);
}

/// Full reports and replies with the buttons and the sticks are input; only full
/// ones that are long enough carry motion.
pub proof fn law_kinds_of_reports(report: Seq<u8>)
    ensures
        is_input(report) == (report.len() >= 12 && (report[0] == 0x30 || report[0] == 0x21)),
        has_motion(report) == (report.len() >= 49 && report[0] == 0x30),
{
}

/// The names of the held buttons are those of each button held, once and in the
/// order of their bits.
pub proof fn law_held_names_grow(report: Seq<u8>, n: int)
    requires
        0 <= n < 22,
    ensures
        held(report, n) ==> held_names(report, n + 1) == held_names(report, n).push(button_name(n)),
        !held(report, n) ==> held_names(report, n + 1) == held_names(report, n),
        held_names(report, 0).len() == 0,
{
}

} // verus!
