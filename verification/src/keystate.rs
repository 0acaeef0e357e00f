//! Controller state as the dashboard and the capture tool show it.
use vstd::prelude::*;

verus! {

#[derive(Clone, Copy, Debug, PartialEq, Eq, Structural)]
pub struct ButtonState {
    pub y: bool,
    pub x: bool,
    pub b: bool,
    pub a: bool,
    pub sr_right: bool,
    pub sl_right: bool,
    pub r: bool,
    pub zr: bool,
    pub minus: bool,
    pub plus: bool,
    pub r_stick: bool,
    pub l_stick: bool,
    pub home: bool,
    pub capture: bool,
    pub down: bool,
    pub up: bool,
    pub right: bool,
    pub left: bool,
    pub sr_left: bool,
    pub sl_left: bool,
    pub l: bool,
    pub zl: bool,
}

#[derive(Clone, Copy, Debug, PartialEq, Eq, Structural)]
pub struct StickData {
    pub x: u16,
    pub y: u16,
}

#[derive(Clone, Copy, Debug, PartialEq, Eq, Structural)]
pub struct GyroData {
    pub accel_x: i16,
    pub accel_y: i16,
    pub accel_z: i16,
    pub gyro_x: i16,
    pub gyro_y: i16,
    pub gyro_z: i16,
}

/// A moment in UTC: whole seconds since the Unix epoch and nanoseconds within.
#[derive(Clone, Copy, Debug, PartialEq, Eq, Structural)]
pub struct Timestamp {
    pub secs: i64,
    pub nanos: u32,
}

#[derive(Clone, Debug)]
pub struct ControllerState {
    pub timestamp: Timestamp,
    pub buttons: ButtonState,
    pub left_stick: StickData,
    pub right_stick: StickData,
    /// The controller sends three motion samples per report.
    pub gyro: Vec<GyroData>,
    pub battery_level: u8,
    pub connection_info: u8,
}

/// Whether the state says that a button is held, by its place in the table.
pub open spec fn shows(s: ButtonState, i: int) -> bool {
    if i == 0 {
        s.y
    } else if i == 1 {
        s.x
    } else if i == 2 {
        s.b
    } else if i == 3 {
        s.a
    } else if i == 4 {
        s.sr_right
    } else if i == 5 {
        s.sl_right
    } else if i == 6 {
        s.r
    } else if i == 7 {
        s.zr
    } else if i == 8 {
        s.minus
    } else if i == 9 {
        s.plus
    } else if i == 10 {
        s.r_stick
    } else if i == 11 {
        s.l_stick
    } else if i == 12 {
        s.home
    } else if i == 13 {
        s.capture
    } else if i == 14 {
        s.down
    } else if i == 15 {
        s.up
    } else if i == 16 {
        s.right
    } else if i == 17 {
        s.left
    } else if i == 18 {
        s.sr_left
    } else if i == 19 {
        s.sl_left
    } else if i == 20 {
        s.l
    } else {
        s.zl
    }
}

} // verus!
