//! When the tracked pose is centered and how far it moves on.
//!
//! The pose itself is computed from these by the dashboard: the sums of a report's
//! motion samples, whether the report centers the pose, and the time since the
//! report before it.
use crate::keystate::GyroData;
use vstd::prelude::*;

verus! {

/// Longest time in milliseconds that is integrated at once, so that a pause in
/// reports cannot jolt the pose.
pub const MAX_STEP_MS: u64 = 50;

/// The sums of a report's motion samples, per axis.
#[derive(Clone, Copy, Debug, PartialEq, Eq, Structural)]
pub struct ImuSums {
    pub gyro_x: i64,
    pub gyro_y: i64,
    pub gyro_z: i64,
    pub accel_x: i64,
    pub accel_y: i64,
    pub accel_z: i64,
}

/// The sums of the first samples.
pub open spec fn sums(s: Seq<GyroData>, n: int) -> (int, int, int, int, int, int)
    decreases n,
{
    if n <= 0 {
        (0, 0, 0, 0, 0, 0)
    } else {
        let b = sums(s, n - 1);
        let g = s[n - 1];
        (
            b.0 + g.gyro_x,
            b.1 + g.gyro_y,
            b.2 + g.gyro_z,
            b.3 + g.accel_x,
            b.4 + g.accel_y,
            b.5 + g.accel_z,
        )
    }
}

/// The sums of a report's motion samples; nothing without samples.
pub fn imu_sums(samples: &Vec<GyroData>) -> (r: Option<ImuSums>)
    requires
        samples@.len() <= u32::MAX,
    ensures
        r is Some == (samples@.len() > 0),
        r matches Some(t) ==> sums(samples@, samples@.len() as int) == (
            t.gyro_x as int,
            t.gyro_y as int,
            t.gyro_z as int,
            t.accel_x as int,
            t.accel_y as int,
            t.accel_z as int,
        ),
{
    if samples.len() == 0 {
        return None;
    }
    let mut t = ImuSums { gyro_x: 0, gyro_y: 0, gyro_z: 0, accel_x: 0, accel_y: 0, accel_z: 0 };
    let mut i: usize = 0;
    while i < samples.len()
        invariant
            i <= samples@.len() <= u32::MAX,
            sums(samples@, i as int) == (
                t.gyro_x as int,
                t.gyro_y as int,
                t.gyro_z as int,
                t.accel_x as int,
                t.accel_y as int,
                t.accel_z as int,
            ),
            -0x8000 * i <= t.gyro_x <= 0x8000 * i,
            -0x8000 * i <= t.gyro_y <= 0x8000 * i,
            -0x8000 * i <= t.gyro_z <= 0x8000 * i,
            -0x8000 * i <= t.accel_x <= 0x8000 * i,
            -0x8000 * i <= t.accel_y <= 0x8000 * i,
            -0x8000 * i <= t.accel_z <= 0x8000 * i,
        decreases samples@.len() - i,
    {
        let g = &samples[i];
        t.gyro_x = t.gyro_x + g.gyro_x as i64;
        t.gyro_y = t.gyro_y + g.gyro_y as i64;
        t.gyro_z = t.gyro_z + g.gyro_z as i64;
        t.accel_x = t.accel_x + g.accel_x as i64;
        t.accel_y = t.accel_y + g.accel_y as i64;
        t.accel_z = t.accel_z + g.accel_z as i64;
        i += 1;
    }
    Some(t)
}

/// What the pose remembers of the reports before.
#[derive(Clone, Copy, Debug, PartialEq, Eq, Structural)]
pub struct PoseSteps {
    /// Where gravity points is known.
    pub centered: bool,
    pub last_ms: Option<u64>,
    /// Y was held in the last report.
    pub y_held: bool,
}

/// What a report does to the pose.
#[derive(Clone, Copy, Debug, PartialEq, Eq, Structural)]
pub struct PoseStep {
    /// The pose now counts as flat.
    pub center: bool,
    /// Time to integrate, in milliseconds.
    pub step_ms: u64,
}

impl PoseSteps {
    pub fn new() -> (r: PoseSteps)
        ensures
            r == (PoseSteps { centered: false, last_ms: None, y_held: false }),
    {
        PoseSteps { centered: false, last_ms: None, y_held: false }
    }

    /// Take a report with motion: pressing Y centers the pose, and so does every
    /// report until gravity was felt in one that did.
    pub fn step(&mut self, y: bool, timestamp_ms: u64, feels_gravity: bool) -> (r: PoseStep)
        ensures
            r.center == ((y && !old(self).y_held) || !old(self).centered),
            r.step_ms == (match old(self).last_ms {
                Some(last) => if timestamp_ms <= last {
                    0
                } else if timestamp_ms - last > MAX_STEP_MS {
                    MAX_STEP_MS as int
                } else {
                    timestamp_ms - last
                },
                None => 0,
            }),
            r.step_ms <= 50,
            old(self).last_ms matches Some(last) ==> (last <= timestamp_ms <= last + 50 ==> r.step_ms
                == timestamp_ms - last) && (timestamp_ms > last + 50 ==> r.step_ms == 50),
            *final(self) == (PoseSteps {
                centered: old(self).centered || feels_gravity,
                last_ms: Some(timestamp_ms),
                y_held: y,
            }),
    {
        let center = (y && !self.y_held) || !self.centered;
        if center && feels_gravity {
            self.centered = true;
        }
        let step_ms: u64 = match self.last_ms {
            Some(last) => if timestamp_ms <= last {
                0
            } else if timestamp_ms - last > MAX_STEP_MS {
                MAX_STEP_MS
            } else {
                timestamp_ms - last
            },
            None => 0,
        };
        self.last_ms = Some(timestamp_ms);
        self.y_held = y;
        PoseStep { center, step_ms }
    }
}

/// One sample more adds each of its six values to the sum of that value, and no
/// samples sum to nothing.
pub proof fn law_samples_add_up(s: Seq<GyroData>, g: GyroData)
    ensures
        sums(Seq::empty(), 0) == (0int, 0int, 0int, 0int, 0int, 0int),
        ({
            let a = sums(s, s.len() as int);
            let b = sums(s.push(g), s.len() as int + 1);
            &&& b.0 - a.0 == g.gyro_x
            &&& b.1 - a.1 == g.gyro_y
            &&& b.2 - a.2 == g.gyro_z
            &&& b.3 - a.3 == g.accel_x
            &&& b.4 - a.4 == g.accel_y
            &&& b.5 - a.5 == g.accel_z
        }),
{
    lemma_sums_before(s, g, s.len() as int);
}

proof fn lemma_sums_before(s: Seq<GyroData>, g: GyroData, n: int)
    requires
        0 <= n <= s.len(),
    ensures
        sums(s.push(g), n) == sums(s, n),
    decreases n,
{
    if n > 0 {
        lemma_sums_before(s, g, n - 1);
    }
}

} // verus!
