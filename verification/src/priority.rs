//! Picking a core to run on.
use crate::clock;
use vstd::prelude::*;

verus! {

/// Nice value of a proxy that may not miss reports.
pub const HIGH_PRIORITY: i32 = -10;

/// Its real-time priority.
pub const REALTIME_PRIORITY: i32 = 50;

/// The number of processors this process may use, from `num_cpus::get`, which
/// promises at least one. Nothing more is said of it: it depends on the machine.
#[verifier::external_body]
fn cpu_count() -> (r: usize)
    ensures
        r >= 1,
{
    num_cpus::get()
}

/// The core that a clock reading picks.
pub fn core_for(nanos: u64, cores: usize) -> (r: usize)
    requires
        cores > 0,
    ensures
        r == nanos as int % cores as int,
        r < cores,
{
    (nanos % cores as u64) as usize
}

/// The core that a reading of the clock, if there is one, picks from a number
/// of cores: the low 64 bits of its nanoseconds, modulo that number.
pub fn core_at(nanos: Option<u128>, cores: usize) -> (r: Option<usize>)
    requires
        cores > 0,
    ensures
        match (nanos, r) {
            (Some(n), Some(core)) => core == n as int % 0x1_0000_0000_0000_0000 % cores as int
                && core < cores,
            (None, None) => true,
            _ => false,
        },
{
    match nanos {
        Some(n) => Some(core_for((n % 0x1_0000_0000_0000_0000) as u64, cores)),
        None => None,
    }
}

/// A core picked by the clock; `None` when the clock is set before 1970. Which
/// one depends on the machine and the moment: it is what [`core_at`] gives for
/// the clock's reading and the number of processors, and so below some number of
/// them.
pub fn random_core() -> (r: Option<usize>)
    ensures
        r matches Some(core) ==> core < usize::MAX,
{
    core_at(clock::clock_nanos(), cpu_count())
}

} // verus!
