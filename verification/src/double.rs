//! Double-precision numbers by their bits.
//!
//! Times and coordinates are held as the 64 bits of an IEEE 754 double: a sign
//! bit, eleven exponent bits and fifty-two fraction bits. Comparing them needs
//! no arithmetic on the numbers themselves.
use vstd::prelude::*;

verus! {

/// The bits of a double.
#[derive(Clone, Copy, Debug, PartialEq, Eq, Structural)]
pub struct Double {
    pub bits: u64,
}

/// Where the negative numbers begin.
pub const SIGN: u64 = 0x8000_0000_0000_0000;

/// Where the exponent of infinities and of what is no number begins.
pub const INFINITE: u64 = 0x7ff0_0000_0000_0000;

/// The bits of zero.
pub const ZERO: u64 = 0;

/// The bits of one hundred.
pub const HUNDRED: u64 = 0x4059_0000_0000_0000;

/// The bits without the sign.
pub open spec fn magnitude(r: Double) -> int {
    if r.bits >= SIGN {
        r.bits - SIGN
    } else {
        r.bits as int
    }
}

/// Not a number.
pub open spec fn is_nan(r: Double) -> bool {
    magnitude(r) > INFINITE
}

/// Neither infinite nor not a number.
pub open spec fn is_finite(r: Double) -> bool {
    magnitude(r) < INFINITE
}

/// Numbers in their order; both zeros are the same.
pub open spec fn rank(r: Double) -> int {
    if r.bits >= SIGN {
        -magnitude(r)
    } else {
        magnitude(r)
    }
}

/// At most as large; never so for what is no number.
pub open spec fn at_most(a: Double, b: Double) -> bool {
    !is_nan(a) && !is_nan(b) && rank(a) <= rank(b)
}

/// Smaller; never so for what is no number.
pub open spec fn below(a: Double, b: Double) -> bool {
    !is_nan(a) && !is_nan(b) && rank(a) < rank(b)
}

/// The same number; never so for what is no number.
pub open spec fn equal(a: Double, b: Double) -> bool {
    !is_nan(a) && !is_nan(b) && rank(a) == rank(b)
}

/// The same number, or none on both sides.
pub open spec fn opt_equal(a: Option<Double>, b: Option<Double>) -> bool {
    match (a, b) {
        (Some(x), Some(y)) => equal(x, y),
        (None, None) => true,
        _ => false,
    }
}

/// A time that can be: finite and not negative.
pub open spec fn is_time(r: Double) -> bool {
    is_finite(r) && rank(r) >= 0
}

impl Double {
    fn magnitude_of(&self) -> (r: u64)
        ensures
            r == magnitude(*self),
    {
        if self.bits >= SIGN {
            self.bits - SIGN
        } else {
            self.bits
        }
    }

    /// Its place in the order of numbers.
    fn rank_of(&self) -> (r: i128)
        ensures
            r == rank(*self),
    {
        let m: i128 = self.magnitude_of() as i128;
        if self.bits >= SIGN {
            -m
        } else {
            m
        }
    }

    /// Neither infinite nor not a number.
    pub fn finite(&self) -> (r: bool)
        ensures
            r == is_finite(*self),
    {
        self.magnitude_of() < INFINITE
    }

    /// At most as large.
    pub fn at_most(&self, other: &Double) -> (r: bool)
        ensures
            r == at_most(*self, *other),
    {
        self.magnitude_of() <= INFINITE && other.magnitude_of() <= INFINITE && self.rank_of()
            <= other.rank_of()
    }

    /// Smaller.
    pub fn below(&self, other: &Double) -> (r: bool)
        ensures
            r == below(*self, *other),
    {
        self.magnitude_of() <= INFINITE && other.magnitude_of() <= INFINITE && self.rank_of()
            < other.rank_of()
    }

    /// The same number.
    pub fn equal(&self, other: &Double) -> (r: bool)
        ensures
            r == equal(*self, *other),
    {
        self.magnitude_of() <= INFINITE && other.magnitude_of() <= INFINITE && self.rank_of()
            == other.rank_of()
    }

    /// A time that can be: finite and not negative.
    pub fn is_time(&self) -> (r: bool)
        ensures
            r == is_time(*self),
    {
        self.finite() && self.rank_of() >= 0
    }
}

/// The same number, or none on both sides.
pub fn same_option(a: Option<Double>, b: Option<Double>) -> (r: bool)
    ensures
        r == opt_equal(a, b),
{
    match (a, b) {
        (Some(x), Some(y)) => x.equal(&y),
        (None, None) => true,
        _ => false,
    }
}

/// Of two numbers that are ones, exactly one holds: smaller, the same, larger.
pub proof fn law_doubles_are_ordered(a: Double, b: Double)
    requires
        !is_nan(a),
        !is_nan(b),
    ensures
        below(a, b) || equal(a, b) || below(b, a),
        !(below(a, b) && equal(a, b)),
        !(below(a, b) && below(b, a)),
        at_most(a, b) == (below(a, b) || equal(a, b)),
{
}

/// A number below the top bit is as large as its bits say, the same with the top
/// bit set is its negative, and both zeros are one number: order and equality
/// follow.
pub proof fn law_order_by_bits(a: u64, b: u64)
    requires
        a <= 0x7ff0_0000_0000_0000,
        b <= 0x7ff0_0000_0000_0000,
    ensures
        ({
            let x = Double { bits: a };
            let y = Double { bits: b };
            let minus_x = Double { bits: (a + 0x8000_0000_0000_0000) as u64 };
            let minus_y = Double { bits: (b + 0x8000_0000_0000_0000) as u64 };
            &&& below(x, y) == (a < b)
            &&& below(minus_x, minus_y) == (b < a)
            &&& below(minus_x, y) == (a > 0 || b > 0)
            &&& !below(x, minus_y)
            &&& equal(x, y) == (a == b)
            &&& equal(minus_x, minus_y) == (a == b)
            &&& equal(minus_x, y) == (a == 0 && b == 0)
            &&& at_most(x, y) == (a <= b)
        }),
{
}

/// Above the infinities there is no number: what is none is neither below, equal
/// to nor at most anything. A time is a number that is not infinite and not
/// below zero.
pub proof fn law_no_numbers_and_times(a: u64, other: Double)
    requires
        a < 0x8000_0000_0000_0000,
    ensures
        ({
            let x = Double { bits: a };
            let minus_x = Double { bits: (a + 0x8000_0000_0000_0000) as u64 };
            &&& a > 0x7ff0_0000_0000_0000 ==> !below(x, other) && !below(other, x) && !equal(
                x,
                other,
            ) && !equal(other, x) && !at_most(x, other) && !at_most(other, x)
            &&& a > 0x7ff0_0000_0000_0000 ==> !below(minus_x, other) && !equal(minus_x, other)
            &&& is_finite(x) == (a < 0x7ff0_0000_0000_0000)
            &&& is_finite(minus_x) == (a < 0x7ff0_0000_0000_0000)
            &&& is_time(x) == (a < 0x7ff0_0000_0000_0000)
            &&& is_time(minus_x) == (a == 0)
        }),
{
}

/// Two numbers that may be missing are the same when both are missing or both
/// are there and equal.
pub proof fn law_missing_numbers(a: Double, b: Double)
    ensures
        opt_equal(None, None),
        !opt_equal(Some(a), None),
        !opt_equal(None, Some(b)),
        opt_equal(Some(a), Some(b)) == equal(a, b),
{
}

} // verus!
