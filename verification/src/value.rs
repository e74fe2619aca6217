//! Scalar value domains: saturating 64-bit integers and fixed-point reals.
//!
//! The real domain is a fixed-point type carried in millionths (one unit is
//! 10^-6), so every real operation is exact integer arithmetic with a stated
//! result.  Arithmetic in both domains saturates at the representable bounds
//! instead of wrapping or failing: evolved programs must never crash, and a
//! clamped extreme is the tolerant resolution this language takes for
//! out-of-range results.  Division and modulo by zero are handled one level
//! up, in instruction dispatch, as no-ops.

use vstd::prelude::*;

verus! {

/// Number of fixed-point units in 1.0.
pub const SCALE: i64 = 1_000_000;

/// Half pi, in fixed-point units.
pub const HALF_PI_UNITS: i64 = 1_570_796;

/// Pi, in fixed-point units.
pub const PI_UNITS: i64 = 3_141_593;

/// Two pi, in fixed-point units.
pub const TWO_PI_UNITS: i64 = 6_283_185;

/// `x` clamped into the representable `i64` range.
pub open spec fn clamp_i64(x: int) -> int {
    if x > i64::MAX {
        i64::MAX as int
    } else if x < i64::MIN {
        i64::MIN as int
    } else {
        x
    }
}

/// Truncated (round-toward-zero) division, the convention this interpreter
/// uses for both domains.
pub open spec fn tdiv(x: int, d: int) -> int
    recommends
        d != 0,
{
    if x == 0 {
        0
    } else if x > 0 && d > 0 {
        x / d
    } else if x < 0 && d < 0 {
        (x * -1) / (d * -1)
    } else if x < 0 {
        ((x * -1) / d) * -1
    } else {
        (x / (d * -1)) * -1
    }
}

/// Remainder matching truncated division: same sign as the dividend.
pub open spec fn trem(x: int, d: int) -> int
    recommends
        d != 0,
{
    if x == 0 {
        0
    } else if x > 0 && d > 0 {
        x % d
    } else if x < 0 && d < 0 {
        ((x * -1) % (d * -1)) * -1
    } else if x < 0 {
        ((x * -1) % d) * -1
    } else {
        x % (d * -1)
    }
}

/// Saturating integer addition.
pub fn int_plus(a: i64, b: i64) -> (r: i64)
    ensures
        r as int == clamp_i64(a + b),
{
    match a.checked_add(b) {
        Some(s) => s,
        None => if a >= 0 {
            i64::MAX
        } else {
            i64::MIN
        },
    }
}

/// Saturating integer subtraction.
pub fn int_minus(a: i64, b: i64) -> (r: i64)
    ensures
        r as int == clamp_i64(a - b),
{
    match a.checked_sub(b) {
        Some(s) => s,
        None => if a >= 0 {
            i64::MAX
        } else {
            i64::MIN
        },
    }
}

/// Saturating integer multiplication.
pub fn int_times(a: i64, b: i64) -> (r: i64)
    ensures
        r as int == clamp_i64(a * b),
{
    match a.checked_mul(b) {
        Some(s) => s,
        None => {
            proof {
                assert(a != 0 && b != 0);
                if a > 0 && b > 0 {
                    assert(a * b > 0) by (nonlinear_arith)
                        requires
                            a > 0 && b > 0,
                    ;
                }
                if a < 0 && b < 0 {
                    assert(a * b > 0) by (nonlinear_arith)
                        requires
                            a < 0 && b < 0,
                    ;
                }
                if a > 0 && b < 0 {
                    assert(a * b < 0) by (nonlinear_arith)
                        requires
                            a > 0 && b < 0,
                    ;
                }
                if a < 0 && b > 0 {
                    assert(a * b < 0) by (nonlinear_arith)
                        requires
                            a < 0 && b > 0,
                    ;
                }
            }
            if (a > 0) == (b > 0) {
                i64::MAX
            } else {
                i64::MIN
            }
        },
    }
}

/// Saturating truncated integer division; the divisor must be screened for
/// zero by the caller (dispatch makes that case a no-op).
pub fn int_divide(a: i64, b: i64) -> (r: i64)
    requires
        b != 0,
    ensures
        r as int == clamp_i64(tdiv(a as int, b as int)),
{
    match a.checked_div(b) {
        Some(q) => q,
        None => i64::MAX,
    }
}

/// Integer remainder matching truncated division; the divisor must be
/// screened for zero by the caller.
pub fn int_modulo(a: i64, b: i64) -> (r: i64)
    requires
        b != 0,
    ensures
        r as int == trem(a as int, b as int),
{
    match a.checked_rem(b) {
        Some(m) => m,
        None => {
            // Only i64::MIN % -1 is refused by checked_rem, and its
            // mathematical remainder is zero.
            proof {
                assert(a == i64::MIN && b == -1);
            }
            0
        },
    }
}

/// A stack length pushed into the integer domain, clamped at its bound.
pub fn len_to_i64(len: usize) -> (r: i64)
    ensures
        r as int == clamp_i64(len as int),
{
    if (len as u128) > (i64::MAX as u128) {
        i64::MAX
    } else {
        len as i64
    }
}

/// A depth argument clamped to the nearest valid depth, as
/// [`crate::stack::clamp_depth`] states.
pub fn clamp_index(i: i64, len: usize) -> (r: usize)
    requires
        len > 0,
    ensures
        r as int == crate::stack::clamp_depth(i as int, len as int),
{
    if i < 0 {
        0
    } else if (i as u128) >= (len as u128) {
        len - 1
    } else {
        i as usize
    }
}

/// A fixed-point real: the represented value is `units` millionths.
#[derive(Clone, Copy, PartialEq, Eq, Structural, Debug)]
pub struct Real {
    pub units: i64,
}

/// The fixed-point product of two unit counts: `(a * b) / SCALE`, truncated
/// toward zero and clamped.
pub open spec fn rmul_spec(a: int, b: int) -> int {
    clamp_i64(tdiv(a * b, SCALE as int))
}

/// The fixed-point quotient of two unit counts: `(a * SCALE) / b`, truncated
/// toward zero and clamped.
pub open spec fn rdiv_spec(a: int, b: int) -> int
    recommends
        b != 0,
{
    clamp_i64(tdiv(a * (SCALE as int), b))
}

/// Sine on an argument already reduced into `[0, TWO_PI_UNITS)`, by the
/// Bhaskara rational approximation on each half turn.
pub open spec fn sin_reduced_spec(r: int) -> int {
    if r <= PI_UNITS {
        sin_half_turn_spec(r)
    } else {
        -sin_half_turn_spec(r - PI_UNITS)
    }
}

/// Bhaskara's approximation `16 x (pi - x) / (5 pi^2 - 4 x (pi - x))` on a
/// fixed-point argument in `[0, PI_UNITS]`.
pub open spec fn sin_half_turn_spec(r: int) -> int {
    let q = r * (PI_UNITS - r);
    (16 * q * (SCALE as int)) / (5 * (PI_UNITS as int) * (PI_UNITS as int) - 4 * q)
}

/// Sine of a fixed-point angle in radians.
pub open spec fn sin_spec(x: int) -> int {
    sin_reduced_spec(x % (TWO_PI_UNITS as int))
}

/// Cosine of a fixed-point angle in radians, as sine shifted a quarter turn.
pub open spec fn cos_spec(x: int) -> int {
    sin_reduced_spec((x + HALF_PI_UNITS) % (TWO_PI_UNITS as int))
}

impl Real {
    /// The real carried by `units` millionths.
    pub fn from_units(units: i64) -> (r: Real)
        ensures
            r.units == units,
    {
        Real { units }
    }

    /// The real standing for the integer `i`, clamped at the representable
    /// bounds.
    pub fn from_integer(i: i64) -> (r: Real)
        ensures
            r.units as int == clamp_i64(i * (SCALE as int)),
    {
        Real { units: int_times(i, SCALE) }
    }

    /// The real standing for a boolean: 1.0 for true, 0.0 for false.
    pub fn from_boolean(b: bool) -> (r: Real)
        ensures
            b ==> r.units == SCALE,
            !b ==> r.units == 0,
    {
        Real { units: if b { SCALE } else { 0 } }
    }

    /// The integer part, truncated toward zero.
    pub fn truncate_to_integer(&self) -> (r: i64)
        ensures
            r as int == tdiv(self.units as int, SCALE as int),
    {
        int_divide(self.units, SCALE)
    }

    /// Saturating addition.
    pub fn plus(&self, other: &Real) -> (r: Real)
        ensures
            r.units as int == clamp_i64(self.units + other.units),
    {
        Real { units: int_plus(self.units, other.units) }
    }

    /// Saturating subtraction.
    pub fn minus(&self, other: &Real) -> (r: Real)
        ensures
            r.units as int == clamp_i64(self.units - other.units),
    {
        Real { units: int_minus(self.units, other.units) }
    }

    /// Saturating fixed-point multiplication.
    pub fn times(&self, other: &Real) -> (r: Real)
        ensures
            r.units as int == rmul_spec(self.units as int, other.units as int),
    {
        let a: i128 = self.units as i128;
        let b: i128 = other.units as i128;
        proof {
            assert(a * b <= i128::MAX && a * b >= i128::MIN) by (nonlinear_arith)
                requires
                    -0x8000_0000_0000_0000 <= a <= 0x7FFF_FFFF_FFFF_FFFF
                        && -0x8000_0000_0000_0000 <= b <= 0x7FFF_FFFF_FFFF_FFFF,
            ;
        }
        let p: i128 = a * b;
        let q: i128 = match p.checked_div(SCALE as i128) {
            Some(q) => q,
            None => 0,
        };
        proof {
            assert(q == tdiv(self.units as int * other.units as int, SCALE as int));
        }
        if q > i64::MAX as i128 {
            Real { units: i64::MAX }
        } else if q < i64::MIN as i128 {
            Real { units: i64::MIN }
        } else {
            Real { units: q as i64 }
        }
    }

    /// Saturating fixed-point division; the divisor must be screened for
    /// zero by the caller.
    pub fn divide(&self, other: &Real) -> (r: Real)
        requires
            other.units != 0,
        ensures
            r.units as int == rdiv_spec(self.units as int, other.units as int),
    {
        let a: i128 = (self.units as i128) * (SCALE as i128);
        let b: i128 = other.units as i128;
        let q: i128 = match a.checked_div(b) {
            Some(q) => q,
            None => 0,
        };
        proof {
            assert(q == tdiv(self.units as int * (SCALE as int), other.units as int));
        }
        if q > i64::MAX as i128 {
            Real { units: i64::MAX }
        } else if q < i64::MIN as i128 {
            Real { units: i64::MIN }
        } else {
            Real { units: q as i64 }
        }
    }

    /// Remainder matching truncated division on the represented values;
    /// the divisor must be screened for zero by the caller.
    pub fn modulo(&self, other: &Real) -> (r: Real)
        requires
            other.units != 0,
        ensures
            r.units as int == trem(self.units as int, other.units as int),
    {
        Real { units: int_modulo(self.units, other.units) }
    }

    /// Sine of the represented angle, in radians.
    pub fn sine(&self) -> (r: Real)
        ensures
            r.units as int == sin_spec(self.units as int),
    {
        let red: i64 = match self.units.checked_rem_euclid(TWO_PI_UNITS) {
            Some(m) => m,
            None => 0,
        };
        sin_reduced(red)
    }

    /// Cosine of the represented angle, in radians.
    pub fn cosine(&self) -> (r: Real)
        ensures
            r.units as int == cos_spec(self.units as int),
    {
        let shifted: i128 = (self.units as i128) + (HALF_PI_UNITS as i128);
        let red: i128 = match shifted.checked_rem_euclid(TWO_PI_UNITS as i128) {
            Some(m) => m,
            None => 0,
        };
        sin_reduced(red as i64)
    }

    /// Tangent of the represented angle, as sine over cosine; the caller
    /// screens out angles whose cosine is zero (dispatch makes that case a
    /// no-op).
    pub fn tangent(&self) -> (r: Real)
        requires
            cos_spec(self.units as int) != 0,
        ensures
            r.units as int == rdiv_spec(
                sin_spec(self.units as int),
                cos_spec(self.units as int),
            ),
    {
        let s = self.sine();
        let c = self.cosine();
        s.divide(&c)
    }

    /// The smaller of the two represented values.
    pub fn min_of(&self, other: &Real) -> (r: Real)
        ensures
            r.units == if self.units <= other.units {
                self.units
            } else {
                other.units
            },
    {
        if self.units <= other.units {
            *self
        } else {
            *other
        }
    }

    /// The larger of the two represented values.
    pub fn max_of(&self, other: &Real) -> (r: Real)
        ensures
            r.units == if self.units >= other.units {
                self.units
            } else {
                other.units
            },
    {
        if self.units >= other.units {
            *self
        } else {
            *other
        }
    }
}

/// Sine on an argument already reduced into `[0, TWO_PI_UNITS)`.
fn sin_reduced(r: i64) -> (out: Real)
    requires
        0 <= r < TWO_PI_UNITS,
    ensures
        out.units as int == sin_reduced_spec(r as int),
{
    if r <= PI_UNITS {
        Real { units: sin_half_turn(r) }
    } else {
        let s = sin_half_turn(r - PI_UNITS);
        Real { units: -s }
    }
}

/// Bhaskara's approximation on a fixed-point argument in `[0, PI_UNITS]`.
fn sin_half_turn(r: i64) -> (out: i64)
    requires
        0 <= r <= PI_UNITS,
    ensures
        out as int == sin_half_turn_spec(r as int),
        0 <= out <= 16_000_000,
{
    let pr: i128 = PI_UNITS as i128;
    let rw: i128 = r as i128;
    proof {
        assert(0 <= rw * (pr - rw) <= pr * pr) by (nonlinear_arith)
            requires
                0 <= rw <= pr && pr == 3_141_593,
        ;
    }
    let q: i128 = rw * (pr - rw);
    proof {
        assert(16 * q * (SCALE as i128) <= 16 * pr * pr * 1_000_000 && 16 * q * (SCALE as i128)
            >= 0) by (nonlinear_arith)
            requires
                0 <= q <= pr * pr && pr == 3_141_593,
        ;
        assert(pr * pr <= 5 * pr * pr - 4 * q <= 5 * pr * pr) by (nonlinear_arith)
            requires
                0 <= q <= pr * pr,
        ;
    }
    let num: i128 = 16 * q * (SCALE as i128);
    let den: i128 = 5 * pr * pr - 4 * q;
    let out128: i128 = match num.checked_div(den) {
        Some(o) => o,
        None => 0,
    };
    proof {
        vstd::arithmetic::div_mod::lemma_fundamental_div_mod(num as int, den as int);
        assert(0 <= out128 <= 16_000_000) by (nonlinear_arith)
            requires
                den * out128 + (num as int) % (den as int) == num,
                0 <= (num as int) % (den as int) < den,
                num <= 16 * 3_141_593 * 3_141_593 * 1_000_000,
                num >= 0,
                3_141_593 * 3_141_593 <= den,
        ;
    }
    out128 as i64
}

} // verus!
