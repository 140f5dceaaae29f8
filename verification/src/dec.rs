//! Exact fixed-point decimal arithmetic.
//!
//! All prices, quantities and derived financial quantities in this crate are
//! held as an integer count of billionths (`units`), so every aggregation is
//! reproducible bit for bit. Multiplication and division truncate toward
//! zero at the ninth decimal place.

use vstd::prelude::*;

verus! {

/// Number of units in 1.0: nine decimal places.
pub const SCALE_UNITS: i128 = 1_000_000_000;

/// Largest magnitude (in units) a single stored price or quantity may have.
/// Keeps every sum and product that the book and the trades log form
/// representable in `i128`.
pub const VAL_LIMIT_UNITS: i128 = 10_000_000_000_000_000;

/// Largest number of price levels per book side, resident trades, or resident
/// flow events. Together with `VAL_LIMIT_UNITS` this bounds every sum the
/// crate forms.
pub const LEN_LIMIT: usize = 1_000_000;

/// Largest magnitude (in units) a dividend may have: `x * SCALE_UNITS` must
/// not overflow `i128`.
pub const DIV_NUM_LIMIT: i128 = 100_000_000_000_000_000_000_000_000_000;

/// Quotient of nonnegative `x` by the scale, as mathematical floor.
pub open spec fn descale(x: int) -> int {
    if x >= 0 {
        x / (SCALE_UNITS as int)
    } else {
        -((-x) / (SCALE_UNITS as int))
    }
}

/// Truncated-toward-zero integer division, the rounding rule of this
/// decimal type.
pub open spec fn div_units(n: int, d: int) -> int {
    if d > 0 {
        if n >= 0 {
            n / d
        } else {
            -((-n) / d)
        }
    } else {
        if n >= 0 {
            -(n / (-d))
        } else {
            (-n) / (-d)
        }
    }
}

/// The product of two decimals, in units: exact product of the unit counts,
/// truncated toward zero at the ninth decimal place.
pub open spec fn dec_mul(a: int, b: int) -> int {
    descale(a * b)
}

/// The quotient of two decimals, in units: truncated toward zero at the
/// ninth decimal place.
pub open spec fn dec_div(a: int, b: int) -> int {
    div_units(a * (SCALE_UNITS as int), b)
}

/// Largest value (in units) of a product of two in-range decimals:
/// `descale(VAL_LIMIT_UNITS * VAL_LIMIT_UNITS)`.
pub const PQ_LIMIT_UNITS: i128 = 100_000_000_000_000_000_000_000;

/// The decimal with the given unit count, for use in specifications.
pub open spec fn dec_of(units: int) -> Dec {
    Dec { units: units as i128 }
}

/// The unit counts inside an optional decimal.
pub open spec fn opt_units(o: Option<Dec>) -> Option<int> {
    match o {
        None => None,
        Some(d) => Some(d@),
    }
}

/// Descaling is monotone on nonnegative arguments.
pub proof fn lemma_descale_mono(x: int, y: int)
    requires
        0 <= x <= y,
    ensures
        0 <= descale(x) <= descale(y),
{
    let s = SCALE_UNITS as int;
    vstd::arithmetic::div_mod::lemma_div_pos_is_pos(x, s);
    vstd::arithmetic::div_mod::lemma_div_is_ordered(x, y, s);
    vstd::arithmetic::div_mod::lemma_div_pos_is_pos(y, s);
}

/// A product of nonnegative decimals bounded by `ca` and `cb` is itself
/// nonnegative and bounded by the descaled product of the bounds.
pub proof fn lemma_dec_mul_bounds(a: int, b: int, ca: int, cb: int)
    requires
        0 <= a <= ca,
        0 <= b <= cb,
    ensures
        0 <= dec_mul(a, b) <= descale(ca * cb),
{
    vstd::arithmetic::mul::lemma_mul_upper_bound(a, ca, b, cb);
    vstd::arithmetic::mul::lemma_mul_nonnegative(a, b);
    lemma_descale_mono(a * b, ca * cb);
}

/// A product of a sign-bounded decimal and a nonnegative one is bounded
/// in magnitude by the descaled product of the bounds.
pub proof fn lemma_dec_mul_abs_bounds(a: int, b: int, ca: int, cb: int)
    requires
        -ca <= a <= ca,
        0 <= b <= cb,
    ensures
        -descale(ca * cb) <= dec_mul(a, b) <= descale(ca * cb),
{
    if a >= 0 {
        lemma_dec_mul_bounds(a, b, ca, cb);
        vstd::arithmetic::mul::lemma_mul_nonnegative(ca, cb);
        lemma_descale_mono(0, ca * cb);
    } else {
        assert((-a) * b == -(a * b)) by {
            vstd::arithmetic::mul::lemma_mul_unary_negation(a, b);
        }
        vstd::arithmetic::mul::lemma_mul_upper_bound(-a, ca, b, cb);
        vstd::arithmetic::mul::lemma_mul_nonnegative(-a, b);
        lemma_descale_mono((-a) * b, ca * cb);
    }
}

/// Multiplying by a weight of at most one (`SCALE_UNITS` units) cannot
/// grow a nonnegative decimal beyond its own bound.
pub proof fn lemma_dec_mul_weight_bound(a: int, w: int, ca: int)
    requires
        0 <= a <= ca,
        0 <= w <= SCALE_UNITS as int,
    ensures
        0 <= dec_mul(a, w) <= ca,
{
    let s = SCALE_UNITS as int;
    lemma_dec_mul_bounds(a, w, ca, s);
    assert(descale(ca * s) == ca) by {
        vstd::arithmetic::mul::lemma_mul_is_commutative(ca, s);
        vstd::arithmetic::div_mod::lemma_div_multiples_vanish(ca, s);
    }
}

/// A product of two in-range nonnegative decimals stays within the
/// product limit.
pub proof fn lemma_dec_mul_val_bounds(a: int, b: int)
    requires
        0 <= a <= VAL_LIMIT_UNITS as int,
        0 <= b <= VAL_LIMIT_UNITS as int,
    ensures
        0 <= dec_mul(a, b) <= PQ_LIMIT_UNITS as int,
{
    lemma_dec_mul_bounds(a, b, VAL_LIMIT_UNITS as int, VAL_LIMIT_UNITS as int);
}

/// A quotient of a nonnegative dividend bounded by `ca` and a positive
/// divisor no smaller than `d0` is nonnegative and bounded by
/// `descale-inverse` growth: `dec_div(a, b) <= (ca * SCALE_UNITS) / d0`.
pub proof fn lemma_dec_div_bounds(a: int, b: int, ca: int, d0: int)
    requires
        0 <= a <= ca,
        0 < d0 <= b,
    ensures
        0 <= dec_div(a, b) <= (ca * SCALE_UNITS as int) / d0,
{
    let s = SCALE_UNITS as int;
    vstd::arithmetic::mul::lemma_mul_inequality(a, ca, s);
    vstd::arithmetic::mul::lemma_mul_nonnegative(a, s);
    vstd::arithmetic::div_mod::lemma_div_pos_is_pos(a * s, b);
    vstd::arithmetic::div_mod::lemma_div_is_ordered(a * s, ca * s, b);
    vstd::arithmetic::div_mod::lemma_div_is_ordered_by_denominator(ca * s, d0, b);
}

/// Dividing a positive quantity by itself gives exactly one.
pub proof fn lemma_dec_div_self(a: int)
    requires
        0 < a,
    ensures
        dec_div(a, a) == SCALE_UNITS as int,
{
    let s = SCALE_UNITS as int;
    vstd::arithmetic::mul::lemma_mul_nonnegative(a, s);
    assert((a * s) / a == s) by {
        vstd::arithmetic::mul::lemma_mul_is_commutative(a, s);
        vstd::arithmetic::div_mod::lemma_div_multiples_vanish(s, a);
    }
}

/// Zero divided by anything positive is zero, and zero times anything
/// is zero.
pub proof fn lemma_dec_zero_ops(b: int)
    requires
        0 < b,
    ensures
        dec_div(0, b) == 0,
        dec_mul(0, b) == 0,
        dec_mul(b, 0) == 0,
{
    let s = SCALE_UNITS as int;
    vstd::arithmetic::div_mod::lemma_div_basics(b);
    assert((0int * s) == 0) by {
        vstd::arithmetic::mul::lemma_mul_by_zero_is_zero(s);
    }
    assert(0int / b == 0) by {
        vstd::arithmetic::div_mod::lemma_div_basics(b);
    }
    assert(dec_mul(0, b) == 0 && dec_mul(b, 0) == 0) by {
        vstd::arithmetic::mul::lemma_mul_by_zero_is_zero(b);
        vstd::arithmetic::div_mod::lemma_div_basics(s);
    }
}

/// An exact decimal number: `units` billionths.
#[derive(Clone, Copy, PartialEq, Eq, Structural, Debug, Hash)]
pub struct Dec {
    pub units: i128,
}

impl View for Dec {
    type V = int;

    open spec fn view(&self) -> int {
        self.units as int
    }
}

impl Dec {
    /// The decimal with the given count of billionths.
    pub fn from_units(units: i128) -> (r: Dec)
        ensures
            r@ == units as int,
    {
        Dec { units }
    }

    /// The decimal equal to the given integer.
    pub fn from_int(n: i64) -> (r: Dec)
        ensures
            r@ == n as int * SCALE_UNITS as int,
    {
        Dec { units: (n as i128) * SCALE_UNITS }
    }

    /// Zero.
    pub fn zero() -> (r: Dec)
        ensures
            r@ == 0,
    {
        Dec { units: 0 }
    }

    /// The unit count of this decimal.
    pub fn units(self) -> (r: i128)
        ensures
            r as int == self@,
    {
        self.units
    }

    /// Exact sum.
    pub fn plus(self, o: Dec) -> (r: Dec)
        requires
            i128::MIN <= self@ + o@ <= i128::MAX,
        ensures
            r@ == self@ + o@,
    {
        Dec { units: self.units + o.units }
    }

    /// Exact difference.
    pub fn minus(self, o: Dec) -> (r: Dec)
        requires
            i128::MIN <= self@ - o@ <= i128::MAX,
        ensures
            r@ == self@ - o@,
    {
        Dec { units: self.units - o.units }
    }

    /// Product, truncated toward zero at the ninth decimal place.
    pub fn times(self, o: Dec) -> (r: Dec)
        requires
            -i128::MAX <= self@ * o@ <= i128::MAX,
        ensures
            r@ == dec_mul(self@, o@),
    {
        let p: i128 = self.units * o.units;
        if p >= 0 {
            Dec { units: p / SCALE_UNITS }
        } else {
            Dec { units: -((-p) / SCALE_UNITS) }
        }
    }

    /// Quotient, truncated toward zero at the ninth decimal place.
    pub fn divide(self, o: Dec) -> (r: Dec)
        requires
            o@ != 0,
            i128::MIN < o@,
            -DIV_NUM_LIMIT <= self@ <= DIV_NUM_LIMIT,
        ensures
            r@ == dec_div(self@, o@),
    {
        let n: i128 = self.units * SCALE_UNITS;
        if o.units > 0 {
            if n >= 0 {
                Dec { units: n / o.units }
            } else {
                Dec { units: -((-n) / o.units) }
            }
        } else {
            if n >= 0 {
                Dec { units: -(n / (-o.units)) }
            } else {
                Dec { units: (-n) / (-o.units) }
            }
        }
    }

    /// Strictly less.
    pub fn lt(self, o: Dec) -> (r: bool)
        ensures
            r == (self@ < o@),
    {
        self.units < o.units
    }

    /// Less or equal.
    pub fn le(self, o: Dec) -> (r: bool)
        ensures
            r == (self@ <= o@),
    {
        self.units <= o.units
    }

    /// Equal to zero.
    pub fn is_zero(self) -> (r: bool)
        ensures
            r == (self@ == 0),
    {
        self.units == 0
    }

    /// Strictly negative.
    pub fn is_neg(self) -> (r: bool)
        ensures
            r == (self@ < 0),
    {
        self.units < 0
    }

    /// Absolute value.
    pub fn abs(self) -> (r: Dec)
        requires
            i128::MIN < self@,
        ensures
            r@ == if self@ >= 0 {
                self@
            } else {
                -self@
            },
    {
        if self.units >= 0 {
            self
        } else {
            Dec { units: -self.units }
        }
    }
}

} // verus!
