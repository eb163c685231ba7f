//! Levels in whole micro-decibels. A level that could not be measured is `None`,
//! and lies below every level that could.

use vstd::prelude::*;

verus! {

/// A measured level in micro-decibels, or `None` where there is no measurement.
pub type Level = Option<i64>;

/// A quotient rounded to the nearest whole number, a half away from zero.
pub open spec fn rounded(a: int, b: int) -> int {
    if a >= 0 {
        (2 * a + b) / (2 * b)
    } else {
        -((2 * -a + b) / (2 * b))
    }
}

/// A quotient of a magnitude rounded to the nearest whole number.
fn round_up(a: u128, b: u128) -> (q: u128)
    requires
        0 < b <= 0x1_0000_0000_0000_0000,
        a <= 0x8000_0000_0000_0000_0000_0000_0000_0000,
    ensures
        q == (2 * a + b) / (2 * b as int),
        q <= a,
        a == 0 ==> q == 0,
{
    // The halves are compared without doubling the magnitude.
    let whole: u128 = a / b;
    let rest: u128 = a % b;
    let up: u128 = if 2 * rest >= b {
        1
    } else {
        0
    };
    proof {
        let q = (whole + up) as int;
        assert(a == whole * b + rest && 0 <= rest < b) by (nonlinear_arith)
            requires
                whole == a / b,
                rest == a % b,
                b > 0,
        ;
        assert(2 * a + b == 2 * (whole * b) + 2 * rest + b);
        assert((2 * b) * whole == 2 * (whole * b)) by (nonlinear_arith);
        assert((2 * b) * (whole + 1) == 2 * (whole * b) + 2 * b) by (nonlinear_arith);
        let r = if up == 1 {
            2 * rest - b
        } else {
            2 * rest + b
        };
        assert(2 * a + b == (2 * b) * q + r);
        assert(0 <= r < 2 * b);
        vstd::arithmetic::div_mod::lemma_fundamental_div_mod_converse(2 * a + b, 2 * b, q, r);
        assert(q <= a) by (nonlinear_arith)
            requires
                a == whole * b + rest,
                q == whole + up,
                0 <= rest < b,
                0 < b,
                0 <= whole,
                up == 1 ==> 2 * rest >= b,
                0 <= up <= 1,
        ;
    }
    whole + up
}

/// Rounding stays inside any whole-number bounds the quotient lies in.
pub proof fn lemma_rounded_between(a: int, b: int, low: int, high: int)
    requires
        b > 0,
        low * b <= a <= high * b,
    ensures
        low <= rounded(a, b) <= high,
{
    let m = if a >= 0 {
        a
    } else {
        -a
    };
    let q = (2 * m + b) / (2 * b);
    vstd::arithmetic::div_mod::lemma_fundamental_div_mod(2 * m + b, 2 * b);
    vstd::arithmetic::div_mod::lemma_mod_bound(2 * m + b, 2 * b);
    let r = (2 * m + b) % (2 * b);
    if a >= 0 {
        assert(low <= q <= high) by (nonlinear_arith)
            requires
                2 * a + b == (2 * b) * q + r,
                0 <= r < 2 * b,
                0 < b,
                low * b <= a <= high * b,
        ;
    } else {
        assert(low <= -q <= high) by (nonlinear_arith)
            requires
                2 * -a + b == (2 * b) * q + r,
                0 <= r < 2 * b,
                0 < b,
                low * b <= a <= high * b,
        ;
    }
}

/// A quotient rounded to the nearest whole number, a half away from zero.
pub fn round_div(a: i128, b: u128) -> (q: i128)
    requires
        0 < b <= 0x1_0000_0000_0000_0000,
        a > i128::MIN,
    ensures
        q == rounded(a as int, b as int),
{
    if a >= 0 {
        let q: u128 = round_up(a as u128, b);
        q as i128
    } else {
        let q: u128 = round_up((0 - a) as u128, b);
        0 - (q as i128)
    }
}

/// The mean of so many levels that add up to `sum`.
pub fn mean_level(sum: i128, count: usize) -> (m: i64)
    requires
        count > 0,
        i64::MIN * count <= sum <= i64::MAX * count,
    ensures
        m == rounded(sum as int, count as int),
{
    proof {
        lemma_rounded_between(sum as int, count as int, i64::MIN as int, i64::MAX as int);
        assert(i64::MIN * count > i128::MIN);
    }
    round_div(sum, count as u128) as i64
}

/// The order of levels: no measurement lies below every measurement.
pub open spec fn below(a: Level, b: Level) -> bool {
    match (a, b) {
        (None, Some(_)) => true,
        (Some(x), Some(y)) => x < y,
        _ => false,
    }
}

/// Whether one level lies below another.
pub fn is_below(a: Level, b: Level) -> (r: bool)
    ensures
        r == below(a, b),
{
    match (a, b) {
        (None, Some(_)) => true,
        (Some(x), Some(y)) => x < y,
        _ => false,
    }
}

/// The higher of two levels.
pub open spec fn higher(a: Level, b: Level) -> Level {
    if below(a, b) {
        b
    } else {
        a
    }
}

/// The higher of two levels.
pub fn max_level(a: Level, b: Level) -> (r: Level)
    ensures
        r == higher(a, b),
{
    if is_below(a, b) {
        b
    } else {
        a
    }
}

/// Rounding goes to a nearest whole number: the result times the divisor is within half
/// the divisor of what was divided, and at the half it goes away from zero.
pub proof fn law_rounded_is_nearest(a: int, b: int)
    requires
        b > 0,
    ensures
        -b <= 2 * (rounded(a, b) * b - a) <= b,
        2 * (rounded(a, b) * b - a) == b ==> a > 0,
        2 * (rounded(a, b) * b - a) == -b ==> a < 0,
{
    let m = if a >= 0 {
        a
    } else {
        -a
    };
    let q = (2 * m + b) / (2 * b);
    vstd::arithmetic::div_mod::lemma_fundamental_div_mod(2 * m + b, 2 * b);
    vstd::arithmetic::div_mod::lemma_mod_bound(2 * m + b, 2 * b);
    assert((2 * b) * q == 2 * (q * b)) by (nonlinear_arith);
    assert((-q) * b == -(q * b)) by (nonlinear_arith);
    if a == 0 {
        assert(q == 0) by (nonlinear_arith)
            requires
                q == b / (2 * b),
                b > 0,
        ;
    }
}

/// The higher of two levels is one of them and lies below neither.
pub proof fn law_higher_is_the_greatest(a: Level, b: Level)
    ensures
        higher(a, b) == a || higher(a, b) == b,
        a matches Some(x) ==> (higher(a, b) matches Some(h) && x <= h),
        b matches Some(y) ==> (higher(a, b) matches Some(h) && y <= h),
{
}

} // verus!
