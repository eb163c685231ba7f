//! Quantities written out the way the panels show them.
//!
//! A frequency in megahertz is the double nearest to the quotient, shown with a
//! fixed number of decimals; both roundings are to even on a tie.

use crate::text;
use vstd::prelude::*;

verus! {

/// A quotient rounded to the nearest whole number, a half to the even one.
pub open spec fn half_even(a: int, b: int) -> int {
    let q = a / b;
    let r = a % b;
    if 2 * r > b || (2 * r == b && q % 2 == 1) {
        q + 1
    } else {
        q
    }
}

/// The distance between neighbouring doubles around a whole number.
pub open spec fn double_ulp(n: nat) -> nat
    decreases n,
{
    if n < 0x20_0000_0000_0000 {
        1
    } else {
        2 * double_ulp(n / 2)
    }
}

/// A whole number rounded to a double.
pub open spec fn to_double(n: nat) -> int {
    half_even(n as int, double_ulp(n) as int) * double_ulp(n)
}

/// Two to the fifty-second, in millionths.
pub open spec fn significand_floor() -> nat {
    4_503_599_627_370_496_000_000
}

/// The power of two that brings a number of millionths up to a full significand.
pub open spec fn scale_of(x: nat) -> nat
    decreases 2 * significand_floor() - x,
{
    if x == 0 || x >= significand_floor() {
        1
    } else {
        2 * scale_of(2 * x)
    }
}

/// A frequency in megahertz times a power of ten, rounded: the digits shown.
pub open spec fn mhz_digits(hz: nat, tens: int) -> int {
    let x = to_double(hz);
    let s = scale_of(x as nat) as int;
    let significand = half_even(x * s, 1_000_000);
    half_even(significand * tens, s)
}

/// The lowest `count` decimal digits of a number.
pub open spec fn last_digits(n: nat, count: nat) -> Seq<char>
    decreases count,
{
    if count == 0 {
        Seq::empty()
    } else {
        last_digits(n / 10, (count - 1) as nat).push(text::digit((n % 10) as int))
    }
}

/// A frequency in megahertz with one decimal.
pub open spec fn mhz_tenths(hz: u64) -> Seq<char> {
    let n = mhz_digits(hz as nat, 10) as nat;
    text::decimal(n / 10) + "."@ + last_digits(n, 1)
}

/// A frequency in megahertz with three decimals.
pub open spec fn mhz_thousandths(hz: u64) -> Seq<char> {
    let n = mhz_digits(hz as nat, 1000) as nat;
    text::decimal(n / 1000) + "."@ + last_digits(n, 3)
}

/// A number of millionths without decimals: a level in decibels, or a share in
/// percent.
pub open spec fn whole_decibels(level: i64) -> Seq<char> {
    if level < 0 {
        "-"@ + text::decimal(half_even(-level, 1_000_000) as nat)
    } else {
        text::decimal(half_even(level as int, 1_000_000) as nat)
    }
}

/// Rounding to even never moves by more than one.
proof fn lemma_half_even(a: int, b: int)
    requires
        0 <= a,
        0 < b,
    ensures
        a / b <= half_even(a, b) <= a / b + 1,
        0 <= half_even(a, b),
        half_even(a, b) <= a,
{
    vstd::arithmetic::div_mod::lemma_fundamental_div_mod(a, b);
    vstd::arithmetic::div_mod::lemma_mod_bound(a, b);
    let q = a / b;
    let r = a % b;
    assert(q >= 0) by (nonlinear_arith)
        requires
            a == b * q + r,
            0 <= r < b,
            0 <= a,
            0 < b,
    ;
    assert(q <= a) by (nonlinear_arith)
        requires
            a == b * q + r,
            0 <= r,
            0 <= q,
            0 < b,
    ;
    if half_even(a, b) == q + 1 {
        assert(r > 0);
        assert(q + 1 <= a) by (nonlinear_arith)
            requires
                a == b * q + r,
                0 < r < b,
                0 <= q,
                0 < b,
        ;
    }
}

/// A quotient rounded to the nearest whole number, a half to the even one.
fn round_even(a: u128, b: u128) -> (q: u128)
    requires
        0 < b <= 0x1_0000_0000_0000_0000_0000_0000_0000,
    ensures
        q == half_even(a as int, b as int),
        q <= a,
{
    proof {
        lemma_half_even(a as int, b as int);
    }
    let q: u128 = a / b;
    let r: u128 = a % b;
    assert(0 <= r < b) by (nonlinear_arith)
        requires
            r == a % b,
            0 < b,
    ;
    if 2 * r > b || (2 * r == b && q % 2 == 1) {
        q + 1
    } else {
        q
    }
}

/// The spacing of doubles around a whole number.
fn double_spacing(n: u128) -> (u: u128)
    ensures
        u == double_ulp(n as nat),
        1 <= u,
        n > 0 ==> u <= n,
    decreases n,
{
    if n < 0x20_0000_0000_0000 {
        1
    } else {
        let half = double_spacing(n / 2);
        2 * half
    }
}

/// A number of hertz as a double.
fn as_double(n: u64) -> (x: u128)
    ensures
        x == to_double(n as nat),
        x <= 0x2_0000_0000_0000_0000,
{
    let u = double_spacing(n as u128);
    let q: u128 = round_even(n as u128, u);
    proof {
        lemma_half_even(n as int, u as int);
        let w = n as int / u as int;
        assert(q * u <= n + u) by (nonlinear_arith)
            requires
                0 <= q <= w + 1,
                w == n as int / u as int,
                u > 0,
        ;
        assert(0 <= q * u) by (nonlinear_arith)
            requires
                0 <= q,
                0 < u,
        ;
        if n == 0 {
            assert(u == 1);
        }
    }
    q * u
}

/// The power of two that brings a number of millionths up to a full significand.
fn scale(x: u128) -> (s: u128)
    requires
        0 < x <= 0x2_0000_0000_0000_0000,
    ensures
        s == scale_of(x as nat),
        1 <= s,
        significand_floor() <= x * s < 2 * significand_floor(),
{
    let mut s: u128 = 1;
    let mut y: u128 = x;
    assert(x * 1 == x);
    while y < 4_503_599_627_370_496_000_000
        invariant
            0 < x,
            y == x * s,
            1 <= s <= y,
            y < 2 * significand_floor(),
            scale_of(x as nat) == s * scale_of(y as nat),
        decreases 9_007_199_254_740_992_000_000 - y,
    {
        proof {
            let inner = scale_of((2 * y) as nat);
            assert(s * (2 * inner) == (2 * s) * inner) by (nonlinear_arith);
            assert(2 * (x * s) == x * (2 * s)) by (nonlinear_arith);
        }
        y = 2 * y;
        s = 2 * s;
    }
    assert(s * 1 == s);
    s
}

/// The digits a frequency in megahertz is shown with.
fn digits(hz: u64, tens: u64) -> (n: u64)
    requires
        tens == 10 || tens == 1000,
    ensures
        n == mhz_digits(hz as nat, tens as int),
{
    let x = as_double(hz);
    if x == 0 {
        proof {
            assert(scale_of(0) == 1);
            assert(0int * 1 == 0);
            assert(half_even(0, 1_000_000) == 0);
            assert(0 * tens == 0);
            assert(half_even(0, 1) == 0);
        }
        return 0;
    }
    let s = scale(x);
    let significand: u128 = round_even(x * s, 1_000_000);
    proof {
        lemma_half_even((x * s) as int, 1_000_000);
        assert(significand <= 9_007_199_254_740_993);
        assert(0 <= significand * tens <= 9_007_199_254_740_993 * 1000) by (nonlinear_arith)
            requires
                0 <= significand <= 9_007_199_254_740_993,
                0 <= tens <= 1000,
        ;
        assert(s <= x * s) by (nonlinear_arith)
            requires
                1 <= x,
                1 <= s,
        ;
    }
    let n: u128 = round_even(significand * (tens as u128), s);
    n as u64
}

/// Appends the lowest decimal digits of a number.
fn push_last_digits(out: &mut Vec<char>, n: u64, count: u64)
    ensures
        final(out)@ == old(out)@ + last_digits(n as nat, count as nat),
    decreases count,
{
    let ghost before = out@;
    if count == 0 {
        assert(before + Seq::<char>::empty() == before);
        return;
    }
    push_last_digits(out, n / 10, count - 1);
    let d = (48 + (n % 10) as u8) as char;
    out.push(d);
    assert(out@ == before + last_digits(n as nat, count as nat));
}

/// Appends a frequency in megahertz with one decimal.
pub fn push_mhz_tenths(out: &mut Vec<char>, hz: u64)
    ensures
        final(out)@ == old(out)@ + mhz_tenths(hz),
{
    let ghost before = out@;
    let n = digits(hz, 10);
    text::push_decimal(out, n / 10);
    text::push_str(out, ".");
    push_last_digits(out, n, 1);
    assert(out@ == before + mhz_tenths(hz));
}

/// Appends a frequency in megahertz with three decimals.
pub fn push_mhz_thousandths(out: &mut Vec<char>, hz: u64)
    ensures
        final(out)@ == old(out)@ + mhz_thousandths(hz),
{
    let ghost before = out@;
    let n = digits(hz, 1000);
    text::push_decimal(out, n / 1000);
    text::push_str(out, ".");
    push_last_digits(out, n, 3);
    assert(out@ == before + mhz_thousandths(hz));
}

/// Appends a level in decibels without decimals.
pub fn push_whole_decibels(out: &mut Vec<char>, level: i64)
    ensures
        final(out)@ == old(out)@ + whole_decibels(level),
{
    let ghost before = out@;
    let magnitude: u128 = if level < 0 {
        text::push_str(out, "-");
        (0 - level as i128) as u128
    } else {
        level as u128
    };
    let n: u128 = round_even(magnitude, 1_000_000);
    text::push_decimal(out, n as u64);
    assert(out@ == before + whole_decibels(level));
}

/// A number of millionths with one decimal, a tie to even.
pub open spec fn tenths(micro: i64) -> Seq<char> {
    let n = half_even(magnitude(micro), 100_000) as nat;
    sign(micro) + text::decimal(n / 10) + "."@ + last_digits(n, 1)
}

/// A number of millionths with two decimals, a tie to even.
pub open spec fn hundredths(micro: i64) -> Seq<char> {
    let n = half_even(magnitude(micro), 10_000) as nat;
    sign(micro) + text::decimal(n / 100) + "."@ + last_digits(n, 2)
}

/// A number without its sign.
pub open spec fn magnitude(micro: i64) -> int {
    if micro < 0 {
        -micro
    } else {
        micro as int
    }
}

/// The sign as it is written.
pub open spec fn sign(micro: i64) -> Seq<char> {
    if micro < 0 {
        "-"@
    } else {
        Seq::empty()
    }
}

/// Appends a number of millionths with one decimal.
pub fn push_tenths(out: &mut Vec<char>, micro: i64)
    ensures
        final(out)@ == old(out)@ + tenths(micro),
{
    let ghost before = out@;
    let size: u128 = if micro < 0 {
        text::push_str(out, "-");
        (0 - micro as i128) as u128
    } else {
        micro as u128
    };
    let n: u64 = round_even(size, 100_000) as u64;
    text::push_decimal(out, n / 10);
    text::push_str(out, ".");
    push_last_digits(out, n, 1);
    assert(out@ == before + tenths(micro));
}

/// Appends a number of millionths with two decimals.
pub fn push_hundredths(out: &mut Vec<char>, micro: i64)
    ensures
        final(out)@ == old(out)@ + hundredths(micro),
{
    let ghost before = out@;
    let size: u128 = if micro < 0 {
        text::push_str(out, "-");
        (0 - micro as i128) as u128
    } else {
        micro as u128
    };
    let n: u64 = round_even(size, 10_000) as u64;
    text::push_decimal(out, n / 100);
    text::push_str(out, ".");
    push_last_digits(out, n, 2);
    assert(out@ == before + hundredths(micro));
}

/// Appends the lowest decimal digits of a number.
pub fn push_digits(out: &mut Vec<char>, n: u64, count: u64)
    ensures
        final(out)@ == old(out)@ + last_digits(n as nat, count as nat),
{
    push_last_digits(out, n, count);
}

/// Rounding to even goes to a nearest whole number.
pub proof fn law_half_even_is_nearest(a: int, b: int)
    requires
        0 <= a,
        0 < b,
    ensures
        -b <= 2 * (half_even(a, b) * b - a) <= b,
        2 * (half_even(a, b) * b - a) == b || 2 * (half_even(a, b) * b - a) == -b ==> half_even(a, b)
            % 2 == 0,
{
    vstd::arithmetic::div_mod::lemma_fundamental_div_mod(a, b);
    vstd::arithmetic::div_mod::lemma_mod_bound(a, b);
    let q = a / b;
    assert(b * q == q * b && (q + 1) * b == q * b + b) by (nonlinear_arith);
}

/// A number below the full significand is brought up to it.
proof fn lemma_scale(x: nat)
    requires
        0 < x,
    ensures
        scale_of(x) >= 1,
        x * scale_of(x) >= significand_floor(),
    decreases 2 * significand_floor() - x,
{
    if x < significand_floor() {
        lemma_scale(2 * x);
        let s = scale_of(2 * x);
        assert(x * (2 * s) == (2 * x) * s) by (nonlinear_arith);
    } else {
        assert(x * 1 == x);
    }
}

/// The digits of a frequency in megahertz are those of the nearest number with so many
/// decimals, but for a hair at a tie: within half a unit of the last digit, and a hertz.
pub proof fn law_megahertz_digits_are_nearest(hz: nat, tens: int)
    requires
        hz < 10_000_000_000_000,
        1 <= tens <= 1000,
    ensures
        -500_001 <= mhz_digits(hz, tens) * 1_000_000 - hz * tens <= 500_001,
        0 <= mhz_digits(hz, tens),
{
    assert(double_ulp(hz) == 1);
    vstd::arithmetic::div_mod::lemma_fundamental_div_mod(hz as int, 1);
    vstd::arithmetic::div_mod::lemma_mod_bound(hz as int, 1);
    assert(half_even(hz as int, 1) == hz);
    let x = to_double(hz);
    assert(x == hz);
    let s = scale_of(hz) as int;
    let sig = half_even(x * s, 1_000_000);
    let d = mhz_digits(hz, tens);
    if hz == 0 {
        assert(s == 1);
        assert(x * s == 0);
        assert(sig == 0);
        assert(sig * tens == 0);
        assert(d == 0);
    } else {
        lemma_scale(hz);
        assert(s >= 450_000_000) by (nonlinear_arith)
            requires
                hz * s >= 4_503_599_627_370_496_000_000,
                hz < 10_000_000_000_000,
                s >= 1,
        ;
        assert(x * s >= 0) by (nonlinear_arith)
            requires
                x >= 0,
                s >= 0,
        ;
        law_half_even_is_nearest(x * s, 1_000_000);
        lemma_half_even(x * s, 1_000_000);
        assert(sig * tens >= 0) by (nonlinear_arith)
            requires
                sig >= 0,
                tens >= 0,
        ;
        law_half_even_is_nearest(sig * tens, s);
        lemma_half_even(sig * tens, s);
        lemma_two_roundings(hz as int, tens, s, sig, d);
    }
}

proof fn lemma_two_roundings(x: int, tens: int, s: int, sig: int, d: int)
    requires
        450_000_000 <= s,
        1 <= tens <= 1000,
        -1_000_000 <= 2 * (sig * 1_000_000 - x * s) <= 1_000_000,
        -s <= 2 * (d * s - sig * tens) <= s,
    ensures
        -500_001 <= d * 1_000_000 - x * tens <= 500_001,
{
    let e = sig * 1_000_000 - x * s;
    let f = d * s - sig * tens;
    let g = d * 1_000_000 - x * tens;
    assert(g * s == f * 1_000_000 + e * tens) by (nonlinear_arith)
        requires
            e == sig * 1_000_000 - x * s,
            f == d * s - sig * tens,
            g == d * 1_000_000 - x * tens,
    ;
    assert(-500_000_000 <= e * tens <= 500_000_000) by (nonlinear_arith)
        requires
            -500_000 <= e <= 500_000,
            1 <= tens <= 1000,
    ;
    assert(-500_000 * s - 500_000_000 <= g * s <= 500_000 * s + 500_000_000);
    assert(-500_002 < g < 500_002) by (nonlinear_arith)
        requires
            -500_000 * s - 500_000_000 <= g * s <= 500_000 * s + 500_000_000,
            450_000_000 <= s,
    ;
}

/// The last digits of a number are its digits: with what is left of it before them they
/// spell the number.
pub proof fn law_last_digits_are_the_last(n: nat, count: nat)
    ensures
        last_digits(n, count).len() == count,
        forall|i: int| 0 <= i < count ==> text::is_digit(#[trigger] last_digits(n, count)[i]),
        text::digits_value(text::decimal(n / 10) + last_digits(n, 1)) == n,
    decreases count,
{
    text::law_a_number_is_read_back(n / 10);
    let head = text::decimal(n / 10);
    assert(last_digits(n / 10, 0) == Seq::<char>::empty());
    assert(last_digits(n, 1) == seq![text::digit((n % 10) as int)]) by {
        reveal_with_fuel(last_digits, 2);
    }
    let whole = head + last_digits(n, 1);
    assert(whole.drop_last() == head);
    if count > 0 {
        law_last_digits_are_the_last(n / 10, (count - 1) as nat);
        let t = last_digits(n, count);
        let less = last_digits(n / 10, (count - 1) as nat);
        assert forall|i: int| 0 <= i < count implies text::is_digit(#[trigger] t[i]) by {
            if i < count - 1 {
                assert(text::is_digit(less[i]));
            }
        }
    }
}

} // verus!
