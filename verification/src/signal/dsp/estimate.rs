//! What a repeat in a signal says: where it was found, how far two copies agree,
//! and how large a frequency offset it can show.

use vstd::prelude::*;

verus! {

/// The run of positions whose metric is within a stated fraction of the peak.
#[derive(Clone, Copy, Debug, PartialEq, Eq, Structural)]
pub struct Plateau {
    /// The first index of the run, and the last.
    pub start: usize,
    pub end: usize,
    /// The index of the largest metric in it.
    pub peak: usize,
    pub peak_metric: i64,
}

impl Plateau {
    /// How many positions the run has.
    pub fn len(&self) -> (n: usize)
        requires
            self.start <= self.end < usize::MAX,
        ensures
            n == self.end - self.start + 1,
    {
        self.end + 1 - self.start
    }

    /// A run always holds its peak.
    pub fn is_empty(&self) -> (r: bool)
        ensures
            !r,
    {
        false
    }

    /// Twice the middle of the run.
    pub fn twice_centre(&self) -> (n: u128)
        ensures
            n == self.start + self.end,
    {
        self.start as u128 + self.end as u128
    }
}

/// Whether a metric reaches `num / den` of the peak.
pub open spec fn reaches(metric: i64, peak: i64, num: u32, den: u32) -> bool {
    metric * den >= peak * num
}

/// Whether a run is the plateau of a metric: it holds the peak, which is the last
/// of the largest values, everything in it reaches the fraction, and it cannot be
/// made longer.
pub open spec fn is_plateau(metric: Seq<i64>, num: u32, den: u32, p: Plateau) -> bool {
    &&& p.start <= p.peak <= p.end < metric.len()
    &&& p.peak_metric == metric[p.peak as int]
    &&& forall|i: int| 0 <= i < metric.len() ==> #[trigger] metric[i] <= p.peak_metric
    &&& forall|i: int| p.peak < i < metric.len() ==> #[trigger] metric[i] < p.peak_metric
    &&& forall|i: int|
        p.start <= i <= p.end && i != p.peak ==> reaches(#[trigger] metric[i], p.peak_metric, num, den)
    &&& p.start > 0 ==> !reaches(metric[p.start - 1], p.peak_metric, num, den)
    &&& p.end + 1 < metric.len() ==> !reaches(metric[p.end + 1], p.peak_metric, num, den)
}

fn does_reach(metric: i64, peak: i64, num: u32, den: u32) -> (r: bool)
    ensures
        r == reaches(metric, peak, num, den),
{
    proof {
        assert(-0x8000_0000_0000_0000 * 0x1_0000_0000 <= metric * den <= 0x8000_0000_0000_0000
            * 0x1_0000_0000) by (nonlinear_arith)
            requires
                -0x8000_0000_0000_0000 <= metric <= 0x8000_0000_0000_0000,
                0 <= den <= 0x1_0000_0000,
        ;
        assert(-0x8000_0000_0000_0000 * 0x1_0000_0000 <= peak * num <= 0x8000_0000_0000_0000
            * 0x1_0000_0000) by (nonlinear_arith)
            requires
                -0x8000_0000_0000_0000 <= peak <= 0x8000_0000_0000_0000,
                0 <= num <= 0x1_0000_0000,
        ;
    }
    (metric as i128) * (den as i128) >= (peak as i128) * (num as i128)
}

/// The coarse timing of a repeat, as a plateau: the run around the largest metric
/// that stays within the fraction `num / den` of it. Without a metric there is
/// none. A fraction above one counts as one.
pub fn schmidl_cox_plateau(metric: &[i64], num: u32, den: u32) -> (r: Option<Plateau>)
    requires
        den > 0,
    ensures
        match r {
            Some(p) => is_plateau(
                metric@,
                if num > den {
                    den
                } else {
                    num
                },
                den,
                p,
            ),
            None => metric@.len() == 0,
        },
{
    if metric.len() == 0 {
        return None;
    }
    let part: u32 = if num > den {
        den
    } else {
        num
    };
    let mut peak: usize = 0;
    let mut i: usize = 1;
    while i < metric.len()
        invariant
            1 <= i <= metric@.len(),
            peak < i,
            forall|k: int| 0 <= k < i ==> #[trigger] metric@[k] <= metric@[peak as int],
            forall|k: int| peak < k < i ==> #[trigger] metric@[k] < metric@[peak as int],
        decreases metric@.len() - i,
    {
        if metric[i] >= metric[peak] {
            peak = i;
        }
        i += 1;
    }
    let top: i64 = metric[peak];
    let mut start: usize = peak;
    while start > 0 && does_reach(metric[start - 1], top, part, den)
        invariant
            start <= peak < metric@.len(),
            forall|k: int| start <= k < peak ==> reaches(#[trigger] metric@[k], top, part, den),
        decreases start,
    {
        start -= 1;
    }
    let mut end: usize = peak;
    while end < metric.len() - 1 && does_reach(metric[end + 1], top, part, den)
        invariant
            peak <= end < metric@.len(),
            forall|k: int| peak < k <= end ==> reaches(#[trigger] metric@[k], top, part, den),
        decreases metric@.len() - end,
    {
        end += 1;
    }
    Some(Plateau { start, end, peak, peak_metric: top })
}

/// A fraction.
#[derive(Clone, Copy, Debug, PartialEq, Eq, Structural)]
pub struct Ratio {
    pub num: u128,
    pub den: u128,
}

/// The squared coherence of `pairs` products whose metric is `num / den`, as a
/// numerator and a denominator. The noise of `pairs` products adds
/// `(1 - coherence) / pairs` to the metric, and that is taken out again.
pub open spec fn coherence_of(num: int, den: int, pairs: int) -> (int, int) {
    if pairs < 2 {
        (between(num, den), den)
    } else {
        (between(pairs * num - den, (pairs - 1) * den), (pairs - 1) * den)
    }
}

/// A number kept between zero and a limit.
pub open spec fn between(n: int, limit: int) -> int {
    if n < 0 {
        0
    } else if n > limit {
        limit
    } else {
        n
    }
}

/// The squared coherence with the noise floor taken out of it.
pub fn coherence_squared(num: i64, den: u64, pairs: usize) -> (r: Ratio)
    requires
        den > 0,
    ensures
        (r.num as int, r.den as int) == coherence_of(num as int, den as int, pairs as int),
        r.num <= r.den,
        0 < r.den,
{
    let whole: u128 = den as u128;
    let told: u128 = if num > 0 {
        num as u128
    } else {
        0
    };
    if pairs < 2 {
        let part: u128 = if told > whole {
            whole
        } else {
            told
        };
        return Ratio { num: part, den: whole };
    }
    let n: u128 = pairs as u128;
    proof {
        assert(0 <= n * told <= 0x1_0000_0000_0000_0000 * 0x8000_0000_0000_0000) by (nonlinear_arith)
            requires
                0 <= n <= 0x1_0000_0000_0000_0000,
                0 <= told <= 0x8000_0000_0000_0000,
        ;
        assert(0 < (n - 1) * whole <= 0xffff_ffff_ffff_ffff * 0x1_0000_0000_0000_0000)
            by (nonlinear_arith)
            requires
                2 <= n <= 0x1_0000_0000_0000_0000,
                0 < whole <= 0x1_0000_0000_0000_0000,
        ;
        if num <= 0 {
            assert(pairs * num <= 0) by (nonlinear_arith)
                requires
                    pairs >= 2,
                    num <= 0,
            ;
        }
    }
    let seen: u128 = n * told;
    let limit: u128 = (n - 1) * whole;
    let part: u128 = if seen < whole {
        0
    } else if seen - whole > limit {
        limit
    } else {
        seen - whole
    };
    Ratio { num: part, den: limit }
}

/// The largest frequency offset a repeat can show without ambiguity, in cycles per
/// sample: half a turn over the lag.
pub fn moose_range(lag: usize) -> (r: Ratio)
    ensures
        r.num == 1,
        r.den == 2 * (if lag == 0 {
            1int
        } else {
            lag as int
        }),
{
    let over: u128 = if lag == 0 {
        1
    } else {
        lag as u128
    };
    Ratio { num: 1, den: 2 * over }
}

/// Taking the bias out undoes putting it in: where the metric is the coherence
/// `r / d` with the noise's `(1 - r / d) / pairs` on top, the coherence comes back.
pub proof fn law_correction_undoes_the_bias(r: int, d: int, pairs: int)
    requires
        0 <= r <= d,
        0 < d,
        2 <= pairs,
    ensures
        ({
            let c = coherence_of(r * pairs + (d - r), d * pairs, pairs);
            c.0 * d == r * c.1
        }),
{
    let num = r * pairs + (d - r);
    let den = d * pairs;
    let top = pairs * num - den;
    let limit = (pairs - 1) * den;
    assert(top == (pairs - 1) * (pairs * r)) by (nonlinear_arith)
        requires
            num == r * pairs + (d - r),
            den == d * pairs,
            top == pairs * num - den,
    ;
    assert(0 <= top <= limit) by (nonlinear_arith)
        requires
            top == (pairs - 1) * (pairs * r),
            limit == (pairs - 1) * den,
            den == d * pairs,
            0 <= r <= d,
            2 <= pairs,
    ;
    assert(top * d == r * limit) by (nonlinear_arith)
        requires
            top == (pairs - 1) * (pairs * r),
            limit == (pairs - 1) * den,
            den == d * pairs,
    ;
}

/// The corrected coherence never exceeds the metric it was taken from: the bias
/// only ever flatters.
pub proof fn law_correction_only_lowers(num: int, den: int, pairs: int)
    requires
        0 <= num <= den,
        0 < den,
        2 <= pairs,
    ensures
        ({
            let c = coherence_of(num, den, pairs);
            c.0 * den <= num * c.1
        }),
{
    let top = pairs * num - den;
    let limit = (pairs - 1) * den;
    assert(top <= limit && limit > 0) by (nonlinear_arith)
        requires
            top == pairs * num - den,
            limit == (pairs - 1) * den,
            num <= den,
            0 < den,
            2 <= pairs,
    ;
    assert(top * den <= num * limit) by (nonlinear_arith)
        requires
            top == pairs * num - den,
            limit == (pairs - 1) * den,
            num <= den,
            0 < den,
            2 <= pairs,
    ;
    assert(0 <= num * limit) by (nonlinear_arith)
        requires
            0 <= num,
            limit > 0,
    ;
}

/// A plateau has a peak that stands in it, and every position of it reaches the
/// fraction of a peak that is not negative.
pub proof fn law_plateau_holds_its_peak(metric: Seq<i64>, num: u32, den: u32, p: Plateau)
    requires
        is_plateau(metric, num, den, p),
        num <= den,
        p.peak_metric >= 0,
    ensures
        forall|i: int|
            p.start <= i <= p.end ==> reaches(#[trigger] metric[i], p.peak_metric, num, den),
{
    assert(p.peak_metric * den >= p.peak_metric * num) by (nonlinear_arith)
        requires
            p.peak_metric >= 0,
            num <= den,
    ;
}

/// A metric has one plateau.
pub proof fn law_one_plateau(metric: Seq<i64>, num: u32, den: u32, a: Plateau, b: Plateau)
    requires
        is_plateau(metric, num, den, a),
        is_plateau(metric, num, den, b),
    ensures
        a == b,
{
    assert(metric[a.peak as int] <= b.peak_metric && metric[b.peak as int] <= a.peak_metric);
    if a.start < b.start {
        assert(reaches(metric[b.start - 1], a.peak_metric, num, den));
    } else if b.start < a.start {
        assert(reaches(metric[a.start - 1], b.peak_metric, num, den));
    }
    if a.end < b.end {
        assert(reaches(metric[a.end + 1], b.peak_metric, num, den));
    } else if b.end < a.end {
        assert(reaches(metric[b.end + 1], a.peak_metric, num, den));
    }
}

/// Everything in a plateau is at least its fraction of the largest metric, and what
/// stands on either side of it is less.
pub proof fn law_a_plateau_stands_above_its_sides(
    metric: Seq<i64>,
    num: u32,
    den: u32,
    p: Plateau,
    i: int,
)
    requires
        is_plateau(metric, num, den, p),
        num <= den,
        p.peak_metric >= 0,
        0 <= i < metric.len(),
    ensures
        metric[i] <= metric[p.peak as int],
        p.start <= i <= p.end ==> metric[i] * den >= metric[p.peak as int] * num,
        i == p.start - 1 || i == p.end + 1 ==> metric[i] * den < metric[p.peak as int] * num,
{
    law_plateau_holds_its_peak(metric, num, den, p);
}

/// The coherence of more than one product is a fraction between none and one, and the
/// higher the metric the higher it is.
pub proof fn law_coherence_rises_with_the_metric(low: int, high: int, den: int, pairs: int)
    requires
        low <= high,
        0 < den,
    ensures
        ({
            let a = coherence_of(low, den, pairs);
            let b = coherence_of(high, den, pairs);
            &&& a.1 == b.1
            &&& 0 < a.1
            &&& 0 <= a.0 <= b.0 <= b.1
            &&& high >= den ==> b.0 == b.1
            &&& low <= 0 ==> a.0 == 0
        }),
{
    if pairs >= 2 {
        assert(pairs * low <= pairs * high && (pairs - 1) * den > 0 && (high >= den ==> pairs * high
            >= pairs * den) && (low <= 0 ==> pairs * low <= 0) && (pairs - 1) * den == pairs * den
            - den) by (nonlinear_arith)
            requires
                low <= high,
                0 < den,
                pairs >= 2,
        ;
    }
}

} // verus!
