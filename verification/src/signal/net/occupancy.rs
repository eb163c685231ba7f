//! Which cells of the band a receiver sees, and how busy they are.
//!
//! The band is divided into cells of one megahertz. A cell is asked over and
//! over whether anything is there; the fraction of yes is its duty cycle.

use crate::level;
use crate::signal::net::band;
use crate::sort;
use vstd::prelude::*;

verus! {

/// The width of a cell.
pub const CELL_HZ: u64 = 1_000_000;

/// Whole cells in the band; the ragged half megahertz at the top is none.
pub const CELLS: usize = 83;

/// The noise floor is read at the quantile of one part in so many.
pub const FLOOR_QUANTILE_PARTS: u64 = 10;

/// The share of the plane that may be busy before the floor stops being one, in percent.
pub const BUSY_LIMIT_PERCENT: u64 = 80;

/// `ln(0.9) / ln(0.95)` in units of ten to the minus fifteenth: what the lower
/// tail of a plane of noise looks like.
pub const TAIL_SHAPE_E15: u64 = 2_054_079_717_745_686;

/// `ln(0.5) / ln(0.75)` in the same units: the same ratio at the busy limit.
pub const TAIL_LIMIT_E15: u64 = 2_409_420_839_653_209;

/// A duty cycle is shown to one part in so many.
pub const DUTY_RESOLUTION_PARTS: u64 = 100;

/// The detector may be wrong once in so many windows.
pub const FALSE_ALARM_PARTS: u64 = 1_000;

/// `ln(0.1) / ln(0.9)` in units of ten to the minus fourteenth: how far noise spreads.
pub const NOISE_SPREAD_E14: u64 = 2_185_434_532_678_287;

/// Below this spread a plane is a rail rather than a distribution.
pub const SPREAD_FLOOR: u64 = 2;

/// `-ln(0.9)` in units of ten to the minus twelfth: the lower decile of noise of
/// unit mean.
pub const QUANTILE_LOG_E12: u64 = 105_360_515_658;

/// `-ln(0.001)` in the same units: where noise of unit mean crosses by chance as
/// often as the detector may be wrong.
pub const ALARM_LOG_E12: u64 = 6_907_755_278_982;

/// The cell a frequency falls in.
pub open spec fn cell_at(hz: int) -> int {
    (hz - band::LOW_HZ) / 1_000_000
}

/// Whether a frequency falls in a cell.
pub open spec fn has_cell(hz: int) -> bool {
    band::LOW_HZ <= hz && cell_at(hz) < CELLS
}

/// The cell a frequency falls in, or `None` outside the band. `None` stands for
/// a frequency that is not finite.
pub fn cell_of(hz: Option<i64>) -> (r: Option<usize>)
    ensures
        r == match hz {
            Some(f) if has_cell(f as int) => Some(cell_at(f as int) as usize),
            _ => None,
        },
        r matches Some(c) ==> c < CELLS,
{
    match hz {
        None => None,
        Some(f) => {
            if f < band::LOW_HZ as i64 {
                return None;
            }
            let cell: u64 = (f as u64 - band::LOW_HZ) / 1_000_000;
            if cell < CELLS as u64 {
                Some(cell as usize)
            } else {
                None
            }
        },
    }
}

/// The centre frequency of a cell.
pub fn cell_centre_hz(cell: usize) -> (hz: u64)
    requires
        cell <= 0xffff_ffff,
    ensures
        hz == band::LOW_HZ + cell * 1_000_000 + 500_000,
{
    band::LOW_HZ + (cell as u64) * 1_000_000 + CELL_HZ / 2
}

/// A number moved into the range of the cells.
pub open spec fn to_cells(n: int) -> int {
    if n < 0 {
        0
    } else if n > CELLS {
        CELLS as int
    } else {
        n
    }
}

/// The first cell whose lower edge lies inside a span.
pub open spec fn first_observed(centre_hz: int, span_hz: int) -> int {
    to_cells(-((2 * band::LOW_HZ - (2 * centre_hz - span_hz)) / 2_000_000))
}

/// One past the last cell whose upper edge lies inside a span.
pub open spec fn end_observed(centre_hz: int, span_hz: int) -> int {
    let first = first_observed(centre_hz, span_hz);
    let end = to_cells((2 * centre_hz + span_hz - 2 * band::LOW_HZ) / 2_000_000);
    if end < first {
        first
    } else {
        end
    }
}

/// Whether a cell lies wholly inside a span.
pub open spec fn wholly_inside(cell: int, centre_hz: int, span_hz: int) -> bool {
    let low = band::LOW_HZ + cell * 1_000_000;
    2 * low >= 2 * centre_hz - span_hz && 2 * (low + 1_000_000) <= 2 * centre_hz + span_hz
}

/// The cells of the band that lie wholly inside an observed span are exactly
/// those of the range.
pub proof fn law_observed_cells_are_whole(centre_hz: int, span_hz: int, cell: int)
    requires
        0 <= cell < CELLS,
        span_hz > 0,
    ensures
        wholly_inside(cell, centre_hz, span_hz) <==> first_observed(centre_hz, span_hz) <= cell
            < end_observed(centre_hz, span_hz),
{
}

/// A quotient rounded down, for numerators of either sign.
fn floor_div(a: i128, b: i128) -> (q: i128)
    requires
        0 < b,
        a > i128::MIN + b,
    ensures
        q == a as int / b as int,
{
    if a >= 0 {
        a / b
    } else {
        let up: i128 = (0 - a + b - 1) / b;
        proof {
            let q = -(up as int);
            let r = a - b * q;
            vstd::arithmetic::div_mod::lemma_fundamental_div_mod(-a + b - 1, b as int);
            vstd::arithmetic::div_mod::lemma_mod_bound(-a + b - 1, b as int);
            assert(b * q == -(b * up)) by (nonlinear_arith)
                requires
                    q == -(up as int),
            ;
            assert(0 <= r < b);
            assert(q * b == b * q) by (nonlinear_arith);
            vstd::arithmetic::div_mod::lemma_fundamental_div_mod_converse(
                a as int,
                b as int,
                q,
                r,
            );
        }
        0 - up
    }
}

/// The cells that lie wholly inside an observed span, as a range. A cell that is
/// only partly seen is not measured. `None` stands for a number that is not finite.
pub fn cells_observed(centre_hz: Option<i64>, span_hz: Option<i64>) -> (r: (usize, usize))
    ensures
        match (centre_hz, span_hz) {
            (Some(c), Some(s)) if s > 0 => {
                &&& r.0 == first_observed(c as int, s as int)
                &&& r.1 == end_observed(c as int, s as int)
            },
            _ => r == (0usize, 0usize),
        },
        r.0 <= r.1 <= CELLS,
{
    let (c, s): (i64, i64) = match (centre_hz, span_hz) {
        (Some(c), Some(s)) => (c, s),
        _ => return (0, 0),
    };
    if s <= 0 {
        return (0, 0);
    }
    let low: i128 = 2 * (band::LOW_HZ as i128);
    let below: i128 = floor_div(low - (2 * (c as i128) - s as i128), 2_000_000);
    let above: i128 = floor_div(2 * (c as i128) + s as i128 - low, 2_000_000);
    assert(-0x1_0000_0000_0000_0000 <= below <= 0x1_0000_0000_0000_0000);
    let first: usize = into_cells(0 - below);
    let end: usize = into_cells(above);
    if end < first {
        (first, first)
    } else {
        (first, end)
    }
}

/// A number moved into the range of the cells.
fn into_cells(n: i128) -> (r: usize)
    ensures
        r == to_cells(n as int),
{
    if n < 0 {
        0
    } else if n > CELLS as i128 {
        CELLS
    } else {
        n as usize
    }
}

/// How far transform bin `k` lies from the tuned frequency, in bins. The second
/// half of a transform lies below it.
pub open spec fn bin_offset(k: int, n: int) -> int {
    if 2 * k < n {
        k
    } else {
        k - n
    }
}

/// The frequency of a transform bin rounded down to whole hertz, which is in the
/// same cell.
pub open spec fn bin_floor_hz(centre_hz: int, rate_hz: int, n: int, k: int) -> int {
    (centre_hz * n + bin_offset(k, n) * rate_hz) / n
}

/// The cell of a transform bin, where that cell is observed. No span shows no cell.
pub open spec fn cell_of_bin(centre_hz: int, rate_hz: int, span_hz: int, n: int, k: int) -> Option<
    usize,
> {
    let hz = bin_floor_hz(centre_hz, rate_hz, n, k);
    if span_hz > 0 && has_cell(hz) && first_observed(centre_hz, span_hz) <= cell_at(hz)
        < end_observed(centre_hz, span_hz) {
        Some(cell_at(hz) as usize)
    } else {
        None
    }
}

/// The cell each transform bin belongs to, for one tuning: `None` where the bin
/// falls outside the cells that are observed.
pub fn bin_cells(centre_hz: i64, rate_hz: i64, span_hz: i64, n: usize) -> (out: Vec<Option<usize>>)
    requires
        n <= 0x1000_0000,
    ensures
        out@.len() == n,
        forall|k: int|
            0 <= k < n ==> #[trigger] out@[k] == cell_of_bin(
                centre_hz as int,
                rate_hz as int,
                span_hz as int,
                n as int,
                k,
            ),
{
    let (first, end): (usize, usize) = cells_observed(Some(centre_hz), Some(span_hz));
    let mut out: Vec<Option<usize>> = Vec::new();
    let mut k: usize = 0;
    while k < n
        invariant
            k <= n <= 0x1000_0000,
            if span_hz > 0 {
                &&& first == first_observed(centre_hz as int, span_hz as int)
                &&& end == end_observed(centre_hz as int, span_hz as int)
            } else {
                first == 0 && end == 0
            },
            out@.len() == k,
            forall|j: int|
                0 <= j < k ==> #[trigger] out@[j] == cell_of_bin(
                    centre_hz as int,
                    rate_hz as int,
                    span_hz as int,
                    n as int,
                    j,
                ),
        decreases n - k,
    {
        let offset: i128 = if 2 * k < n {
            k as i128
        } else {
            k as i128 - n as i128
        };
        proof {
            assert(-0x8000_0000_0000_0000 * 0x1000_0000 <= centre_hz * n <= 0x8000_0000_0000_0000
                * 0x1000_0000) by (nonlinear_arith)
                requires
                    -0x8000_0000_0000_0000 <= centre_hz <= 0x8000_0000_0000_0000,
                    0 <= n <= 0x1000_0000,
            ;
            assert(-0x1000_0000 * 0x8000_0000_0000_0000 <= offset * rate_hz <= 0x1000_0000
                * 0x8000_0000_0000_0000) by (nonlinear_arith)
                requires
                    -0x1000_0000 <= offset <= 0x1000_0000,
                    -0x8000_0000_0000_0000 <= rate_hz <= 0x8000_0000_0000_0000,
            ;
        }
        let num: i128 = (centre_hz as i128) * (n as i128) + offset * (rate_hz as i128);
        let hz: i128 = floor_div(num, n as i128);
        // What is out of range is far outside the band.
        let in_range: Option<i64> = if i64::MIN as i128 <= hz && hz <= i64::MAX as i128 {
            Some(hz as i64)
        } else {
            None
        };
        let found: Option<usize> = match cell_of(in_range) {
            Some(c) => if first <= c && c < end {
                Some(c)
            } else {
                None
            },
            None => None,
        };
        out.push(found);
        k += 1;
    }
    out
}

/// Where the `num / den` quantile of so many values stands among them in order.
pub open spec fn quantile_index(len: int, num: int, den: int) -> int {
    level::rounded((len - 1) * num, den)
}

/// The `num / den` quantile of a plane of powers.
pub fn quantile(plane: &[i128], num: u64, den: u64) -> (r: Option<i128>)
    requires
        0 < den <= 0xffff_ffff,
        num <= den,
    ensures
        match r {
            Some(v) => plane@.len() > 0 && v == sort::ascending(plane@)[quantile_index(
                plane@.len() as int,
                num as int,
                den as int,
            )],
            None => plane@.len() == 0,
        },
{
    if plane.len() == 0 {
        return None;
    }
    let ordered = sort::sorted(plane);
    let last: u64 = (plane.len() - 1) as u64;
    proof {
        assert(0 <= last * num <= last * den) by (nonlinear_arith)
            requires
                0 <= num <= den,
                0 <= last,
        ;
        assert(last * den <= u64::MAX * 0xffff_ffff) by (nonlinear_arith)
            requires
                0 <= last <= u64::MAX,
                0 <= den <= 0xffff_ffff,
        ;
        assert(last * num >= 0 * den);
        level::lemma_rounded_between(last * num, den as int, 0, last as int);
    }
    let at: i128 = level::round_div(((last as u128) * (num as u128)) as i128, den as u128);
    Some(ordered[at as usize])
}

/// The order statistics the floor of a plane rests on.
#[derive(Clone, Copy, Debug, PartialEq, Eq, Structural)]
pub struct FloorShape {
    /// The lower decile, the upper decile and the lower twentieth.
    pub low: i128,
    pub high: i128,
    pub half: i128,
    /// How many powers there are, and how many of them lie above the threshold
    /// that would be right if they all were noise.
    pub len: usize,
    pub above: usize,
    /// Whether the plane looks like noise with signal above it.
    pub trusted: bool,
}

/// Whether the shape of a plane can be believed: its top is far enough above its
/// bottom, and its bottom falls off as noise does.
pub open spec fn believable(low: int, high: int, half: int) -> bool {
    high >= SPREAD_FLOOR * low && low * 1_000_000_000_000_000 <= TAIL_LIMIT_E15 * half
}

/// The threshold that a lower decile asks for if the whole plane is noise: the
/// decile of an exponential is `-ln(0.9)` of its mean, and it crosses `-ln(0.001)`
/// of its mean once in a thousand.
pub open spec fn first_threshold(low: int) -> int {
    low * ALARM_LOG_E12 / (QUANTILE_LOG_E12 as int)
}

impl FloorShape {
    pub open spec fn valid(self) -> bool {
        &&& 0 < self.low <= self.high <= 0x1_0000_0000_0000_0000
        &&& 0 < self.half <= 0x1_0000_0000_0000_0000
        &&& self.above <= self.len
        &&& 0 < self.len
    }

    /// The share of the noise that lies above the lower decile of the plane: of a
    /// plane that is partly signal, that decile is a higher quantile of the noise.
    /// Where the signal leaves less than a decile of noise there is none.
    pub open spec fn noise_above(self) -> Option<(int, int)> {
        let quiet = 10 * (self.len - self.above);
        if self.len < quiet {
            Some((quiet - self.len, quiet))
        } else {
            None
        }
    }

    /// The fraction whose logarithm the floor is corrected by.
    pub fn log_argument(&self) -> (r: Option<(u128, u128)>)
        requires
            self.valid(),
        ensures
            match r {
                Some(f) => self.noise_above() == Some((f.0 as int, f.1 as int)) && 0 < f.0 < f.1,
                None => self.noise_above() is None,
            },
    {
        let len: u128 = self.len as u128;
        let quiet: u128 = 10 * (len - self.above as u128);
        if len < quiet {
            Some((quiet - len, quiet))
        } else {
            None
        }
    }
}

/// The shape of a plane of window-by-cell powers, or `None` where there is
/// nothing to measure or its lower quantiles are not positive. Neither test of it
/// uses the threshold, which a busy plane would put above the signal.
pub fn floor_shape(plane: &[i128]) -> (r: Option<FloorShape>)
    requires
        forall|i: int|
            0 <= i < plane@.len() ==> -0x1_0000_0000_0000_0000 <= #[trigger] plane@[i]
                <= 0x1_0000_0000_0000_0000,
    ensures
        ({
            let s = sort::ascending(plane@);
            let n = plane@.len() as int;
            let low = s[quantile_index(n, 1, 10)] as int;
            let high = s[quantile_index(n, 9, 10)] as int;
            let half = s[quantile_index(n, 1, 20)] as int;
            match r {
                Some(f) => {
                    &&& n > 0
                    &&& f.valid()
                    &&& f.low == low && low > 0
                    &&& f.high == high
                    &&& f.half == half && half > 0
                    &&& f.len == n
                    &&& f.above == count_above(plane@, first_threshold(low) as i128)
                    &&& f.trusted == believable(low, high, half)
                },
                None => n == 0 || low <= 0 || half <= 0,
            }
        }),
{
    let low: i128 = match quantile(plane, 1, 10) {
        Some(v) => v,
        None => return None,
    };
    let high: i128 = match quantile(plane, 9, 10) {
        Some(v) => v,
        None => return None,
    };
    let half: i128 = match quantile(plane, 1, 20) {
        Some(v) => v,
        None => return None,
    };
    if low <= 0 || half <= 0 {
        return None;
    }
    proof {
        lemma_quantile_bounds(plane@, 1, 10);
        lemma_quantile_bounds(plane@, 9, 10);
        lemma_quantile_bounds(plane@, 1, 20);
        lemma_deciles_in_order(plane@);
    }
    let spread: i128 = SPREAD_FLOOR as i128;
    let tail: i128 = TAIL_LIMIT_E15 as i128;
    let alarm: i128 = ALARM_LOG_E12 as i128;
    proof {
        assert(low * alarm == low * 6_907_755_278_982) by (nonlinear_arith)
            requires
                alarm == 6_907_755_278_982,
        ;
        assert(spread * low == 2 * low) by (nonlinear_arith)
            requires
                spread == 2,
        ;
        assert(tail * half == 2_409_420_839_653_209 * half) by (nonlinear_arith)
            requires
                tail == 2_409_420_839_653_209,
        ;
    }
    let trusted = high >= spread * low && low * 1_000_000_000_000_000 <= tail * half;
    let threshold: i128 = low * alarm / (QUANTILE_LOG_E12 as i128);
    Some(FloorShape { low, high, half, len: plane.len(), above: above(plane, threshold), trusted })
}

/// The lower decile is not above the upper one.
proof fn lemma_deciles_in_order(plane: Seq<i128>)
    requires
        plane.len() > 0,
    ensures
        ({
            let s = sort::ascending(plane);
            let n = plane.len() as int;
            s[quantile_index(n, 1, 10)] <= s[quantile_index(n, 9, 10)]
        }),
{
    sort::lemma_ascending(plane);
    let last = plane.len() - 1;
    let first = quantile_index(plane.len() as int, 1, 10);
    level::lemma_rounded_between(last, 10, 0, last);
    level::lemma_rounded_between(last * 9, 10, 0, last);
    if last > 0 {
        assert(last * 1 == last);
        assert(first == (2 * last + 10) / 20int);
        assert(first * 10 <= last + 5);
        level::lemma_rounded_between(last * 9, 10, first, last);
    }
}

/// What a cell is held against: the noise power of a plane and the threshold
/// above it.
#[derive(Clone, Copy, Debug, PartialEq, Eq, Structural)]
pub struct Floor {
    pub power: i128,
    pub threshold: i128,
    /// The ratio of the upper to the lower decile, and of the lower decile to the
    /// lower twentieth, in millionths.
    pub spread: i128,
    pub tail: i128,
    /// How many powers were found above the first threshold, of how many.
    pub busy: usize,
    pub of: usize,
    pub trusted: bool,
}

/// The noise power of a plane, given its logarithm: the lower decile over the
/// logarithm of what lies above it.
pub open spec fn floor_power(shape: FloorShape, minus_ln_e12: int) -> int {
    shape.low * 1_000_000_000_000 / if shape.noise_above() is Some {
        minus_ln_e12
    } else {
        QUANTILE_LOG_E12 as int
    }
}

/// Turns the shape of a plane into its floor. `minus_ln_e12` is the logarithm of
/// the shape's fraction, turned positive, in units of ten to the minus twelfth; it
/// is at least a tenth.
pub fn derive_floor(shape: &FloorShape, minus_ln_e12: u64) -> (f: Floor)
    requires
        shape.valid(),
        100_000_000_000 <= minus_ln_e12,
    ensures
        f.power == floor_power(*shape, minus_ln_e12 as int),
        0 <= f.power <= 10 * shape.low,
        f.threshold == f.power * ALARM_LOG_E12 / 1_000_000_000_000,
        f.spread == shape.high * 1_000_000 / shape.low as int,
        f.tail == shape.low * 1_000_000 / shape.half as int,
        0 <= f.spread <= 1_000_000 * shape.high,
        0 <= f.tail <= 1_000_000 * shape.low,
        f.busy == shape.above,
        f.of == shape.len,
        f.trusted == shape.trusted,
{
    let log: u64 = if shape.log_argument().is_some() {
        minus_ln_e12
    } else {
        QUANTILE_LOG_E12
    };
    let scaled: i128 = shape.low * 1_000_000_000_000;
    let power: i128 = scaled / (log as i128);
    proof {
        assert(0 <= power <= 10 * shape.low) by (nonlinear_arith)
            requires
                power == scaled as int / (log as int),
                scaled == shape.low * 1_000_000_000_000,
                0 < shape.low,
                100_000_000_000 <= log,
        ;
        assert(0 <= shape.high * 1_000_000 / (shape.low as int) <= shape.high * 1_000_000)
            by (nonlinear_arith)
            requires
                0 < shape.low,
                0 < shape.high,
        ;
        assert(0 <= shape.low * 1_000_000 / (shape.half as int) <= shape.low * 1_000_000)
            by (nonlinear_arith)
            requires
                0 < shape.low,
                0 < shape.half,
        ;
    }
    Floor {
        power,
        threshold: power * (ALARM_LOG_E12 as i128) / 1_000_000_000_000,
        spread: shape.high * 1_000_000 / shape.low,
        tail: shape.low * 1_000_000 / shape.half,
        busy: shape.above,
        of: shape.len,
        trusted: shape.trusted,
    }
}

/// A plane in which nothing is busy needs no correction: nine tenths of its noise
/// lie above its lower decile, which is what the first threshold rests on.
pub proof fn law_an_idle_plane_needs_no_correction(shape: FloorShape)
    requires
        shape.valid(),
        shape.above == 0,
    ensures
        shape.noise_above() == Some((9 * shape.len, 10 * shape.len)),
{
}

/// A busier plane of one size corrects its floor further down: less of its noise
/// lies above the lower decile.
pub proof fn law_a_busier_plane_is_corrected_more(a: FloorShape, b: FloorShape)
    requires
        a.valid(),
        b.valid(),
        a.len == b.len,
        a.above <= b.above,
        b.noise_above() is Some,
    ensures
        match (a.noise_above(), b.noise_above()) {
            (Some((pa, qa)), Some((pb, qb))) => pb * qa <= pa * qb,
            _ => false,
        },
{
    let n = a.len as int;
    let qa = 10 * (n - a.above);
    let qb = 10 * (n - b.above);
    assert((qb - n) * qa <= (qa - n) * qb) by (nonlinear_arith)
        requires
            qb <= qa,
            0 <= n,
    ;
}

/// A quantile is one of the values.
proof fn lemma_quantile_bounds(plane: Seq<i128>, num: int, den: int)
    requires
        plane.len() > 0,
        0 < den,
        0 <= num <= den,
        forall|i: int|
            0 <= i < plane.len() ==> -0x1_0000_0000_0000_0000 <= #[trigger] plane[i]
                <= 0x1_0000_0000_0000_0000,
    ensures
        -0x1_0000_0000_0000_0000 <= sort::ascending(plane)[quantile_index(
            plane.len() as int,
            num,
            den,
        )] <= 0x1_0000_0000_0000_0000,
{
    let s = sort::ascending(plane);
    sort::lemma_ascending(plane);
    let last = plane.len() - 1;
    assert(0 * den <= last * num <= last * den) by (nonlinear_arith)
        requires
            0 <= num <= den,
            0 <= last,
    ;
    level::lemma_rounded_between(last * num, den, 0, last);
    let v = s[quantile_index(plane.len() as int, num, den)];
    s.to_multiset_ensures();
    plane.to_multiset_ensures();
    assert(s.contains(v));
    vstd::seq_lib::to_multiset_contains(s, v);
    vstd::seq_lib::to_multiset_contains(plane, v);
    assert(plane.contains(v));
}

/// How many powers of a plane lie above a threshold.
pub open spec fn count_above(plane: Seq<i128>, threshold: i128) -> nat
    decreases plane.len(),
{
    if plane.len() == 0 {
        0
    } else {
        count_above(plane.drop_last(), threshold) + if plane.last() > threshold {
            1nat
        } else {
            0nat
        }
    }
}

/// How many powers of a plane lie above a threshold.
pub fn above(plane: &[i128], threshold: i128) -> (n: usize)
    ensures
        n == count_above(plane@, threshold),
        n <= plane@.len(),
{
    let mut n: usize = 0;
    let mut i: usize = 0;
    assert(plane@.take(0) == Seq::<i128>::empty());
    while i < plane.len()
        invariant
            n <= i <= plane@.len(),
            n == count_above(plane@.take(i as int), threshold),
        decreases plane@.len() - i,
    {
        assert(plane@.take(i + 1).drop_last() == plane@.take(i as int));
        if plane[i] > threshold {
            n += 1;
        }
        i += 1;
    }
    assert(plane@.take(i as int) == plane@);
    n
}

/// A duty cycle as a fraction of one.
#[derive(Clone, Copy, Debug, PartialEq, Eq, Structural)]
pub struct Duty {
    pub num: u128,
    pub den: u128,
}

/// The busy fraction with the false alarms removed, as a fraction: noise alone is
/// busy once in a thousand windows, so that much is taken off and the rest spread
/// over the whole scale.
pub open spec fn duty_of(busy: u64, windows: u64) -> (int, int) {
    if windows == 0 {
        (0, 1)
    } else {
        let excess = busy * 1_000 - windows;
        let whole = windows * 999;
        (
            if excess < 0 {
                0
            } else if excess > whole {
                whole
            } else {
                excess
            },
            whole,
        )
    }
}

/// The busy fraction, with the false-alarm floor removed.
pub fn duty_cycle(busy: u64, windows: u64) -> (d: Duty)
    ensures
        (d.num as int, d.den as int) == duty_of(busy, windows),
        d.num <= d.den,
        0 < d.den,
{
    if windows == 0 {
        return Duty { num: 0, den: 1 };
    }
    let told: u128 = (busy as u128) * 1_000;
    let whole: u128 = (windows as u128) * 999;
    let num: u128 = if told < windows as u128 {
        0
    } else if told - windows as u128 > whole {
        whole
    } else {
        told - windows as u128
    };
    Duty { num, den: whole }
}

/// A duty cycle, and how far a look of so many windows lets it be wrong.
#[derive(Clone, Copy, Debug, PartialEq, Eq, Structural)]
pub struct Uncertain {
    pub value: Duty,
    /// `None` where nothing was looked at.
    pub variance: Option<Variance>,
}

/// A variance in its factors: `busy / of`, times `idle / of`, over `windows`.
#[derive(Clone, Copy, Debug, PartialEq, Eq, Structural)]
pub struct Variance {
    pub busy: u128,
    pub idle: u128,
    pub of: u128,
    pub windows: u64,
}

impl Variance {
    /// The variance as a numerator and a denominator.
    pub open spec fn fraction(self) -> (int, int) {
        (self.busy * self.idle, self.of * self.of * self.windows)
    }
}

/// The variance of a fraction `num / den` of so many independent windows: a
/// fraction above one counts as one.
pub open spec fn variance_of(num: int, den: int, windows: int) -> (int, int) {
    let d = if num > den {
        den
    } else {
        num
    };
    (d * (den - d), den * den * windows)
}

/// A duty cycle with the uncertainty its window count supports. What a shorter
/// look costs is certainty, never magnitude.
pub fn duty_uncertain(duty: Duty, windows: u64) -> (r: Uncertain)
    requires
        duty.den > 0,
    ensures
        r.value == duty,
        match r.variance {
            None => windows == 0,
            Some(v) => windows > 0 && v.fraction() == variance_of(
                duty.num as int,
                duty.den as int,
                windows as int,
            ) && v.of == duty.den && v.windows == windows,
        },
{
    if windows == 0 {
        return Uncertain { value: duty, variance: None };
    }
    let busy: u128 = if duty.num > duty.den {
        duty.den
    } else {
        duty.num
    };
    Uncertain {
        value: duty,
        variance: Some(Variance { busy, idle: duty.den - busy, of: duty.den, windows }),
    }
}

/// A shorter look widens a reading: over fewer windows the variance is greater,
/// unless every window said the same.
pub proof fn law_a_shorter_look_widens(num: int, den: int, short: int, long: int)
    requires
        0 <= num <= den,
        0 < den,
        0 < short < long,
    ensures
        ({
            let s = variance_of(num, den, short);
            let l = variance_of(num, den, long);
            &&& 0 < num < den ==> l.0 * s.1 < s.0 * l.1
            &&& num == 0 || num == den ==> s.0 == 0 && l.0 == 0
        }),
{
    let top = num * (den - num);
    let base = den * den;
    if 0 < num < den {
        assert(top > 0 && base > 0) by (nonlinear_arith)
            requires
                top == num * (den - num),
                base == den * den,
                0 < num < den,
        ;
        assert(top * (base * short) < top * (base * long)) by (nonlinear_arith)
            requires
                top > 0,
                base > 0,
                0 < short < long,
        ;
    } else {
        assert(top == 0) by (nonlinear_arith)
            requires
                top == num * (den - num),
                num == 0 || num == den,
        ;
    }
}

/// A cell that was never busy reads zero, and so does one that was busy as often
/// as noise alone is; one that was always busy reads one.
pub proof fn law_duty_scale(busy: u64, windows: u64)
    requires
        windows > 0,
    ensures
        busy * 1_000 <= windows ==> duty_of(busy, windows).0 == 0,
        busy >= windows ==> duty_of(busy, windows).0 == duty_of(busy, windows).1,
        windows < busy * 1_000 ==> duty_of(busy, windows).0 > 0,
{
}

/// More busy windows never read as a lower duty cycle.
pub proof fn law_duty_is_monotone(a: u64, b: u64, windows: u64)
    requires
        a <= b,
        windows > 0,
    ensures
        duty_of(a, windows).0 <= duty_of(b, windows).0,
        duty_of(a, windows).1 == duty_of(b, windows).1,
{
}

/// A quantile stands, among the values in order, as near as a whole place gets to that
/// share of the way from the first to the last.
pub proof fn law_a_quantile_stands_at_its_share(len: int, num: int, den: int)
    requires
        0 < len,
        0 < den,
        0 <= num <= den,
    ensures
        0 <= quantile_index(len, num, den) < len,
        -den <= 2 * (quantile_index(len, num, den) * den - (len - 1) * num) <= den,
{
    let a = (len - 1) * num;
    assert(0 * den <= a <= (len - 1) * den) by (nonlinear_arith)
        requires
            a == (len - 1) * num,
            0 <= num <= den,
            0 < len,
    ;
    level::lemma_rounded_between(a, den, 0, len - 1);
    level::law_rounded_is_nearest(a, den);
}

/// Counting one by one is counting those above.
pub proof fn law_those_above_are_counted(plane: Seq<i128>, threshold: i128)
    ensures
        count_above(plane, threshold) == plane.filter(|p: i128| p > threshold).len(),
    decreases plane.len(),
{
    reveal(Seq::filter);
    if plane.len() > 0 {
        law_those_above_are_counted(plane.drop_last(), threshold);
    }
}

/// The first threshold is where noise with that lower decile crosses once in a thousand
/// windows: `ln(0.001) / ln(0.9)` times the decile, rounded down.
pub proof fn law_first_threshold_is_crossed_once_in_a_thousand(low: int)
    requires
        0 <= low,
    ensures
        first_threshold(low) * 105_360_515_658 <= low * 6_907_755_278_982,
        (first_threshold(low) + 1) * 105_360_515_658 > low * 6_907_755_278_982,
{
}

/// A plane is believed where its upper decile is at least twice its lower one, and its
/// lower decile no more than `ln(0.5) / ln(0.75)` times its lower twentieth.
pub proof fn law_a_believable_plane_looks_like_noise(low: int, high: int, half: int)
    ensures
        believable(low, high, half) <==> high >= 2 * low && 1_000_000_000_000_000 * low
            <= 2_409_420_839_653_209 * half,
{
}

/// The decile of a plane that is partly signal is a higher quantile of its noise: a tenth
/// of all the powers is that much of those that are noise, and what is left of one lies
/// above it.
pub proof fn law_the_noise_above_the_decile(shape: FloorShape)
    requires
        shape.valid(),
    ensures
        match shape.noise_above() {
            Some((p, q)) => {
                &&& 0 < p < q
                &&& (q - p) * (10 * (shape.len - shape.above)) == shape.len * q
            },
            None => shape.len >= 10 * (shape.len - shape.above),
        },
{
    if let Some((p, q)) = shape.noise_above() {
        assert((q - p) * (10 * (shape.len - shape.above)) == shape.len * q) by (nonlinear_arith)
            requires
                q == 10 * (shape.len - shape.above),
                p == q - shape.len,
        ;
    }
}

/// The noise power is the lower decile over the logarithm that belongs to it, rounded
/// down: with none of the noise left below a decile, that of nine tenths.
pub proof fn law_the_floor_is_the_mean_of_the_noise(shape: FloorShape, minus_ln_e12: int)
    requires
        shape.valid(),
        0 < minus_ln_e12,
    ensures
        ({
            let power = floor_power(shape, minus_ln_e12);
            let scaled = shape.low * 1_000_000_000_000;
            &&& shape.noise_above() is Some ==> power * minus_ln_e12 <= scaled < (power + 1)
                * minus_ln_e12
            &&& shape.noise_above() is None ==> power * 105_360_515_658 <= scaled < (power + 1)
                * 105_360_515_658
        }),
{
    let scaled = shape.low * 1_000_000_000_000;
    let d = if shape.noise_above() is Some {
        minus_ln_e12
    } else {
        105_360_515_658
    };
    vstd::arithmetic::div_mod::lemma_fundamental_div_mod(scaled, d);
    vstd::arithmetic::div_mod::lemma_mod_bound(scaled, d);
    let q = scaled / d;
    assert(q * d <= scaled < (q + 1) * d) by (nonlinear_arith)
        requires
            scaled == d * q + scaled % d,
            0 <= scaled % d < d,
    ;
}

/// A bin of the transform belongs to the megahertz that its frequency falls in, where the
/// whole of that megahertz is in view: the bins of the first half lie above the tuned
/// frequency and those of the second below it, in steps of the rate over their number.
pub proof fn law_a_bin_belongs_to_the_megahertz_it_falls_in(
    centre_hz: int,
    rate_hz: int,
    span_hz: int,
    n: int,
    k: int,
    cell: int,
)
    requires
        0 <= k < n,
        0 <= cell < CELLS,
        0 < span_hz,
    ensures
        ({
            let steps = if 2 * k < n {
                k
            } else {
                k - n
            };
            let low = 2_400_000_000 + 1_000_000 * cell;
            let falls = low * n <= centre_hz * n + steps * rate_hz < (low + 1_000_000) * n;
            let in_view = 2 * centre_hz - span_hz <= 2 * low && 2 * (low + 1_000_000) <= 2
                * centre_hz + span_hz;
            cell_of_bin(centre_hz, rate_hz, span_hz, n, k) == Some(cell as usize) <==> falls
                && in_view
        }),
{
    let steps = bin_offset(k, n);
    let num = centre_hz * n + steps * rate_hz;
    let hz = num / n;
    vstd::arithmetic::div_mod::lemma_fundamental_div_mod(num, n);
    vstd::arithmetic::div_mod::lemma_mod_bound(num, n);
    let low = 2_400_000_000 + 1_000_000 * cell;
    assert(low * n <= num < (low + 1_000_000) * n <==> low <= hz < low + 1_000_000)
        by (nonlinear_arith)
        requires
            num == n * hz + num % n,
            0 <= num % n < n,
    ;
    law_observed_cells_are_whole(centre_hz, span_hz, cell);
}

/// A cell is found from any frequency in its megahertz, and from no other.
pub proof fn law_a_cell_is_its_megahertz(hz: int, cell: int)
    requires
        0 <= cell < CELLS,
    ensures
        has_cell(hz) && cell_at(hz) == cell <==> 2_400_000_000 + 1_000_000 * cell <= hz
            < 2_401_000_000 + 1_000_000 * cell,
{
}

/// The variance of a share of so many windows is the share, times what is left of one,
/// over the windows.
pub proof fn law_variance_of_a_share(num: int, den: int, windows: int)
    requires
        0 <= num <= den,
        0 < den,
        0 < windows,
    ensures
        variance_of(num, den, windows).1 > 0,
        variance_of(num, den, windows).0 * (windows * (den * den)) == (num * (den - num))
            * variance_of(num, den, windows).1,
{
    assert(den * den * windows > 0) by (nonlinear_arith)
        requires
            den > 0,
            windows > 0,
    ;
    assert(windows * (den * den) == den * den * windows) by (nonlinear_arith);
}

/// A frequency has a cell from the bottom of the band on, as far as there are whole
/// megahertz.
pub proof fn law_cells_reach_from_the_bottom_of_the_band(hz: int)
    ensures
        has_cell(hz) <==> 2_400_000_000 <= hz < 2_483_000_000,
        has_cell(hz) ==> 0 <= cell_at(hz) < 83,
{
}

/// A variance is the share that was busy times the share that was not, over the windows.
pub proof fn law_a_variance_is_of_shares(v: Variance)
    requires
        v.of > 0,
        v.windows > 0,
        v.busy + v.idle == v.of,
    ensures
        ({
            let (num, den) = v.fraction();
            &&& den > 0
            &&& num * (v.windows * (v.of * v.of)) == (v.busy * (v.of - v.busy)) * den
            &&& v.busy == 0 || v.idle == 0 ==> num == 0
        }),
{
    let of = v.of as int;
    let windows = v.windows as int;
    let busy = v.busy as int;
    assert(of * of * windows > 0) by (nonlinear_arith)
        requires
            of > 0,
            windows > 0,
    ;
    assert(windows * (of * of) == of * of * windows) by (nonlinear_arith);
    assert(0 * (v.idle as int) == 0 && busy * 0 == 0);
}

} // verus!
