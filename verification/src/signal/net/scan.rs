//! Planes of per-cell powers, and what a dwell makes of them for every megahertz
//! of the band that was in view.
//!
//! Powers are whole numbers in one linear unit, no greater than `POWER_LIMIT`.

use crate::signal::dsp::fir;
use crate::signal::net::occupancy;
use crate::signal::net::occupancy::Floor;
use vstd::prelude::*;

verus! {

/// The smallest transform a scan uses.
pub const MIN_BINS: usize = 16;

/// The greatest power a cell can show in one window.
pub const POWER_LIMIT: i128 = 0x4000_0000_0000_0000;

/// The greatest floor a plane can have: ten times its lower decile.
pub const FLOOR_LIMIT: i128 = 0x4_0000_0000_0000_0000;

/// The greatest ratio of two quantiles, in millionths.
pub const RATIO_LIMIT: i128 = 0x1000_0000_0000_0000_0000_0000;

/// The greatest power of one transform bin.
pub const BIN_LIMIT: u64 = 0x100_0000_0000;

/// The greatest sample rate a scan is made for.
pub const RATE_LIMIT_HZ: i64 = 50_000_000_000;

/// Whether `n` is a power of two.
pub open spec fn power_of_two(n: int) -> bool
    decreases n,
{
    n == 1 || (n > 1 && n % 2 == 0 && power_of_two(n / 2))
}

/// Whether a transform of `n` samples is the one nearest to eight microseconds,
/// on a logarithmic scale and from sixteen samples up: the samples in eight
/// microseconds are `rate / 125000`, and the next power of two is nearer from
/// the square root of two upwards.
pub open spec fn nearest_window(rate_hz: int, n: int) -> bool {
    &&& power_of_two(n)
    &&& n >= 16
    &&& rate_hz * rate_hz < 2 * (15_625_000_000 * (n * n))
    &&& n > 16 ==> 2 * (rate_hz * rate_hz) >= 15_625_000_000 * (n * n)
}

/// The transform size for a rate: the power of two closest to eight microseconds
/// of samples. `None` stands for a rate that is not finite.
pub fn bins_for(rate_hz: Option<i64>) -> (n: usize)
    requires
        rate_hz matches Some(r) ==> r <= RATE_LIMIT_HZ,
    ensures
        match rate_hz {
            Some(r) if r > 0 => nearest_window(r as int, n as int),
            _ => n == MIN_BINS,
        },
        16 <= n <= 0x10_0000,
{
    let r: i64 = match rate_hz {
        Some(r) => r,
        None => return MIN_BINS,
    };
    if r <= 0 {
        return MIN_BINS;
    }
    assert(0 <= r * r <= 50_000_000_000 * 50_000_000_000) by (nonlinear_arith)
        requires
            0 < r <= 50_000_000_000,
    ;
    let square: u128 = (r as u128) * (r as u128);
    let mut n: usize = 16;
    proof {
        reveal_with_fuel(power_of_two, 6);
    }
    while square >= 2 * (15_625_000_000 * ((n as u128) * (n as u128)))
        invariant
            square == r * r,
            square <= 50_000_000_000 * 50_000_000_000,
            power_of_two(n as int),
            16 <= n <= 0x10_0000,
            0 <= n * n <= 0x10_0000 * 0x10_0000,
            n > 16 ==> 2 * square >= 15_625_000_000 * (n * n),
        decreases 0x10_0000 - n,
    {
        proof {
            assert(n < 0x8_0000) by (nonlinear_arith)
                requires
                    square >= 2 * (15_625_000_000 * (n * n)),
                    square <= 50_000_000_000 * 50_000_000_000,
                    0 <= n,
            ;
            assert((2 * n) * (2 * n) == 4 * (n * n)) by (nonlinear_arith);
            assert(0 <= (2 * n) * (2 * n) <= 0x10_0000 * 0x10_0000) by (nonlinear_arith)
                requires
                    0 <= n < 0x8_0000,
            ;
            assert((2 * n) % 2 == 0 && (2 * n) / 2 == n);
        }
        n = 2 * n;
    }
    n
}

/// What one cell showed over a dwell.
#[derive(Clone, Copy, Debug, PartialEq, Eq, Structural)]
pub struct CellTotals {
    /// Windows in which the cell was in view, and in which it was busy.
    pub windows: u64,
    pub busy: u64,
    /// The powers added up, and the greatest of them.
    pub power_sum: i128,
    pub peak: i128,
}

/// A cell that nothing was heard in.
pub open spec fn silent() -> CellTotals {
    CellTotals { windows: 0, busy: 0, power_sum: 0, peak: 0 }
}

/// One cell of a dwell, as it is reported.
#[derive(Clone, Copy, Debug, PartialEq, Eq, Structural)]
pub struct CellReading {
    pub windows: u64,
    pub duty: occupancy::Duty,
    /// The mean power as a sum and how many windows it is over.
    pub power_sum: i128,
    pub peak: i128,
}

/// A dwell, as it is reported.
pub struct BandOccupancy {
    pub cells: Vec<CellReading>,
    /// The mean floor as a sum and how many blocks it is over, where a block had
    /// one.
    pub noise: Option<(i128, u64)>,
    pub trusted: bool,
    /// The mean shape of the floors, each as a sum of millionths and how many it
    /// is over.
    pub tail: (i128, u64),
    pub spread: (i128, u64),
    /// The length of a window in samples.
    pub window_samples: usize,
}

/// One tuning's worth of scanning.
pub struct Scan {
    pub n: usize,
    pub bin_cells: Vec<Option<usize>>,
    pub centre_hz: i64,
    pub rate_hz: i64,
    pub span_hz: i64,
    pub first: usize,
    pub end: usize,
    pub cells: Vec<CellTotals>,
    pub floor_sum: i128,
    pub tail_sum: i128,
    pub spread_sum: i128,
    pub floors: u64,
    pub trusted: bool,
}

/// The powers of one cell down a plane with one row per window.
pub open spec fn column(plane: Seq<i128>, width: int, c: int, rows: int) -> Seq<i128>
    decreases rows,
{
    if rows <= 0 {
        Seq::empty()
    } else {
        column(plane, width, c, rows - 1).push(plane[(rows - 1) * width + c])
    }
}

/// A cell with more windows folded in.
pub open spec fn folded(t: CellTotals, powers: Seq<i128>, threshold: i128) -> CellTotals
    decreases powers.len(),
{
    if powers.len() == 0 {
        t
    } else {
        let f = folded(t, powers.drop_last(), threshold);
        let p = powers.last();
        CellTotals {
            windows: (f.windows + 1) as u64,
            busy: if p > threshold {
                (f.busy + 1) as u64
            } else {
                f.busy
            },
            power_sum: (f.power_sum + p) as i128,
            peak: if p > f.peak {
                p
            } else {
                f.peak
            },
        }
    }
}

/// The powers of the bins of one cell added up.
pub open spec fn cell_power(bin_cells: Seq<Option<usize>>, powers: Seq<u64>, cell: int) -> int
    decreases powers.len(),
{
    if powers.len() == 0 {
        0
    } else {
        let k = powers.len() - 1;
        cell_power(bin_cells, powers.drop_last(), cell) + if bin_cells[k] is Some
            && bin_cells[k]->0 == cell {
            powers.last() as int
        } else {
            0
        }
    }
}

/// What a mean is over, where there may be nothing to take it over.
pub open spec fn at_least_one(n: u64) -> u64 {
    if n == 0 {
        1
    } else {
        n
    }
}

/// The reading of a cell.
pub open spec fn reading(t: CellTotals) -> CellReading {
    CellReading {
        windows: t.windows,
        duty: occupancy::Duty {
            num: occupancy::duty_of(t.busy, t.windows).0 as u128,
            den: occupancy::duty_of(t.busy, t.windows).1 as u128,
        },
        power_sum: t.power_sum,
        peak: t.peak,
    }
}

impl Scan {
    /// A scan of a tuning that has counted nothing wrong.
    pub open spec fn valid(self) -> bool {
        &&& 16 <= self.n <= 0x10_0000
        &&& self.bin_cells@.len() == self.n
        &&& self.first <= self.end <= occupancy::CELLS
        &&& forall|k: int|
            0 <= k < self.n ==> (#[trigger] self.bin_cells@[k] matches Some(c) ==> self.first <= c
                < self.end)
        &&& self.cells@.len() == occupancy::CELLS
        &&& forall|c: int|
            0 <= c < occupancy::CELLS ==> {
                let t = #[trigger] self.cells@[c];
                &&& t.busy <= t.windows
                &&& 0 <= t.power_sum <= t.windows * 0x4000_0000_0000_0000
                &&& 0 <= t.peak <= 0x4000_0000_0000_0000
            }
        &&& 0 <= self.floor_sum <= self.floors * 0x4_0000_0000_0000_0000
        &&& 0 <= self.tail_sum <= self.floors * 0x1000_0000_0000_0000_0000_0000
        &&& 0 <= self.spread_sum <= self.floors * 0x1000_0000_0000_0000_0000_0000
        &&& self.floors <= 0xffff_ffff
    }

    /// Whether nothing has been counted yet.
    pub open spec fn fresh(self) -> bool {
        &&& forall|c: int| 0 <= c < occupancy::CELLS ==> #[trigger] self.cells@[c] == silent()
        &&& self.floor_sum == 0
        &&& self.tail_sum == 0
        &&& self.spread_sum == 0
        &&& self.floors == 0
        &&& self.trusted
    }

    /// Prepares a scan of one tuning.
    pub fn new(centre_hz: i64, rate_hz: i64, span_hz: i64) -> (s: Self)
        requires
            rate_hz <= RATE_LIMIT_HZ,
        ensures
            s.valid(),
            s.fresh(),
            s.centre_hz == centre_hz && s.rate_hz == rate_hz && s.span_hz == span_hz,
            rate_hz > 0 ==> nearest_window(rate_hz as int, s.n as int),
            rate_hz <= 0 ==> s.n == MIN_BINS,
            if span_hz > 0 {
                &&& s.first == occupancy::first_observed(centre_hz as int, span_hz as int)
                &&& s.end == occupancy::end_observed(centre_hz as int, span_hz as int)
            } else {
                s.first == 0 && s.end == 0
            },
            forall|k: int|
                0 <= k < s.n ==> #[trigger] s.bin_cells@[k] == occupancy::cell_of_bin(
                    centre_hz as int,
                    rate_hz as int,
                    span_hz as int,
                    s.n as int,
                    k,
                ),
    {
        let n: usize = bins_for(Some(rate_hz));
        let bin_cells = occupancy::bin_cells(centre_hz, rate_hz, span_hz, n);
        let (first, end): (usize, usize) = occupancy::cells_observed(Some(centre_hz), Some(span_hz));
        let cells = silence();
        Scan {
            n,
            bin_cells,
            centre_hz,
            rate_hz,
            span_hz,
            first,
            end,
            cells,
            floor_sum: 0,
            tail_sum: 0,
            spread_sum: 0,
            floors: 0,
            trusted: true,
        }
    }

    /// How many samples of the band this dwell has looked at: windows, not time
    /// on the clock, so an interrupted dwell is a shorter one.
    pub fn observed_samples(&self) -> (n: u128)
        requires
            self.valid(),
        ensures
            exists|w: u64| n == w * self.n && is_widest(self.cells@, w),
    {
        let mut widest: u64 = 0;
        let mut c: usize = 0;
        while c < occupancy::CELLS
            invariant
                c <= occupancy::CELLS,
                self.cells@.len() == occupancy::CELLS,
                forall|i: int| 0 <= i < c ==> #[trigger] self.cells@[i].windows <= widest,
                widest == 0 || exists|i: int| 0 <= i < c && #[trigger] self.cells@[i].windows == widest,
            decreases occupancy::CELLS - c,
        {
            if self.cells[c].windows > widest {
                widest = self.cells[c].windows;
                assert(self.cells@[c as int].windows == widest);
            }
            c += 1;
        }
        assert(is_widest(self.cells@, widest)) by {
            if widest == 0 {
                assert(self.cells@[0].windows == 0);
            }
        }
        assert(widest * self.n <= u64::MAX * 0x10_0000) by (nonlinear_arith)
            requires
                0 <= widest <= u64::MAX,
                0 <= self.n <= 0x10_0000,
        ;
        (widest as u128) * (self.n as u128)
    }

    /// Whether the scan was prepared for the tuning in force.
    pub fn matches(&self, centre_hz: i64, rate_hz: i64, span_hz: i64) -> (r: bool)
        ensures
            r == (self.centre_hz == centre_hz && self.rate_hz == rate_hz && self.span_hz == span_hz),
    {
        self.centre_hz == centre_hz && self.rate_hz == rate_hz && self.span_hz == span_hz
    }

    /// How many whole windows of a block are worth transforming: none where no
    /// bin falls into a cell that is in view.
    pub open spec fn whole_windows(self, bytes: int, pair_bytes: int) -> int {
        if forall|k: int| 0 <= k < self.n ==> #[trigger] self.bin_cells@[k] is None {
            0int
        } else {
            bytes / (self.n * pair_bytes)
        }
    }

    /// How many whole windows of a block are worth transforming: none where no
    /// bin falls into a cell that is in view.
    pub fn windows_in(&self, bytes: usize, pair_bytes: usize) -> (w: usize)
        requires
            self.valid(),
            0 < pair_bytes <= 16,
        ensures
            w == self.whole_windows(bytes as int, pair_bytes as int),
    {
        let mut k: usize = 0;
        while k < self.n
            invariant
                k <= self.n == self.bin_cells@.len(),
                16 <= self.n <= 0x10_0000,
                0 < pair_bytes <= 16,
                forall|j: int| 0 <= j < k ==> #[trigger] self.bin_cells@[j] is None,
            decreases self.n - k,
        {
            if self.bin_cells[k].is_some() {
                assert(self.n * pair_bytes <= 0x10_0000 * 16 && self.n * pair_bytes > 0)
                    by (nonlinear_arith)
                    requires
                        0 < self.n <= 0x10_0000,
                        0 < pair_bytes <= 16,
                ;
                assert(self.bin_cells@[k as int] is Some);
                return bytes / (self.n * pair_bytes);
            }
            k += 1;
        }
        0
    }

    /// One row of the plane: for each cell in view the powers of its bins, added
    /// up.
    pub fn row(&self, powers: &[u64]) -> (row: Vec<i128>)
        requires
            self.valid(),
            powers@.len() == self.n,
            forall|k: int| 0 <= k < self.n ==> #[trigger] powers@[k] <= BIN_LIMIT,
        ensures
            row@.len() == self.end - self.first,
            forall|i: int|
                0 <= i < row@.len() ==> #[trigger] row@[i] == cell_power(
                    self.bin_cells@,
                    powers@,
                    self.first + i,
                ),
            forall|i: int| 0 <= i < row@.len() ==> 0 <= #[trigger] row@[i] <= POWER_LIMIT,
    {
        let mut row: Vec<i128> = Vec::new();
        let mut c: usize = self.first;
        while c < self.end
            invariant
                self.valid(),
                powers@.len() == self.n,
                forall|k: int| 0 <= k < self.n ==> #[trigger] powers@[k] <= BIN_LIMIT,
                self.first <= c <= self.end,
                row@.len() == c - self.first,
                forall|i: int|
                    0 <= i < row@.len() ==> #[trigger] row@[i] == cell_power(
                        self.bin_cells@,
                        powers@,
                        self.first + i,
                    ),
                forall|i: int| 0 <= i < row@.len() ==> 0 <= #[trigger] row@[i] <= POWER_LIMIT,
            decreases self.end - c,
        {
            let mut sum: i128 = 0;
            let mut k: usize = 0;
            while k < self.n
                invariant
                    k <= self.n == self.bin_cells@.len(),
                    powers@.len() == self.n,
                    self.n <= 0x10_0000,
                    forall|j: int| 0 <= j < self.n ==> #[trigger] powers@[j] <= BIN_LIMIT,
                    0 <= sum <= k * 0x100_0000_0000,
                    sum == cell_power(self.bin_cells@, powers@.take(k as int), c as int),
                decreases self.n - k,
            {
                assert(powers@.take(k + 1).drop_last() == powers@.take(k as int));
                assert(powers@[k as int] <= BIN_LIMIT);
                match self.bin_cells[k] {
                    Some(cell) => {
                        if cell == c {
                            sum += powers[k] as i128;
                        }
                    },
                    None => {},
                }
                k += 1;
            }
            assert(powers@.take(k as int) == powers@);
            row.push(sum);
            c += 1;
        }
        row
    }

    /// The plane of one block: a row for every window, given the powers of its
    /// bins one window after the other.
    pub fn plane(&self, powers: &[u64], windows: usize) -> (plane: Vec<i128>)
        requires
            self.valid(),
            powers@.len() == windows * self.n,
            forall|k: int| 0 <= k < powers@.len() ==> #[trigger] powers@[k] <= BIN_LIMIT,
        ensures
            plane@.len() == windows * (self.end - self.first),
            forall|w: int, i: int|
                #![trigger plane@[w * (self.end - self.first) + i]]
                0 <= w < windows && 0 <= i < self.end - self.first ==> plane@[w * (self.end
                    - self.first) + i] == cell_power(
                    self.bin_cells@,
                    powers@.subrange(w * self.n, (w + 1) * self.n),
                    self.first + i,
                ),
            forall|k: int| 0 <= k < plane@.len() ==> 0 <= #[trigger] plane@[k] <= POWER_LIMIT,
    {
        let n: usize = self.n;
        let ghost width = self.end - self.first;
        let mut plane: Vec<i128> = Vec::new();
        let mut w: usize = 0;
        assert(0 * width == 0);
        while w < windows
            invariant
                w <= windows,
                self.valid(),
                n == self.n,
                width == self.end - self.first,
                powers@.len() == windows * n,
                powers.len() == powers@.len(),
                forall|k: int| 0 <= k < powers@.len() ==> #[trigger] powers@[k] <= BIN_LIMIT,
                plane@.len() == w * width,
                forall|v: int, i: int|
                    #![trigger plane@[v * width + i]]
                    0 <= v < w && 0 <= i < width ==> plane@[v * width + i] == cell_power(
                        self.bin_cells@,
                        powers@.subrange(v * n, (v + 1) * n),
                        self.first + i,
                    ),
                forall|k: int| 0 <= k < plane@.len() ==> 0 <= #[trigger] plane@[k] <= POWER_LIMIT,
            decreases windows - w,
        {
            proof {
                assert(0 <= w * n && (w + 1) * n <= windows * n && (w + 1) * n == w * n + n)
                    by (nonlinear_arith)
                    requires
                        0 <= w < windows,
                        0 <= n,
                ;
            }
            let window = vstd::slice::slice_subrange(powers, w * n, w * n + n);
            let row = self.row(window);
            let ghost before = plane@;
            fir::extend_with(&mut plane, row.as_slice());
            proof {
                assert((w + 1) * width == w * width + width) by (nonlinear_arith);
                assert forall|v: int, i: int|
                    #![trigger plane@[v * width + i]]
                    0 <= v < w + 1 && 0 <= i < width implies plane@[v * width + i] == cell_power(
                    self.bin_cells@,
                    powers@.subrange(v * n, (v + 1) * n),
                    self.first + i,
                ) by {
                    if v < w {
                        assert(0 <= v * width && v * width + i < w * width) by (nonlinear_arith)
                            requires
                                0 <= v < w,
                                0 <= i < width,
                        ;
                        assert(plane@[v * width + i] == before[v * width + i]);
                    } else {
                        assert(plane@[w * width + i] == row@[i]);
                    }
                }
            }
            w += 1;
        }
        plane
    }

    /// Folds the plane of one block into the dwell. One block that cannot be
    /// trusted makes the dwell one that cannot be.
    pub fn record(&mut self, plane: &[i128], windows: usize, floor: &Floor)
        requires
            old(self).valid(),
            plane@.len() == windows * (old(self).end - old(self).first),
            forall|i: int| 0 <= i < plane@.len() ==> 0 <= #[trigger] plane@[i] <= POWER_LIMIT,
            0 <= floor.power <= FLOOR_LIMIT,
            0 <= floor.tail <= RATIO_LIMIT,
            0 <= floor.spread <= RATIO_LIMIT,
            old(self).floors < 0xffff_ffff,
            forall|c: int|
                0 <= c < occupancy::CELLS ==> #[trigger] old(self).cells@[c].windows + windows
                    <= u64::MAX,
        ensures
            final(self).valid(),
            final(self).floor_sum == old(self).floor_sum + floor.power,
            final(self).tail_sum == old(self).tail_sum + floor.tail,
            final(self).spread_sum == old(self).spread_sum + floor.spread,
            final(self).floors == old(self).floors + 1,
            final(self).trusted == (old(self).trusted && floor.trusted),
            forall|c: int|
                0 <= c < occupancy::CELLS ==> #[trigger] final(self).cells@[c] == if old(self).first
                    <= c < old(self).end {
                    folded(
                        old(self).cells@[c],
                        column(
                            plane@,
                            old(self).end - old(self).first,
                            c - old(self).first,
                            windows as int,
                        ),
                        floor.threshold,
                    )
                } else {
                    old(self).cells@[c]
                },
            final(self).same_tuning(*old(self)),
    {
        let ghost before = *self;
        let threshold: i128 = floor.threshold;
        self.floor_sum = self.floor_sum + floor.power;
        self.tail_sum = self.tail_sum + floor.tail;
        self.spread_sum = self.spread_sum + floor.spread;
        self.floors = self.floors + 1;
        self.trusted = self.trusted && floor.trusted;
        let width: usize = self.end - self.first;
        let mut i: usize = 0;
        while i < width
            invariant
                self.valid(),
                self.same_tuning(before),
                threshold == floor.threshold,
                self.floor_sum == before.floor_sum + floor.power,
                self.tail_sum == before.tail_sum + floor.tail,
                self.spread_sum == before.spread_sum + floor.spread,
                self.floors == before.floors + 1,
                self.trusted == (before.trusted && floor.trusted),
                width == self.end - self.first,
                self.first + width <= occupancy::CELLS,
                i <= width,
                plane@.len() == windows * width,
                forall|j: int| 0 <= j < plane@.len() ==> 0 <= #[trigger] plane@[j] <= POWER_LIMIT,
                forall|c: int|
                    0 <= c < occupancy::CELLS ==> #[trigger] before.cells@[c].windows + windows
                        <= u64::MAX,
                forall|c: int|
                    0 <= c < occupancy::CELLS ==> #[trigger] self.cells@[c] == if self.first <= c
                        < self.first + i {
                        folded(
                            before.cells@[c],
                            column(plane@, width as int, c - self.first, windows as int),
                            threshold,
                        )
                    } else {
                        before.cells@[c]
                    },
            decreases width - i,
        {
            let cell: usize = self.first + i;
            let mut t = self.cells[cell];
            let ghost start = t;
            let mut w: usize = 0;
            while w < windows
                invariant
                    w <= windows,
                    i < width,
                    plane@.len() == windows * width,
                    plane.len() == plane@.len(),
                    forall|j: int| 0 <= j < plane@.len() ==> 0 <= #[trigger] plane@[j] <= POWER_LIMIT,
                    start.windows + windows <= u64::MAX,
                    start.busy <= start.windows,
                    0 <= start.power_sum <= start.windows * 0x4000_0000_0000_0000,
                    0 <= start.peak <= 0x4000_0000_0000_0000,
                    t == folded(start, column(plane@, width as int, i as int, w as int), threshold),
                    t.windows == start.windows + w,
                    t.busy <= t.windows,
                    0 <= t.power_sum <= t.windows * 0x4000_0000_0000_0000,
                    0 <= t.peak <= 0x4000_0000_0000_0000,
                decreases windows - w,
            {
                assert(0 <= w * width + i < windows * width) by (nonlinear_arith)
                    requires
                        0 <= w < windows,
                        0 <= i < width,
                ;
                assert(0 <= w * width) by (nonlinear_arith)
                    requires
                        0 <= w,
                        0 <= width,
                ;
                let p: i128 = plane[w * width + i];
                proof {
                    let col = column(plane@, width as int, i as int, w + 1);
                    assert(col.drop_last() == column(plane@, width as int, i as int, w as int));
                    assert(col.last() == p);
                }
                t = CellTotals {
                    windows: t.windows + 1,
                    busy: if p > threshold {
                        t.busy + 1
                    } else {
                        t.busy
                    },
                    power_sum: t.power_sum + p,
                    peak: if p > t.peak {
                        p
                    } else {
                        t.peak
                    },
                };
                w += 1;
            }
            let ghost held = self.cells@;
            self.cells.set(cell, t);
            assert(self.cells@ == held.update(cell as int, t));
            i += 1;
        }
    }

    /// Whether two scans are of one tuning.
    pub open spec fn same_tuning(self, other: Scan) -> bool {
        &&& self.n == other.n
        &&& self.bin_cells == other.bin_cells
        &&& self.centre_hz == other.centre_hz
        &&& self.rate_hz == other.rate_hz
        &&& self.span_hz == other.span_hz
        &&& self.first == other.first
        &&& self.end == other.end
    }

    /// The dwell so far, and a fresh start.
    pub fn take(&mut self) -> (out: BandOccupancy)
        requires
            old(self).valid(),
        ensures
            final(self).valid(),
            final(self).fresh(),
            final(self).same_tuning(*old(self)),
            out.cells@.len() == occupancy::CELLS,
            forall|c: int|
                0 <= c < occupancy::CELLS ==> #[trigger] out.cells@[c] == reading(
                    old(self).cells@[c],
                ),
            out.noise == if old(self).floors > 0 {
                Some((old(self).floor_sum, old(self).floors))
            } else {
                None
            },
            out.trusted == (old(self).floors > 0 && old(self).trusted),
            out.tail == (old(self).tail_sum, at_least_one(old(self).floors)),
            out.spread == (old(self).spread_sum, at_least_one(old(self).floors)),
            out.window_samples == old(self).n,
    {
        let mut cells: Vec<CellReading> = Vec::new();
        let mut c: usize = 0;
        while c < occupancy::CELLS
            invariant
                c <= occupancy::CELLS,
                self.cells@.len() == occupancy::CELLS,
                cells@.len() == c,
                forall|i: int| 0 <= i < c ==> #[trigger] cells@[i] == reading(self.cells@[i]),
            decreases occupancy::CELLS - c,
        {
            let t = self.cells[c];
            cells.push(
                CellReading {
                    windows: t.windows,
                    duty: occupancy::duty_cycle(t.busy, t.windows),
                    power_sum: t.power_sum,
                    peak: t.peak,
                },
            );
            c += 1;
        }
        let n: u64 = if self.floors == 0 {
            1
        } else {
            self.floors
        };
        let out = BandOccupancy {
            cells,
            noise: if self.floors > 0 {
                Some((self.floor_sum, self.floors))
            } else {
                None
            },
            trusted: self.floors > 0 && self.trusted,
            tail: (self.tail_sum, n),
            spread: (self.spread_sum, n),
            window_samples: self.n,
        };
        self.reset();
        out
    }

    /// Forgets what was counted.
    fn reset(&mut self)
        requires
            old(self).valid(),
        ensures
            final(self).valid(),
            final(self).fresh(),
            final(self).same_tuning(*old(self)),
    {
        self.cells = silence();
        self.floor_sum = 0;
        self.tail_sum = 0;
        self.spread_sum = 0;
        self.floors = 0;
        self.trusted = true;
    }
}

/// Whether no cell was in view for more windows than `w`, and one was for as many.
pub open spec fn is_widest(cells: Seq<CellTotals>, w: u64) -> bool {
    &&& forall|i: int| 0 <= i < cells.len() ==> #[trigger] cells[i].windows <= w
    &&& exists|i: int| 0 <= i < cells.len() && #[trigger] cells[i].windows == w
}

/// Cells that nothing was heard in.
fn silence() -> (cells: Vec<CellTotals>)
    ensures
        cells@.len() == occupancy::CELLS,
        forall|c: int| 0 <= c < occupancy::CELLS ==> #[trigger] cells@[c] == silent(),
{
    let mut cells: Vec<CellTotals> = Vec::new();
    let mut c: usize = 0;
    while c < occupancy::CELLS
        invariant
            c <= occupancy::CELLS,
            cells@.len() == c,
            forall|i: int| 0 <= i < c ==> #[trigger] cells@[i] == silent(),
        decreases occupancy::CELLS - c,
    {
        cells.push(CellTotals { windows: 0, busy: 0, power_sum: 0, peak: 0 });
        c += 1;
    }
    cells
}

/// Blocks fold one by one as they would fold together: what a cell shows does not
/// depend on how its windows were cut into blocks, for one threshold.
pub proof fn law_blocks_add_up(t: CellTotals, a: Seq<i128>, b: Seq<i128>, threshold: i128)
    ensures
        folded(folded(t, a, threshold), b, threshold) == folded(t, a + b, threshold),
    decreases b.len(),
{
    if b.len() == 0 {
        assert(a + b == a);
    } else {
        law_blocks_add_up(t, a, b.drop_last(), threshold);
        assert((a + b).drop_last() == a + b.drop_last());
        assert((a + b).last() == b.last());
    }
}

/// One rate has one window.
pub proof fn law_one_window_per_rate(rate_hz: int, m: int, n: int)
    requires
        rate_hz > 0,
        nearest_window(rate_hz, m),
        nearest_window(rate_hz, n),
    ensures
        m == n,
{
    if m < n {
        lemma_next_power(m, n);
        lemma_below_longer(rate_hz, m, n);
    } else if n < m {
        lemma_next_power(n, m);
        lemma_below_longer(rate_hz, n, m);
    }
}

/// Powers of two are at least a factor of two apart.
proof fn lemma_next_power(m: int, n: int)
    requires
        power_of_two(m),
        power_of_two(n),
        0 < m < n,
    ensures
        2 * m <= n,
    decreases m,
{
    if m > 1 {
        lemma_next_power(m / 2, n / 2);
    }
}

/// A rate that is below the range of one window is below that of every longer one.
proof fn lemma_below_longer(rate_hz: int, m: int, n: int)
    requires
        rate_hz * rate_hz < 2 * (15_625_000_000 * (m * m)),
        0 < 2 * m <= n,
    ensures
        2 * (rate_hz * rate_hz) < 15_625_000_000 * (n * n),
{
    assert((2 * m) * (2 * m) <= n * n) by (nonlinear_arith)
        requires
            0 < 2 * m <= n,
    ;
    assert((2 * m) * (2 * m) == 4 * (m * m)) by (nonlinear_arith);
}

/// A column of the plane holds the power of one cell in every window.
proof fn lemma_column(plane: Seq<i128>, width: int, c: int, rows: int)
    requires
        0 <= rows,
    ensures
        column(plane, width, c, rows) == Seq::new(rows as nat, |w: int| plane[w * width + c]),
    decreases rows,
{
    if rows > 0 {
        lemma_column(plane, width, c, rows - 1);
        assert(column(plane, width, c, rows) == Seq::new(
            rows as nat,
            |w: int| plane[w * width + c],
        ));
    } else {
        assert(column(plane, width, c, rows) == Seq::new(
            rows as nat,
            |w: int| plane[w * width + c],
        ));
    }
}

/// What a block adds to a cell: its windows are counted, those above the threshold are
/// counted as busy, the powers are added up, and the peak is the greatest of the peak
/// before and every power of the cell, and one of these.
pub proof fn law_a_block_is_counted(
    t: CellTotals,
    plane: Seq<i128>,
    width: int,
    c: int,
    windows: int,
    threshold: i128,
)
    requires
        0 <= c < width,
        0 <= windows,
        windows * width <= plane.len(),
        forall|i: int| 0 <= i < plane.len() ==> 0 <= #[trigger] plane[i] <= POWER_LIMIT,
        t.windows + windows <= u64::MAX,
        t.busy <= t.windows,
        0 <= t.power_sum <= t.windows * POWER_LIMIT,
    ensures
        ({
            let f = folded(t, column(plane, width, c, windows), threshold);
            let powers = Seq::new(windows as nat, |w: int| plane[w * width + c]);
            &&& f.windows == t.windows + windows
            &&& f.busy == t.busy + powers.filter(|p: i128| p > threshold).len()
            &&& f.power_sum == t.power_sum + powers.fold_left(0int, |a: int, p: i128| a + p)
            &&& t.peak <= f.peak
            &&& forall|w: int| 0 <= w < windows ==> plane[#[trigger] (w * width) + c] <= f.peak
            &&& f.peak == t.peak || exists|w: int|
                0 <= w < windows && f.peak == plane[#[trigger] (w * width) + c]
        }),
{
    let powers = Seq::new(windows as nat, |w: int| plane[w * width + c]);
    lemma_column(plane, width, c, windows);
    assert forall|i: int| 0 <= i < powers.len() implies 0 <= #[trigger] powers[i] <= POWER_LIMIT by {
        assert(0 <= i * width + c < windows * width) by (nonlinear_arith)
            requires
                0 <= i < windows,
                0 <= c < width,
        ;
    }
    lemma_folded(t, powers, threshold);
    let f = folded(t, powers, threshold);
    assert forall|w: int| 0 <= w < windows implies plane[#[trigger] (w * width) + c] <= f.peak by {
        assert(powers[w] <= f.peak);
    }
    if f.peak != t.peak {
        let w = choose|w: int| 0 <= w < powers.len() && powers[w] == f.peak;
        assert(f.peak == plane[(w * width) + c]);
    }
}

proof fn lemma_folded(t: CellTotals, powers: Seq<i128>, threshold: i128)
    requires
        forall|i: int| 0 <= i < powers.len() ==> 0 <= #[trigger] powers[i] <= POWER_LIMIT,
        t.windows + powers.len() <= u64::MAX,
        t.busy <= t.windows,
        0 <= t.power_sum <= t.windows * POWER_LIMIT,
    ensures
        ({
            let f = folded(t, powers, threshold);
            &&& f.windows == t.windows + powers.len()
            &&& f.busy == t.busy + powers.filter(|p: i128| p > threshold).len()
            &&& f.busy <= f.windows
            &&& f.power_sum == t.power_sum + powers.fold_left(0int, |a: int, p: i128| a + p)
            &&& 0 <= f.power_sum <= f.windows * POWER_LIMIT
            &&& t.peak <= f.peak
            &&& forall|i: int| 0 <= i < powers.len() ==> #[trigger] powers[i] <= f.peak
            &&& f.peak == t.peak || powers.contains(f.peak)
        }),
    decreases powers.len(),
{
    let busy = |p: i128| p > threshold;
    if powers.len() == 0 {
        reveal(Seq::filter);
        assert(powers.filter(busy).len() == 0);
    } else {
        let head = powers.drop_last();
        assert forall|i: int| 0 <= i < head.len() implies 0 <= #[trigger] head[i] <= POWER_LIMIT by {
            assert(head[i] == powers[i]);
        }
        lemma_folded(t, head, threshold);
        let g = folded(t, head, threshold);
        let f = folded(t, powers, threshold);
        let p = powers.last();
        assert(0 <= powers[powers.len() - 1] <= POWER_LIMIT);
        reveal(Seq::filter);
        assert(powers.filter(busy) == if p > threshold {
            head.filter(busy).push(p)
        } else {
            head.filter(busy)
        });
        assert(powers.fold_left(0int, |a: int, p: i128| a + p) == head.fold_left(
            0int,
            |a: int, p: i128| a + p,
        ) + p);
        assert(g.power_sum + p <= u64::MAX * POWER_LIMIT) by (nonlinear_arith)
            requires
                g.power_sum <= g.windows * POWER_LIMIT,
                g.windows + 1 <= u64::MAX,
                p <= POWER_LIMIT,
                POWER_LIMIT >= 0,
        ;
        assert forall|i: int| 0 <= i < powers.len() implies #[trigger] powers[i] <= f.peak by {
            if i < head.len() {
                assert(head[i] == powers[i]);
            }
        }
        if f.peak == p {
            assert(powers[powers.len() - 1] == f.peak);
        } else if f.peak != t.peak {
            let k = choose|k: int| 0 <= k < head.len() && head[k] == f.peak;
            assert(powers[k] == f.peak);
        }
    }
}

/// The power of a cell is that of its own bins and of no others: more power in a bin
/// raises the cell it belongs to by as much, and leaves every other as it is. Bins
/// without power give none.
pub proof fn law_a_bin_counts_for_its_own_cell(
    bin_cells: Seq<Option<usize>>,
    powers: Seq<u64>,
    k: int,
    power: u64,
    cell: int,
)
    requires
        0 <= k < powers.len(),
        powers.len() <= bin_cells.len(),
    ensures
        ({
            let grown = cell_power(bin_cells, powers.update(k, power), cell) - cell_power(
                bin_cells,
                powers,
                cell,
            );
            grown == if bin_cells[k] matches Some(c) && c == cell {
                power - powers[k]
            } else {
                0
            }
        }),
        (forall|i: int| 0 <= i < powers.len() ==> #[trigger] powers[i] == 0) ==> cell_power(
            bin_cells,
            powers,
            cell,
        ) == 0,
    decreases powers.len(),
{
    let head = powers.drop_last();
    let other = powers.update(k, power);
    if k == powers.len() - 1 {
        assert(other.drop_last() == head);
        if head.len() > 0 {
            law_a_bin_counts_for_its_own_cell(bin_cells, head, 0, 0, cell);
        }
    } else {
        assert(other.drop_last() == head.update(k, power));
        law_a_bin_counts_for_its_own_cell(bin_cells, head, k, power, cell);
    }
    if forall|i: int| 0 <= i < powers.len() ==> #[trigger] powers[i] == 0 {
        assert forall|i: int| 0 <= i < head.len() implies #[trigger] head[i] == 0 by {
            assert(head[i] == powers[i]);
        }
        assert(powers[powers.len() - 1] == 0);
    }
}

/// A cell is reported as it was counted: so many windows, with its sum and its peak. Its
/// duty is the one that would show as many busy windows where every quiet window is
/// taken for a busy one once in a thousand times, and none where fewer were busy. A cell
/// that was never in view is not busy.
pub proof fn law_a_cell_is_reported_as_counted(t: CellTotals)
    requires
        t.busy <= t.windows,
    ensures
        ({
            let r = reading(t);
            &&& r.windows == t.windows
            &&& r.power_sum == t.power_sum
            &&& r.peak == t.peak
            &&& 0 <= r.duty.num <= r.duty.den && r.duty.den > 0
            &&& 1000 * t.busy >= t.windows ==> 1000 * t.busy * r.duty.den == 1000 * (r.duty.num
                * t.windows) + (r.duty.den - r.duty.num) * t.windows
            &&& 1000 * t.busy < t.windows || t.windows == 0 ==> r.duty.num == 0
        }),
{
    let b = t.busy as int;
    let w = t.windows as int;
    let r = reading(t);
    if w > 0 && 1000 * b >= w {
        let den = r.duty.den as int;
        let num = r.duty.num as int;
        assert(den == 999 * w && num == 1000 * b - w);
        assert(1000 * b * den == 1000 * (num * w) + (den - num) * w) by (nonlinear_arith)
            requires
                den == 999 * w,
                num == 1000 * b - w,
        ;
    }
}

/// A window is as near to eight microseconds as a power of two of samples gets, by
/// ratio: no other power of two from sixteen up is nearer.
pub proof fn law_a_window_lasts_about_eight_microseconds(rate_hz: int, n: int)
    requires
        rate_hz > 0,
        nearest_window(rate_hz, n),
    ensures
        n >= 16,
        15_625_000_000 * (n * n) <= 2 * (rate_hz * rate_hz) || n == 16,
        rate_hz * rate_hz <= 2 * (15_625_000_000 * (n * n)),
{
}

/// As many windows are transformed as a block holds whole, where a bin of theirs falls
/// into a cell, and none where no bin does.
pub proof fn law_a_block_is_cut_into_whole_windows(
    scan: Scan,
    bytes: int,
    pair_bytes: int,
    k: int,
)
    requires
        0 < scan.n,
        0 < pair_bytes,
        0 <= bytes,
        0 <= k < scan.n,
    ensures
        ({
            let w = scan.whole_windows(bytes, pair_bytes);
            let size = scan.n * pair_bytes;
            &&& scan.bin_cells@[k] is Some ==> w * size <= bytes < (w + 1) * size
            &&& (forall|j: int| 0 <= j < scan.n ==> #[trigger] scan.bin_cells@[j] is None)
                ==> w == 0
        }),
{
    let size = scan.n * pair_bytes;
    assert(0 < size) by (nonlinear_arith)
        requires
            size == scan.n * pair_bytes,
            0 < scan.n,
            0 < pair_bytes,
    ;
    vstd::arithmetic::div_mod::lemma_fundamental_div_mod(bytes, size);
    vstd::arithmetic::div_mod::lemma_mod_bound(bytes, size);
    let q = bytes / size;
    assert(size * q == q * size && (q + 1) * size == q * size + size) by (nonlinear_arith);
}

/// A dwell that starts again has counted nothing anywhere, trusts its floor and keeps its
/// tuning.
pub proof fn law_a_fresh_start_has_counted_nothing(before: Scan, after: Scan, c: int)
    requires
        after.fresh(),
        after.same_tuning(before),
        0 <= c < occupancy::CELLS,
    ensures
        after.cells@[c].windows == 0,
        after.cells@[c].busy == 0,
        after.cells@[c].power_sum == 0,
        after.cells@[c].peak == 0,
        after.floors == 0 && after.floor_sum == 0 && after.tail_sum == 0 && after.spread_sum == 0,
        after.trusted,
        after.centre_hz == before.centre_hz && after.rate_hz == before.rate_hz && after.span_hz
            == before.span_hz && after.n == before.n && after.bin_cells == before.bin_cells,
{
}

/// A mean over blocks is over as many as there were, and a mean over none is nothing
/// rather than a division by nothing.
pub proof fn law_a_mean_is_over_what_was_counted(n: u64)
    ensures
        at_least_one(n) > 0,
        n > 0 ==> at_least_one(n) == n,
        n == 0 ==> at_least_one(n) == 1,
{
}

} // verus!
