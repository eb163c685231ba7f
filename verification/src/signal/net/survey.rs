//! Where to point the radio, and for how long, to see the whole band.

use crate::level;
use crate::signal::net::{gate, occupancy};
use crate::state::SWEEP_SETTLING_MS;
use vstd::prelude::*;

verus! {

/// How long after a retune the samples are discarded.
pub const SETTLE_MS: u64 = SWEEP_SETTLING_MS;

/// How long to sit on one position: twice what a measurement needs, because the
/// feed loses blocks.
pub const DWELL_MS: u64 = 100;

/// One pass across the band.
pub struct Plan {
    /// Centre frequencies, low to high.
    pub hops: Vec<u64>,
    /// What each of them sees.
    pub span_hz: u64,
}

/// The fewest positions whose spans are as wide as the band together.
pub open spec fn hop_count(span_hz: int) -> int {
    (83_500_000 + span_hz - 1) / span_hz
}

/// Twice the first centre: half a span above the lower edge.
pub open spec fn twice_first(span_hz: int) -> int {
    4_800_000_000 + span_hz
}

/// The centre of position `k` in whole megahertz. The first and the last span
/// end at the edges of the band, and the others are spread evenly between them.
pub open spec fn hop_mhz(span_hz: int, k: int) -> int {
    let n = hop_count(span_hz);
    if n <= 1 {
        level::rounded(twice_first(span_hz), 2_000_000)
    } else {
        level::rounded(
            twice_first(span_hz) * (n - 1) + 2 * (k * (83_500_000 - span_hz)),
            2_000_000 * (n - 1),
        )
    }
}

/// Whether one of the positions that are planned for a span sees a cell.
pub open spec fn one_shows(planned_hz: int, span_hz: int, cell: int) -> bool {
    exists|k: int|
        0 <= k < hop_count(planned_hz) && occupancy::wholly_inside(
            cell,
            #[trigger] hop_mhz(planned_hz, k) * 1_000_000,
            span_hz,
        )
}

/// Whether the positions that are planned for a span leave no gap in the band.
pub open spec fn no_gap(span_hz: int) -> bool {
    forall|cell: int| 0 <= cell < occupancy::CELLS ==> #[trigger] one_shows(span_hz, span_hz, cell)
}

/// The span that is planned with: the view itself, unless rounding its positions to
/// whole megahertz opens a gap. A whole megahertz sees as many cells on its one side
/// as on its other, so an even number of megahertz takes the place of such a view.
/// Less than two megahertz see no cell from there, however they are planned.
pub open spec fn planned_span(span_hz: int) -> int {
    if span_hz < 2_000_000 || no_gap(span_hz) {
        span_hz
    } else {
        2_000_000 * (span_hz / 2_000_000)
    }
}

/// A narrower view needs as many positions as its width goes into the band.
proof fn lemma_hop_count(span_hz: int)
    requires
        0 < span_hz,
    ensures
        1 <= hop_count(span_hz) <= 83_500_000,
        (hop_count(span_hz) - 1) * span_hz < 83_500_000 <= hop_count(span_hz) * span_hz,
{
    let n = hop_count(span_hz);
    let a = 83_500_000 + span_hz - 1;
    vstd::arithmetic::div_mod::lemma_fundamental_div_mod(a, span_hz);
    vstd::arithmetic::div_mod::lemma_mod_bound(a, span_hz);
    let r = a % span_hz;
    assert(1 <= n <= 83_500_000 && (n - 1) * span_hz < 83_500_000 <= n * span_hz)
        by (nonlinear_arith)
        requires
            a == span_hz * n + r,
            0 <= r < span_hz,
            a == 83_500_000 + span_hz - 1,
            0 < span_hz,
    ;
}

impl Plan {
    /// A plan whose frequencies can be handed to a tuner, with a view wherever it
    /// has a position.
    pub open spec fn plausible(self) -> bool {
        &&& self.span_hz <= i64::MAX
        &&& self.hops@.len() > 0 ==> self.span_hz > 0
        &&& forall|k: int| 0 <= k < self.hops@.len() ==> #[trigger] self.hops@[k] <= i64::MAX
    }

    /// Whether the positions are those planned for a span.
    pub open spec fn follows(self, planned_hz: int) -> bool {
        &&& self.hops@.len() == hop_count(planned_hz)
        &&& forall|k: int|
            0 <= k < self.hops@.len() ==> #[trigger] self.hops@[k] == hop_mhz(planned_hz, k)
                * 1_000_000
    }

    /// Whether this is the plan for a receiver that sees so much. No view is no plan.
    pub open spec fn suits(self, span_hz: int) -> bool {
        if span_hz > 0 {
            self.span_hz == span_hz && self.follows(planned_span(span_hz))
        } else {
            self.hops@.len() == 0 && self.span_hz == 0
        }
    }

    /// The positions needed to cover the band with a receiver that sees so much.
    /// `None` stands for a span that is not finite; no span is no plan.
    pub fn for_span(span_hz: Option<i64>) -> (p: Self)
        ensures
            p.suits(
                match span_hz {
                    Some(s) => s as int,
                    None => 0,
                },
            ),
            span_hz matches Some(s) && s >= 2_000_000 ==> forall|c: int|
                0 <= c < occupancy::CELLS ==> #[trigger] p.sees(c),
            p.hops@.len() <= 83_500_000,
            p.plausible(),
    {
        let seen: i64 = match span_hz {
            Some(s) => s,
            None => return Plan { hops: Vec::new(), span_hz: 0 },
        };
        if seen <= 0 {
            return Plan { hops: Vec::new(), span_hz: 0 };
        }
        let direct = Self::spread(seen, seen);
        let p = if seen < 2_000_000 || direct.leaves_no_gap() {
            direct
        } else {
            Self::spread(2_000_000 * (seen / 2_000_000), seen)
        };
        proof {
            lemma_no_gap(direct, seen as int);
            if seen >= 2_000_000 {
                assert forall|c: int| 0 <= c < occupancy::CELLS implies #[trigger] p.sees(c) by {
                    law_plan_covers_the_band(p, seen as int, c);
                }
            }
        }
        p
    }

    /// The fewest positions whose spans are as wide as the band together, spread
    /// evenly across it.
    fn spread(s: i64, seen: i64) -> (p: Self)
        requires
            0 < s,
            0 < seen,
        ensures
            p.span_hz == seen,
            p.follows(s as int),
            p.hops@.len() <= 83_500_000,
            p.plausible(),
    {
        proof {
            lemma_hop_count(s as int);
        }
        let n: u64 = ((83_500_000u128 + s as u128 - 1) / (s as u128)) as u64;
        let mut hops: Vec<u64> = Vec::new();
        let first: i128 = 4_800_000_000 + s as i128;
        let mut k: u64 = 0;
        while k < n
            invariant
                k <= n <= 83_500_000,
                n == hop_count(s as int),
                0 < s,
                (n - 1) * s < 83_500_000,
                first == twice_first(s as int),
                hops@.len() == k,
                forall|j: int| 0 <= j < k ==> #[trigger] hops@[j] <= i64::MAX,
                forall|j: int|
                    0 <= j < k ==> #[trigger] hops@[j] == hop_mhz(s as int, j) * 1_000_000,
            decreases n - k,
        {
            let mhz: i128 = if n <= 1 {
                level::round_div(first, 2_000_000)
            } else {
                proof {
                    assert(s < 83_500_000) by (nonlinear_arith)
                        requires
                            (n - 1) * s < 83_500_000,
                            n >= 2,
                            s > 0,
                    ;
                    assert(0 <= first * (n - 1) <= 5_000_000_000 * 83_500_000) by (nonlinear_arith)
                        requires
                            0 <= first <= 5_000_000_000,
                            0 <= n - 1 <= 83_500_000,
                    ;
                    assert(0 <= k * (83_500_000 - s) <= 83_500_000 * 83_500_000)
                        by (nonlinear_arith)
                        requires
                            0 <= k <= 83_500_000,
                            0 <= 83_500_000 - s <= 83_500_000,
                    ;
                }
                level::round_div(
                    first * (n as i128 - 1) + 2 * ((k as i128) * (83_500_000 - s as i128)),
                    2_000_000 * (n as u128 - 1),
                )
            };
            assert(mhz == hop_mhz(s as int, k as int));
            proof {
                lemma_hop_range(s as int, k as int);
            }
            hops.push(mhz as u64 * 1_000_000);
            k += 1;
        }
        Plan { hops, span_hz: seen as u64 }
    }

    /// Whether every cell of the band is seen.
    fn leaves_no_gap(&self) -> (r: bool)
        requires
            self.plausible(),
        ensures
            r == forall|c: int| 0 <= c < occupancy::CELLS ==> #[trigger] self.sees(c),
    {
        let seen = self.covered();
        let mut c: usize = 0;
        while c < occupancy::CELLS
            invariant
                c <= occupancy::CELLS,
                seen@.len() == occupancy::CELLS,
                forall|i: int| 0 <= i < occupancy::CELLS ==> #[trigger] seen@[i] == self.sees(i),
                forall|i: int| 0 <= i < c ==> #[trigger] seen@[i],
            decreases occupancy::CELLS - c,
        {
            if !seen[c] {
                assert(!self.sees(c as int));
                return false;
            }
            c += 1;
        }
        assert forall|i: int| 0 <= i < occupancy::CELLS implies #[trigger] self.sees(i) by {
            assert(seen@[i]);
        }
        true
    }

    /// How long one pass takes, in milliseconds.
    pub fn cycle(&self) -> (ms: u64)
        requires
            self.hops@.len() <= 83_500_000,
        ensures
            ms == (25 + 100) * self.hops@.len(),
    {
        let positions: u64 = self.hops.len() as u64;
        assert(positions <= 83_500_000);
        125 * positions
    }

    /// Whether a position of the plan sees a cell.
    pub open spec fn sees(self, cell: int) -> bool {
        exists|k: int|
            0 <= k < self.hops@.len() && occupancy::first_observed(
                #[trigger] self.hops@[k] as int,
                self.span_hz as int,
            ) <= cell < occupancy::end_observed(self.hops@[k] as int, self.span_hz as int)
    }

    /// Every cell of the band, and whether any position of the plan sees it.
    pub fn covered(&self) -> (seen: Vec<bool>)
        requires
            self.plausible(),
        ensures
            seen@.len() == occupancy::CELLS,
            forall|c: int| 0 <= c < occupancy::CELLS ==> #[trigger] seen@[c] == self.sees(c),
    {
        let mut seen: Vec<bool> = Vec::new();
        let mut c: usize = 0;
        while c < occupancy::CELLS
            invariant
                c <= occupancy::CELLS,
                self.span_hz <= i64::MAX,
                self.hops@.len() > 0 ==> self.span_hz > 0,
                forall|k: int| 0 <= k < self.hops@.len() ==> #[trigger] self.hops@[k] <= i64::MAX,
                seen@.len() == c,
                forall|j: int| 0 <= j < c ==> #[trigger] seen@[j] == self.sees(j),
            decreases occupancy::CELLS - c,
        {
            let mut found: bool = false;
            let mut k: usize = 0;
            while k < self.hops.len()
                invariant
                    k <= self.hops@.len(),
                    self.span_hz <= i64::MAX,
                    self.hops@.len() > 0 ==> self.span_hz > 0,
                    forall|i: int|
                        0 <= i < self.hops@.len() ==> #[trigger] self.hops@[i] <= i64::MAX,
                    found == exists|i: int|
                        0 <= i < k && occupancy::first_observed(
                            #[trigger] self.hops@[i] as int,
                            self.span_hz as int,
                        ) <= c < occupancy::end_observed(
                            self.hops@[i] as int,
                            self.span_hz as int,
                        ),
                decreases self.hops@.len() - k,
            {
                let (first, end): (usize, usize) = occupancy::cells_observed(
                    Some(self.hops[k] as i64),
                    Some(self.span_hz as i64),
                );
                if first <= c && c < end {
                    assert(occupancy::first_observed(
                        self.hops@[k as int] as int,
                        self.span_hz as int,
                    ) <= c);
                    found = true;
                }
                k += 1;
            }
            seen.push(found);
            c += 1;
        }
        seen
    }
}

/// Rounding grows by no more than the number it is given does, rounded up.
proof fn lemma_rounded_step(a: int, d: int, b: int, m: int)
    requires
        0 <= a,
        0 <= d <= m * b,
        0 < b,
        0 <= m,
    ensures
        level::rounded(a, b) <= level::rounded(a + d, b) <= level::rounded(a, b) + m,
{
    let p = (2 * a + b) / (2 * b);
    let q = (2 * (a + d) + b) / (2 * b);
    vstd::arithmetic::div_mod::lemma_fundamental_div_mod(2 * a + b, 2 * b);
    vstd::arithmetic::div_mod::lemma_mod_bound(2 * a + b, 2 * b);
    vstd::arithmetic::div_mod::lemma_fundamental_div_mod(2 * (a + d) + b, 2 * b);
    vstd::arithmetic::div_mod::lemma_mod_bound(2 * (a + d) + b, 2 * b);
    let r = (2 * a + b) % (2 * b);
    let t = (2 * (a + d) + b) % (2 * b);
    assert(p <= q <= p + m) by (nonlinear_arith)
        requires
            2 * a + b == (2 * b) * p + r,
            2 * (a + d) + b == (2 * b) * q + t,
            0 <= r < 2 * b,
            0 <= t < 2 * b,
            0 <= d <= m * b,
            0 < b,
    ;
}

/// A common factor does not change a rounded quotient.
proof fn lemma_rounded_scaled(a: int, b: int, f: int)
    requires
        0 <= a,
        0 < b,
        0 < f,
    ensures
        level::rounded(a * f, b * f) == level::rounded(a, b),
{
    let q = (2 * a + b) / (2 * b);
    vstd::arithmetic::div_mod::lemma_fundamental_div_mod(2 * a + b, 2 * b);
    vstd::arithmetic::div_mod::lemma_mod_bound(2 * a + b, 2 * b);
    let r = (2 * a + b) % (2 * b);
    assert(0 <= a * f && 0 < b * f) by (nonlinear_arith)
        requires
            0 <= a,
            0 < b,
            0 < f,
    ;
    assert(2 * (a * f) + b * f == q * (2 * (b * f)) + r * f) by (nonlinear_arith)
        requires
            2 * a + b == (2 * b) * q + r,
    ;
    assert(0 <= r * f < 2 * (b * f)) by (nonlinear_arith)
        requires
            0 <= r < 2 * b,
            0 < f,
    ;
    vstd::arithmetic::div_mod::lemma_fundamental_div_mod_converse(
        2 * (a * f) + b * f,
        2 * (b * f),
        q,
        r * f,
    );
}

/// A position never lies below the band or far above it.
proof fn lemma_hop_range(span_hz: int, k: int)
    requires
        0 < span_hz <= i64::MAX,
        0 <= k < hop_count(span_hz),
    ensures
        0 <= hop_mhz(span_hz, k) <= 4_700_000_000_000,
{
    lemma_hop_count(span_hz);
    let n = hop_count(span_hz);
    if n <= 1 {
        level::lemma_rounded_between(twice_first(span_hz), 2_000_000, 0, 4_700_000_000_000);
    } else {
        assert(span_hz < 83_500_000) by (nonlinear_arith)
            requires
                (n - 1) * span_hz < 83_500_000,
                n >= 2,
                span_hz > 0,
        ;
        let a = twice_first(span_hz) * (n - 1) + 2 * (k * (83_500_000 - span_hz));
        let b = 2_000_000 * (n - 1);
        assert(0 * b <= a <= 4_700_000_000_000 * b) by (nonlinear_arith)
            requires
                a == twice_first(span_hz) * (n - 1) + 2 * (k * (83_500_000 - span_hz)),
                b == 2_000_000 * (n - 1),
                twice_first(span_hz) == 4_800_000_000 + span_hz,
                0 < span_hz < 83_500_000,
                0 <= k <= n - 1,
                n >= 2,
        ;
        assert(0 < b);
        level::lemma_rounded_between(a, b, 0, 4_700_000_000_000);
    }
}

/// The first position sees the bottom of the band and the last one its top, where
/// the span is less than one megahertz over an even number of them.
proof fn lemma_ends(span_hz: int)
    requires
        2_000_000 <= span_hz <= i64::MAX,
        span_hz % 2_000_000 < 1_000_000,
    ensures
        ({
            let h = span_hz / 2_000_000;
            &&& hop_mhz(span_hz, 0) == 2400 + h
            &&& hop_mhz(span_hz, hop_count(span_hz) - 1) + h >= 2483
        }),
{
    lemma_hop_count(span_hz);
    let n = hop_count(span_hz);
    let h = span_hz / 2_000_000;
    if n <= 1 {
        assert(span_hz >= 83_500_000) by (nonlinear_arith)
            requires
                83_500_000 <= n * span_hz,
                n == 1,
        ;
        assert(span_hz == 2_000_000 * h + span_hz % 2_000_000);
        assert(h >= 42);
        assert(hop_mhz(span_hz, 0) == level::rounded(twice_first(span_hz), 2_000_000));
        assert(hop_mhz(span_hz, 0) == 2400 + h);
        assert(hop_mhz(span_hz, n - 1) == hop_mhz(span_hz, 0));
    } else {
        assert(span_hz < 83_500_000) by (nonlinear_arith)
            requires
                (n - 1) * span_hz < 83_500_000,
                n >= 2,
                span_hz > 0,
        ;
        let first = twice_first(span_hz);
        assert(0 * (83_500_000 - span_hz) == 0);
        lemma_rounded_scaled(first, 2_000_000, n - 1);
        assert(hop_mhz(span_hz, 0) == level::rounded(first, 2_000_000));
        let f = span_hz % 2_000_000;
        assert(span_hz == 2_000_000 * h + f);
        vstd::arithmetic::div_mod::lemma_fundamental_div_mod_converse(
            2 * first + 2_000_000,
            4_000_000,
            2400 + h,
            2 * f + 2_000_000,
        );
        let last = 4_967_000_000 - span_hz;
        assert(first * (n - 1) + 2 * ((n - 1) * (83_500_000 - span_hz)) == last * (n - 1))
            by (nonlinear_arith)
            requires
                first == 4_800_000_000 + span_hz,
                last == 4_967_000_000 - span_hz,
        ;
        lemma_rounded_scaled(last, 2_000_000, n - 1);
        assert(hop_mhz(span_hz, n - 1) == level::rounded(last, 2_000_000));
        assert(level::rounded(last, 2_000_000) >= 2483 - h);
    }
}

/// Between neighbours that overlap, every cell up to a position is seen by it or
/// by one before it.
proof fn lemma_seen_up_to(span_hz: int, k: int, cell: int) -> (at: int)
    requires
        2_000_000 <= span_hz <= i64::MAX,
        span_hz % 2_000_000 < 1_000_000,
        forall|j: int|
            0 <= j < hop_count(span_hz) - 1 ==> #[trigger] hop_mhz(span_hz, j + 1) - hop_mhz(
                span_hz,
                j,
            ) <= 2 * (span_hz / 2_000_000),
        0 <= k < hop_count(span_hz),
        0 <= cell < hop_mhz(span_hz, k) - 2400 + span_hz / 2_000_000,
    ensures
        0 <= at <= k,
        occupancy::wholly_inside(cell, hop_mhz(span_hz, at) * 1_000_000, span_hz),
    decreases k,
{
    let h = span_hz / 2_000_000;
    lemma_ends(span_hz);
    if k > 0 && cell < hop_mhz(span_hz, k - 1) - 2400 + h {
        lemma_seen_up_to(span_hz, k - 1, cell)
    } else {
        if k > 0 {
            assert(hop_mhz(span_hz, (k - 1) + 1) - hop_mhz(span_hz, k - 1) <= 2 * h);
        }
        k
    }
}

/// Where neighbouring positions are no further apart than the whole cells they see,
/// every cell is seen.
proof fn lemma_plan_covers(span_hz: int, cell: int) -> (at: int)
    requires
        2_000_000 <= span_hz <= i64::MAX,
        span_hz % 2_000_000 < 1_000_000,
        forall|j: int|
            0 <= j < hop_count(span_hz) - 1 ==> #[trigger] hop_mhz(span_hz, j + 1) - hop_mhz(
                span_hz,
                j,
            ) <= 2 * (span_hz / 2_000_000),
        0 <= cell < occupancy::CELLS,
    ensures
        0 <= at < hop_count(span_hz),
        occupancy::wholly_inside(cell, hop_mhz(span_hz, at) * 1_000_000, span_hz),
{
    lemma_hop_count(span_hz);
    lemma_ends(span_hz);
    lemma_seen_up_to(span_hz, hop_count(span_hz) - 1, cell)
}

/// Neighbouring positions are never further apart than a span of whole megahertz.
proof fn lemma_neighbours(megahertz: int, k: int)
    requires
        0 < megahertz <= 10_000_000_000_000,
        0 <= k < hop_count(megahertz * 1_000_000) - 1,
    ensures
        hop_mhz(megahertz * 1_000_000, k + 1) - hop_mhz(megahertz * 1_000_000, k) <= megahertz,
{
    let span_hz = megahertz * 1_000_000;
    lemma_hop_count(span_hz);
    let n = hop_count(span_hz);
    assert(span_hz < 83_500_000) by (nonlinear_arith)
        requires
            (n - 1) * span_hz < 83_500_000,
            n >= 2,
            span_hz > 0,
    ;
    let b = 2_000_000 * (n - 1);
    let a = twice_first(span_hz) * (n - 1) + 2 * (k * (83_500_000 - span_hz));
    let d = 2 * (83_500_000 - span_hz);
    assert(2 * ((k + 1) * (83_500_000 - span_hz)) == 2 * (k * (83_500_000 - span_hz)) + d)
        by (nonlinear_arith)
        requires
            d == 2 * (83_500_000 - span_hz),
    ;
    assert(0 <= a) by (nonlinear_arith)
        requires
            a == twice_first(span_hz) * (n - 1) + 2 * (k * (83_500_000 - span_hz)),
            twice_first(span_hz) >= 0,
            n >= 2,
            k >= 0,
            span_hz < 83_500_000,
    ;
    assert(d <= megahertz * b) by (nonlinear_arith)
        requires
            d == 2 * (83_500_000 - span_hz),
            b == 2_000_000 * (n - 1),
            span_hz == megahertz * 1_000_000,
            83_500_000 <= n * span_hz,
    ;
    lemma_rounded_step(a, d, b, megahertz);
}

/// A plan sees what one of its positions does.
proof fn lemma_sees(p: Plan, planned_hz: int, span_hz: int, cell: int)
    requires
        0 < span_hz,
        p.span_hz == span_hz,
        p.follows(planned_hz),
        0 <= cell < occupancy::CELLS,
    ensures
        p.sees(cell) == one_shows(planned_hz, span_hz, cell),
{
    if p.sees(cell) {
        let k = choose|k: int|
            0 <= k < p.hops@.len() && occupancy::first_observed(
                #[trigger] p.hops@[k] as int,
                p.span_hz as int,
            ) <= cell < occupancy::end_observed(p.hops@[k] as int, p.span_hz as int);
        let hz = hop_mhz(planned_hz, k) * 1_000_000;
        occupancy::law_observed_cells_are_whole(hz, span_hz, cell);
        assert(occupancy::wholly_inside(cell, hop_mhz(planned_hz, k) * 1_000_000, span_hz));
    }
    if one_shows(planned_hz, span_hz, cell) {
        let k = choose|k: int|
            0 <= k < hop_count(planned_hz) && occupancy::wholly_inside(
                cell,
                #[trigger] hop_mhz(planned_hz, k) * 1_000_000,
                span_hz,
            );
        occupancy::law_observed_cells_are_whole(p.hops@[k] as int, span_hz, cell);
    }
}

/// A plan made with the view itself has a gap where its positions leave one.
proof fn lemma_no_gap(direct: Plan, span_hz: int)
    requires
        0 < span_hz,
        direct.span_hz == span_hz,
        direct.follows(span_hz),
    ensures
        no_gap(span_hz) == forall|c: int| 0 <= c < occupancy::CELLS ==> #[trigger] direct.sees(c),
{
    if no_gap(span_hz) {
        assert forall|c: int| 0 <= c < occupancy::CELLS implies #[trigger] direct.sees(c) by {
            assert(one_shows(span_hz, span_hz, c));
            lemma_sees(direct, span_hz, span_hz, c);
        }
    }
    if forall|c: int| 0 <= c < occupancy::CELLS ==> #[trigger] direct.sees(c) {
        assert forall|c: int| 0 <= c < occupancy::CELLS implies #[trigger] one_shows(
            span_hz,
            span_hz,
            c,
        ) by {
            assert(direct.sees(c));
            lemma_sees(direct, span_hz, span_hz, c);
        }
    }
}

/// The plan sees every cell of the band, for every view from two megahertz on.
pub proof fn law_plan_covers_the_band(p: Plan, span_hz: int, cell: int)
    requires
        2_000_000 <= span_hz <= i64::MAX,
        p.suits(span_hz),
        0 <= cell < occupancy::CELLS,
    ensures
        p.sees(cell),
{
    let planned = planned_span(span_hz);
    if no_gap(span_hz) {
        assert(one_shows(span_hz, span_hz, cell));
    } else {
        let half = span_hz / 2_000_000;
        assert(planned == (2 * half) * 1_000_000);
        assert(planned / 2_000_000 == half);
        assert forall|j: int| 0 <= j < hop_count(planned) - 1 implies #[trigger] hop_mhz(
            planned,
            j + 1,
        ) - hop_mhz(planned, j) <= 2 * (planned / 2_000_000) by {
            lemma_neighbours(2 * half, j);
        }
        let at = lemma_plan_covers(planned, cell);
        assert(occupancy::wholly_inside(cell, hop_mhz(planned, at) * 1_000_000, span_hz));
    }
    lemma_sees(p, planned, span_hz, cell);
}

/// Where the first position is rounded up it misses the bottom of the band, and so
/// does every other.
proof fn lemma_no_gap_rounds_down(span_hz: int)
    requires
        2_000_000 <= span_hz <= i64::MAX,
        no_gap(span_hz),
    ensures
        span_hz % 2_000_000 < 1_000_000,
{
    assert(one_shows(span_hz, span_hz, 0));
    let k = choose|k: int|
        0 <= k < hop_count(span_hz) && occupancy::wholly_inside(
            0,
            #[trigger] hop_mhz(span_hz, k) * 1_000_000,
            span_hz,
        );
    let n = hop_count(span_hz);
    let first = twice_first(span_hz);
    lemma_hop_count(span_hz);
    if n > 1 {
        assert(span_hz < 83_500_000) by (nonlinear_arith)
            requires
                (n - 1) * span_hz < 83_500_000,
                n >= 2,
                span_hz > 0,
        ;
        let low = first * (n - 1);
        let d = 2 * (k * (83_500_000 - span_hz));
        let b = 2_000_000 * (n - 1);
        assert(0 <= low && 0 <= d <= d * b) by (nonlinear_arith)
            requires
                low == first * (n - 1),
                first > 0,
                d == 2 * (k * (83_500_000 - span_hz)),
                b == 2_000_000 * (n - 1),
                k >= 0,
                n >= 2,
                span_hz < 83_500_000,
        ;
        lemma_rounded_step(low, d, b, d);
        lemma_rounded_scaled(first, 2_000_000, n - 1);
    }
    assert(hop_mhz(span_hz, k) >= level::rounded(first, 2_000_000));
    let h = span_hz / 2_000_000;
    let f = span_hz % 2_000_000;
    assert(span_hz == 2_000_000 * h + f);
    if f >= 1_000_000 {
        vstd::arithmetic::div_mod::lemma_fundamental_div_mod_converse(
            2 * first + 2_000_000,
            4_000_000,
            2400 + h + 1,
            2 * f - 2_000_000,
        );
        assert(level::rounded(first, 2_000_000) == 2400 + h + 1);
    }
}

/// Every position is one that a radio which reaches the band can be tuned to, from
/// four megahertz of view up to twice the width of the band.
pub proof fn law_positions_can_be_tuned(p: Plan, span_hz: int, k: int)
    requires
        4_000_000 <= span_hz < 168_000_000,
        p.suits(span_hz),
        0 <= k < p.hops@.len(),
    ensures
        gate::LOWEST_CENTRE_HZ <= p.hops@[k] <= gate::HIGHEST_CENTRE_HZ,
{
    if no_gap(span_hz) {
        lemma_no_gap_rounds_down(span_hz);
    }
    lemma_positions(planned_span(span_hz), k);
}

proof fn lemma_positions(span_hz: int, k: int)
    requires
        3_000_000 <= span_hz < 167_000_000,
        0 <= k < hop_count(span_hz),
    ensures
        gate::LOWEST_CENTRE_HZ <= hop_mhz(span_hz, k) * 1_000_000 <= gate::HIGHEST_CENTRE_HZ,
{
    lemma_hop_count(span_hz);
    let n = hop_count(span_hz);
    if n > 1 {
        assert(span_hz < 83_500_000) by (nonlinear_arith)
            requires
                (n - 1) * span_hz < 83_500_000,
                n >= 2,
                span_hz > 0,
        ;
        let a = twice_first(span_hz) * (n - 1) + 2 * (k * (83_500_000 - span_hz));
        let b = 2_000_000 * (n - 1);
        let low = twice_first(span_hz) * (n - 1);
        let d = 2 * (k * (83_500_000 - span_hz));
        assert(0 <= d && 0 <= low) by (nonlinear_arith)
            requires
                d == 2 * (k * (83_500_000 - span_hz)),
                low == twice_first(span_hz) * (n - 1),
                twice_first(span_hz) > 0,
                k >= 0,
                n >= 2,
                span_hz < 83_500_000,
        ;
        assert(a <= 2483 * b) by (nonlinear_arith)
            requires
                a == twice_first(span_hz) * (n - 1) + 2 * (k * (83_500_000 - span_hz)),
                b == 2_000_000 * (n - 1),
                twice_first(span_hz) == 4_800_000_000 + span_hz,
                3_000_000 <= span_hz < 83_500_000,
                0 <= k <= n - 1,
        ;
        assert(0 <= d <= d * b) by (nonlinear_arith)
            requires
                0 <= d,
                1 <= b,
        ;
        lemma_rounded_step(low, d, b, d);
        lemma_rounded_scaled(twice_first(span_hz), 2_000_000, n - 1);
        assert(b == 2_000_000 * (n - 1));
        assert(0 * b <= a);
        level::lemma_rounded_between(a, b, 0, 2483);
        assert(hop_mhz(span_hz, k) == level::rounded(a, b));
        assert(level::rounded(low, b) == level::rounded(twice_first(span_hz), 2_000_000));
    }
    let first = level::rounded(twice_first(span_hz), 2_000_000);
    let doubled = 2 * twice_first(span_hz) + 2_000_000;
    vstd::arithmetic::div_mod::lemma_fundamental_div_mod(doubled, 4_000_000);
    vstd::arithmetic::div_mod::lemma_mod_bound(doubled, 4_000_000);
    assert(2402 <= first);
    assert(n <= 1 ==> first <= 2483);
}

/// Whether a position on a whole megahertz sees a cell.
pub open spec fn sees_from(mhz: int, span_hz: int, cell: int) -> bool {
    occupancy::wholly_inside(cell, mhz * 1_000_000, span_hz)
}

/// Whether one of some positions on whole megahertz sees a cell.
pub open spec fn one_sees(centres_mhz: Seq<int>, span_hz: int, cell: int) -> bool {
    exists|k: int|
        0 <= k < centres_mhz.len() && sees_from(#[trigger] centres_mhz[k], span_hz, cell)
}

/// A wider view needs no more positions.
proof fn lemma_wider_needs_no_more(narrow_hz: int, wide_hz: int)
    requires
        0 < narrow_hz <= wide_hz,
    ensures
        hop_count(wide_hz) <= hop_count(narrow_hz),
{
    lemma_hop_count(narrow_hz);
    lemma_hop_count(wide_hz);
    let n = hop_count(narrow_hz);
    let w = hop_count(wide_hz);
    assert(w <= n) by (nonlinear_arith)
        requires
            (w - 1) * wide_hz < 83_500_000 <= n * narrow_hz,
            0 < narrow_hz <= wide_hz,
            1 <= n,
    ;
}

/// The plan has the fewest positions on whole megahertz that see the band: whatever
/// such positions see every cell, there are no fewer of them.
pub proof fn law_no_shorter_plan_covers(p: Plan, span_hz: int, centres_mhz: Seq<int>)
    requires
        2_000_000 <= span_hz <= i64::MAX,
        p.suits(span_hz),
        forall|cell: int|
            0 <= cell < occupancy::CELLS ==> #[trigger] one_sees(centres_mhz, span_hz, cell),
    ensures
        p.hops@.len() <= centres_mhz.len(),
{
    let half = span_hz / 2_000_000;
    let planned = 2_000_000 * half;
    let n = hop_count(planned);
    let m = centres_mhz.len() as int;
    lemma_hop_count(planned);
    lemma_wider_needs_no_more(planned, span_hz);
    // Cells so far apart that no position sees two of them.
    let apart = 2 * half;
    let reach = (n - 1) * half;
    assert((n - 1) * planned == 2_000_000 * reach) by (nonlinear_arith)
        requires
            planned == 2_000_000 * half,
            reach == (n - 1) * half,
    ;
    assert(2 * reach <= 82);
    let f = |i: int|
        choose|k: int| 0 <= k < m && sees_from(#[trigger] centres_mhz[k], span_hz, i * apart);
    let all = vstd::set_lib::set_int_range(0, n);
    let used = all.map(f);
    assert forall|i: int| 0 <= i < n implies 0 <= #[trigger] f(i) < m && sees_from(
        centres_mhz[f(i)],
        span_hz,
        i * apart,
    ) by {
        assert(0 <= i * apart <= 2 * reach) by (nonlinear_arith)
            requires
                0 <= i <= n - 1,
                apart == 2 * half,
                reach == (n - 1) * half,
                half >= 1,
        ;
        assert(one_sees(centres_mhz, span_hz, i * apart));
    }
    assert forall|i: int, j: int|
        all.contains(i) && all.contains(j) && #[trigger] f(i) == #[trigger] f(j) implies i == j by {
        let c = centres_mhz[f(i)] - 2400;
        assert(c - half <= i * apart < c + half);
        assert(c - half <= j * apart < c + half);
        assert(i == j) by (nonlinear_arith)
            requires
                -apart < i * apart - j * apart < apart,
                apart > 0,
        ;
    }
    vstd::set_lib::lemma_int_range(0, n);
    vstd::set_lib::lemma_int_range(0, m);
    vstd::set_lib::lemma_map_size(all, used, f);
    assert(used.subset_of(vstd::set_lib::set_int_range(0, m)));
    vstd::set_lib::lemma_len_subset(used, vstd::set_lib::set_int_range(0, m));
}

} // verus!
