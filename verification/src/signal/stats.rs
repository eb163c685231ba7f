//! Statistics of spectrum levels in one decibel unit. A missing level is one
//! that could not be measured; a measured floor is a measurement like any other.

use crate::level;
use crate::level::Level;
use crate::sort;
use vstd::prelude::*;

verus! {

/// How much of a new sample an average takes: `num` parts of `den`.
#[derive(Clone, Copy, Debug, PartialEq, Eq, Structural)]
pub struct Share {
    pub num: u32,
    pub den: u32,
}

impl Share {
    pub open spec fn proper(self) -> bool {
        self.num <= self.den && 0 < self.den
    }
}

/// A sample folded into an average, rounded to the nearest whole unit. Where only
/// one of the two is a measurement it is the result.
pub open spec fn ema(previous: Level, sample: Level, alpha: Share) -> Level {
    match (previous, sample) {
        (Some(p), Some(s)) => Some(
            level::rounded(alpha.num * s + (alpha.den - alpha.num) * p, alpha.den as int) as i64,
        ),
        (None, Some(s)) => Some(s),
        (Some(p), None) => Some(p),
        (None, None) => None,
    }
}

/// An average of two measurements lies between them.
pub proof fn law_ema_lies_between(p: i64, s: i64, alpha: Share)
    requires
        alpha.proper(),
    ensures
        ({
            let e = level::rounded(
                alpha.num * s + (alpha.den - alpha.num) * p,
                alpha.den as int,
            );
            &&& p <= s ==> p <= e <= s
            &&& s <= p ==> s <= e <= p
        }),
{
    let a = alpha.num * s + (alpha.den - alpha.num) * p;
    let d = alpha.den as int;
    assert(p <= s ==> p * d <= a <= s * d) by (nonlinear_arith)
        requires
            a == alpha.num * s + (alpha.den - alpha.num) * p,
            d == alpha.den,
            alpha.num <= alpha.den,
    ;
    assert(s <= p ==> s * d <= a <= p * d) by (nonlinear_arith)
        requires
            a == alpha.num * s + (alpha.den - alpha.num) * p,
            d == alpha.den,
            alpha.num <= alpha.den,
    ;
    if p <= s {
        level::lemma_rounded_between(a, d, p as int, s as int);
    }
    if s <= p {
        level::lemma_rounded_between(a, d, s as int, p as int);
    }
}

/// No part of the sample keeps the history, and all of it is the sample.
pub proof fn law_ema_ends(p: i64, s: i64, den: u32)
    requires
        den > 0,
    ensures
        ema(Some(p), Some(s), Share { num: 0, den }) == Some(p),
        ema(Some(p), Some(s), Share { num: den, den }) == Some(s),
{
    let d = den as int;
    assert(0 * s + (d - 0) * p == p * d) by (nonlinear_arith);
    assert(d * s + (d - d) * p == s * d) by (nonlinear_arith);
    level::lemma_rounded_between(p * d, d, p as int, p as int);
    level::lemma_rounded_between(s * d, d, s as int, s as int);
}

/// Averages the values that are available.
pub fn finite_ema(previous: Level, sample: Level, alpha: Share) -> (r: Level)
    requires
        alpha.proper(),
    ensures
        r == ema(previous, sample, alpha),
{
    match (previous, sample) {
        (Some(p), Some(s)) => {
            proof {
                law_ema_lies_between(p, s, alpha);
                assert(-0x1_0000_0000 * 0x8000_0000_0000_0000 <= alpha.num * s <= 0x1_0000_0000
                    * 0x8000_0000_0000_0000) by (nonlinear_arith)
                    requires
                        0 <= alpha.num <= 0x1_0000_0000,
                        -0x8000_0000_0000_0000 <= s <= 0x8000_0000_0000_0000,
                ;
                assert(-0x1_0000_0000 * 0x8000_0000_0000_0000 <= (alpha.den - alpha.num) * p
                    <= 0x1_0000_0000 * 0x8000_0000_0000_0000) by (nonlinear_arith)
                    requires
                        0 <= alpha.den - alpha.num <= 0x1_0000_0000,
                        -0x8000_0000_0000_0000 <= p <= 0x8000_0000_0000_0000,
                ;
            }
            let sum: i128 = (alpha.num as i128) * (s as i128) + ((alpha.den - alpha.num) as i128) * (
            p as i128);
            Some(level::round_div(sum, alpha.den as u128) as i64)
        },
        (None, Some(s)) => Some(s),
        (Some(p), None) => Some(p),
        (None, None) => None,
    }
}

/// A peak that has decayed once.
pub open spec fn decayed(peak: Level, decay: u32) -> Level {
    match peak {
        Some(p) => Some(
            if p - decay < i64::MIN {
                i64::MIN
            } else {
                (p - decay) as i64
            },
        ),
        None => None,
    }
}

/// What a bin averaged before, where its history counts.
pub open spec fn history(level: Level, has_history: bool) -> Level {
    if has_history {
        level
    } else {
        None
    }
}

/// Smooths each bin and lets its peak decay towards the smoothed value. Without
/// history both traces start again from the samples. The peak falls by `decay`
/// micro-decibels on every call.
pub fn average_and_peak(
    samples: &[Level],
    smoothed: &mut Vec<Level>,
    peak: &mut Vec<Level>,
    alpha: Share,
    decay: u32,
    has_history: bool,
)
    requires
        alpha.proper(),
        old(smoothed)@.len() == samples@.len(),
        old(peak)@.len() == samples@.len(),
    ensures
        final(smoothed)@.len() == samples@.len(),
        final(peak)@.len() == samples@.len(),
        forall|i: int|
            0 <= i < samples@.len() ==> #[trigger] final(smoothed)@[i] == ema(
                history(old(smoothed)@[i], has_history),
                samples@[i],
                alpha,
            ),
        forall|i: int|
            0 <= i < samples@.len() ==> #[trigger] final(peak)@[i] == level::higher(
                decayed(history(old(peak)@[i], has_history), decay),
                final(smoothed)@[i],
            ),
{
    let ghost s0 = smoothed@;
    let ghost p0 = peak@;
    let mut i: usize = 0;
    while i < samples.len()
        invariant
            alpha.proper(),
            i <= samples@.len(),
            s0.len() == samples@.len(),
            p0.len() == samples@.len(),
            smoothed@.len() == samples@.len(),
            peak@.len() == samples@.len(),
            forall|k: int|
                0 <= k < i ==> #[trigger] smoothed@[k] == ema(
                    history(s0[k], has_history),
                    samples@[k],
                    alpha,
                ),
            forall|k: int|
                0 <= k < i ==> #[trigger] peak@[k] == level::higher(
                    decayed(history(p0[k], has_history), decay),
                    smoothed@[k],
                ),
            forall|k: int| i <= k < samples@.len() ==> #[trigger] smoothed@[k] == s0[k],
            forall|k: int| i <= k < samples@.len() ==> #[trigger] peak@[k] == p0[k],
        decreases samples@.len() - i,
    {
        let before: Level = if has_history {
            smoothed[i]
        } else {
            None
        };
        let held: Level = if has_history {
            peak[i]
        } else {
            None
        };
        let next: Level = finite_ema(before, samples[i], alpha);
        let fallen: Level = match held {
            Some(p) => Some(
                if p < i64::MIN + decay as i64 {
                    i64::MIN
                } else {
                    p - decay as i64
                },
            ),
            None => None,
        };
        let ghost sm = smoothed@;
        let ghost pk = peak@;
        smoothed.set(i, next);
        peak.set(i, level::max_level(fallen, next));
        assert(smoothed@ == sm.update(i as int, next));
        assert(forall|k: int| 0 <= k < i ==> #[trigger] smoothed@[k] == sm[k]);
        i += 1;
    }
}

/// A peak never lies below the smoothed value it is shown with.
pub proof fn law_peak_stays_above(held: Level, smoothed: Level, decay: u32)
    ensures
        !level::below(level::higher(decayed(held, decay), smoothed), smoothed),
{
}

/// The levels that are available, in the order they came.
pub open spec fn available(values: Seq<Level>) -> Seq<i128>
    decreases values.len(),
{
    if values.len() == 0 {
        Seq::empty()
    } else {
        match values.last() {
            Some(v) => available(values.drop_last()).push(v as i128),
            None => available(values.drop_last()),
        }
    }
}

/// Numbers added up.
pub open spec fn total(s: Seq<i128>) -> int
    decreases s.len(),
{
    if s.len() == 0 {
        0
    } else {
        total(s.drop_last()) + s.last()
    }
}

/// How many of the available levels count as quiet: one part of `fraction` of
/// them, and at least one.
pub open spec fn quiet_count(len: int, fraction: int) -> int {
    let share = if fraction <= 1 {
        len
    } else {
        len / fraction
    };
    if share < 1 {
        1
    } else {
        share
    }
}

/// The mean of the quietest part of the levels.
pub open spec fn quiet_mean(values: Seq<Level>, fraction: int) -> Level {
    let found = available(values);
    if found.len() == 0 {
        None
    } else {
        let n = quiet_count(found.len() as int, fraction);
        Some(level::rounded(total(sort::ascending(found).take(n)), n) as i64)
    }
}

/// The available levels fit in a level.
proof fn lemma_available_bounds(values: Seq<Level>)
    ensures
        forall|i: int|
            0 <= i < available(values).len() ==> i64::MIN <= #[trigger] available(values)[i]
                <= i64::MAX,
        available(values).len() <= values.len(),
    decreases values.len(),
{
    if values.len() > 0 {
        lemma_available_bounds(values.drop_last());
    }
}

/// Averages the quietest fraction of the available levels: as many as there are
/// divided by `fraction`, rounded down, and at least one. A fraction of zero takes
/// them all. Without an available level there is no result.
pub fn quietest_mean(values: &[Level], fraction: usize) -> (r: Level)
    ensures
        r == quiet_mean(values@, fraction as int),
{
    let mut found: Vec<i128> = Vec::new();
    let mut i: usize = 0;
    while i < values.len()
        invariant
            i <= values@.len(),
            found@ == available(values@.take(i as int)),
        decreases values@.len() - i,
    {
        assert(values@.take(i + 1).drop_last() == values@.take(i as int));
        match values[i] {
            Some(v) => found.push(v as i128),
            None => {},
        }
        i += 1;
    }
    assert(values@.take(i as int) == values@);
    if found.len() == 0 {
        return None;
    }
    let share: usize = if fraction <= 1 {
        found.len()
    } else {
        found.len() / fraction
    };
    let count: usize = if share < 1 {
        1
    } else {
        share
    };
    assert(fraction > 1 ==> share <= found@.len()) by (nonlinear_arith)
        requires
            fraction > 1 ==> share == found@.len() / (fraction as nat),
            0 <= found@.len(),
    ;
    let ordered = sort::sorted(found.as_slice());
    proof {
        lemma_available_bounds(values@);
        lemma_same_bounds(found@, ordered@);
    }
    let mut sum: i128 = 0;
    let mut k: usize = 0;
    while k < count
        invariant
            k <= count <= ordered@.len(),
            forall|j: int| 0 <= j < ordered@.len() ==> i64::MIN <= #[trigger] ordered@[j] <= i64::MAX,
            sum == total(ordered@.take(k as int)),
            i64::MIN * k <= sum <= i64::MAX * k,
        decreases count - k,
    {
        assert(ordered@.take(k + 1).drop_last() == ordered@.take(k as int));
        assert(i64::MIN <= ordered@[k as int] <= i64::MAX);
        sum += ordered[k];
        k += 1;
    }
    Some(level::mean_level(sum, count))
}

/// An arrangement has the bounds of what it arranges.
proof fn lemma_same_bounds(a: Seq<i128>, b: Seq<i128>)
    requires
        a.to_multiset() == b.to_multiset(),
        forall|i: int| 0 <= i < a.len() ==> i64::MIN <= #[trigger] a[i] <= i64::MAX,
    ensures
        forall|i: int| 0 <= i < b.len() ==> i64::MIN <= #[trigger] b[i] <= i64::MAX,
{
    assert forall|i: int| 0 <= i < b.len() implies i64::MIN <= #[trigger] b[i] <= i64::MAX by {
        assert(b.contains(b[i]));
        vstd::seq_lib::to_multiset_contains(b, b[i]);
        vstd::seq_lib::to_multiset_contains(a, b[i]);
        assert(a.contains(b[i]));
    }
}

/// The strongest of the available levels.
pub open spec fn strongest_of(values: Seq<Level>) -> Level
    decreases values.len(),
{
    if values.len() == 0 {
        None
    } else {
        level::higher(strongest_of(values.drop_last()), values.last())
    }
}

/// The strongest of the available levels.
pub fn strongest(values: &[Level]) -> (r: Level)
    ensures
        r == strongest_of(values@),
{
    let mut r: Level = None;
    let mut i: usize = 0;
    while i < values.len()
        invariant
            i <= values@.len(),
            r == strongest_of(values@.take(i as int)),
        decreases values@.len() - i,
    {
        assert(values@.take(i + 1).drop_last() == values@.take(i as int));
        r = level::max_level(r, values[i]);
        i += 1;
    }
    assert(values@.take(i as int) == values@);
    r
}

/// The strongest level is one of the levels, and none is above it.
pub proof fn law_strongest_is_strongest(values: Seq<Level>)
    ensures
        forall|i: int| 0 <= i < values.len() ==> !level::below(strongest_of(values), #[trigger] values[i]),
        strongest_of(values) is Some ==> values.contains(strongest_of(values)),
    decreases values.len(),
{
    if values.len() > 0 {
        let head = values.drop_last();
        law_strongest_is_strongest(head);
        assert forall|i: int| 0 <= i < values.len() implies !level::below(
            strongest_of(values),
            #[trigger] values[i],
        ) by {
            if i < head.len() {
                assert(head[i] == values[i]);
            }
        }
        if strongest_of(values) is Some {
            if strongest_of(values) == values.last() {
                assert(values[values.len() - 1] == strongest_of(values));
            } else {
                let i = choose|i: int| 0 <= i < head.len() && head[i] == strongest_of(head);
                assert(values[i] == strongest_of(values));
            }
        }
    }
}

/// A sum does not depend on the order: it is at least as many times the least, and at
/// most as many times the greatest.
proof fn lemma_total_between(s: Seq<i128>, low: int, high: int)
    requires
        forall|i: int| 0 <= i < s.len() ==> low <= #[trigger] s[i] <= high,
    ensures
        low * s.len() <= total(s) <= high * s.len(),
    decreases s.len(),
{
    if s.len() > 0 {
        let head = s.drop_last();
        assert forall|i: int| 0 <= i < head.len() implies low <= #[trigger] head[i] <= high by {
            assert(head[i] == s[i]);
        }
        lemma_total_between(head, low, high);
        assert(low <= s[s.len() - 1] <= high);
        assert(low * s.len() == low * head.len() + low && high * s.len() == high * head.len()
            + high) by (nonlinear_arith)
            requires
                s.len() == head.len() + 1,
        ;
    }
}

/// A level that is available is among those that are.
proof fn lemma_available_contains(values: Seq<Level>, i: int)
    requires
        0 <= i < values.len(),
        values[i] is Some,
    ensures
        available(values).contains(values[i]->Some_0 as i128),
    decreases values.len(),
{
    let head = values.drop_last();
    let found = available(values);
    if i == values.len() - 1 {
        assert(found[found.len() - 1] == values[i]->Some_0 as i128);
    } else {
        lemma_available_contains(head, i);
        let k = choose|k: int|
            0 <= k < available(head).len() && available(head)[k] == head[i]->Some_0 as i128;
        assert(found[k] == available(head)[k]);
    }
}

/// The available levels are those that are there, in their order.
proof fn lemma_available_filters(values: Seq<Level>)
    ensures
        available(values) == values.filter(|v: Level| v is Some).map_values(
            |v: Level| v->Some_0 as i128,
        ),
    decreases values.len(),
{
    let there = |v: Level| v is Some;
    let level = |v: Level| v->Some_0 as i128;
    reveal(Seq::filter);
    if values.len() == 0 {
        assert(available(values) == values.filter(there).map_values(level));
    } else {
        let head = values.drop_last();
        lemma_available_filters(head);
        let f = head.filter(there);
        assert(values.filter(there) == if values.last() is Some {
            f.push(values.last())
        } else {
            f
        });
        assert(f.push(values.last()).map_values(level) == f.map_values(level).push(
            level(values.last()),
        ));
    }
}

/// Adding up one by one is adding up.
proof fn lemma_total_folds(s: Seq<i128>)
    ensures
        total(s) == s.fold_left(0int, |a: int, v: i128| a + v),
    decreases s.len(),
{
    if s.len() > 0 {
        lemma_total_folds(s.drop_last());
    }
}

/// The quiet mean is the mean of the quietest levels: with the available ones in
/// ascending order, of as many from the bottom as the fraction makes of them, and at
/// least of one, to the nearest micro-decibel. Where none is available there is none.
pub proof fn law_quiet_mean_is_of_the_quietest(
    values: Seq<Level>,
    fraction: int,
    ordered: Seq<i128>,
    count: int,
)
    requires
        ordered.to_multiset() == values.filter(|v: Level| v is Some).map_values(
            |v: Level| v->Some_0 as i128,
        ).to_multiset(),
        forall|i: int, j: int| 0 <= i < j < ordered.len() ==> ordered[i] <= ordered[j],
        fraction > 1,
        1 <= count,
        count == 1 || count * fraction <= ordered.len(),
        (count + 1) * fraction > ordered.len(),
    ensures
        ordered.len() == 0 ==> quiet_mean(values, fraction) is None,
        ordered.len() > 0 ==> {
            let sum = ordered.take(count).fold_left(0int, |a: int, v: i128| a + v);
            quiet_mean(values, fraction) matches Some(m) && -count <= 2 * (m * count - sum)
                <= count
        },
{
    lemma_available_filters(values);
    let found = available(values);
    found.to_multiset_ensures();
    ordered.to_multiset_ensures();
    assert(found.len() == ordered.len());
    if found.len() > 0 {
        sort::lemma_ascending_is_unique(found, ordered);
        let len = ordered.len() as int;
        let share = len / fraction;
        vstd::arithmetic::div_mod::lemma_fundamental_div_mod(len, fraction);
        vstd::arithmetic::div_mod::lemma_mod_bound(len, fraction);
        assert(quiet_count(len, fraction) == count) by {
            assert(share <= count) by (nonlinear_arith)
                requires
                    len == fraction * share + len % fraction,
                    0 <= len % fraction,
                    (count + 1) * fraction > len,
                    fraction > 1,
            ;
            if count > 1 {
                assert(share >= count) by (nonlinear_arith)
                    requires
                        len == fraction * share + len % fraction,
                        len % fraction < fraction,
                        count * fraction <= len,
                        fraction > 1,
                ;
            }
        }
        let part = ordered.take(count);
        assert(count <= len) by (nonlinear_arith)
            requires
                count == 1 || count * fraction <= len,
                fraction > 1,
                len >= 1,
                count >= 1,
        ;
        lemma_total_folds(part);
        level::law_rounded_is_nearest(total(part), count);
        lemma_available_bounds(values);
        lemma_same_bounds(found, ordered);
        lemma_total_between(part, i64::MIN as int, i64::MAX as int);
        level::lemma_rounded_between(total(part), count, i64::MIN as int, i64::MAX as int);
    }
}

/// The quiet mean is no higher than the strongest level.
pub proof fn law_quiet_mean_is_no_higher_than_the_strongest(
    values: Seq<Level>,
    fraction: int,
    i: int,
)
    requires
        0 <= i < values.len(),
        values[i] is Some,
    ensures
        quiet_mean(values, fraction) matches Some(floor) && strongest_of(values) matches Some(top)
            && floor <= top,
{
    let found = available(values);
    lemma_available_contains(values, i);
    law_strongest_is_strongest(values);
    assert(!level::below(strongest_of(values), values[i]));
    let top = strongest_of(values)->Some_0 as int;
    let ordered = sort::ascending(found);
    sort::lemma_ascending(found);
    lemma_available_bounds(values);
    lemma_available_filters(values);
    assert forall|k: int| 0 <= k < ordered.len() implies i64::MIN <= #[trigger] ordered[k]
        <= top by {
        assert(ordered.contains(ordered[k]));
        vstd::seq_lib::to_multiset_contains(ordered, ordered[k]);
        vstd::seq_lib::to_multiset_contains(found, ordered[k]);
        let j = choose|j: int| 0 <= j < found.len() && found[j] == ordered[k];
        lemma_available_below(values, top, j);
        assert(i64::MIN <= found[j]);
    }
    let n = quiet_count(found.len() as int, fraction);
    assert(1 <= n <= found.len()) by {
        if fraction > 1 {
            assert(found.len() as int / fraction <= found.len()) by (nonlinear_arith)
                requires
                    fraction > 1,
                    found.len() >= 0,
            ;
        }
    }
    let part = ordered.take(n);
    lemma_total_between(part, i64::MIN as int, top);
    level::lemma_rounded_between(total(part), n, i64::MIN as int, top);
}

/// No available level is above the strongest.
proof fn lemma_available_below(values: Seq<Level>, top: int, j: int)
    requires
        forall|i: int|
            0 <= i < values.len() ==> (#[trigger] values[i] matches Some(v) ==> v <= top),
        0 <= j < available(values).len(),
    ensures
        available(values)[j] <= top,
    decreases values.len(),
{
    let head = values.drop_last();
    assert forall|i: int| 0 <= i < head.len() implies (#[trigger] head[i] matches Some(v) ==> v
        <= top) by {
        assert(head[i] == values[i]);
    }
    if j < available(head).len() {
        lemma_available_below(head, top, j);
    } else {
        assert(values[values.len() - 1] == values.last());
    }
}

} // verus!
