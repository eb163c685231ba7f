//! Streaming decimation: which windows of a stream a filter is applied to, across
//! block boundaries and without a seam.
//!
//! The kernel and the arithmetic of the samples are the caller's; a sample here
//! is anything that can be copied.

use vstd::prelude::*;

verus! {

/// How much is left for windows of `n` samples from `start` on.
pub open spec fn room(len: int, n: int, start: int) -> int {
    if start + n > len {
        0
    } else {
        len - start
    }
}

/// The windows of `n` samples that start at `start` and every `d` samples after
/// it, as far as the samples go.
pub open spec fn windows_of<T>(buf: Seq<T>, n: int, d: int, start: int) -> Seq<Seq<T>>
    decreases room(buf.len() as int, n, start),
    when n > 0 && d > 0
{
    if start + n > buf.len() {
        Seq::empty()
    } else {
        seq![buf.subrange(start, start + n)] + windows_of(buf, n, d, start + d)
    }
}

/// Where the first window starts that `len` samples do not fill.
pub open spec fn next_start(len: int, n: int, d: int, start: int) -> int
    decreases room(len, n, start),
    when n > 0 && d > 0
{
    if start + n > len {
        start
    } else {
        next_start(len, n, d, start + d)
    }
}

/// Copies samples behind others.
pub fn extend_with<T: Copy>(out: &mut Vec<T>, more: &[T])
    ensures
        final(out)@ == old(out)@ + more@,
{
    let ghost before = out@;
    let mut i: usize = 0;
    assert(before + more@.take(0) == before);
    while i < more.len()
        invariant
            i <= more@.len(),
            out@ == before + more@.take(i as int),
        decreases more@.len() - i,
    {
        assert(before + more@.take(i + 1) == (before + more@.take(i as int)).push(more@[i as int]));
        out.push(more[i]);
        i += 1;
    }
    assert(more@.take(i as int) == more@);
}

/// The samples from an index on.
pub fn copied_from<T: Copy>(samples: &[T], from: usize) -> (out: Vec<T>)
    requires
        from <= samples@.len(),
    ensures
        out@ == samples@.skip(from as int),
{
    let mut out: Vec<T> = Vec::new();
    let mut i: usize = from;
    while i < samples.len()
        invariant
            from <= i <= samples@.len(),
            out@ == samples@.subrange(from as int, i as int),
        decreases samples@.len() - i,
    {
        assert(samples@.subrange(from as int, i + 1) == samples@.subrange(
            from as int,
            i as int,
        ).push(samples@[i as int]));
        out.push(samples[i]);
        i += 1;
    }
    assert(samples@.subrange(from as int, i as int) == samples@.skip(from as int));
    out
}

/// The windows one block completes: stretches of as many samples as the filter
/// has taps.
pub struct Windows<T> {
    pub samples: Vec<T>,
    pub starts: Vec<usize>,
}

impl<T> Windows<T> {
    /// The windows themselves.
    pub open spec fn shown(self, n: int) -> Seq<Seq<T>> {
        Seq::new(
            self.starts@.len(),
            |i: int| self.samples@.subrange(self.starts@[i] as int, self.starts@[i] + n),
        )
    }
}

/// A decimating filter's state between blocks.
pub struct StreamingDecimator<T> {
    pub taps: usize,
    pub d: usize,
    /// Samples kept so that the next window can see its whole history.
    pub tail: Vec<T>,
    /// Where the next window starts in them.
    pub phase: usize,
}

impl<T: Copy> StreamingDecimator<T> {
    pub open spec fn valid(self) -> bool {
        self.d > 0
    }

    /// The windows that further samples complete.
    pub open spec fn windows_with(self, input: Seq<T>) -> Seq<Seq<T>> {
        windows_of(self.tail@ + input, self.taps as int, self.d as int, self.phase as int)
    }

    /// The windows that a block gives. A filter without taps gives none, and neither
    /// does an empty block.
    pub open spec fn given_by(self, input: Seq<T>) -> Seq<Seq<T>> {
        if self.taps == 0 || input.len() == 0 {
            Seq::empty()
        } else {
            self.windows_with(input)
        }
    }

    /// The state after a block.
    pub open spec fn follows(self, before: Self, input: Seq<T>) -> bool {
        let buf = before.tail@ + input;
        let n = before.taps as int;
        &&& self.taps == before.taps
        &&& self.d == before.d
        &&& if n == 0 || input.len() == 0 {
            self.tail@ == before.tail@ && self.phase == before.phase
        } else if buf.len() < n {
            self.tail@ == buf && self.phase == before.phase
        } else {
            let next = next_start(buf.len() as int, n, before.d as int, before.phase as int);
            let used = if next < buf.len() {
                next
            } else {
                buf.len() as int
            };
            self.tail@ == buf.skip(used) && self.phase == next - used
        }
    }

    /// A filter of so many taps that keeps every `d`th window.
    pub fn new(taps: usize, d: usize) -> (s: Self)
        ensures
            s.valid(),
            s.taps == taps,
            s.d == if d == 0 {
                1
            } else {
                d
            },
            s.tail@.len() == 0,
            s.phase == 0,
    {
        StreamingDecimator {
            taps,
            d: if d == 0 {
                1
            } else {
                d
            },
            tail: Vec::new(),
            phase: 0,
        }
    }

    /// Forgets the carried state. The next block starts a fresh run.
    pub fn reset(&mut self)
        ensures
            final(self).taps == old(self).taps,
            final(self).d == old(self).d,
            final(self).tail@.len() == 0,
            final(self).phase == 0,
    {
        self.tail = Vec::new();
        self.phase = 0;
    }

    /// Takes a block, and says which windows it completes. A block that is
    /// shorter than the filter carries forward.
    pub fn process(&mut self, input: &[T]) -> (out: Windows<T>)
        requires
            old(self).valid(),
            old(self).tail@.len() + input@.len() + old(self).d <= usize::MAX,
        ensures
            final(self).valid(),
            final(self).follows(*old(self), input@),
            out.shown(old(self).taps as int) == old(self).given_by(input@),
    {
        let n: usize = self.taps;
        let mut starts: Vec<usize> = Vec::new();
        if n == 0 || input.len() == 0 {
            return Windows { samples: Vec::new(), starts };
        }
        let ghost before = *self;
        let mut buf: Vec<T> = copied_from(self.tail.as_slice(), 0);
        extend_with(&mut buf, input);
        assert(buf@ == before.tail@ + input@);
        if buf.len() < n {
            let tail = copied_from(buf.as_slice(), 0);
            assert(tail@ == buf@);
            self.tail = tail;
            let out = Windows { samples: buf, starts };
            assert(out.shown(n as int) == before.windows_with(input@));
            return out;
        }
        let mut start: usize = self.phase;
        let len: usize = buf.len();
        let ghost all = windows_of(buf@, n as int, self.d as int, start as int);
        while start <= len - n
            invariant
                self.d > 0,
                0 < n <= len,
                len == buf@.len(),
                len + self.d <= usize::MAX,
                forall|i: int| 0 <= i < starts@.len() ==> #[trigger] starts@[i] + n <= len,
                all == Seq::new(
                    starts@.len(),
                    |i: int| buf@.subrange(starts@[i] as int, starts@[i] + n),
                ) + windows_of(buf@, n as int, self.d as int, start as int),
                next_start(len as int, n as int, self.d as int, start as int) == next_start(
                    len as int,
                    n as int,
                    self.d as int,
                    before.phase as int,
                ),
                start <= len - n || starts@.len() > 0 || start == before.phase,
            decreases room(len as int, n as int, start as int),
        {
            let ghost old_starts = starts@;
            let ghost shown = Seq::new(
                old_starts.len(),
                |i: int| buf@.subrange(old_starts[i] as int, old_starts[i] + n),
            );
            starts.push(start);
            proof {
                let w = buf@.subrange(start as int, start + n);
                let more = Seq::new(
                    starts@.len(),
                    |i: int| buf@.subrange(starts@[i] as int, starts@[i] + n),
                );
                assert(more == shown.push(w));
                let rest = windows_of(buf@, n as int, self.d as int, start + self.d);
                assert(shown + (seq![w] + rest) == shown.push(w) + rest);
            }
            start = start + self.d;
        }
        let used: usize = if start < len {
            start
        } else {
            len
        };
        self.tail = copied_from(buf.as_slice(), used);
        self.phase = start - used;
        let out = Windows { samples: buf, starts };
        assert(out.shown(n as int) == before.windows_with(input@));
        out
    }
}

/// More samples add windows behind those there were.
proof fn lemma_more_samples<T>(buf: Seq<T>, more: Seq<T>, n: int, d: int, start: int)
    requires
        n > 0,
        d > 0,
        start >= 0,
    ensures
        windows_of(buf + more, n, d, start) == windows_of(buf, n, d, start) + windows_of(
            buf + more,
            n,
            d,
            next_start(buf.len() as int, n, d, start),
        ),
    decreases room(buf.len() as int, n, start),
{
    if start + n <= buf.len() {
        lemma_more_samples(buf, more, n, d, start + d);
        assert((buf + more).subrange(start, start + n) == buf.subrange(start, start + n));
        let w = buf.subrange(start, start + n);
        let a = windows_of(buf, n, d, start + d);
        let b = windows_of(buf + more, n, d, next_start(buf.len() as int, n, d, start + d));
        assert(seq![w] + (a + b) == (seq![w] + a) + b);
    } else {
        let all = windows_of(buf + more, n, d, start);
        assert(Seq::<Seq<T>>::empty() + all == all);
    }
}

/// Samples before the first window do not matter.
proof fn lemma_skipped<T>(buf: Seq<T>, n: int, d: int, start: int, c: int)
    requires
        n > 0,
        d > 0,
        0 <= c <= start,
        c <= buf.len(),
    ensures
        windows_of(buf, n, d, start) == windows_of(buf.skip(c), n, d, start - c),
    decreases room(buf.len() as int, n, start),
{
    if start + n <= buf.len() {
        lemma_skipped(buf, n, d, start + d, c);
        assert(buf.skip(c).subrange(start - c, start - c + n) == buf.subrange(start, start + n));
    }
}

/// The next start is not before the first.
proof fn lemma_next_start(len: int, n: int, d: int, start: int)
    requires
        n > 0,
        d > 0,
    ensures
        next_start(len, n, d, start) >= start,
        next_start(len, n, d, start) + n > len,
    decreases room(len, n, start),
{
    if start + n <= len {
        lemma_next_start(len, n, d, start + d);
    }
}

/// Feeding in pieces gives what one long block gives, wherever the pieces are
/// cut: the windows of the first piece followed by those of the second are the
/// windows of both. So it is with any number of pieces, whatever their lengths.
pub proof fn law_pieces_match_the_whole<T: Copy>(
    before: StreamingDecimator<T>,
    after: StreamingDecimator<T>,
    a: Seq<T>,
    b: Seq<T>,
)
    requires
        before.valid(),
        after.follows(before, a),
    ensures
        before.given_by(a + b) == before.given_by(a) + after.given_by(b),
{
    if before.taps == 0 {
    } else if a.len() == 0 {
        assert(a + b == b);
        assert(after.tail@ + b == before.tail@ + b);
    } else if b.len() == 0 {
        assert(a + b == a);
    } else {
        lemma_pieces(before, after, a, b);
    }
}

proof fn lemma_pieces<T: Copy>(
    before: StreamingDecimator<T>,
    after: StreamingDecimator<T>,
    a: Seq<T>,
    b: Seq<T>,
)
    requires
        before.valid(),
        before.taps > 0,
        after.follows(before, a),
        a.len() > 0,
    ensures
        before.windows_with(a + b) == before.windows_with(a) + after.windows_with(b),
{
    let n = before.taps as int;
    let d = before.d as int;
    let buf = before.tail@ + a;
    assert(before.tail@ + (a + b) == buf + b);
    lemma_more_samples(buf, b, n, d, before.phase as int);
    let next = next_start(buf.len() as int, n, d, before.phase as int);
    lemma_next_start(buf.len() as int, n, d, before.phase as int);
    if buf.len() < n {
        assert(next == before.phase);
    } else {
        let used = if next < buf.len() {
            next
        } else {
            buf.len() as int
        };
        lemma_skipped(buf + b, n, d, next, used);
        assert((buf + b).skip(used) == buf.skip(used) + b);
    }
}

/// A reset filter is a new filter.
pub proof fn law_reset_is_a_fresh_run<T: Copy>(
    used: StreamingDecimator<T>,
    fresh: StreamingDecimator<T>,
    x: Seq<T>,
)
    requires
        used.taps == fresh.taps,
        used.d == fresh.d,
        used.tail@.len() == 0 && fresh.tail@.len() == 0,
        used.phase == 0 && fresh.phase == 0,
    ensures
        used.given_by(x) == fresh.given_by(x),
{
    assert(used.tail@ + x == fresh.tail@ + x);
}

/// The windows lie `d` samples apart, each of as many samples as the filter has taps.
pub proof fn law_windows_lie_evenly<T>(buf: Seq<T>, n: int, d: int, start: int, k: int)
    requires
        n > 0,
        d > 0,
        start >= 0,
        0 <= k < windows_of(buf, n, d, start).len(),
    ensures
        start + k * d + n <= buf.len(),
        windows_of(buf, n, d, start)[k] == buf.subrange(start + k * d, start + k * d + n),
    decreases k,
{
    if k > 0 {
        law_windows_lie_evenly(buf, n, d, start + d, k - 1);
        assert(start + d + (k - 1) * d == start + k * d) by (nonlinear_arith);
    } else {
        assert(0 * d == 0);
    }
}

/// No window is left out: the one after the last would reach past the samples.
pub proof fn law_no_window_is_left_out<T>(buf: Seq<T>, n: int, d: int, start: int)
    requires
        n > 0,
        d > 0,
        start >= 0,
    ensures
        start + windows_of(buf, n, d, start).len() * d + n > buf.len(),
    decreases room(buf.len() as int, n, start),
{
    let all = windows_of(buf, n, d, start).len() as int;
    if start + n <= buf.len() {
        law_no_window_is_left_out(buf, n, d, start + d);
        assert(start + d + (all - 1) * d == start + all * d) by (nonlinear_arith);
    } else {
        assert(0 * d == 0);
    }
}

} // verus!
