//! What the band worker keeps from one block of samples to the next, and what it
//! counts.

use crate::signal::stream;
use crate::state::net::NetDecodeHealth;
use vstd::prelude::*;

verus! {

/// What is kept from one block to the next.
#[derive(Clone, Copy, Debug, PartialEq, Eq, Structural)]
pub struct Run {
    pub last_seq: u64,
    /// The number of the last block that arrived, or `None` where no run has
    /// started.
    pub drop_ref: Option<u64>,
    /// Unbroken blocks since the last gap.
    pub blocks: u64,
}

impl Default for Run {
    fn default() -> (run: Self)
        ensures
            run == (Run { last_seq: 0, drop_ref: None, blocks: 0 }),
    {
        Run { last_seq: 0, drop_ref: None, blocks: 0 }
    }
}

/// One block, as far as counting goes.
#[derive(Clone, Copy, Debug, PartialEq, Eq, Structural)]
pub struct Arrival {
    pub seq: u64,
    /// The driver lost samples right before this block.
    pub gap_before: bool,
    /// How many bytes it holds.
    pub bytes: usize,
    /// When it arrived.
    pub now_ms: u64,
    /// Whether the section is still on screen.
    pub open: bool,
}

/// A count with a ceiling.
pub open spec fn counted(a: u64, b: int) -> u64 {
    if a + b > u64::MAX {
        u64::MAX
    } else {
        (a + b) as u64
    }
}

impl Run {
    /// Whether a block interrupts a run: a run has to have started before it can
    /// be interrupted.
    pub open spec fn broken_by(self, a: Arrival) -> bool {
        self.drop_ref is Some && !(!a.gap_before && stream::moved(self.last_seq, a.seq) == 1)
    }

    /// How many blocks were lost before a block, at least.
    pub open spec fn lost_before(self, a: Arrival) -> int {
        stream::lost_on_the_way(a.seq, self.drop_ref) + if a.gap_before {
            1int
        } else {
            0int
        }
    }

    /// The length of the run that a block belongs to.
    pub open spec fn length_with(self, a: Arrival) -> int {
        if self.drop_ref is None || self.broken_by(a) {
            1
        } else {
            self.blocks + 1
        }
    }

    /// The run after a block. Where the section is no longer on screen there is
    /// no run any more.
    pub open spec fn after(self, a: Arrival) -> Run {
        Run {
            last_seq: a.seq,
            drop_ref: if a.open {
                Some(a.seq)
            } else {
                None
            },
            blocks: if a.open {
                self.length_with(a) as u64
            } else {
                0
            },
        }
    }

    /// The counters after a block.
    pub open spec fn counts(self, h: NetDecodeHealth, a: Arrival, pair_bytes: usize) -> NetDecodeHealth {
        NetDecodeHealth {
            blocks_in: counted(h.blocks_in, 1),
            pairs_in: counted(
                h.pairs_in,
                a.bytes as int / if pair_bytes == 0 {
                    1int
                } else {
                    pair_bytes as int
                },
            ),
            gaps: counted(
                h.gaps,
                if self.broken_by(a) {
                    1
                } else {
                    0
                },
            ),
            blocks_lost: counted(h.blocks_lost, self.lost_before(a)),
            run_blocks: self.length_with(a) as u64,
            last_block_ms: Some(a.now_ms),
            ..h
        }
    }

    /// Ends the run because the section was closed. The device goes on counting,
    /// so the next block is far away without one having been lost.
    pub fn suspend(&mut self)
        ensures
            *final(self) == (Run { drop_ref: None, blocks: 0, ..*old(self) }),
    {
        self.drop_ref = None;
        self.blocks = 0;
    }

    /// Counts one block.
    pub fn absorb(&mut self, health: &mut NetDecodeHealth, a: Arrival, pair_bytes: usize)
        requires
            old(self).blocks < u64::MAX,
        ensures
            *final(self) == old(self).after(a),
            *final(health) == old(self).counts(*old(health), a, pair_bytes),
    {
        let started = self.drop_ref.is_some();
        let plan = stream::plan_block(a.seq, a.gap_before, self.last_seq, self.drop_ref);
        self.last_seq = a.seq;
        self.drop_ref = Some(a.seq);
        let pairs: u64 = if pair_bytes == 0 {
            a.bytes as u64
        } else {
            (a.bytes / pair_bytes) as u64
        };
        let broke = started && !plan.contiguous;
        self.blocks = if broke || !started {
            1
        } else {
            self.blocks + 1
        };
        health.blocks_in = health.blocks_in.saturating_add(1);
        health.pairs_in = health.pairs_in.saturating_add(pairs);
        if broke {
            health.gaps = health.gaps.saturating_add(1);
        }
        health.blocks_lost = health.blocks_lost.saturating_add(plan.dropped);
        health.run_blocks = self.blocks;
        health.last_block_ms = Some(a.now_ms);
        if !a.open {
            self.suspend();
        }
    }
}

/// The run after a feed of blocks.
pub open spec fn fed(run: Run, feed: Seq<Arrival>) -> Run
    decreases feed.len(),
{
    if feed.len() == 0 {
        run
    } else {
        fed(run, feed.drop_last()).after(feed.last())
    }
}

/// The counters after a feed of blocks.
pub open spec fn tallied(
    run: Run,
    h: NetDecodeHealth,
    feed: Seq<Arrival>,
    pair_bytes: usize,
) -> NetDecodeHealth
    decreases feed.len(),
{
    if feed.len() == 0 {
        h
    } else {
        fed(run, feed.drop_last()).counts(
            tallied(run, h, feed.drop_last(), pair_bytes),
            feed.last(),
            pair_bytes,
        )
    }
}

/// Opening the section on a radio that is already streaming is no interruption,
/// and loses nothing but what the driver says it lost.
pub proof fn law_first_block_interrupts_nothing(run: Run, h: NetDecodeHealth, a: Arrival, pair_bytes: usize)
    requires
        run.drop_ref is None,
    ensures
        run.counts(h, a, pair_bytes).gaps == h.gaps,
        !a.gap_before ==> run.counts(h, a, pair_bytes).blocks_lost == h.blocks_lost,
        run.counts(h, a, pair_bytes).run_blocks == 1,
{
}

/// Once the section is closed, the jump to the next block is not a loss.
pub proof fn law_closing_is_not_a_loss(
    run: Run,
    h: NetDecodeHealth,
    last: Arrival,
    next: Arrival,
    pair_bytes: usize,
)
    requires
        !last.open,
        !next.gap_before,
    ensures
        ({
            let closed = run.after(last);
            &&& closed.counts(h, next, pair_bytes).gaps == h.gaps
            &&& closed.counts(h, next, pair_bytes).blocks_lost == h.blocks_lost
        }),
{
}

/// A feed in which every block follows the one before it reports no gap, loses
/// nothing, and is one run as long as itself.
pub proof fn law_unbroken_feed(h: NetDecodeHealth, feed: Seq<Arrival>, pair_bytes: usize)
    requires
        0 < feed.len() <= u64::MAX,
        forall|i: int| 0 <= i < feed.len() ==> #[trigger] feed[i].open && !feed[i].gap_before,
        forall|i: int|
            0 < i < feed.len() ==> stream::moved(feed[i - 1].seq, #[trigger] feed[i].seq) == 1,
    ensures
        ({
            let start = Run { last_seq: 0, drop_ref: None, blocks: 0 };
            let t = tallied(start, h, feed, pair_bytes);
            &&& t.gaps == h.gaps
            &&& t.blocks_lost == h.blocks_lost
            &&& t.run_blocks == feed.len()
            &&& fed(start, feed) == (Run {
                last_seq: feed.last().seq,
                drop_ref: Some(feed.last().seq),
                blocks: feed.len() as u64,
            })
        }),
    decreases feed.len(),
{
    let start = Run { last_seq: 0, drop_ref: None, blocks: 0 };
    let head = feed.drop_last();
    let last = feed.last();
    assert(last == feed[feed.len() - 1]);
    if head.len() > 0 {
        assert forall|i: int| 0 <= i < head.len() implies #[trigger] head[i].open
            && !head[i].gap_before by {
            assert(head[i] == feed[i]);
        }
        assert forall|i: int| 0 < i < head.len() implies stream::moved(
            head[i - 1].seq,
            #[trigger] head[i].seq,
        ) == 1 by {
            assert(head[i] == feed[i] && head[i - 1] == feed[i - 1]);
        }
        law_unbroken_feed(h, head, pair_bytes);
        assert(head.last() == feed[feed.len() - 2]);
        assert(stream::moved(feed[feed.len() - 1 - 1].seq, feed[feed.len() - 1].seq) == 1);
    } else {
        assert(fed(start, head) == start);
        assert(tallied(start, h, head, pair_bytes) == h);
    }
}

/// What a block adds to the counters: itself, its whole pairs, an interruption where a run
/// had begun and the block does not follow on its number or the driver lost samples before
/// it, and the blocks whose numbers are missing, with one more for what the driver lost.
/// The run goes on or begins again with it. Nothing else is touched.
pub proof fn law_a_block_is_counted_once(
    run: Run,
    h: NetDecodeHealth,
    a: Arrival,
    pair_bytes: usize,
    last: u64,
)
    requires
        h.blocks_in < u64::MAX,
        h.gaps < u64::MAX,
        h.pairs_in + a.bytes <= u64::MAX,
        run.blocks < u64::MAX,
        run.drop_ref == Some(last),
        run.last_seq == last,
        last <= a.seq,
        h.blocks_lost + (a.seq - last) + 1 <= u64::MAX,
    ensures
        ({
            let t = run.counts(h, a, pair_bytes);
            let next = !a.gap_before && a.seq == last + 1;
            let driver: int = if a.gap_before {
                1
            } else {
                0
            };
            &&& t.blocks_in == h.blocks_in + 1
            &&& pair_bytes > 0 ==> (t.pairs_in - h.pairs_in) * pair_bytes <= a.bytes < (t.pairs_in
                - h.pairs_in + 1) * pair_bytes
            &&& next ==> t.gaps == h.gaps && t.run_blocks == run.blocks + 1
            &&& !next ==> t.gaps == h.gaps + 1 && t.run_blocks == 1
            &&& a.seq > last ==> t.blocks_lost == h.blocks_lost + (a.seq - last - 1) + driver
            &&& a.seq == last ==> t.blocks_lost == h.blocks_lost + driver
            &&& t.last_block_ms == Some(a.now_ms)
            &&& t.refused == h.refused && t.refused_session == h.refused_session
            &&& t.peak_depth == h.peak_depth
            &&& run.after(a).last_seq == a.seq
            &&& a.open ==> run.after(a).drop_ref == Some(a.seq) && run.after(a).blocks
                == t.run_blocks
            &&& !a.open ==> run.after(a).drop_ref is None && run.after(a).blocks == 0
        }),
{
    if pair_bytes > 0 {
        let n = a.bytes as int;
        let d = pair_bytes as int;
        vstd::arithmetic::div_mod::lemma_fundamental_div_mod(n, d);
        vstd::arithmetic::div_mod::lemma_mod_bound(n, d);
        let q = n / d;
        assert(0 <= q <= n && q * d <= n < (q + 1) * d) by (nonlinear_arith)
            requires
                n == d * q + n % d,
                0 <= n % d < d,
                0 <= n,
        ;
    }
}

/// A count goes up by what is counted, and stops at its ceiling.
pub proof fn law_a_count_stops_at_its_ceiling(a: u64, b: int)
    requires
        0 <= b,
    ensures
        a <= counted(a, b),
        a + b <= u64::MAX ==> counted(a, b) == a + b,
        a + b >= u64::MAX ==> counted(a, b) == u64::MAX,
{
}

} // verus!
