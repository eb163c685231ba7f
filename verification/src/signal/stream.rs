//! Continuity of a feed of sample blocks: does a block continue the last one,
//! and how many never arrived.

use vstd::prelude::*;

verus! {

/// What is known of a block before its samples are looked at.
#[derive(Clone, Copy, Debug, PartialEq, Eq, Structural)]
pub struct BlockPlan {
    /// The block follows the previous one with nothing missing between them.
    pub contiguous: bool,
    /// How many blocks were lost since the last one that arrived, at least.
    pub dropped: u64,
}

/// How far a counter that wraps has moved from `from` to `to`.
pub open spec fn moved(from: u64, to: u64) -> int {
    if to >= from {
        to - from
    } else {
        to - from + 0x1_0000_0000_0000_0000
    }
}

/// The blocks lost on the way, by their numbers.
pub open spec fn lost_on_the_way(seq: u64, drop_ref: Option<u64>) -> int {
    match drop_ref {
        Some(prev) => if moved(prev, seq) == 0 {
            0
        } else {
            moved(prev, seq) - 1
        },
        None => 0,
    }
}

/// Reads the number of a block and what the driver said of it. Either a missing
/// number or samples lost before the block means that it does not continue the
/// last one. Without a reference no number is missing; samples the driver lost
/// count as one block, the least they can be.
pub fn plan_block(seq: u64, gap_before: bool, last_seq: u64, drop_ref: Option<u64>) -> (p: BlockPlan)
    ensures
        p.contiguous == (!gap_before && moved(last_seq, seq) == 1),
        p.dropped == lost_on_the_way(seq, drop_ref) + if gap_before {
            1int
        } else {
            0int
        },
{
    let lost: u64 = match drop_ref {
        Some(prev) => {
            let distance: u64 = seq.wrapping_sub(prev);
            assert(distance == moved(prev, seq));
            if distance == 0 {
                0
            } else {
                distance - 1
            }
        },
        None => 0,
    };
    let driver: u64 = if gap_before {
        1
    } else {
        0
    };
    BlockPlan { contiguous: !gap_before && seq == last_seq.wrapping_add(1), dropped: lost + driver }
}

/// Blocks that arrive one after the other lose nothing, also where the counter
/// wraps.
pub proof fn law_successor_loses_nothing(prev: u64)
    ensures
        ({
            let next = if prev == u64::MAX {
                0
            } else {
                (prev + 1) as u64
            };
            moved(prev, next) == 1 && lost_on_the_way(next, Some(prev)) == 0
        }),
{
}

/// A counter that wraps moves by as many as it is counted up, and by fewer than it has
/// values.
pub proof fn law_a_counter_moves_as_far_as_it_is_counted(from: u64, to: u64)
    ensures
        0 <= moved(from, to) < 0x1_0000_0000_0000_0000,
        to == from + moved(from, to) || to + 0x1_0000_0000_0000_0000 == from + moved(from, to),
        lost_on_the_way(to, None) == 0,
        from != to ==> lost_on_the_way(to, Some(from)) == moved(from, to) - 1,
        from == to ==> lost_on_the_way(to, Some(from)) == 0,
{
}

} // verus!
