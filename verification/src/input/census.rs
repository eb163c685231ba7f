//! The keys of the census table.

use crate::input::Key;
use vstd::prelude::*;

verus! {

/// What a key does to the census table.
#[derive(Clone, Copy, Debug, PartialEq, Eq, Structural)]
pub enum CensusAction {
    /// Move the cursor through the ordering.
    MoveUp,
    MoveDown,
    /// Order by the next column.
    CycleSort,
    /// Turn the order around.
    Reverse,
    /// The key is not the table's.
    FallThrough,
}

/// What a key means to the census table.
pub open spec fn census_action(key: Key) -> CensusAction {
    match key {
        Key::Up => CensusAction::MoveUp,
        Key::Down => CensusAction::MoveDown,
        Key::Char(c) => if c == 's' {
            CensusAction::CycleSort
        } else if c == 'r' {
            CensusAction::Reverse
        } else {
            CensusAction::FallThrough
        },
        _ => CensusAction::FallThrough,
    }
}

/// The census table: move the cursor, change what orders it.
pub fn net_census(key: Key) -> (a: CensusAction)
    ensures
        a == census_action(key),
{
    match key {
        Key::Up => CensusAction::MoveUp,
        Key::Down => CensusAction::MoveDown,
        Key::Char(c) => if c == 's' {
            CensusAction::CycleSort
        } else if c == 'r' {
            CensusAction::Reverse
        } else {
            CensusAction::FallThrough
        },
        _ => CensusAction::FallThrough,
    }
}

} // verus!
