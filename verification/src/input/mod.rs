//! What the keys do.

pub mod census;
pub mod export;
pub mod menu;
pub mod plots;

use vstd::prelude::*;

verus! {

/// A key, as far as the panels tell keys apart.
#[derive(Clone, Copy, Debug, PartialEq, Eq, Structural)]
pub enum Key {
    Left,
    Right,
    Up,
    Down,
    Tab,
    BackTab,
    Enter,
    Esc,
    Char(char),
    Other,
}

} // verus!
