//! What the panels show, before it is drawn.

pub mod buffer;
pub mod cells;
pub mod options;
pub mod recall;
pub mod stem;
pub mod view;

use crate::text;
use vstd::prelude::*;

verus! {

/// The colour of a piece of text, as a theme names it.
#[derive(Clone, Copy, Debug, PartialEq, Eq, Structural)]
pub enum Tone {
    Plain,
    Label,
    Value,
    ValueHi,
    BorderDim,
    BorderAccent,
    StatusOk,
    StatusWarn,
    StatusCrit,
    Stale,
}

/// A stretch of text in one colour.
pub struct Piece {
    pub text: String,
    pub tone: Tone,
    pub bold: bool,
}

/// A piece as its text, its colour and its weight.
pub type Shown = (Seq<char>, Tone, bool);

impl Piece {
    pub open spec fn shown(self) -> Shown {
        (self.text@, self.tone, self.bold)
    }

    pub fn new(t: &[char], tone: Tone, bold: bool) -> (p: Self)
        ensures
            p.shown() == (t@, tone, bold),
    {
        Piece { text: text::from_chars(t), tone, bold }
    }
}

/// A row as its pieces.
pub open spec fn row_shown(row: Seq<Piece>) -> Seq<Shown> {
    row.map_values(|p: Piece| p.shown())
}

/// Rows as their pieces.
pub open spec fn rows_shown(rows: Seq<Vec<Piece>>) -> Seq<Seq<Shown>> {
    rows.map_values(|r: Vec<Piece>| row_shown(r@))
}

/// A row of one piece.
pub fn single(t: &[char], tone: Tone, bold: bool) -> (row: Vec<Piece>)
    ensures
        row_shown(row@) == seq![(t@, tone, bold)],
{
    let mut row: Vec<Piece> = Vec::new();
    row.push(Piece::new(t, tone, bold));
    assert(row_shown(row@) == seq![(t@, tone, bold)]);
    row
}

/// Appends a row.
pub fn push_row(rows: &mut Vec<Vec<Piece>>, row: Vec<Piece>)
    ensures
        rows_shown(final(rows)@) == rows_shown(old(rows)@).push(row_shown(row@)),
{
    let ghost before = rows@;
    rows.push(row);
    assert(rows_shown(rows@) == rows_shown(before).push(row_shown(row@)));
}

} // verus!
