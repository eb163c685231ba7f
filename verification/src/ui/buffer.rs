//! The queue between the receiver and the transform: how deep it got, and what it
//! had to throw away.

use crate::text;
use crate::ui;
use crate::ui::{Piece, Shown, Tone};
use crate::units;
use vstd::prelude::*;

verus! {

/// How bad dropped blocks are: none ever is fine, none lately is a warning.
pub open spec fn drop_tone(dropped: u64, session: u64) -> Tone {
    if session == 0 {
        Tone::StatusOk
    } else if dropped == 0 {
        Tone::StatusWarn
    } else {
        Tone::StatusCrit
    }
}

/// The row of dropped blocks. Old figures are not shown.
pub open spec fn drops_row(dropped: u64, session: u64, stale: bool) -> Seq<Shown> {
    if stale {
        seq![
            (" "@, Tone::Plain, false),
            ("Blocks dropped "@, Tone::Label, false),
            ("\u{2014}"@, Tone::Stale, false),
        ]
    } else {
        seq![
            (" "@, Tone::Plain, false),
            ("Blocks dropped "@, Tone::Label, false),
            (text::decimal(dropped as nat), drop_tone(dropped, session), false),
            ("   session "@ + text::decimal(session as nat), Tone::BorderDim, false),
        ]
    }
}

/// The heading of a section, and the note beside it.
#[derive(Clone, Copy, Debug)]
pub struct Heading {
    pub title: &'static str,
    pub note: &'static str,
}

/// A bar with its label and its figure.
pub struct Bar {
    pub label: &'static str,
    /// How far it is filled, in hundred-millionths.
    pub filled: i64,
    pub figure: String,
    pub figure_tone: Tone,
    /// What it looks like empty, and full.
    pub empty_tone: Tone,
    pub full_tone: Tone,
}

/// The panel of the feed.
pub struct Feed {
    pub heading: Heading,
    pub peak: Bar,
    pub drops: Vec<Piece>,
}

/// The row of dropped blocks.
fn drops_line(dropped: u64, session: u64, stale: bool) -> (row: Vec<Piece>)
    ensures
        ui::row_shown(row@) == drops_row(dropped, session, stale),
{
    let mut row: Vec<Piece> = Vec::new();
    let mut t: Vec<char> = Vec::new();
    text::push_str(&mut t, " ");
    row.push(Piece::new(t.as_slice(), Tone::Plain, false));
    let mut t: Vec<char> = Vec::new();
    text::push_str(&mut t, "Blocks dropped ");
    row.push(Piece::new(t.as_slice(), Tone::Label, false));
    if stale {
        let mut t: Vec<char> = Vec::new();
        text::push_str(&mut t, "\u{2014}");
        row.push(Piece::new(t.as_slice(), Tone::Stale, false));
    } else {
        let tone = if session == 0 {
            Tone::StatusOk
        } else if dropped == 0 {
            Tone::StatusWarn
        } else {
            Tone::StatusCrit
        };
        let mut t: Vec<char> = Vec::new();
        text::push_decimal(&mut t, dropped);
        row.push(Piece::new(t.as_slice(), tone, false));
        let mut t: Vec<char> = Vec::new();
        text::push_str(&mut t, "   session ");
        text::push_decimal(&mut t, session);
        row.push(Piece::new(t.as_slice(), Tone::BorderDim, false));
    }
    assert(ui::row_shown(row@) == drops_row(dropped, session, stale));
    row
}

/// The panel: the deepest the queue got, in millionths of a percent and in the colour
/// of that, and the blocks it dropped.
pub fn lines(fill_pct: i64, fill_tone: Tone, dropped: u64, session: u64, stale: bool) -> (feed: Feed)
    ensures
        feed.heading.title@ == "FFT FEED"@,
        feed.heading.note@ == "spectrum queue"@,
        feed.peak.label@ == "queue peak"@,
        feed.peak.filled == fill_pct,
        feed.peak.figure@ == units::whole_decibels(fill_pct) + "%"@,
        feed.peak.figure_tone == fill_tone,
        feed.peak.empty_tone == Tone::StatusOk,
        feed.peak.full_tone == Tone::StatusCrit,
        ui::row_shown(feed.drops@) == drops_row(dropped, session, stale),
{
    let mut t: Vec<char> = Vec::new();
    units::push_whole_decibels(&mut t, fill_pct);
    text::push_str(&mut t, "%");
    assert(t@ == units::whole_decibels(fill_pct) + "%"@);
    Feed {
        heading: Heading { title: "FFT FEED", note: "spectrum queue" },
        peak: Bar {
            label: "queue peak",
            filled: fill_pct,
            figure: text::from_chars(t.as_slice()),
            figure_tone: fill_tone,
            empty_tone: Tone::StatusOk,
            full_tone: Tone::StatusCrit,
        },
        drops: drops_line(dropped, session, stale),
    }
}

/// Blocks are fine where none was ever dropped, critical where one was dropped since the
/// last look, and a warning where one was dropped before that.
pub proof fn law_drops_are_told_by_when_they_were(dropped: u64, session: u64)
    requires
        dropped <= session,
    ensures
        drop_tone(dropped, session) == Tone::StatusOk <==> session == 0,
        drop_tone(dropped, session) == Tone::StatusCrit <==> dropped > 0,
        drop_tone(dropped, session) == Tone::StatusWarn <==> dropped == 0 && session > 0,
{
}

/// Old figures are not shown: the row does not depend on them.
pub proof fn law_old_figures_are_not_shown(a: u64, b: u64, c: u64, d: u64)
    ensures
        drops_row(a, b, true) == drops_row(c, d, true),
        drops_row(a, b, false).len() == 4,
        drops_row(a, b, false)[2].0 == text::decimal(a as nat),
        drops_row(a, b, false)[3].0.skip("   session "@.len() as int) == text::decimal(b as nat),
{
}

} // verus!
