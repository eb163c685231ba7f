//! The tuning memories: which are set, which is tuned, and whether a signal
//! stands where they point.

use crate::input::plots;
use crate::level::Level;
use crate::state::waterfall::{FftFrame, MAX_BINS};
use crate::text;
use crate::ui;
use crate::ui::{Piece, Shown, Tone};
use vstd::prelude::*;

verus! {

/// How near a peak has to be to count as the signal of a memory.
pub const NEAR_HZ: u64 = 250_000;

/// How far above the noise a signal is strong.
pub const STRONG: i64 = 20_000_000;

/// A peak of the spectrum.
#[derive(Clone, Copy, Debug, PartialEq, Eq, Structural)]
pub struct Peak {
    pub hz: u64,
    pub level: i64,
}

/// What stands at the frequency of a memory.
#[derive(Clone, Copy, Debug, PartialEq, Eq, Structural)]
pub enum Pip {
    Strong,
    Close,
    Quiet,
}

impl Pip {
    pub open spec fn word(self) -> Seq<char> {
        match self {
            Pip::Strong => "\u{28ff}\u{2847}"@,
            Pip::Close => "\u{2809}\u{2801}"@,
            Pip::Quiet => "\u{b7}"@,
        }
    }

    pub fn glyph(self) -> (t: &'static str)
        ensures
            t@ == self.word(),
    {
        match self {
            Pip::Strong => "\u{28ff}\u{2847}",
            Pip::Close => "\u{2809}\u{2801}",
            Pip::Quiet => "\u{b7}",
        }
    }
}

/// Whether a peak is near a frequency.
pub open spec fn near(p: Peak, hz: u64) -> bool {
    plots::apart(p.hz, hz) < 250_000
}

/// Whether a level is well above the noise. Without a floor every level is.
pub open spec fn stands_out(level: i64, floor: Level) -> bool {
    match floor {
        Some(f) => level > f + 20_000_000,
        None => true,
    }
}

/// Whether a frequency lies on the axis of a frame.
pub open spec fn on_axis(frame: FftFrame, hz: u64) -> bool {
    let n = frame.bins@.len() as int;
    let w = frame.bin_axis.slice(
        frame.axis_start_half_hz as int,
        frame.sample_rate_hz as int,
        n,
        1,
    );
    &&& frame.has_axis()
    &&& w.edges.left_num <= hz * w.edges.den <= w.edges.left_num + w.edges.span_num
}

/// What a memory shows: nothing while the spectrum is old or does not reach its
/// frequency.
pub open spec fn pip_of(hz: u64, frame: Option<FftFrame>, peaks: Seq<Peak>, stale: bool) -> Option<
    Pip,
> {
    match frame {
        Some(fr) if !stale && on_axis(fr, hz) => Some(
            if exists|i: int|
                0 <= i < peaks.len() && near(#[trigger] peaks[i], hz) && stands_out(
                    peaks[i].level,
                    fr.noise_floor,
                ) {
                Pip::Strong
            } else if exists|i: int| 0 <= i < peaks.len() && near(#[trigger] peaks[i], hz) {
                Pip::Close
            } else {
                Pip::Quiet
            },
        ),
        _ => None,
    }
}

/// Whether a memory's frequency has a signal in the spectrum that was captured,
/// wherever the radio is tuned by now.
pub fn recall_pip(hz: u64, frame: &Option<FftFrame>, peaks: &[Peak], stale: bool) -> (r: Option<Pip>)
    requires
        hz <= i64::MAX,
        frame matches Some(f) ==> f.bins@.len() <= MAX_BINS,
    ensures
        r == pip_of(hz, *frame, peaks@, stale),
{
    if stale {
        return None;
    }
    let fr = match frame {
        Some(f) => f,
        None => return None,
    };
    let w = match fr.window(1) {
        Some(w) => w,
        None => return None,
    };
    proof {
        let n = fr.bins@.len() as int;
        assert(n / 1 == n);
        assert(fr.bin_axis.visible(n, 1) == n);
        let v = fr.bin_axis.intervals(n);
        assert(0 < v * fr.sample_rate_hz <= 0x1000_0000 * 0x8000_0000_0000_0000) by (nonlinear_arith)
            requires
                0 < v <= 0x1000_0000,
                0 < fr.sample_rate_hz <= 0x8000_0000_0000_0000,
        ;
    }
    match fr.bin_axis.nearest_bin(w.edges, w.bin_count, Some(hz as i64)) {
        None => return None,
        Some(_) => {},
    }
    let mut close = false;
    let mut strong = false;
    let mut i: usize = 0;
    while i < peaks.len()
        invariant
            i <= peaks@.len(),
            close == exists|k: int| 0 <= k < i && near(#[trigger] peaks@[k], hz),
            strong == exists|k: int|
                0 <= k < i && near(#[trigger] peaks@[k], hz) && stands_out(
                    peaks@[k].level,
                    fr.noise_floor,
                ),
        decreases peaks@.len() - i,
    {
        let p = peaks[i];
        let apart: u64 = if p.hz >= hz {
            p.hz - hz
        } else {
            hz - p.hz
        };
        if apart < NEAR_HZ {
            assert(near(peaks@[i as int], hz));
            close = true;
            let out = match fr.noise_floor {
                Some(f) => p.level as i128 > f as i128 + STRONG as i128,
                None => true,
            };
            if out {
                assert(stands_out(peaks@[i as int].level, fr.noise_floor));
                strong = true;
            }
        }
        i += 1;
    }
    Some(
        if strong {
            Pip::Strong
        } else if close {
            Pip::Close
        } else {
            Pip::Quiet
        },
    )
}

/// A memory that is set, as it is written: its frequency, its band, its pip.
pub struct RecallSlot {
    pub vfo: String,
    pub band: Option<String>,
    pub pip: Option<Pip>,
}

/// The row of a memory.
pub open spec fn slot_row(number: nat, slot: Option<RecallSlot>, active: bool) -> Seq<Shown> {
    match slot {
        None => seq![
            (" "@, Tone::Plain, false),
            (text::decimal(number) + " "@, Tone::BorderDim, false),
            ("\u{2014}"@, Tone::Stale, false),
        ],
        Some(s) => {
            let start = seq![
                (
                    if active {
                        "\u{25b8}"@
                    } else {
                        " "@
                    },
                    Tone::ValueHi,
                    false,
                ),
                (
                    text::decimal(number) + " "@,
                    if active {
                        Tone::ValueHi
                    } else {
                        Tone::Label
                    },
                    false,
                ),
                (
                    s.vfo@,
                    if active {
                        Tone::ValueHi
                    } else {
                        Tone::Value
                    },
                    active,
                ),
            ];
            let banded = match s.band {
                Some(b) => start.push(("  "@ + b@, Tone::BorderAccent, false)),
                None => start,
            };
            match s.pip {
                Some(p) => banded.push(
                    (
                        " "@ + p.word(),
                        if p == Pip::Strong {
                            Tone::ValueHi
                        } else {
                            Tone::BorderDim
                        },
                        false,
                    ),
                ),
                None => banded,
            }
        },
    }
}

fn piece(t: &str, tone: Tone, bold: bool) -> (p: Piece)
    ensures
        p.shown() == (t@, tone, bold),
{
    let chars = text::to_chars(t);
    Piece::new(chars.as_slice(), tone, bold)
}

/// The row of one memory.
fn slot_line(number: u64, slot: &Option<RecallSlot>, active: bool) -> (row: Vec<Piece>)
    ensures
        ui::row_shown(row@) == slot_row(number as nat, *slot, active),
{
    let mut row: Vec<Piece> = Vec::new();
    let mut label: Vec<char> = Vec::new();
    text::push_decimal(&mut label, number);
    text::push_str(&mut label, " ");
    match slot {
        None => {
            row.push(piece(" ", Tone::Plain, false));
            row.push(Piece::new(label.as_slice(), Tone::BorderDim, false));
            row.push(piece("\u{2014}", Tone::Stale, false));
        },
        Some(s) => {
            let mark = if active {
                "\u{25b8}"
            } else {
                " "
            };
            row.push(piece(mark, Tone::ValueHi, false));
            row.push(
                Piece::new(
                    label.as_slice(),
                    if active {
                        Tone::ValueHi
                    } else {
                        Tone::Label
                    },
                    false,
                ),
            );
            row.push(
                piece(
                    s.vfo.as_str(),
                    if active {
                        Tone::ValueHi
                    } else {
                        Tone::Value
                    },
                    active,
                ),
            );
            if let Some(b) = &s.band {
                let mut t: Vec<char> = Vec::new();
                text::push_str(&mut t, "  ");
                text::push_str(&mut t, b.as_str());
                row.push(Piece::new(t.as_slice(), Tone::BorderAccent, false));
            }
            if let Some(p) = s.pip {
                let mut t: Vec<char> = Vec::new();
                text::push_str(&mut t, " ");
                text::push_str(&mut t, p.glyph());
                row.push(
                    Piece::new(
                        t.as_slice(),
                        if p == Pip::Strong {
                            Tone::ValueHi
                        } else {
                            Tone::BorderDim
                        },
                        false,
                    ),
                );
            }
        },
    }
    assert(ui::row_shown(row@) == slot_row(number as nat, *slot, active));
    row
}

/// The memories, one to a row, and a blank row behind them.
pub fn lines(slots: &[Option<RecallSlot>], active: Option<usize>) -> (rows: Vec<Vec<Piece>>)
    requires
        slots@.len() < usize::MAX,
    ensures
        rows@.len() == slots@.len() + 1,
        forall|i: int|
            0 <= i < slots@.len() ==> ui::row_shown((#[trigger] rows@[i])@) == slot_row(
                (i + 1) as nat,
                slots@[i],
                active == Some(i as usize),
            ),
        rows@[slots@.len() as int]@.len() == 0,
{
    let mut rows: Vec<Vec<Piece>> = Vec::new();
    let mut i: usize = 0;
    while i < slots.len()
        invariant
            i <= slots@.len() < usize::MAX,
            slots.len() == slots@.len(),
            rows@.len() == i,
            forall|k: int|
                0 <= k < i ==> ui::row_shown((#[trigger] rows@[k])@) == slot_row(
                    (k + 1) as nat,
                    slots@[k],
                    active == Some(k as usize),
                ),
        decreases slots@.len() - i,
    {
        let on = match active {
            Some(a) => a == i,
            None => false,
        };
        rows.push(slot_line(i as u64 + 1, &slots[i], on));
        i += 1;
    }
    rows.push(Vec::new());
    rows
}

/// A memory is strong where a peak lies within a quarter of a megahertz of it and more
/// than twenty decibels above the noise, close where one lies there at all, and quiet
/// where none does. Where the spectrum is old or does not reach it, nothing is said.
pub proof fn law_a_pip_tells_of_a_peak_near_by(
    hz: u64,
    frame: Option<FftFrame>,
    peaks: Seq<Peak>,
    stale: bool,
    i: int,
)
    requires
        0 <= i < peaks.len(),
        hz - 250_000 < peaks[i].hz < hz + 250_000,
    ensures
        pip_of(hz, frame, peaks, stale) != Some(Pip::Quiet),
        frame matches Some(fr) ==> fr.noise_floor matches Some(floor) ==> peaks[i].level > floor
            + 20_000_000 ==> pip_of(hz, frame, peaks, stale) != Some(Pip::Close),
        stale || frame is None ==> pip_of(hz, frame, peaks, stale) is None,
{
    assert(near(peaks[i], hz));
}

/// Without a peak within a quarter of a megahertz a memory that the spectrum reaches is
/// quiet, whatever stands further away.
pub proof fn law_a_far_peak_is_not_the_memorys(
    hz: u64,
    frame: FftFrame,
    peaks: Seq<Peak>,
)
    requires
        on_axis(frame, hz),
        forall|i: int|
            0 <= i < peaks.len() ==> (#[trigger] peaks[i]).hz + 250_000 <= hz || hz + 250_000
                <= peaks[i].hz,
    ensures
        pip_of(hz, Some(frame), peaks, false) == Some(Pip::Quiet),
{
}

/// A peak near by that does not stand out leaves a memory close, not strong.
pub proof fn law_a_weak_peak_is_not_strong(
    hz: u64,
    frame: FftFrame,
    peaks: Seq<Peak>,
    floor: i64,
)
    requires
        frame.noise_floor == Some(floor),
        forall|i: int|
            0 <= i < peaks.len() ==> (#[trigger] peaks[i]).level <= floor + 20_000_000,
    ensures
        pip_of(hz, Some(frame), peaks, false) != Some(Pip::Strong),
{
}

/// A memory's row tells its number, and whether it is the one that is tuned.
pub proof fn law_a_memory_is_marked_where_it_is_tuned(number: nat, slot: RecallSlot)
    ensures
        ({
            let on = slot_row(number, Some(slot), true);
            let off = slot_row(number, Some(slot), false);
            &&& on.len() == off.len()
            &&& on.len() == 3 + (if slot.band is Some {
                1int
            } else {
                0
            }) + (if slot.pip is Some {
                1int
            } else {
                0
            })
            &&& on[1].0 == off[1].0 && on[1].0 == text::decimal(number).push(' ')
            &&& on[2].0 == slot.vfo@ && off[2].0 == slot.vfo@
            &&& on[2].2 && !off[2].2
            &&& on[0].0 != off[0].0
        }),
{
    reveal_strlit(" ");
    reveal_strlit("\u{25b8}");
    let on = slot_row(number, Some(slot), true);
    assert(text::decimal(number) + " "@ == text::decimal(number).push(' '));
    assert("\u{25b8}"@[0] != " "@[0]);
}

} // verus!
