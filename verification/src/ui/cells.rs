//! The waterfall grid: rows of history painted as half blocks, two to a character
//! cell.

use crate::level;
use crate::level::Level;
use crate::state::waterfall::{BinWindow, FftFrame, WaterfallRow, MAX_BINS};
use std::collections::VecDeque;
use vstd::prelude::*;

verus! {

/// The strongest of levels `s` to `e`.
pub open spec fn strongest_in(row: Seq<Level>, s: int, e: int) -> Level
    decreases e - s,
{
    if e <= s {
        None
    } else {
        level::higher(strongest_in(row, s, e - 1), row[e - 1])
    }
}

/// An index no further than the end.
pub open spec fn cut(i: int, n: int) -> int {
    if i < n {
        i
    } else {
        n
    }
}

/// The strongest level of a stretch of a row, as far as the row goes. An empty
/// stretch has none.
pub fn band_max(row: &[Level], start: usize, end: usize) -> (r: Level)
    ensures
        r == strongest_in(
            row@,
            cut(start as int, row@.len() as int),
            cut(end as int, row@.len() as int),
        ),
{
    let s: usize = if start < row.len() {
        start
    } else {
        row.len()
    };
    let e: usize = if end < row.len() {
        end
    } else {
        row.len()
    };
    let mut best: Level = None;
    let mut i: usize = s;
    while i < e
        invariant
            i <= row@.len(),
            e <= row@.len(),
            s <= i,
            i <= e || i == s,
            best == strongest_in(row@, s as int, i as int),
        decreases e - i,
    {
        best = level::max_level(best, row[i]);
        i += 1;
    }
    if e < s {
        assert(strongest_in(row@, s as int, e as int) is None);
    }
    best
}

/// Which bins each column of a plot covers.
pub struct Columns {
    pub window: BinWindow,
    pub cols: usize,
}

impl Columns {
    pub open spec fn valid(self) -> bool {
        &&& 1 <= self.cols <= 0xffff_ffff
        &&& 1 <= self.window.bin_count <= MAX_BINS
        &&& self.window.first_bin + self.window.bin_count <= MAX_BINS
    }

    /// The first bin of a column, inside the window.
    pub open spec fn first_of(self, col: int) -> int {
        let n = self.window.bin_count as int;
        cut(col * n / self.cols as int, n - 1)
    }

    /// The bin after the last one of a column.
    pub open spec fn end_of(self, col: int) -> int {
        let n = self.window.bin_count as int;
        let end = (col + 1) * n / self.cols as int;
        let least = self.first_of(col) + 1;
        cut(
            if end < least {
                least
            } else {
                end
            },
            n,
        )
    }

    /// The columns over a window. There is always one.
    pub fn new(window: BinWindow, cols: usize) -> (c: Self)
        ensures
            c.window == window,
            c.cols == if cols == 0 {
                1
            } else {
                cols
            },
    {
        Columns {
            window,
            cols: if cols == 0 {
                1
            } else {
                cols
            },
        }
    }

    /// The bins a column reads. A column is never empty.
    pub fn range(&self, col: usize) -> (r: (usize, usize))
        requires
            self.valid(),
            col <= 0xffff_ffff,
        ensures
            r.0 == self.window.first_bin + self.first_of(col as int),
            r.1 == self.window.first_bin + self.end_of(col as int),
            self.window.first_bin <= r.0 < r.1 <= self.window.first_bin + self.window.bin_count,
    {
        let n: u64 = self.window.bin_count as u64;
        let cols: u64 = self.cols as u64;
        proof {
            assert(0 <= col * n <= 0x1_0000_0000 * 0x1000_0000 && 0 <= (col + 1) * n
                <= 0x1_0000_0000 * 0x1000_0000) by (nonlinear_arith)
                requires
                    0 <= col <= 0xffff_ffff,
                    0 <= n <= 0x1000_0000,
            ;
            assert(0 <= col * n / (cols as int)) by (nonlinear_arith)
                requires
                    0 <= col * n,
                    0 < cols,
            ;
        }
        let start: u64 = (col as u64) * n / cols;
        let end: u64 = (col as u64 + 1) * n / cols;
        let first: u64 = if start < n - 1 {
            start
        } else {
            n - 1
        };
        let wanted: u64 = if end < first + 1 {
            first + 1
        } else {
            end
        };
        let last: u64 = if wanted < n {
            wanted
        } else {
            n
        };
        (self.window.first_bin + first as usize, self.window.first_bin + last as usize)
    }
}

/// Where there are at least as many bins as columns, each column goes on where
/// the last one stopped, from the first bin of the window to its last.
pub proof fn law_columns_cover_every_bin_once(c: Columns, col: int)
    requires
        c.valid(),
        c.cols <= c.window.bin_count,
        0 <= col < c.cols,
    ensures
        c.first_of(0) == 0,
        c.end_of(c.cols - 1) == c.window.bin_count,
        col + 1 < c.cols ==> c.end_of(col) == c.first_of(col + 1),
{
    let n = c.window.bin_count as int;
    let k = c.cols as int;
    assert(0 * n / k == 0) by (nonlinear_arith)
        requires
            0 < k,
    ;
    assert(k * n / k == n) by (nonlinear_arith)
        requires
            0 < k,
    ;
    assert((k - 1 + 1) * n / k == n);
    let a = col * n / k;
    let b = (col + 1) * n / k;
    assert((col + 1) * n == col * n + n) by (nonlinear_arith);
    lemma_step(col * n, n, k);
    if col + 1 < k {
        lemma_below(col + 1, n, k);
        lemma_below(col, n, k);
        assert(b <= n - 1);
    } else {
        lemma_below(col, n, k);
    }
    lemma_below(k - 1, n, k);
}

/// Adding at least the divisor moves a quotient on.
proof fn lemma_step(x: int, n: int, k: int)
    requires
        0 <= x,
        0 < k <= n,
    ensures
        x / k + 1 <= (x + n) / k,
{
    vstd::arithmetic::div_mod::lemma_div_is_ordered(x + k, x + n, k);
    assert((x + k) / k == x / k + 1) by {
        vstd::arithmetic::div_mod::lemma_div_plus_one(x, k);
    }
}

/// A column before the last one starts before the end.
proof fn lemma_below(col: int, n: int, k: int)
    requires
        0 <= col < k,
        0 < k <= n,
    ensures
        0 <= col * n / k <= n - 1,
{
    let x = col * n;
    vstd::arithmetic::div_mod::lemma_fundamental_div_mod(x, k);
    vstd::arithmetic::div_mod::lemma_mod_bound(x, k);
    let q = x / k;
    let r = x % k;
    assert(0 <= q <= n - 1) by (nonlinear_arith)
        requires
            x == col * n,
            x == k * q + r,
            0 <= r < k,
            0 <= col < k,
            0 < n,
    ;
}

/// What one half of a character cell shows.
#[derive(Clone, Copy, Debug, PartialEq, Eq, Structural)]
pub enum Paint {
    /// The colour of a level, or the floor where there is none.
    Of(Level),
    Cursor,
}

/// One character cell: its upper half is the newer row.
#[derive(Clone, Copy, Debug, PartialEq, Eq, Structural)]
pub struct HalfBlock {
    pub top: Paint,
    pub bottom: Paint,
}

/// The level a row shows in a column: a row of another length has its own window.
pub open spec fn level_of(row: Seq<Level>, frame: FftFrame, zoom: int, cols: int, col: int) -> Level {
    if frame.sample_rate_hz > 0 && frame.bin_axis.intervals(row.len() as int) > 0 {
        let w = frame.bin_axis.slice(
            frame.axis_start_half_hz as int,
            frame.sample_rate_hz as int,
            row.len() as int,
            zoom,
        );
        let c = Columns { window: w, cols: cols as usize };
        strongest_in(row, w.first_bin + c.first_of(col), w.first_bin + c.end_of(col))
    } else {
        None
    }
}

/// How many character rows the history fills.
pub open spec fn lines_filled(rows: int, skip: int, height: int) -> int {
    let left = if rows > skip {
        rows - skip
    } else {
        0
    };
    let shown = if left < 2 * height {
        left
    } else {
        2 * height
    };
    (shown + 1) / 2
}

/// The level a row shows in a column.
fn level_in(row: &Vec<Level>, frame: &FftFrame, zoom: usize, cols: usize, col: usize) -> (r: Level)
    requires
        row@.len() <= MAX_BINS,
        1 <= cols <= 0xffff,
        col < cols,
    ensures
        r == level_of(row@, *frame, zoom as int, cols as int, col as int),
{
    match frame.window_for_bins(row.len(), zoom) {
        None => None,
        Some(w) => {
            let c = Columns::new(w, cols);
            let (lo, hi): (usize, usize) = c.range(col);
            assert(c == Columns { window: w, cols });
            band_max(row.as_slice(), lo, hi)
        },
    }
}

/// Paints the history. `skip` counts rows of history, not character rows.
pub fn draw(
    rows: &VecDeque<WaterfallRow>,
    frame: &FftFrame,
    zoom: usize,
    width: usize,
    height: usize,
    cursor_col: Option<usize>,
    skip: usize,
) -> (out: Vec<Vec<HalfBlock>>)
    requires
        width <= 0xffff,
        height <= 0xffff,
        rows@.len() <= 0xffff_ffff,
        forall|i: int| 0 <= i < rows@.len() ==> #[trigger] rows@[i].levels@.len() <= MAX_BINS,
    ensures
        out@.len() == lines_filled(rows@.len() as int, skip as int, height as int),
        forall|r: int| 0 <= r < out@.len() ==> (#[trigger] out@[r])@.len() == width,
        forall|r: int, c: int|
            #![trigger out@[r]@[c]]
            0 <= r < out@.len() && 0 <= c < width ==> {
                let at = skip + 2 * r;
                &&& out@[r]@[c].top == if cursor_col == Some(c as usize) {
                    Paint::Cursor
                } else {
                    Paint::Of(
                        level_of(rows@[at].levels@, *frame, zoom as int, width as int, c),
                    )
                }
                &&& out@[r]@[c].bottom == Paint::Of(
                    if at + 1 < rows@.len() && 2 * r + 1 < 2 * height {
                        level_of(rows@[at + 1].levels@, *frame, zoom as int, width as int, c)
                    } else {
                        None
                    },
                )
            },
{
    let total: usize = rows.len();
    let left: usize = if total > skip {
        total - skip
    } else {
        0
    };
    let shown: usize = if left < 2 * height {
        left
    } else {
        2 * height
    };
    let lines: usize = (shown + 1) / 2;
    let mut out: Vec<Vec<HalfBlock>> = Vec::new();
    let mut r: usize = 0;
    while r < lines
        invariant
            r <= lines,
            lines == lines_filled(rows@.len() as int, skip as int, height as int),
            lines == (shown + 1) / 2,
            shown <= left,
            shown <= 2 * height,
            height <= 0xffff,
            left == if total > skip {
                total - skip
            } else {
                0
            },
            total == rows@.len() <= 0xffff_ffff,
            width <= 0xffff,
            forall|i: int| 0 <= i < rows@.len() ==> #[trigger] rows@[i].levels@.len() <= MAX_BINS,
            out@.len() == r,
            forall|q: int| 0 <= q < r ==> (#[trigger] out@[q])@.len() == width,
            forall|q: int, c: int|
                #![trigger out@[q]@[c]]
                0 <= q < r && 0 <= c < width ==> {
                    let at = skip + 2 * q;
                    &&& out@[q]@[c].top == if cursor_col == Some(c as usize) {
                        Paint::Cursor
                    } else {
                        Paint::Of(
                            level_of(rows@[at].levels@, *frame, zoom as int, width as int, c),
                        )
                    }
                    &&& out@[q]@[c].bottom == Paint::Of(
                        if at + 1 < rows@.len() && 2 * q + 1 < 2 * height {
                            level_of(rows@[at + 1].levels@, *frame, zoom as int, width as int, c)
                        } else {
                            None
                        },
                    )
                },
        decreases lines - r,
    {
        let at: usize = skip + 2 * r;
        let mut line: Vec<HalfBlock> = Vec::new();
        let mut c: usize = 0;
        while c < width
            invariant
                c <= width <= 0xffff,
                at == skip + 2 * r,
                at < total == rows@.len(),
                r < height,
                total <= 0xffff_ffff,
                forall|i: int|
                    0 <= i < rows@.len() ==> #[trigger] rows@[i].levels@.len() <= MAX_BINS,
                line@.len() == c,
                forall|k: int|
                    0 <= k < c ==> {
                        &&& (#[trigger] line@[k]).top == if cursor_col == Some(k as usize) {
                            Paint::Cursor
                        } else {
                            Paint::Of(
                                level_of(
                                    rows@[at as int].levels@,
                                    *frame,
                                    zoom as int,
                                    width as int,
                                    k,
                                ),
                            )
                        }
                        &&& line@[k].bottom == Paint::Of(
                            if at + 1 < rows@.len() && 2 * r + 1 < 2 * height {
                                level_of(
                                    rows@[at + 1].levels@,
                                    *frame,
                                    zoom as int,
                                    width as int,
                                    k,
                                )
                            } else {
                                None
                            },
                        )
                    },
            decreases width - c,
        {
            let on_cursor = match cursor_col {
                Some(k) => k == c,
                None => false,
            };
            assert(rows@[at as int].levels@.len() <= MAX_BINS);
            let top = if on_cursor {
                Paint::Cursor
            } else {
                Paint::Of(level_in(&rows[at].levels, frame, zoom, width, c))
            };
            let bottom = if at + 1 < total {
                assert(rows@[at + 1].levels@.len() <= MAX_BINS);
                Paint::Of(level_in(&rows[at + 1].levels, frame, zoom, width, c))
            } else {
                Paint::Of(None)
            };
            line.push(HalfBlock { top, bottom });
            c += 1;
        }
        let ghost held = out@;
        out.push(line);
        assert forall|q: int, c: int|
            #![trigger out@[q]@[c]]
            0 <= q < r + 1 && 0 <= c < width implies {
            let at = skip + 2 * q;
            &&& out@[q]@.len() == width
            &&& out@[q]@[c].top == if cursor_col == Some(c as usize) {
                Paint::Cursor
            } else {
                Paint::Of(level_of(rows@[at].levels@, *frame, zoom as int, width as int, c))
            }
            &&& out@[q]@[c].bottom == Paint::Of(
                if at + 1 < rows@.len() && 2 * q + 1 < 2 * height {
                    level_of(rows@[at + 1].levels@, *frame, zoom as int, width as int, c)
                } else {
                    None
                },
            )
        } by {
            if q < r {
                assert(out@[q] == held[q]);
                assert(held[q]@[c] == out@[q]@[c]);
            } else {
                assert(out@[q]@[c] == line@[c]);
            }
        }
        r += 1;
    }
    out
}

/// The strongest of a stretch is the level of one of its bins, and none of them exceeds
/// it.
pub proof fn law_the_strongest_is_one_that_none_exceeds(row: Seq<Level>, s: int, e: int, k: int)
    requires
        0 <= s <= k < e <= row.len(),
    ensures
        !level::below(strongest_in(row, s, e), row[k]),
        row[k] matches Some(v) ==> (strongest_in(row, s, e) matches Some(m) && v <= m),
        strongest_in(row, s, e) matches Some(m) ==> exists|j: int|
            s <= j < e && #[trigger] row[j] == Some(m),
    decreases e - s,
{
    let before = strongest_in(row, s, e - 1);
    if k < e - 1 {
        law_the_strongest_is_one_that_none_exceeds(row, s, e - 1, k);
    } else if s < e - 1 {
        law_the_strongest_is_one_that_none_exceeds(row, s, e - 1, s);
    }
    assert(row[e - 1] == row[e - 1]);
}

/// The columns share the bins of the window evenly: each starts where its share of them
/// starts, and every column has a bin.
pub proof fn law_columns_share_the_bins(c: Columns, col: int)
    requires
        c.valid(),
        0 <= col < c.cols,
    ensures
        c.first_of(col) * c.cols <= col * c.window.bin_count < (c.first_of(col) + 1) * c.cols,
        0 <= c.first_of(col) < c.end_of(col) <= c.window.bin_count,
        c.end_of(col) * c.cols <= (col + 1) * c.window.bin_count || c.end_of(col) == c.first_of(col)
            + 1,
{
    let n = c.window.bin_count as int;
    let k = c.cols as int;
    let x = col * n;
    vstd::arithmetic::div_mod::lemma_fundamental_div_mod(x, k);
    vstd::arithmetic::div_mod::lemma_mod_bound(x, k);
    let q = x / k;
    assert(0 <= q <= n - 1 && q * k <= x < (q + 1) * k) by (nonlinear_arith)
        requires
            x == col * n,
            x == k * q + x % k,
            0 <= x % k < k,
            0 <= col < k,
            0 < n,
    ;
    let z = (col + 1) * n;
    vstd::arithmetic::div_mod::lemma_fundamental_div_mod(z, k);
    vstd::arithmetic::div_mod::lemma_mod_bound(z, k);
    let b = z / k;
    assert(b * k <= z && b <= n) by (nonlinear_arith)
        requires
            z == (col + 1) * n,
            z == k * b + z % k,
            0 <= z % k < k,
            0 <= col < k,
            0 < n,
    ;
}

/// The history fills two rows to a line, and no more lines than there are.
pub proof fn law_two_rows_fill_a_line(rows: int, skip: int, height: int)
    requires
        0 <= rows,
        0 <= skip,
        0 <= height,
    ensures
        ({
            let lines = lines_filled(rows, skip, height);
            &&& 0 <= lines <= height
            &&& rows <= skip ==> lines == 0
            &&& skip < rows ==> 2 * lines <= rows - skip + 1
            &&& skip < rows && lines < height ==> rows - skip <= 2 * lines
        }),
{
}

/// What a row shows in a column is the strongest of the bins that fall into it: none of
/// them exceeds it.
pub proof fn law_a_column_shows_its_strongest_bin(
    row: Seq<Level>,
    frame: FftFrame,
    zoom: int,
    cols: usize,
    col: int,
    k: int,
)
    requires
        frame.sample_rate_hz > 0,
        frame.bin_axis.intervals(row.len() as int) > 0,
        ({
            let w = frame.bin_axis.slice(
                frame.axis_start_half_hz as int,
                frame.sample_rate_hz as int,
                row.len() as int,
                zoom,
            );
            let c = Columns { window: w, cols };
            &&& c.valid()
            &&& 0 <= col < cols
            &&& w.first_bin + w.bin_count <= row.len()
            &&& w.first_bin + c.first_of(col) <= k < w.first_bin + c.end_of(col)
        }),
    ensures
        ({
            let shown = level_of(row, frame, zoom, cols as int, col);
            &&& row[k] matches Some(v) ==> (shown matches Some(m) && v <= m)
            &&& shown matches Some(m) ==> row.contains(Some(m))
        }),
{
    let w = frame.bin_axis.slice(
        frame.axis_start_half_hz as int,
        frame.sample_rate_hz as int,
        row.len() as int,
        zoom,
    );
    let c = Columns { window: w, cols };
    law_columns_share_the_bins(c, col);
    law_the_strongest_is_one_that_none_exceeds(
        row,
        w.first_bin + c.first_of(col),
        w.first_bin + c.end_of(col),
        k,
    );
}

} // verus!
