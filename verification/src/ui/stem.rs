//! The stem plot: discrete arrivals, and nothing between them.

use vstd::prelude::*;

verus! {

/// One arrival: where it arrived and how strong it was, in the units the caller
/// plots.
#[derive(Clone, Copy, Debug, PartialEq, Eq, Structural)]
pub struct Tap {
    pub at: i64,
    pub level: i64,
}

/// The values an axis shows, from the start up to but not at the end.
#[derive(Clone, Copy, Debug, PartialEq, Eq, Structural)]
pub struct Axis {
    pub start: i64,
    pub end: i64,
}

/// What stands in one character cell.
#[derive(Clone, Copy, Debug, PartialEq, Eq, Structural)]
pub enum StemCell {
    Head,
    Stalk,
    Blank,
}

impl StemCell {
    /// The character it is drawn with.
    pub fn glyph(self) -> (c: char)
        ensures
            c == match self {
                StemCell::Head => '\u{25cf}',
                StemCell::Stalk => '\u{2502}',
                StemCell::Blank => ' ',
            },
    {
        match self {
            StemCell::Head => '\u{25cf}',
            StemCell::Stalk => '\u{2502}',
            StemCell::Blank => ' ',
        }
    }
}

impl Axis {
    pub open spec fn holds(self, value: int) -> bool {
        self.start <= value < self.end
    }

    /// Which of `cells` steps along the axis a value falls on.
    pub open spec fn step(self, value: int, cells: int) -> int {
        (value - self.start) * cells / (self.end - self.start)
    }
}

/// A value on an axis falls on one of its steps.
proof fn lemma_step(axis: Axis, value: int, cells: int)
    requires
        axis.holds(value),
        0 < cells,
    ensures
        0 <= axis.step(value, cells) < cells,
{
    let span = axis.end - axis.start;
    let off = value - axis.start;
    let x = off * cells;
    vstd::arithmetic::div_mod::lemma_fundamental_div_mod(x, span);
    vstd::arithmetic::div_mod::lemma_mod_bound(x, span);
    let q = x / span;
    let r = x % span;
    assert(0 <= q < cells) by (nonlinear_arith)
        requires
            x == off * cells,
            x == span * q + r,
            0 <= r < span,
            0 <= off < span,
            0 < cells,
    ;
}

/// A later value falls on the same step or a later one.
pub proof fn law_steps_keep_the_order(axis: Axis, a: int, b: int, cells: int)
    requires
        axis.holds(a),
        axis.holds(b),
        a <= b,
        0 < cells,
    ensures
        axis.step(a, cells) <= axis.step(b, cells),
{
    let span = axis.end - axis.start;
    let x = (a - axis.start) * cells;
    let y = (b - axis.start) * cells;
    assert(x <= y) by (nonlinear_arith)
        requires
            x == (a - axis.start) * cells,
            y == (b - axis.start) * cells,
            a <= b,
            0 < cells,
    ;
    vstd::arithmetic::div_mod::lemma_div_is_ordered(x, y, span);
}

/// Which step of an axis a value falls on.
fn step_of(axis: Axis, value: i64, cells: usize) -> (r: Option<usize>)
    ensures
        r == if cells > 0 && axis.holds(value as int) {
            Some(axis.step(value as int, cells as int) as usize)
        } else {
            None
        },
        r matches Some(i) ==> i < cells && i == axis.step(value as int, cells as int),
{
    if cells == 0 || value < axis.start || value >= axis.end {
        return None;
    }
    proof {
        lemma_step(axis, value as int, cells as int);
        assert(0 <= (value - axis.start) * cells <= 0x1_0000_0000_0000_0000
            * 0xffff_ffff_ffff_ffff) by (nonlinear_arith)
            requires
                0 <= value - axis.start <= 0x1_0000_0000_0000_0000,
                0 <= cells <= 0xffff_ffff_ffff_ffff,
        ;
    }
    let off: u128 = (value as i128 - axis.start as i128) as u128;
    let span: u128 = (axis.end as i128 - axis.start as i128) as u128;
    Some((off * (cells as u128) / span) as usize)
}

/// Which column a value falls in, or `None` outside the axis.
pub fn column(value: i64, x: Axis, width: usize) -> (r: Option<usize>)
    ensures
        r == if width > 0 && x.holds(value as int) {
            Some(x.step(value as int, width as int) as usize)
        } else {
            None
        },
        r matches Some(i) ==> i < width && i == x.step(value as int, width as int),
{
    step_of(x, value, width)
}

/// Which row a level falls on, counted from the top, or `None` off the axis.
pub fn row_of(level: i64, y: Axis, height: usize) -> (r: Option<usize>)
    ensures
        r == if height > 0 && y.holds(level as int) {
            Some((height - 1 - y.step(level as int, height as int)) as usize)
        } else {
            None
        },
        r matches Some(i) ==> i < height && i == height - 1 - y.step(level as int, height as int),
{
    match step_of(y, level, height) {
        Some(from_bottom) => Some(height - 1 - from_bottom),
        None => None,
    }
}

/// Whether a tap lies on both axes.
pub open spec fn lands(tap: Tap, x: Axis, y: Axis, width: int, height: int) -> bool {
    x.holds(tap.at as int) && y.holds(tap.level as int)
}

/// The column a tap lands in.
pub open spec fn tap_column(tap: Tap, x: Axis, width: int) -> int {
    x.step(tap.at as int, width)
}

/// The row a tap lands on.
pub open spec fn tap_row(tap: Tap, y: Axis, height: int) -> int {
    height - 1 - y.step(tap.level as int, height)
}

/// The row of the strongest of the first `k` taps in a column, or the height where
/// there is none.
pub open spec fn head_in(
    taps: Seq<Tap>,
    x: Axis,
    y: Axis,
    width: int,
    height: int,
    col: int,
    k: int,
) -> int
    decreases k,
{
    if k <= 0 {
        height
    } else {
        let best = head_in(taps, x, y, width, height, col, k - 1);
        let tap = taps[k - 1];
        if lands(tap, x, y, width, height) && tap_column(tap, x, width) == col && tap_row(
            tap,
            y,
            height,
        ) < best {
            tap_row(tap, y, height)
        } else {
            best
        }
    }
}

/// What stands in a cell of a column whose head is at a row.
pub open spec fn cell_at(head: int, row: int, height: int) -> StemCell {
    if head < height && head == row {
        StemCell::Head
    } else if head < height && head < row {
        StemCell::Stalk
    } else {
        StemCell::Blank
    }
}

/// Draws the taps into so many character cells: in every column the strongest
/// arrival, and a stalk down to the baseline. Taps off the axes are dropped, and
/// without any tap there is no picture.
pub fn draw(taps: &[Tap], x: Axis, y: Axis, width: usize, height: usize) -> (r: Option<
    Vec<Vec<StemCell>>,
>)
    ensures
        match r {
            Some(rows) => {
                &&& width > 0 && height > 0
                &&& rows@.len() == height
                &&& forall|i: int| 0 <= i < height ==> (#[trigger] rows@[i])@.len() == width
                &&& forall|i: int, c: int|
                    0 <= i < height && 0 <= c < width ==> #[trigger] rows@[i]@[c] == cell_at(
                        head_in(
                            taps@,
                            x,
                            y,
                            width as int,
                            height as int,
                            c,
                            taps@.len() as int,
                        ),
                        i,
                        height as int,
                    )
                &&& exists|k: int|
                    0 <= k < taps@.len() && lands(
                        #[trigger] taps@[k],
                        x,
                        y,
                        width as int,
                        height as int,
                    )
            },
            None => width == 0 || height == 0 || forall|k: int|
                0 <= k < taps@.len() ==> !lands(
                    #[trigger] taps@[k],
                    x,
                    y,
                    width as int,
                    height as int,
                ),
        },
{
    if width == 0 || height == 0 {
        return None;
    }
    let mut heads: Vec<usize> = Vec::new();
    let mut c: usize = 0;
    while c < width
        invariant
            c <= width,
            heads@.len() == c,
            forall|i: int| 0 <= i < c ==> #[trigger] heads@[i] == height,
        decreases width - c,
    {
        heads.push(height);
        c += 1;
    }
    let mut any = false;
    let mut k: usize = 0;
    while k < taps.len()
        invariant
            k <= taps@.len(),
            0 < width,
            0 < height,
            heads@.len() == width,
            any == exists|j: int|
                0 <= j < k && lands(#[trigger] taps@[j], x, y, width as int, height as int),
            forall|i: int|
                0 <= i < width ==> #[trigger] heads@[i] == head_in(
                    taps@,
                    x,
                    y,
                    width as int,
                    height as int,
                    i,
                    k as int,
                ),
        decreases taps@.len() - k,
    {
        let tap = taps[k];
        let ghost before = heads@;
        match (column(tap.at, x, width), row_of(tap.level, y, height)) {
            (Some(col), Some(row)) => {
                assert(lands(taps@[k as int], x, y, width as int, height as int));
                any = true;
                if row < heads[col] {
                    heads.set(col, row);
                }
            },
            _ => {
                assert(!lands(taps@[k as int], x, y, width as int, height as int));
            },
        }
        assert forall|i: int| 0 <= i < width implies #[trigger] heads@[i] == head_in(
            taps@,
            x,
            y,
            width as int,
            height as int,
            i,
            k + 1,
        ) by {
            assert(before[i] == head_in(
                taps@,
                x,
                y,
                width as int,
                height as int,
                i,
                k as int,
            ));
        }
        k += 1;
    }
    if !any {
        return None;
    }
    let mut rows: Vec<Vec<StemCell>> = Vec::new();
    let mut i: usize = 0;
    while i < height
        invariant
            i <= height,
            heads@.len() == width,
            rows@.len() == i,
            forall|j: int| 0 <= j < i ==> (#[trigger] rows@[j])@.len() == width,
            forall|j: int, c: int|
                0 <= j < i && 0 <= c < width ==> #[trigger] rows@[j]@[c] == cell_at(
                    heads@[c] as int,
                    j,
                    height as int,
                ),
        decreases height - i,
    {
        let mut row: Vec<StemCell> = Vec::new();
        let mut c: usize = 0;
        while c < width
            invariant
                c <= width,
                heads@.len() == width,
                row@.len() == c,
                forall|q: int|
                    0 <= q < c ==> #[trigger] row@[q] == cell_at(
                        heads@[q] as int,
                        i as int,
                        height as int,
                    ),
            decreases width - c,
        {
            let head: usize = heads[c];
            row.push(
                if head < height && head == i {
                    StemCell::Head
                } else if head < height && head < i {
                    StemCell::Stalk
                } else {
                    StemCell::Blank
                },
            );
            c += 1;
        }
        let ghost held = rows@;
        rows.push(row);
        assert forall|j: int, q: int| 0 <= j < i + 1 && 0 <= q < width implies #[trigger] rows@[j]@[q]
            == cell_at(heads@[q] as int, j, height as int) by {
            if j < i {
                assert(rows@[j] == held[j]);
            }
        }
        i += 1;
    }
    Some(rows)
}

/// The head of a column is where its strongest tap lands: no tap of the column
/// stands above it.
pub proof fn law_the_strongest_tap_is_drawn(
    taps: Seq<Tap>,
    x: Axis,
    y: Axis,
    width: int,
    height: int,
    k: int,
    i: int,
)
    requires
        0 <= i < k <= taps.len(),
        lands(taps[i], x, y, width, height),
    ensures
        head_in(taps, x, y, width, height, tap_column(taps[i], x, width), k) <= tap_row(
            taps[i],
            y,
            height,
        ),
    decreases k,
{
    if i < k - 1 {
        law_the_strongest_tap_is_drawn(taps, x, y, width, height, k - 1, i);
    }
}

/// The steps of an axis are of one width: a value lies between the edges of its step.
pub proof fn law_steps_are_even(axis: Axis, value: int, cells: int)
    requires
        axis.holds(value),
        0 < cells,
    ensures
        ({
            let s = axis.step(value, cells);
            let span = axis.end - axis.start;
            &&& 0 <= s < cells
            &&& s * span <= (value - axis.start) * cells < (s + 1) * span
        }),
{
    let span = axis.end - axis.start;
    let x = (value - axis.start) * cells;
    lemma_step(axis, value, cells);
    vstd::arithmetic::div_mod::lemma_fundamental_div_mod(x, span);
    vstd::arithmetic::div_mod::lemma_mod_bound(x, span);
    let s = x / span;
    assert(span * s == s * span && (s + 1) * span == s * span + span) by (nonlinear_arith);
}

/// A stronger tap stands no lower, and a later one no further to the left.
pub proof fn law_a_stronger_tap_stands_higher(
    a: Tap,
    b: Tap,
    x: Axis,
    y: Axis,
    width: int,
    height: int,
)
    requires
        lands(a, x, y, width, height),
        lands(b, x, y, width, height),
        0 < width,
        0 < height,
    ensures
        a.level <= b.level ==> tap_row(b, y, height) <= tap_row(a, y, height),
        a.at <= b.at ==> tap_column(a, x, width) <= tap_column(b, x, width),
        0 <= tap_row(a, y, height) < height,
        0 <= tap_column(a, x, width) < width,
{
    lemma_step(x, a.at as int, width);
    lemma_step(y, a.level as int, height);
    if a.level <= b.level {
        law_steps_keep_the_order(y, a.level as int, b.level as int, height);
    }
    if a.at <= b.at {
        law_steps_keep_the_order(x, a.at as int, b.at as int, width);
    }
}

/// A head is where a tap of its column lands; a column without a tap has none.
pub proof fn law_a_head_is_a_tap(
    taps: Seq<Tap>,
    x: Axis,
    y: Axis,
    width: int,
    height: int,
    col: int,
    k: int,
)
    requires
        0 <= k <= taps.len(),
    ensures
        ({
            let head = head_in(taps, x, y, width, height, col, k);
            head == height || exists|i: int|
                0 <= i < k && lands(#[trigger] taps[i], x, y, width, height) && tap_column(
                    taps[i],
                    x,
                    width,
                ) == col && tap_row(taps[i], y, height) == head
        }),
    decreases k,
{
    if k > 0 {
        law_a_head_is_a_tap(taps, x, y, width, height, col, k - 1);
        assert(taps[k - 1] == taps[k - 1]);
    }
}

/// A column is blank down to its head, and a stalk from there to the baseline.
pub proof fn law_a_stalk_stands_on_the_baseline(head: int, row: int, height: int)
    requires
        0 <= row < height,
        0 <= head <= height,
    ensures
        row < head ==> cell_at(head, row, height) == StemCell::Blank,
        row == head ==> cell_at(head, row, height) == StemCell::Head,
        row > head ==> cell_at(head, row, height) == StemCell::Stalk,
{
}

} // verus!
