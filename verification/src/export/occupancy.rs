//! The band, one megahertz to a row.
//!
//! A file never holds a number that the panel would not show: a cell nobody
//! looked at is blank, a duty cycle that its uncertainty cannot support is blank,
//! and a floor that failed takes every row with it.

use crate::signal::net::occupancy;
use crate::text;
use crate::units;
use vstd::prelude::*;

verus! {

/// The names of the columns, with their units.
pub fn header() -> (t: &'static str)
    ensures
        t@ == "mhz,observed,duty_pct,duty_sigma_pct,coverage_pct,mean_dbfs,peak_dbfs,windows"@,
{
    "mhz,observed,duty_pct,duty_sigma_pct,coverage_pct,mean_dbfs,peak_dbfs,windows"
}

/// One cell as it is exported, in millionths of a percent and of a decibel.
#[derive(Clone, Copy, Debug, PartialEq, Eq, Structural)]
pub struct ExportCell {
    pub windows: u64,
    pub duty_pct: i64,
    /// How uncertain the duty cycle is, where that can be said.
    pub sigma_pct: Option<i64>,
    /// Whether the uncertainty supports showing the duty cycle.
    pub resolved: bool,
    pub coverage_pct: Option<i64>,
    pub mean: i64,
    pub peak: i64,
}

/// The band as it is exported.
pub struct ExportBand {
    pub cells: Vec<ExportCell>,
    pub trusted: bool,
    /// What decided whether the floor is trusted, in millionths.
    pub tail: i64,
    pub spread: i64,
}

/// Why there is nothing to export.
#[derive(Clone, Copy, Debug, PartialEq, Eq, Structural)]
pub enum NoRows {
    NotMeasured,
    UntrustedFloor { tail: i64, spread: i64 },
}

impl NoRows {
    pub open spec fn sentence(self) -> Seq<char> {
        match self {
            NoRows::NotMeasured => "no band measurement yet"@,
            NoRows::UntrustedFloor { tail, spread } => "the noise floor failed its preconditions (lower tail "@
                + units::hundredths(tail) + ", decile spread "@ + units::tenths(spread)
                + "), so nothing here was measured against a floor"@,
        }
    }

    pub fn message(&self) -> (out: String)
        ensures
            out@ == self.sentence(),
    {
        let mut t: Vec<char> = Vec::new();
        match self {
            NoRows::NotMeasured => text::push_str(&mut t, "no band measurement yet"),
            NoRows::UntrustedFloor { tail, spread } => {
                text::push_str(&mut t, "the noise floor failed its preconditions (lower tail ");
                units::push_hundredths(&mut t, *tail);
                text::push_str(&mut t, ", decile spread ");
                units::push_tenths(&mut t, *spread);
                text::push_str(&mut t, "), so nothing here was measured against a floor");
            },
        }
        assert(t@ == self.sentence());
        text::from_chars(t.as_slice())
    }
}

/// The centre of a cell in megahertz, with one decimal.
pub open spec fn centre_of(cell: int) -> Seq<char> {
    units::mhz_tenths((2_400_500_000 + cell * 1_000_000) as u64)
}

/// A row of the file. Where nobody looked every measured column is blank.
pub open spec fn row_of(cell: int, c: ExportCell) -> Seq<char> {
    if c.windows == 0 {
        centre_of(cell) + ",no,,,,,,0"@
    } else {
        centre_of(cell) + ",yes,"@ + (if c.resolved {
            units::hundredths(c.duty_pct)
        } else {
            Seq::empty()
        }) + ","@ + (match c.sigma_pct {
            Some(s) => units::hundredths(s),
            None => Seq::empty(),
        }) + ","@ + (match c.coverage_pct {
            Some(f) => units::tenths(f),
            None => Seq::empty(),
        }) + ","@ + units::tenths(c.mean) + ","@ + units::tenths(c.peak) + ","@ + text::decimal(
            c.windows as nat,
        )
    }
}

/// One row.
fn row(cell: usize, c: &ExportCell) -> (out: String)
    requires
        cell <= 0xffff_ffff,
    ensures
        out@ == row_of(cell as int, *c),
{
    let mut t: Vec<char> = Vec::new();
    units::push_mhz_tenths(&mut t, occupancy::cell_centre_hz(cell));
    assert(t@ == centre_of(cell as int));
    if c.windows == 0 {
        text::push_str(&mut t, ",no,,,,,,0");
    } else {
        text::push_str(&mut t, ",yes,");
        if c.resolved {
            units::push_hundredths(&mut t, c.duty_pct);
        }
        text::push_str(&mut t, ",");
        if let Some(s) = c.sigma_pct {
            units::push_hundredths(&mut t, s);
        }
        text::push_str(&mut t, ",");
        if let Some(f) = c.coverage_pct {
            units::push_tenths(&mut t, f);
        }
        text::push_str(&mut t, ",");
        units::push_tenths(&mut t, c.mean);
        text::push_str(&mut t, ",");
        units::push_tenths(&mut t, c.peak);
        text::push_str(&mut t, ",");
        text::push_decimal(&mut t, c.windows);
    }
    assert(t@ == row_of(cell as int, *c));
    text::from_chars(t.as_slice())
}

/// The band as rows of a file, or why there are none.
pub fn rows(band: &ExportBand) -> (r: Result<Vec<String>, NoRows>)
    requires
        band.cells@.len() <= 0x1_0000_0000,
    ensures
        match r {
            Ok(out) => {
                &&& band.cells@.len() > 0 && band.trusted
                &&& out@.len() == band.cells@.len()
                &&& forall|i: int|
                    0 <= i < out@.len() ==> (#[trigger] out@[i])@ == row_of(i, band.cells@[i])
            },
            Err(why) => why == if band.cells@.len() == 0 {
                NoRows::NotMeasured
            } else {
                (NoRows::UntrustedFloor { tail: band.tail, spread: band.spread })
            } && !(band.cells@.len() > 0 && band.trusted),
        },
{
    if band.cells.len() == 0 {
        return Err(NoRows::NotMeasured);
    }
    if !band.trusted {
        return Err(NoRows::UntrustedFloor { tail: band.tail, spread: band.spread });
    }
    let mut out: Vec<String> = Vec::new();
    let mut i: usize = 0;
    while i < band.cells.len()
        invariant
            i <= band.cells@.len() <= 0x1_0000_0000,
            out@.len() == i,
            forall|k: int| 0 <= k < i ==> (#[trigger] out@[k])@ == row_of(k, band.cells@[k]),
        decreases band.cells@.len() - i,
    {
        out.push(row(i, &band.cells[i]));
        i += 1;
    }
    Ok(out)
}

/// A cell nobody looked at shows nothing but its place: its row does not depend
/// on what was left in it.
pub proof fn law_an_unseen_cell_is_blank(cell: int, a: ExportCell, b: ExportCell)
    requires
        a.windows == 0,
        b.windows == 0,
    ensures
        row_of(cell, a) == row_of(cell, b),
{
}

/// A duty cycle that is not supported is not in the file: the row does not depend
/// on it.
pub proof fn law_an_unresolved_duty_is_not_exported(cell: int, c: ExportCell, other: i64)
    requires
        !c.resolved,
    ensures
        row_of(cell, c) == row_of(cell, ExportCell { duty_pct: other, ..c }),
{
}

/// How many commas a line has.
pub open spec fn commas(line: Seq<char>) -> nat
    decreases line.len(),
{
    if line.len() == 0 {
        0
    } else if line.last() == ',' {
        commas(line.drop_last()) + 1
    } else {
        commas(line.drop_last())
    }
}

proof fn lemma_commas_add(a: Seq<char>, b: Seq<char>)
    ensures
        commas(a + b) == commas(a) + commas(b),
    decreases b.len(),
{
    if b.len() == 0 {
        assert(a + b == a);
    } else {
        lemma_commas_add(a, b.drop_last());
        assert((a + b).drop_last() == a + b.drop_last());
        assert((a + b).last() == b.last());
    }
}

/// Digits are no commas.
proof fn lemma_digits_hold_no_comma(n: nat)
    ensures
        commas(text::decimal(n)) == 0,
    decreases n,
{
    if n < 10 {
        let d = text::decimal(n);
        assert(d.drop_last() == Seq::<char>::empty());
        assert(commas(Seq::<char>::empty()) == 0);
        assert(d.last() == text::digit(n as int));
    } else {
        lemma_digits_hold_no_comma(n / 10);
        assert(text::decimal(n).drop_last() == text::decimal(n / 10));
    }
}

proof fn lemma_decimals_hold_no_comma(n: nat, count: nat)
    ensures
        commas(units::last_digits(n, count)) == 0,
    decreases count,
{
    if count > 0 {
        lemma_decimals_hold_no_comma(n / 10, (count - 1) as nat);
        let before = units::last_digits(n / 10, (count - 1) as nat);
        assert(units::last_digits(n, count).drop_last() == before);
    }
}

/// A number of a row is one column.
proof fn lemma_numbers_hold_no_comma(micro: i64, hz: u64)
    ensures
        commas(units::tenths(micro)) == 0,
        commas(units::hundredths(micro)) == 0,
        commas(units::mhz_tenths(hz)) == 0,
{
    reveal_strlit(".");
    reveal_strlit("-");
    assert("."@.drop_last() == Seq::<char>::empty());
    assert("-"@.drop_last() == Seq::<char>::empty());
    assert(commas(Seq::<char>::empty()) == 0);
    assert(commas("."@) == 0);
    assert(commas("-"@) == 0);
    assert(commas(units::sign(micro)) == 0);
    let t = units::half_even(units::magnitude(micro), 100_000) as nat;
    lemma_digits_hold_no_comma(t / 10);
    lemma_decimals_hold_no_comma(t, 1);
    lemma_commas_add(units::sign(micro), text::decimal(t / 10));
    lemma_commas_add(units::sign(micro) + text::decimal(t / 10), "."@);
    lemma_commas_add(
        units::sign(micro) + text::decimal(t / 10) + "."@,
        units::last_digits(t, 1),
    );
    let h = units::half_even(units::magnitude(micro), 10_000) as nat;
    lemma_digits_hold_no_comma(h / 100);
    lemma_decimals_hold_no_comma(h, 2);
    lemma_commas_add(units::sign(micro), text::decimal(h / 100));
    lemma_commas_add(units::sign(micro) + text::decimal(h / 100), "."@);
    lemma_commas_add(
        units::sign(micro) + text::decimal(h / 100) + "."@,
        units::last_digits(h, 2),
    );
    let m = units::mhz_digits(hz as nat, 10) as nat;
    lemma_digits_hold_no_comma(m / 10);
    lemma_decimals_hold_no_comma(m, 1);
    lemma_commas_add(text::decimal(m / 10), "."@);
    lemma_commas_add(text::decimal(m / 10) + "."@, units::last_digits(m, 1));
}

/// The header names eight columns.
proof fn lemma_header_columns()
    ensures
        commas(
            "mhz,observed,duty_pct,duty_sigma_pct,coverage_pct,mean_dbfs,peak_dbfs,windows"@,
        ) == 7,
{
    reveal_strlit("mhz,observed,duty_pct,duty_sigma_pct,coverage_pct,mean_dbfs,peak_dbfs,windows");
    reveal_strlit("mhz,");
    reveal_strlit("observed,");
    reveal_strlit("duty_pct,");
    reveal_strlit("duty_sigma_pct,");
    reveal_strlit("coverage_pct,");
    reveal_strlit("mean_dbfs,");
    reveal_strlit("peak_dbfs,");
    reveal_strlit("windows");
    assert(commas("mhz,"@) == 1) by {
        reveal_with_fuel(commas, 5);
    }
    assert(commas("observed,"@) == 1) by {
        reveal_with_fuel(commas, 10);
    }
    assert(commas("duty_pct,"@) == 1) by {
        reveal_with_fuel(commas, 10);
    }
    assert(commas("duty_sigma_pct,"@) == 1) by {
        reveal_with_fuel(commas, 16);
    }
    assert(commas("coverage_pct,"@) == 1) by {
        reveal_with_fuel(commas, 14);
    }
    assert(commas("mean_dbfs,"@) == 1) by {
        reveal_with_fuel(commas, 11);
    }
    assert(commas("peak_dbfs,"@) == 1) by {
        reveal_with_fuel(commas, 11);
    }
    assert(commas("windows"@) == 0) by {
        reveal_with_fuel(commas, 8);
    }
    let s1 = "mhz,"@ + "observed,"@;
    lemma_commas_add("mhz,"@, "observed,"@);
    let s2 = s1 + "duty_pct,"@;
    lemma_commas_add(s1, "duty_pct,"@);
    let s3 = s2 + "duty_sigma_pct,"@;
    lemma_commas_add(s2, "duty_sigma_pct,"@);
    let s4 = s3 + "coverage_pct,"@;
    lemma_commas_add(s3, "coverage_pct,"@);
    let s5 = s4 + "mean_dbfs,"@;
    lemma_commas_add(s4, "mean_dbfs,"@);
    let s6 = s5 + "peak_dbfs,"@;
    lemma_commas_add(s5, "peak_dbfs,"@);
    let s7 = s6 + "windows"@;
    lemma_commas_add(s6, "windows"@);
    assert("mhz,observed,duty_pct,duty_sigma_pct,coverage_pct,mean_dbfs,peak_dbfs,windows"@ == s7);
}

/// Every row has a column for every name of the header, whatever was measured.
pub proof fn law_every_row_has_every_column(cell: int, c: ExportCell)
    ensures
        commas(row_of(cell, c)) == 7,
        commas(
            "mhz,observed,duty_pct,duty_sigma_pct,coverage_pct,mean_dbfs,peak_dbfs,windows"@,
        ) == 7,
{
    let hz = (2_400_500_000 + cell * 1_000_000) as u64;
    reveal_strlit(",");
    reveal_strlit(",yes,");
    reveal_strlit(",no,,,,,,0");
    lemma_header_columns();
    assert(commas(Seq::<char>::empty()) == 0);
    assert(commas(","@) == 1 && commas(",yes,"@) == 2 && commas(",no,,,,,,0"@) == 7) by {
        reveal_with_fuel(commas, 12);
    }
    lemma_numbers_hold_no_comma(c.mean, hz);
    if c.windows == 0 {
        lemma_commas_add(centre_of(cell), ",no,,,,,,0"@);
    } else {
        lemma_numbers_hold_no_comma(c.peak, hz);
        lemma_numbers_hold_no_comma(c.duty_pct, hz);
        lemma_digits_hold_no_comma(c.windows as nat);
        let duty = if c.resolved {
            units::hundredths(c.duty_pct)
        } else {
            Seq::empty()
        };
        let sigma = match c.sigma_pct {
            Some(s) => units::hundredths(s),
            None => Seq::empty(),
        };
        let coverage = match c.coverage_pct {
            Some(f) => units::tenths(f),
            None => Seq::empty(),
        };
        if let Some(s) = c.sigma_pct {
            lemma_numbers_hold_no_comma(s, hz);
        }
        if let Some(f) = c.coverage_pct {
            lemma_numbers_hold_no_comma(f, hz);
        }
        let a = centre_of(cell) + ",yes,"@;
        lemma_commas_add(centre_of(cell), ",yes,"@);
        lemma_commas_add(a, duty);
        let b = a + duty + ","@;
        lemma_commas_add(a + duty, ","@);
        lemma_commas_add(b, sigma);
        let d = b + sigma + ","@;
        lemma_commas_add(b + sigma, ","@);
        lemma_commas_add(d, coverage);
        let e = d + coverage + ","@;
        lemma_commas_add(d + coverage, ","@);
        lemma_commas_add(e, units::tenths(c.mean));
        let f = e + units::tenths(c.mean) + ","@;
        lemma_commas_add(e + units::tenths(c.mean), ","@);
        lemma_commas_add(f, units::tenths(c.peak));
        let g = f + units::tenths(c.peak) + ","@;
        lemma_commas_add(f + units::tenths(c.peak), ","@);
        lemma_commas_add(g, text::decimal(c.windows as nat));
    }
}

/// A cell's row starts with the middle of its megahertz and ends with how often it was
/// looked at.
pub proof fn law_a_row_tells_its_megahertz(cell: int, c: ExportCell)
    requires
        0 <= cell < 1_000_000,
    ensures
        ({
            let place = text::decimal((2_400 + cell) as nat) + seq!['.', '5', ','];
            let count = text::decimal(c.windows as nat);
            let row = row_of(cell, c);
            &&& row.len() >= place.len() + count.len()
            &&& row.take(place.len() as int) == place
            &&& c.windows > 0 ==> row.skip(row.len() - count.len()) == count
            &&& c.windows > 0 ==> row[place.len() as int] == 'y'
            &&& c.windows == 0 ==> row[place.len() as int] == 'n'
        }),
{
    let hz = (2_400_500_000 + cell * 1_000_000) as u64;
    let m = units::mhz_digits(hz as nat, 10);
    units::law_megahertz_digits_are_nearest(hz as nat, 10);
    assert(m == 24_005 + 10 * cell);
    let n = m as nat;
    assert(n / 10 == 2_400 + cell);
    assert(units::last_digits(n, 1) == seq!['5']) by {
        reveal_with_fuel(units::last_digits, 2);
        assert(units::last_digits(n / 10, 0) == Seq::<char>::empty());
        assert(text::digit(5) == '5');
    }
    reveal_strlit(".");
    reveal_strlit(",yes,");
    reveal_strlit(",no,,,,,,0");
    let place = text::decimal((2_400 + cell) as nat) + seq!['.', '5', ','];
    let row = row_of(cell, c);
    let count = text::decimal(c.windows as nat);
    assert(centre_of(cell) == text::decimal((2_400 + cell) as nat) + "."@ + seq!['5']);
    if c.windows == 0 {
        assert(count == seq!['0']) by {
            assert(text::digit(0) == '0');
        }
    }
    assert(row.take(place.len() as int) == place);
    if c.windows > 0 {
        assert(row.skip(row.len() - count.len()) == count);
    }
}

} // verus!
