//! What an exported file is called, what it holds, and what is said when it
//! cannot be written.

use crate::text;
use crate::units;
use vstd::prelude::*;

verus! {

/// The first second after the year 9999.
pub const END_OF_TIME: i64 = 253_402_300_800;

/// Whether a year has a leap day.
pub open spec fn leap(year: int) -> bool {
    year % 4 == 0 && (year % 100 != 0 || year % 400 == 0)
}

/// The days of a year.
pub open spec fn year_days(year: int) -> int {
    if leap(year) {
        366
    } else {
        365
    }
}

/// The days of a month, from 1 to 12.
pub open spec fn month_days(year: int, month: int) -> int {
    if month == 2 {
        if leap(year) {
            29
        } else {
            28
        }
    } else if month == 4 || month == 6 || month == 9 || month == 11 {
        30
    } else {
        31
    }
}

/// The days from the first of January 1970 to that of a year.
pub open spec fn days_before_year(year: int) -> int
    decreases year - 1970,
{
    if year <= 1970 {
        0
    } else {
        days_before_year(year - 1) + year_days(year - 1)
    }
}

/// The days from the start of a year to that of a month.
pub open spec fn days_before_month(year: int, month: int) -> int
    decreases month,
{
    if month <= 1 {
        0
    } else {
        days_before_month(year, month - 1) + month_days(year, month - 1)
    }
}

/// A day of the calendar.
#[derive(Clone, Copy, Debug, PartialEq, Eq, Structural)]
pub struct Date {
    pub year: u64,
    pub month: u64,
    pub day: u64,
}

impl Date {
    /// Whether the calendar has this day.
    pub open spec fn exists_in_calendar(self) -> bool {
        &&& 1970 <= self.year
        &&& 1 <= self.month <= 12
        &&& 1 <= self.day <= month_days(self.year as int, self.month as int)
    }

    /// How many days after the first of January 1970 it is.
    pub open spec fn number(self) -> int {
        days_before_year(self.year as int) + days_before_month(
            self.year as int,
            self.month as int,
        ) + self.day - 1
    }
}

/// The days of a year are those of its months.
proof fn lemma_months_fill_the_year(year: int)
    ensures
        days_before_month(year, 13) == year_days(year),
{
    reveal_with_fuel(days_before_month, 14);
}

/// Later months start later.
proof fn lemma_months_ascend(year: int, a: int, b: int)
    requires
        1 <= a <= b <= 13,
    ensures
        0 <= days_before_month(year, a) <= days_before_month(year, b),
        a < b ==> days_before_month(year, a) + month_days(year, a) <= days_before_month(year, b),
    decreases b,
{
    if a < b {
        lemma_months_ascend(year, a, b - 1);
    } else if a > 1 {
        lemma_months_ascend(year, a - 1, a - 1);
    }
}

/// Later years start later.
proof fn lemma_years_ascend(a: int, b: int)
    requires
        1970 <= a <= b,
    ensures
        0 <= days_before_year(a) <= days_before_year(b),
        a < b ==> days_before_year(a) + year_days(a) <= days_before_year(b),
        365 * (b - a) <= days_before_year(b) - days_before_year(a),
    decreases b,
{
    if a < b {
        lemma_years_ascend(a, b - 1);
    } else if a > 1970 {
        lemma_years_ascend(a - 1, a - 1);
    }
}

/// Where a day stands in its year.
proof fn lemma_day_of_year(d: Date)
    requires
        d.exists_in_calendar(),
    ensures
        days_before_year(d.year as int) <= d.number() < days_before_year(d.year as int) + year_days(
            d.year as int,
        ),
{
    lemma_months_fill_the_year(d.year as int);
    lemma_months_ascend(d.year as int, d.month as int, 13);
    lemma_months_ascend(d.year as int, 1, d.month as int);
}

/// One day has one date.
pub proof fn law_dates_are_unique(a: Date, b: Date)
    requires
        a.exists_in_calendar(),
        b.exists_in_calendar(),
        a.number() == b.number(),
    ensures
        a == b,
{
    lemma_day_of_year(a);
    lemma_day_of_year(b);
    if a.year < b.year {
        lemma_years_ascend(a.year as int, b.year as int);
    } else if b.year < a.year {
        lemma_years_ascend(b.year as int, a.year as int);
    }
    if a.month < b.month {
        lemma_months_ascend(a.year as int, a.month as int, b.month as int);
    } else if b.month < a.month {
        lemma_months_ascend(a.year as int, b.month as int, a.month as int);
    }
}

/// Whether a year has a leap day.
fn is_leap(year: u64) -> (r: bool)
    ensures
        r == leap(year as int),
{
    year % 4 == 0 && (year % 100 != 0 || year % 400 == 0)
}

/// The days of a month.
fn days_in_month(year: u64, month: u64) -> (n: u64)
    ensures
        n == month_days(year as int, month as int),
{
    if month == 2 {
        if is_leap(year) {
            29
        } else {
            28
        }
    } else if month == 4 || month == 6 || month == 9 || month == 11 {
        30
    } else {
        31
    }
}

/// The date of a day after the first of January 1970.
pub fn date_of(days: u64) -> (d: Date)
    requires
        days <= 0xffff_ffff,
    ensures
        d.exists_in_calendar(),
        d.number() == days,
        d.year <= 1970 + days / 365,
{
    let mut year: u64 = 1970;
    let mut rest: u64 = days;
    let mut len: u64 = 365;
    while rest >= len
        invariant
            1970 <= year,
            365 * (year - 1970) + rest <= days <= 0xffff_ffff,
            days == days_before_year(year as int) + rest,
            len == year_days(year as int),
        decreases rest,
    {
        rest -= len;
        year += 1;
        len = if is_leap(year) {
            366
        } else {
            365
        };
    }
    let mut month: u64 = 1;
    let mut size: u64 = days_in_month(year, month);
    proof {
        lemma_months_fill_the_year(year as int);
    }
    while rest >= size
        invariant
            1 <= month <= 12,
            1970 <= year,
            365 * (year - 1970) <= days,
            rest <= days,
            days == days_before_year(year as int) + days_before_month(year as int, month as int)
                + rest,
            days_before_month(year as int, month as int) + rest < days_before_month(
                year as int,
                13,
            ),
            size == month_days(year as int, month as int),
        decreases rest,
    {
        if month == 12 {
            assert(days_before_month(year as int, 13) == days_before_month(year as int, 12)
                + month_days(year as int, 12));
        }
        rest -= size;
        month += 1;
        size = days_in_month(year, month);
    }
    Date { year, month, day: rest + 1 }
}

/// A date as eight digits.
pub open spec fn date_digits(d: Date) -> Seq<char> {
    units::last_digits(d.year as nat, 4) + units::last_digits(d.month as nat, 2)
        + units::last_digits(d.day as nat, 2)
}

/// A time of day as six digits.
pub open spec fn time_digits(second_of_day: nat) -> Seq<char> {
    units::last_digits(second_of_day / 3600, 2) + units::last_digits(
        second_of_day / 60 % 60,
        2,
    ) + units::last_digits(second_of_day % 60, 2)
}

/// Whether a text is the name of an export made at an instant.
pub open spec fn named(name: Seq<char>, stem: Seq<char>, unix_secs: i64, d: Date) -> bool {
    &&& d.exists_in_calendar()
    &&& d.number() == unix_secs as int / 86_400
    &&& name == stem + "-"@ + date_digits(d) + "-"@ + time_digits(
        (unix_secs as int % 86_400) as nat,
    ) + ".csv"@
}

/// The name of an export: the stem and the instant it was made, to the second.
pub fn file_name(stem: &str, unix_secs: i64) -> (name: String)
    requires
        0 <= unix_secs < END_OF_TIME,
    ensures
        exists|d: Date| #[trigger] named(name@, stem@, unix_secs, d),
{
    let days: u64 = (unix_secs as u64) / 86_400;
    let second: u64 = (unix_secs as u64) % 86_400;
    let d = date_of(days);
    let mut t: Vec<char> = Vec::new();
    text::push_str(&mut t, stem);
    text::push_str(&mut t, "-");
    let ghost head = t@;
    units::push_digits(&mut t, d.year, 4);
    units::push_digits(&mut t, d.month, 2);
    units::push_digits(&mut t, d.day, 2);
    assert(t@ == head + date_digits(d));
    text::push_str(&mut t, "-");
    let ghost body = t@;
    units::push_digits(&mut t, second / 3600, 2);
    units::push_digits(&mut t, second / 60 % 60, 2);
    units::push_digits(&mut t, second % 60, 2);
    assert(t@ == body + time_digits(second as nat));
    text::push_str(&mut t, ".csv");
    assert(named(t@, stem@, unix_secs, d));
    text::from_chars(t.as_slice())
}

/// Two exports of one kind have one name only where they were made in the same
/// second, as long as the years have four digits.
pub proof fn law_names_tell_seconds_apart(stem: Seq<char>, a: i64, b: i64, x: Date, y: Date)
    requires
        0 <= a < END_OF_TIME,
        0 <= b < END_OF_TIME,
        exists|name: Seq<char>| #[trigger] named(name, stem, a, x) && named(name, stem, b, y),
    ensures
        a == b,
{
    let name = choose|name: Seq<char>| #[trigger] named(name, stem, a, x) && named(name, stem, b, y);
    lemma_year_bound(x, a);
    lemma_year_bound(y, b);
    let s = (a as int % 86_400) as nat;
    let t = (b as int % 86_400) as nat;
    let n = stem.len() as int;
    lemma_digits_len(x.year as nat, 4);
    lemma_digits_len(y.year as nat, 4);
    lemma_digits_len(x.month as nat, 2);
    lemma_digits_len(y.month as nat, 2);
    lemma_digits_len(x.day as nat, 2);
    lemma_digits_len(y.day as nat, 2);
    lemma_digits_len(s / 3600, 2);
    lemma_digits_len(t / 3600, 2);
    lemma_digits_len(s / 60 % 60, 2);
    lemma_digits_len(t / 60 % 60, 2);
    lemma_digits_len(s % 60, 2);
    lemma_digits_len(t % 60, 2);
    reveal_strlit("-");
    reveal_strlit(".csv");
    assert(name.subrange(n + 1, n + 5) == units::last_digits(x.year as nat, 4));
    assert(name.subrange(n + 1, n + 5) == units::last_digits(y.year as nat, 4));
    assert(name.subrange(n + 5, n + 7) == units::last_digits(x.month as nat, 2));
    assert(name.subrange(n + 5, n + 7) == units::last_digits(y.month as nat, 2));
    assert(name.subrange(n + 7, n + 9) == units::last_digits(x.day as nat, 2));
    assert(name.subrange(n + 7, n + 9) == units::last_digits(y.day as nat, 2));
    assert(name.subrange(n + 10, n + 12) == units::last_digits(s / 3600, 2));
    assert(name.subrange(n + 10, n + 12) == units::last_digits(t / 3600, 2));
    assert(name.subrange(n + 12, n + 14) == units::last_digits(s / 60 % 60, 2));
    assert(name.subrange(n + 12, n + 14) == units::last_digits(t / 60 % 60, 2));
    assert(name.subrange(n + 14, n + 16) == units::last_digits(s % 60, 2));
    assert(name.subrange(n + 14, n + 16) == units::last_digits(t % 60, 2));
    lemma_two_digits(x.month as nat, y.month as nat);
    lemma_two_digits(x.day as nat, y.day as nat);
    lemma_two_digits(s / 3600, t / 3600);
    lemma_two_digits(s / 60 % 60, t / 60 % 60);
    lemma_two_digits(s % 60, t % 60);
    lemma_four_digits(x.year as nat, y.year as nat);
    assert(x == y);
    assert(s == 3600 * (s / 3600) + 60 * (s / 60 % 60) + s % 60);
    assert(t == 3600 * (t / 3600) + 60 * (t / 60 % 60) + t % 60);
}

/// The years of four-digit instants have four digits.
proof fn lemma_year_bound(d: Date, secs: i64)
    requires
        d.exists_in_calendar(),
        0 <= secs < END_OF_TIME,
        d.number() == secs as int / 86_400,
    ensures
        d.year < 10_000,
{
    lemma_day_of_year(d);
    if d.year >= 10_000 {
        lemma_years_ascend(10_000, d.year as int);
        lemma_days_to_9999();
    }
}

/// The days before the year 10000.
proof fn lemma_days_to_9999()
    ensures
        days_before_year(10_000) == 2_932_897,
{
    lemma_cycles(20);
    assert(days_before_year(9_970) == 20 * 146_097);
    lemma_thirty(9_970);
}

/// Four hundred years have the same number of days wherever they start.
proof fn lemma_four_centuries(year: int, k: int)
    requires
        1970 <= year,
        0 <= k,
    ensures
        days_before_year(year + 400 + k) - days_before_year(year + 400) == days_before_year(
            year + k,
        ) - days_before_year(year),
    decreases k,
{
    if k > 0 {
        lemma_four_centuries(year, k - 1);
        let y = year + k - 1;
        assert((y + 400) % 4 == y % 4 && (y + 400) % 100 == y % 100 && (y + 400) % 400 == y % 400);
    }
}

/// The days of a leap cycle, counted year by year.
proof fn lemma_span(year: int, k: int, leaps: int)
    requires
        1970 <= year,
        0 <= k <= 400,
        leaps == leaps_in(year, k),
    ensures
        days_before_year(year + k) == days_before_year(year) + 365 * k + leaps,
    decreases k,
{
    if k > 0 {
        lemma_span(year, k - 1, leaps_in(year, k - 1));
    }
}

/// How many of `k` years from a year on are leap years.
spec fn leaps_in(year: int, k: int) -> int
    decreases k,
{
    if k <= 0 {
        0
    } else {
        leaps_in(year, k - 1) + if leap(year + k - 1) {
            1int
        } else {
            0int
        }
    }
}

/// Four years from 1970 on, when none of them is a skipped century.
proof fn lemma_leaps_closed(k: int)
    requires
        0 <= k <= 400,
    ensures
        leaps_in(1970, k) == (1969 + k) / 4 - (1969 + k) / 100 + (1969 + k) / 400 - 477,
    decreases k,
{
    if k > 0 {
        lemma_leaps_closed(k - 1);
        let y = 1970 + k - 1;
        assert(y / 4 - (y - 1) / 4 == if y % 4 == 0 {
            1int
        } else {
            0int
        });
        assert(y / 100 - (y - 1) / 100 == if y % 100 == 0 {
            1int
        } else {
            0int
        });
        assert(y / 400 - (y - 1) / 400 == if y % 400 == 0 {
            1int
        } else {
            0int
        });
        assert(y % 400 == 0 ==> y % 100 == 0);
        assert(y % 100 == 0 ==> y % 4 == 0);
    }
}

/// So many leap cycles after 1970.
proof fn lemma_cycles(n: int)
    requires
        0 <= n,
    ensures
        days_before_year(1970 + 400 * n) == n * 146_097,
    decreases n,
{
    if n > 0 {
        lemma_cycles(n - 1);
        lemma_leaps_closed(400);
        lemma_span(1970, 400, leaps_in(1970, 400));
        lemma_shift(1970, n - 1);
    }
}

/// A leap cycle is as long after so many others as it is in 1970.
proof fn lemma_shift(year: int, n: int)
    requires
        1970 <= year,
        0 <= n,
    ensures
        days_before_year(year + 400 * n + 400) - days_before_year(year + 400 * n)
            == days_before_year(year + 400) - days_before_year(year),
    decreases n,
{
    if n > 0 {
        lemma_shift(year, n - 1);
        lemma_four_centuries(year + 400 * (n - 1), 400);
    }
}

/// The thirty years after so many cycles.
proof fn lemma_thirty(year: int)
    requires
        year == 9_970,
        days_before_year(9_970) == 2_921_940,
    ensures
        days_before_year(10_000) == 2_932_897,
{
    reveal_with_fuel(days_before_year, 32);
}

/// Digits are as many as asked for.
proof fn lemma_digits_len(n: nat, count: nat)
    ensures
        units::last_digits(n, count).len() == count,
    decreases count,
{
    if count > 0 {
        lemma_digits_len(n / 10, (count - 1) as nat);
    }
}

/// Two digits tell numbers below a hundred apart.
proof fn lemma_two_digits(a: nat, b: nat)
    requires
        a < 100,
        b < 100,
        units::last_digits(a, 2) == units::last_digits(b, 2),
    ensures
        a == b,
{
    reveal_with_fuel(units::last_digits, 3);
    let x = units::last_digits(a, 2);
    let y = units::last_digits(b, 2);
    assert(x[1] == y[1] && x[0] == y[0]);
    assert(x[1] == text::digit((a % 10) as int));
    assert(y[1] == text::digit((b % 10) as int));
    assert(x[0] == text::digit((a / 10 % 10) as int));
    assert(y[0] == text::digit((b / 10 % 10) as int));
}

/// Four digits tell numbers below ten thousand apart.
proof fn lemma_four_digits(a: nat, b: nat)
    requires
        a < 10_000,
        b < 10_000,
        units::last_digits(a, 4) == units::last_digits(b, 4),
    ensures
        a == b,
{
    reveal_with_fuel(units::last_digits, 5);
    let x = units::last_digits(a, 4);
    let y = units::last_digits(b, 4);
    assert(x.take(2) == units::last_digits(a / 100, 2)) by {
        assert(a / 10 / 10 == a / 100);
        assert(x == units::last_digits(a / 10 / 10, 2).push(
            text::digit((a / 10 % 10) as int),
        ).push(text::digit((a % 10) as int)));
    }
    assert(y.take(2) == units::last_digits(b / 100, 2)) by {
        assert(b / 10 / 10 == b / 100);
        assert(y == units::last_digits(b / 10 / 10, 2).push(
            text::digit((b / 10 % 10) as int),
        ).push(text::digit((b % 10) as int)));
    }
    lemma_two_digits(a / 100, b / 100);
    assert(x[3] == y[3] && x[2] == y[2]);
    assert(x[3] == text::digit((a % 10) as int));
    assert(y[3] == text::digit((b % 10) as int));
    assert(x[2] == text::digit((a / 10 % 10) as int));
    assert(y[2] == text::digit((b / 10 % 10) as int));
}

/// What keeps a file from being written.
pub enum WriteFault {
    /// There is no such directory.
    NoDirectory(String),
    /// There is a file of that name already.
    Exists,
    NotCreated(String),
    NotWritten(String),
    NotFinished(String),
}

impl WriteFault {
    /// The sentence, which names the path.
    pub open spec fn sentence(self, path: Seq<char>) -> Seq<char> {
        match self {
            WriteFault::NoDirectory(dir) => "no directory to export into: "@ + dir@,
            WriteFault::Exists => path + " exists already, refusing to overwrite it"@,
            WriteFault::NotCreated(why) => "cannot create "@ + path + ": "@ + why@,
            WriteFault::NotWritten(why) => "cannot write "@ + path + ": "@ + why@,
            WriteFault::NotFinished(why) => "cannot finish writing "@ + path + ": "@ + why@,
        }
    }

    pub fn message(&self, path: &str) -> (out: String)
        ensures
            out@ == self.sentence(path@),
    {
        let mut t: Vec<char> = Vec::new();
        match self {
            WriteFault::NoDirectory(dir) => {
                text::push_str(&mut t, "no directory to export into: ");
                text::push_str(&mut t, dir.as_str());
            },
            WriteFault::Exists => {
                text::push_str(&mut t, path);
                text::push_str(&mut t, " exists already, refusing to overwrite it");
            },
            WriteFault::NotCreated(why) => {
                text::push_str(&mut t, "cannot create ");
                text::push_str(&mut t, path);
                text::push_str(&mut t, ": ");
                text::push_str(&mut t, why.as_str());
            },
            WriteFault::NotWritten(why) => {
                text::push_str(&mut t, "cannot write ");
                text::push_str(&mut t, path);
                text::push_str(&mut t, ": ");
                text::push_str(&mut t, why.as_str());
            },
            WriteFault::NotFinished(why) => {
                text::push_str(&mut t, "cannot finish writing ");
                text::push_str(&mut t, path);
                text::push_str(&mut t, ": ");
                text::push_str(&mut t, why.as_str());
            },
        }
        assert(t@ == self.sentence(path@));
        text::from_chars(t.as_slice())
    }
}

/// Every failure names where it happened: the directory that is missing, or the
/// path of the file.
pub proof fn law_every_failure_names_its_place(fault: WriteFault, path: Seq<char>)
    ensures
        text::has(
            fault.sentence(path),
            match fault {
                WriteFault::NoDirectory(dir) => dir@,
                _ => path,
            },
        ),
{
    let s = fault.sentence(path);
    match fault {
        WriteFault::NoDirectory(dir) => {
            let at = "no directory to export into: "@.len() as int;
            assert(s.subrange(at, at + dir@.len()) == dir@);
            assert(text::occurs_at(s, dir@, at));
        },
        WriteFault::Exists => {
            assert(s.subrange(0, path.len() as int) == path);
            assert(text::occurs_at(s, path, 0));
        },
        WriteFault::NotCreated(_) => {
            let at = "cannot create "@.len() as int;
            assert(s.subrange(at, at + path.len()) == path);
            assert(text::occurs_at(s, path, at));
        },
        WriteFault::NotWritten(_) => {
            let at = "cannot write "@.len() as int;
            assert(s.subrange(at, at + path.len()) == path);
            assert(text::occurs_at(s, path, at));
        },
        WriteFault::NotFinished(_) => {
            let at = "cannot finish writing "@.len() as int;
            assert(s.subrange(at, at + path.len()) == path);
            assert(text::occurs_at(s, path, at));
        },
    }
}

/// Lines one below the other.
pub open spec fn joined(lines: Seq<String>) -> Seq<char>
    decreases lines.len(),
{
    if lines.len() == 0 {
        Seq::empty()
    } else {
        (joined(lines.drop_last()) + lines.last()@).push('\n')
    }
}

/// What a whole export holds: every line, ended.
pub fn write(lines: &[String]) -> (out: String)
    ensures
        out@ == joined(lines@),
{
    let mut t: Vec<char> = Vec::new();
    let mut i: usize = 0;
    assert(lines@.take(0) == Seq::<String>::empty());
    while i < lines.len()
        invariant
            i <= lines@.len(),
            t@ == joined(lines@.take(i as int)),
        decreases lines@.len() - i,
    {
        assert(lines@.take(i + 1).drop_last() == lines@.take(i as int));
        text::push_str(&mut t, lines[i].as_str());
        t.push('\n');
        i += 1;
    }
    assert(lines@.take(i as int) == lines@);
    text::from_chars(t.as_slice())
}

} // verus!
