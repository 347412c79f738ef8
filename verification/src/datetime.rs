//! UXF `date` and `datetime` values: a calendar date, and a date with a
//! time to the second (no timezone). Reading them from text is done by
//! chrono; writing them follows chrono's `%Y-%m-%d` and
//! `%Y-%m-%dT%H:%M:%S` formats.
use chrono::{Datelike, Timelike};
use crate::text::{nat_text, push_nat};
use vstd::prelude::*;

verus! {

/// A calendar date (proleptic Gregorian).
#[derive(Clone, Copy, Debug, PartialEq, Eq, Structural, Hash)]
pub struct Date {
    pub year: i32,
    pub month: u8,
    pub day: u8,
}

/// A date and a time of day to the second.
#[derive(Clone, Copy, Debug, PartialEq, Eq, Structural, Hash)]
pub struct DateTime {
    pub date: Date,
    pub hour: u8,
    pub minute: u8,
    pub second: u8,
}

/// What chrono's `NaiveDate::parse_from_str(s, "%Y-%m-%d")` gives for the
/// text `s`: the year, month, and day, or the text of its parse error.
pub uninterp spec fn chrono_date(s: Seq<char>) -> Result<(i32, u8, u8), Seq<char>>;

/// What chrono's `NaiveDateTime::parse_from_str(s, fmt)` gives for the
/// text `s` and the format `fmt`: year, month, day, hour, minute, second,
/// or the text of its parse error.
pub uninterp spec fn chrono_datetime(s: Seq<char>, fmt: Seq<char>) -> Result<
    (i32, u8, u8, u8, u8, u8),
    Seq<char>,
>;

/// Parses `s` as a `%Y-%m-%d` date with chrono's
/// `NaiveDate::parse_from_str`. The result is named `chrono_date`; as
/// chrono documents, a date's month is 1-12 and its day 1-31.
#[verifier::external_body]
pub(crate) fn chrono_parse_date(s: &str) -> (r: Result<(i32, u8, u8), String>)
    ensures
        match r {
            Ok(d) => chrono_date(s@) == Ok::<(i32, u8, u8), Seq<char>>(d) && 1 <= d.1 <= 12 && 1
                <= d.2 <= 31,
            Err(e) => chrono_date(s@) == Err::<(i32, u8, u8), Seq<char>>(e@),
        },
{
    match chrono::NaiveDate::parse_from_str(s, "%Y-%m-%d") {
        Ok(d) => Ok((d.year(), d.month() as u8, d.day() as u8)),
        Err(e) => Err(e.to_string()),
    }
}

/// Parses `s` as a date and time in the format `fmt` with chrono's
/// `NaiveDateTime::parse_from_str`. The result is named
/// `chrono_datetime`; as chrono documents, the month is 1-12, the day
/// 1-31, the hour 0-23, the minute 0-59, and the second 0-59.
#[verifier::external_body]
pub(crate) fn chrono_parse_datetime(s: &str, fmt: &str) -> (r: Result<
    (i32, u8, u8, u8, u8, u8),
    String,
>)
    ensures
        match r {
            Ok(d) => chrono_datetime(s@, fmt@) == Ok::<(i32, u8, u8, u8, u8, u8), Seq<char>>(d) && 1
                <= d.1 <= 12 && 1 <= d.2 <= 31 && d.3 < 24 && d.4 < 60 && d.5 < 60,
            Err(e) => chrono_datetime(s@, fmt@) == Err::<(i32, u8, u8, u8, u8, u8), Seq<char>>(
                e@,
            ),
        },
{
    match chrono::NaiveDateTime::parse_from_str(s, fmt) {
        Ok(d) => Ok(
            (
                d.year(),
                d.month() as u8,
                d.day() as u8,
                d.hour() as u8,
                d.minute() as u8,
                d.second() as u8,
            ),
        ),
        Err(e) => Err(e.to_string()),
    }
}

/// `s` padded with leading zeros to at least `width` chars.
pub open spec fn zero_padded(s: Seq<char>, width: nat) -> Seq<char> {
    if s.len() < width {
        Seq::new((width - s.len()) as nat, |i: int| '0') + s
    } else {
        s
    }
}

/// A year as chrono's `%Y` writes it: four digits, zero padded, for years
/// 0-9999; otherwise a sign followed by at least four digits.
pub open spec fn year_text(y: int) -> Seq<char> {
    if 0 <= y <= 9999 {
        zero_padded(nat_text(y as nat), 4)
    } else if y < 0 {
        seq!['-'] + zero_padded(nat_text((-y) as nat), 4)
    } else {
        seq!['+'] + zero_padded(nat_text(y as nat), 4)
    }
}

/// A number written with at least two digits (`{:02}`).
pub open spec fn pad2(n: nat) -> Seq<char> {
    zero_padded(nat_text(n), 2)
}

/// The UXF text of a date: `YYYY-MM-DD`.
pub open spec fn date_text(d: Date) -> Seq<char> {
    year_text(d.year as int) + seq!['-'] + pad2(d.month as nat) + seq!['-'] + pad2(d.day as nat)
}

/// The UXF text of a datetime: `YYYY-MM-DDTHH:MM:SS`.
pub open spec fn datetime_text(dt: DateTime) -> Seq<char> {
    date_text(dt.date) + seq!['T'] + pad2(dt.hour as nat) + seq![':'] + pad2(dt.minute as nat)
        + seq![':'] + pad2(dt.second as nat)
}

/// Appends the decimal text of `n`, zero padded to at least `width` chars.
fn push_padded(out: &mut Vec<char>, n: u64, width: usize)
    requires
        width <= 4,
    ensures
        final(out)@ == old(out)@ + zero_padded(nat_text(n as nat), width as nat),
{
    let mut digits: Vec<char> = Vec::new();
    push_nat(&mut digits, n);
    assert(digits@ =~= nat_text(n as nat));
    let ghost start = out@;
    let mut k: usize = digits.len();
    while k < width
        invariant
            digits.len() <= k <= width || (k == digits.len() && k >= width),
            digits@ == nat_text(n as nat),
            out@ == start + Seq::new((k - digits.len()) as nat, |i: int| '0'),
        decreases width - k,
    {
        out.push('0');
        k += 1;
        assert(out@ =~= start + Seq::new((k - digits.len()) as nat, |i: int| '0'));
    }
    let mut i: usize = 0;
    let ghost mid = out@;
    while i < digits.len()
        invariant
            i <= digits@.len(),
            out@ == mid + digits@.take(i as int),
        decreases digits@.len() - i,
    {
        out.push(digits[i]);
        i += 1;
        assert(out@ =~= mid + digits@.take(i as int));
    }
    assert(digits@.take(digits@.len() as int) =~= digits@);
    if digits.len() < width {
        assert(out@ =~= start + zero_padded(nat_text(n as nat), width as nat));
    } else {
        assert(Seq::new((k - digits.len()) as nat, |i: int| '0') =~= Seq::<char>::empty());
        assert(out@ =~= start + zero_padded(nat_text(n as nat), width as nat));
    }
}

/// Appends the text of a year as chrono's `%Y` writes it.
pub fn push_year(out: &mut Vec<char>, y: i32)
    ensures
        final(out)@ == old(out)@ + year_text(y as int),
{
    if 0 <= y && y <= 9999 {
        push_padded(out, y as u64, 4);
    } else if y < 0 {
        out.push('-');
        let m: u64 = (0i64 - y as i64) as u64;
        push_padded(out, m, 4);
        assert(final(out)@ =~= old(out)@ + year_text(y as int));
    } else {
        out.push('+');
        push_padded(out, y as u64, 4);
        assert(final(out)@ =~= old(out)@ + year_text(y as int));
    }
}

/// Appends the UXF text of a date.
pub fn push_date(out: &mut Vec<char>, d: Date)
    ensures
        final(out)@ == old(out)@ + date_text(d),
{
    let ghost start = out@;
    push_year(out, d.year);
    out.push('-');
    push_padded(out, d.month as u64, 2);
    out.push('-');
    push_padded(out, d.day as u64, 2);
    assert(out@ =~= start + date_text(d));
}

/// Appends the UXF text of a datetime.
pub fn push_datetime(out: &mut Vec<char>, dt: DateTime)
    ensures
        final(out)@ == old(out)@ + datetime_text(dt),
{
    let ghost start = out@;
    push_date(out, dt.date);
    out.push('T');
    push_padded(out, dt.hour as u64, 2);
    out.push(':');
    push_padded(out, dt.minute as u64, 2);
    out.push(':');
    push_padded(out, dt.second as u64, 2);
    assert(out@ =~= start + datetime_text(dt));
}

/// Whether date `a` comes before date `b`.
pub open spec fn date_lt(a: Date, b: Date) -> bool {
    a.year < b.year || (a.year == b.year && (a.month < b.month || (a.month == b.month && a.day
        < b.day)))
}

/// Whether datetime `a` comes before datetime `b`.
pub open spec fn datetime_lt(a: DateTime, b: DateTime) -> bool {
    date_lt(a.date, b.date) || (a.date == b.date && (a.hour < b.hour || (a.hour == b.hour && (
    a.minute < b.minute || (a.minute == b.minute && a.second < b.second)))))
}

impl Date {
    /// Whether this date comes before `other`.
    pub fn is_before(&self, other: &Date) -> (b: bool)
        ensures
            b == date_lt(*self, *other),
    {
        self.year < other.year || (self.year == other.year && (self.month < other.month || (
        self.month == other.month && self.day < other.day)))
    }

    /// Parses a `YYYY-MM-DD` date with chrono; on failure the error is the
    /// text of chrono's parse error.
    pub fn parse(s: &str) -> (r: Result<Date, String>)
        ensures
            match chrono_date(s@) {
                Ok(d) => r matches Ok(date) && date == (Date { year: d.0, month: d.1, day: d.2 }),
                Err(m) => r matches Err(e) && e@ == m,
            },
    {
        match chrono_parse_date(s) {
            Ok(d) => Ok(Date { year: d.0, month: d.1, day: d.2 }),
            Err(e) => Err(e),
        }
    }
}

impl DateTime {
    /// Whether this datetime comes before `other`.
    pub fn is_before(&self, other: &DateTime) -> (b: bool)
        ensures
            b == datetime_lt(*self, *other),
    {
        self.date.is_before(&other.date) || (self.date == other.date && (self.hour < other.hour
            || (self.hour == other.hour && (self.minute < other.minute || (self.minute
            == other.minute && self.second < other.second)))))
    }

    /// Parses a datetime in the chrono format `fmt`; on failure the error
    /// is the text of chrono's parse error.
    pub fn parse(s: &str, fmt: &str) -> (r: Result<DateTime, String>)
        ensures
            match chrono_datetime(s@, fmt@) {
                Ok(d) => r matches Ok(dt) && dt == (DateTime {
                    date: Date { year: d.0, month: d.1, day: d.2 },
                    hour: d.3,
                    minute: d.4,
                    second: d.5,
                }),
                Err(m) => r matches Err(e) && e@ == m,
            },
    {
        match chrono_parse_datetime(s, fmt) {
            Ok(d) => Ok(
                DateTime {
                    date: Date { year: d.0, month: d.1, day: d.2 },
                    hour: d.3,
                    minute: d.4,
                    second: d.5,
                },
            ),
            Err(e) => Err(e),
        }
    }
}


/// A date's place in time: later years, then later months, then later
/// days, give larger numbers (for months of at most 15 and days of at most
/// 31).
pub open spec fn date_ordinal(d: Date) -> int {
    d.year as int * 512 + d.month as int * 32 + d.day as int
}

/// Dates are ordered chronologically: one comes before another exactly
/// when its year is earlier, or its year is the same and its month
/// earlier, or both are the same and its day earlier; that is, exactly
/// when its place in time is earlier.
pub proof fn law_dates_in_time_order(a: Date, b: Date)
    requires
        1 <= a.month <= 12,
        1 <= b.month <= 12,
        1 <= a.day <= 31,
        1 <= b.day <= 31,
    ensures
        date_lt(a, b) <==> date_ordinal(a) < date_ordinal(b),
        date_lt(a, b) <==> (a.year < b.year || (a.year == b.year && a.month < b.month) || (a.year == b.year
            && a.month == b.month && a.day < b.day)),
{
    let ya = a.year as int;
    let yb = b.year as int;
    let ma = a.month as int;
    let mb = b.month as int;
    let da = a.day as int;
    let db = b.day as int;
    assert(ya < yb ==> ya * 512 + ma * 32 + da < yb * 512 + mb * 32 + db) by (nonlinear_arith)
        requires
            1 <= ma <= 12,
            1 <= mb <= 12,
            1 <= da <= 31,
            1 <= db <= 31,
    ;
    assert(ya > yb ==> ya * 512 + ma * 32 + da > yb * 512 + mb * 32 + db) by (nonlinear_arith)
        requires
            1 <= ma <= 12,
            1 <= mb <= 12,
            1 <= da <= 31,
            1 <= db <= 31,
    ;
}

/// Datetimes are ordered chronologically: by date, then hour, minute and
/// second.
pub proof fn law_datetimes_in_time_order(a: DateTime, b: DateTime)
    ensures
        datetime_lt(a, b) <==> (date_lt(a.date, b.date) || (a.date == b.date && (a.hour, a.minute, a.second)
            != (b.hour, b.minute, b.second) && (a.hour < b.hour || (a.hour == b.hour && a.minute < b.minute) || (
        a.hour == b.hour && a.minute == b.minute && a.second < b.second)))),
{
}
} // verus!
