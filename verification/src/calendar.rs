//! Calendar days as reviews use them: which days exist, how they are
//! written, and how chrono reads them from record metadata.
use vstd::prelude::*;
use chrono::{Datelike, NaiveDate};
use crate::numbers::{decimal, decimal_chars};
use crate::text::{push_all, push_str};

verus! {

/// The earliest year chrono's `NaiveDate` represents.
pub const MIN_YEAR: i32 = -262143;

/// The latest year chrono's `NaiveDate` represents.
pub const MAX_YEAR: i32 = 262142;

/// A day of the proleptic Gregorian calendar.
#[derive(Clone, Copy, Debug, PartialEq, Eq, Structural)]
pub struct Day {
    pub year: i32,
    pub month: u32,
    pub day: u32,
}

/// The absolute value of `y`.
pub open spec fn abs_int(y: int) -> nat {
    if y < 0 {
        (-y) as nat
    } else {
        y as nat
    }
}

/// Gregorian leap years (year 0 and every fourth year before it included).
pub open spec fn leap_year(y: int) -> bool {
    let a = abs_int(y);
    (a % 4 == 0 && a % 100 != 0) || a % 400 == 0
}

/// The number of days of month `m` in year `y`.
pub open spec fn month_length(y: int, m: int) -> int {
    if m == 2 {
        if leap_year(y) {
            29
        } else {
            28
        }
    } else if m == 4 || m == 6 || m == 9 || m == 11 {
        30
    } else {
        31
    }
}

/// `(y, m, d)` is a calendar day that chrono can represent.
pub open spec fn valid_ymd(y: int, m: int, d: int) -> bool {
    MIN_YEAR <= y <= MAX_YEAR && 1 <= m <= 12 && 1 <= d <= month_length(y, m)
}

/// `d` is a calendar day that chrono can represent.
pub open spec fn valid_day(d: Day) -> bool {
    valid_ymd(d.year as int, d.month as int, d.day as int)
}

/// `a` is no later than `b`.
pub open spec fn day_le(a: Day, b: Day) -> bool {
    a.year < b.year || (a.year == b.year && (a.month < b.month || (a.month == b.month && a.day
        <= b.day)))
}

/// The day before `d`.
pub open spec fn preceding(d: Day) -> Day {
    if d.day > 1 {
        Day { day: (d.day - 1) as u32, ..d }
    } else if d.month > 1 {
        Day {
            year: d.year,
            month: (d.month - 1) as u32,
            day: month_length(d.year as int, d.month - 1) as u32,
        }
    } else {
        Day { year: (d.year - 1) as i32, month: 12, day: 31 }
    }
}

/// `s` preceded by zeros up to `width` characters.
pub open spec fn zero_padded(s: Seq<char>, width: nat) -> Seq<char> {
    if s.len() >= width {
        s
    } else {
        Seq::new((width - s.len()) as nat, |i: int| '0') + s
    }
}

/// An integer as Rust's `Display` writes it.
pub open spec fn int_text(y: int) -> Seq<char> {
    if y < 0 {
        seq!['-'] + decimal(abs_int(y))
    } else {
        decimal(y as nat)
    }
}

/// An integer as `{:04}` writes it: the sign counts toward the width.
pub open spec fn int_text04(y: int) -> Seq<char> {
    if y < 0 {
        seq!['-'] + zero_padded(decimal(abs_int(y)), 3)
    } else {
        zero_padded(decimal(y as nat), 4)
    }
}

/// A year as chrono writes dates: four digits, with an explicit sign outside
/// 0 to 9999.
pub open spec fn year_text(y: int) -> Seq<char> {
    if 0 <= y <= 9999 {
        zero_padded(decimal(y as nat), 4)
    } else {
        seq![if y < 0 { '-' } else { '+' }] + zero_padded(decimal(abs_int(y)), 4)
    }
}

/// A day written `YYYY-MM-DD`, as chrono's `NaiveDate` displays it.
pub open spec fn day_text(d: Day) -> Seq<char> {
    year_text(d.year as int) + seq!['-'] + zero_padded(decimal(d.month as nat), 2) + seq!['-']
        + zero_padded(decimal(d.day as nat), 2)
}

/// What chrono's `NaiveDate::parse_from_str` makes of a text with the format
/// `%Y-%m-%d`: the day it reads, or `None` when it refuses the text.
pub uninterp spec fn parsed_day(s: Seq<char>) -> Option<Day>;

/// chrono's `NaiveDate::from_ymd_opt`, reduced to whether it gives a day. Its
/// documentation says it gives none exactly when the day does not exist in
/// the calendar, the month or day is out of range, or the year is outside
/// what `NaiveDate` represents (`MIN_YEAR` to `MAX_YEAR`); that is the claim.
#[verifier::external_body]
fn chrono_accepts(year: i32, month: u32, day: u32) -> (ok: bool)
    ensures
        ok == valid_ymd(year as int, month as int, day as int),
{
    NaiveDate::from_ymd_opt(year, month, day).is_some()
}

/// chrono's `NaiveDate::parse_from_str` with the format `%Y-%m-%d`, with the
/// day it reads as year, month and day. The result is named `parsed_day` and
/// claimed to be a valid day, as every `NaiveDate` is.
#[verifier::external_body]
pub(crate) fn parse_day(s: &str) -> (r: Option<Day>)
    ensures
        r == parsed_day(s@),
        r is Some ==> valid_day(r->0),
{
    match NaiveDate::parse_from_str(s, "%Y-%m-%d") {
        Ok(d) => Some(Day { year: d.year(), month: d.month(), day: d.day() }),
        Err(_) => None,
    }
}

/// Whether `year` is a leap year.
pub fn is_leap_year(year: i32) -> (r: bool)
    ensures
        r == leap_year(year as int),
{
    let a: u64 = if year < 0 {
        (0i64 - year as i64) as u64
    } else {
        year as u64
    };
    (a % 4 == 0 && a % 100 != 0) || a % 400 == 0
}

/// The number of days in a month.
pub fn days_in_month(year: i32, month: u32) -> (r: u32)
    ensures
        r == month_length(year as int, month as int),
{
    if month == 2 {
        if is_leap_year(year) {
            29
        } else {
            28
        }
    } else if month == 4 || month == 6 || month == 9 || month == 11 {
        30
    } else {
        31
    }
}

/// The day `(year, month, day)`, if the calendar has it.
pub fn calendar_day(year: i32, month: u32, day: u32) -> (r: Option<Day>)
    ensures
        valid_ymd(year as int, month as int, day as int) ==> r == Some(
            Day { year, month, day },
        ),
        !valid_ymd(year as int, month as int, day as int) ==> r is None,
{
    if chrono_accepts(year, month, day) {
        Some(Day { year, month, day })
    } else {
        None
    }
}

/// Whether `a` is no later than `b`.
pub fn is_day_le(a: Day, b: Day) -> (r: bool)
    ensures
        r == day_le(a, b),
{
    a.year < b.year || (a.year == b.year && (a.month < b.month || (a.month == b.month && a.day
        <= b.day)))
}

/// The day before `d`, which must not be the first day chrono represents.
pub fn day_before(d: Day) -> (r: Day)
    requires
        valid_day(d),
        !(d.year == MIN_YEAR && d.month == 1 && d.day == 1),
    ensures
        r == preceding(d),
        valid_day(r),
{
    if d.day > 1 {
        Day { day: d.day - 1, ..d }
    } else if d.month > 1 {
        Day { year: d.year, month: d.month - 1, day: days_in_month(d.year, d.month - 1) }
    } else {
        Day { year: d.year - 1, month: 12, day: 31 }
    }
}

/// Appends `n` in decimal, preceded by zeros up to `width` characters.
pub fn push_zero_padded(out: &mut Vec<char>, n: u64, width: usize)
    ensures
        final(out)@ == old(out)@ + zero_padded(decimal(n as nat), width as nat),
{
    let digits = decimal_chars(n);
    let mut k: usize = digits.len();
    let ghost start = out@;
    while k < width
        invariant
            digits@ == decimal(n as nat),
            digits.len() <= k <= width || (k == digits.len() && k >= width),
            out@ == start + Seq::new((k - digits.len()) as nat, |i: int| '0'),
        decreases width - k,
    {
        out.push('0');
        assert(out@ =~= start + Seq::new((k + 1 - digits.len()) as nat, |i: int| '0'));
        k = k + 1;
    }
    push_all(out, digits.as_slice());
    if digits.len() >= width {
        assert(out@ =~= start + digits@);
    } else {
        assert(out@ =~= start + zero_padded(decimal(n as nat), width as nat));
    }
}

/// Appends an integer as Rust's `Display` writes it.
pub fn push_int(out: &mut Vec<char>, y: i64)
    ensures
        final(out)@ == old(out)@ + int_text(y as int),
{
    if y < 0 {
        out.push('-');
        let a: u64 = if y == i64::MIN {
            9223372036854775808u64
        } else {
            (0 - y) as u64
        };
        let digits = decimal_chars(a);
        push_all(out, digits.as_slice());
    } else {
        let digits = decimal_chars(y as u64);
        push_all(out, digits.as_slice());
    }
}

/// Appends an integer as `{:04}` writes it.
pub fn push_int04(out: &mut Vec<char>, y: i32)
    ensures
        final(out)@ == old(out)@ + int_text04(y as int),
{
    if y < 0 {
        out.push('-');
        let a: u64 = (0i64 - y as i64) as u64;
        push_zero_padded(out, a, 3);
    } else {
        push_zero_padded(out, y as u64, 4);
    }
}

/// Appends a day written `YYYY-MM-DD`.
pub fn push_day(out: &mut Vec<char>, d: Day)
    ensures
        final(out)@ == old(out)@ + day_text(d),
{
    let ghost start = out@;
    if 0 <= d.year && d.year <= 9999 {
        push_zero_padded(out, d.year as u64, 4);
    } else {
        if d.year < 0 {
            out.push('-');
        } else {
            out.push('+');
        }
        let a: u64 = if d.year < 0 {
            (0i64 - d.year as i64) as u64
        } else {
            d.year as u64
        };
        push_zero_padded(out, a, 4);
    }
    assert(out@ =~= start + year_text(d.year as int));
    out.push('-');
    push_zero_padded(out, d.month as u64, 2);
    out.push('-');
    push_zero_padded(out, d.day as u64, 2);
    assert(out@ =~= start + day_text(d));
}

/// A day written `YYYY-MM-DD`.
pub fn day_string(d: Day) -> (s: String)
    ensures
        s@ == day_text(d),
{
    let mut out: Vec<char> = Vec::new();
    push_day(&mut out, d);
    assert(out@ =~= day_text(d));
    crate::text::string_of(out.as_slice())
}

/// The message for a day the calendar does not have.
pub open spec fn invalid_date_message(y: int, m: int, d: int) -> Seq<char> {
    "invalid calendar date: "@ + int_text04(y) + seq!['-'] + zero_padded(decimal(m as nat), 2)
        + seq!['-'] + zero_padded(decimal(d as nat), 2)
}

/// The day `(year, month, day)`, or the message naming it when the calendar
/// does not have it.
pub fn date(year: i32, month: u32, day: u32) -> (r: Result<Day, String>)
    ensures
        valid_ymd(year as int, month as int, day as int) ==> r == Ok::<Day, String>(
            Day { year, month, day },
        ),
        !valid_ymd(year as int, month as int, day as int) ==> r is Err && r->Err_0@
            == invalid_date_message(year as int, month as int, day as int),
{
    match calendar_day(year, month, day) {
        Some(d) => Ok(d),
        None => {
            let mut e: Vec<char> = Vec::new();
            push_str(&mut e, "invalid calendar date: ");
            push_int04(&mut e, year);
            e.push('-');
            push_zero_padded(&mut e, month as u64, 2);
            e.push('-');
            push_zero_padded(&mut e, day as u64, 2);
            proof {
                reveal_strlit("invalid calendar date: ");
            }
            assert(e@ =~= invalid_date_message(year as int, month as int, day as int));
            Err(crate::text::string_of(e.as_slice()))
        },
    }
}

} // verus!
