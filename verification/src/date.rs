//! Calendar dates and their day numbers.
//!
//! The engine measures time as seconds since the epoch instant
//! 1970-01-01T00:00:00 and dates as whole days since 1970-01-01 (day 0).
//! A `CalendarDate` is the year/month/day form a user writes; `day_number`
//! maps it to its day count. The representable range is the years 1970
//! through 9999.

use vstd::prelude::*;
use vstd::arithmetic::div_mod::lemma_fundamental_div_mod;
use vstd::arithmetic::div_mod::lemma_fundamental_div_mod_converse;

verus! {

/// Day number of 9999-12-31, the last representable date.
pub const MAX_DAY_NUMBER: u32 = 2932896;

/// Last representable instant: 9999-12-31T23:59:59.
pub const MAX_INSTANT: i64 = 253402300799;

/// True for leap years of the proleptic Gregorian calendar.
pub open spec fn spec_is_leap_year(y: int) -> bool {
    y % 4 == 0 && (y % 100 != 0 || y % 400 == 0)
}

/// Leap days in the years 1 through y - 1.
pub open spec fn spec_leap_days_before(y: int) -> int {
    (y - 1) / 4 - (y - 1) / 100 + (y - 1) / 400
}

/// Days from 1970-01-01 to the first day of year y.
pub open spec fn spec_days_before_year(y: int) -> int {
    365 * (y - 1970) + spec_leap_days_before(y) - spec_leap_days_before(1970)
}

/// Days from the first day of year y to the first day of its month m.
pub open spec fn spec_days_before_month(y: int, m: int) -> int {
    (if m == 1 {
        0int
    } else if m == 2 {
        31
    } else if m == 3 {
        59
    } else if m == 4 {
        90
    } else if m == 5 {
        120
    } else if m == 6 {
        151
    } else if m == 7 {
        181
    } else if m == 8 {
        212
    } else if m == 9 {
        243
    } else if m == 10 {
        273
    } else if m == 11 {
        304
    } else {
        334
    }) + if m > 2 && spec_is_leap_year(y) {
        1int
    } else {
        0int
    }
}

/// Length of month m in year y.
pub open spec fn spec_days_in_month(y: int, m: int) -> int {
    if m == 2 {
        if spec_is_leap_year(y) {
            29int
        } else {
            28int
        }
    } else if m == 4 || m == 6 || m == 9 || m == 11 {
        30int
    } else {
        31int
    }
}

/// A calendar date: year, month (1-12) and day of month.
#[derive(Clone, Copy, PartialEq, Eq, Structural, Debug)]
pub struct CalendarDate {
    pub year: u16,
    pub month: u8,
    pub day: u8,
}

impl CalendarDate {
    /// A date is well formed when it lies in the representable range and
    /// names a day its month actually has.
    pub open spec fn wf(self) -> bool {
        1970 <= self.year <= 9999 && 1 <= self.month <= 12 && 1 <= self.day
            <= spec_days_in_month(self.year as int, self.month as int)
    }

    /// Days since 1970-01-01.
    pub open spec fn spec_day_number(self) -> int {
        spec_days_before_year(self.year as int) + spec_days_before_month(
            self.year as int,
            self.month as int,
        ) + self.day - 1
    }

    /// Build a date, rejecting anything outside the representable range.
    pub fn new(year: u16, month: u8, day: u8) -> (r: Option<CalendarDate>)
        ensures
            r is Some <==> (CalendarDate { year, month, day }).wf(),
            r is Some ==> r.unwrap() == (CalendarDate { year, month, day }),
    {
        let d = CalendarDate { year, month, day };
        if 1970 <= year && year <= 9999 && 1 <= month && month <= 12 && 1 <= day && day
            <= days_in_month(year, month) {
            Some(d)
        } else {
            None
        }
    }

    /// Days since 1970-01-01 of this date.
    pub fn day_number(&self) -> (r: u32)
        requires
            self.wf(),
        ensures
            r == self.spec_day_number(),
            r <= MAX_DAY_NUMBER,
    {
        proof {
            lemma_day_number_bounds(*self);
        }
        let y: u32 = self.year as u32;
        let leaps: u32 = (y - 1) / 4 - (y - 1) / 100 + (y - 1) / 400;
        let before_year: u32 = 365 * (y - 1970) + leaps - 477;
        before_year + days_before_month(self.year, self.month) as u32 + self.day as u32 - 1
    }
}

/// Exec form of `spec_is_leap_year`.
pub fn is_leap_year(y: u16) -> (r: bool)
    ensures
        r == spec_is_leap_year(y as int),
{
    y % 4 == 0 && (y % 100 != 0 || y % 400 == 0)
}

/// Exec form of `spec_days_in_month`.
pub fn days_in_month(y: u16, m: u8) -> (r: u8)
    ensures
        r == spec_days_in_month(y as int, m as int),
{
    if m == 2 {
        if is_leap_year(y) {
            29
        } else {
            28
        }
    } else if m == 4 || m == 6 || m == 9 || m == 11 {
        30
    } else {
        31
    }
}

/// Exec form of `spec_days_before_month`.
pub fn days_before_month(y: u16, m: u8) -> (r: u16)
    requires
        1 <= m <= 12,
    ensures
        r == spec_days_before_month(y as int, m as int),
{
    let base: u16 = if m == 1 {
        0
    } else if m == 2 {
        31
    } else if m == 3 {
        59
    } else if m == 4 {
        90
    } else if m == 5 {
        120
    } else if m == 6 {
        151
    } else if m == 7 {
        181
    } else if m == 8 {
        212
    } else if m == 9 {
        243
    } else if m == 10 {
        273
    } else if m == 11 {
        304
    } else {
        334
    };
    if m > 2 && is_leap_year(y) {
        base + 1
    } else {
        base
    }
}

/// Day numbers of well-formed dates stay within the representable range.
pub proof fn lemma_day_number_bounds(d: CalendarDate)
    requires
        d.wf(),
    ensures
        0 <= d.spec_day_number() <= MAX_DAY_NUMBER,
{
}

/// Crossing from year y to year y + 1 steps the leap-day count by one
/// exactly in leap years.
proof fn lemma_div_count_step(y: int, d: int)
    requires
        d >= 1,
    ensures
        y / d - (y - 1) / d == if y % d == 0 {
            1int
        } else {
            0int
        },
{
    lemma_fundamental_div_mod(y, d);
    let q = y / d;
    let r = y % d;
    if r == 0 {
        assert((q - 1) * d + (d - 1) == d * q - 1) by (nonlinear_arith);
        lemma_fundamental_div_mod_converse(y - 1, d, q - 1, d - 1);
    } else {
        assert(q * d + (r - 1) == d * q + r - 1) by (nonlinear_arith);
        lemma_fundamental_div_mod_converse(y - 1, d, q, r - 1);
    }
}

/// A year holds 365 days, and one more in leap years.
pub proof fn lemma_year_length(y: int)
    requires
        y >= 1,
    ensures
        spec_days_before_year(y + 1) == spec_days_before_year(y) + if spec_is_leap_year(y) {
            366int
        } else {
            365int
        },
{
    lemma_div_count_step(y, 4);
    lemma_div_count_step(y, 100);
    lemma_div_count_step(y, 400);
    if y % 400 == 0 {
        assert(y % 4 == 0 && y % 100 == 0) by {
            lemma_fundamental_div_mod(y, 400);
            let q = y / 400;
            lemma_fundamental_div_mod_converse(y, 4, 100 * q, 0);
            lemma_fundamental_div_mod_converse(y, 100, 4 * q, 0);
            assert(400 * q == 4 * (100 * q)) by (nonlinear_arith);
            assert(400 * q == 100 * (4 * q)) by (nonlinear_arith);
        }
    }
    if y % 100 == 0 {
        assert(y % 4 == 0) by {
            lemma_fundamental_div_mod(y, 100);
            let q = y / 100;
            lemma_fundamental_div_mod_converse(y, 4, 25 * q, 0);
            assert(100 * q == 4 * (25 * q)) by (nonlinear_arith);
        }
    }
}

/// Later years begin on later days.
proof fn lemma_days_before_year_increases(y1: int, y2: int)
    requires
        1 <= y1 <= y2,
    ensures
        spec_days_before_year(y1) + 365 * (y2 - y1) <= spec_days_before_year(y2),
    decreases y2 - y1,
{
    if y1 < y2 {
        lemma_days_before_year_increases(y1, y2 - 1);
        lemma_year_length(y2 - 1);
    }
}

/// A well-formed date's day number lies within its year.
proof fn lemma_day_number_within_year(d: CalendarDate)
    requires
        d.wf(),
    ensures
        spec_days_before_year(d.year as int) <= d.spec_day_number() < spec_days_before_year(
            d.year as int + 1,
        ),
{
    lemma_year_length(d.year as int);
}

/// No two well-formed dates share a day number.
pub proof fn lemma_day_number_injective(d1: CalendarDate, d2: CalendarDate)
    requires
        d1.wf(),
        d2.wf(),
        d1.spec_day_number() == d2.spec_day_number(),
    ensures
        d1 == d2,
{
    lemma_day_number_within_year(d1);
    lemma_day_number_within_year(d2);
    if d1.year < d2.year {
        lemma_days_before_year_increases(d1.year as int + 1, d2.year as int);
    }
    if d2.year < d1.year {
        lemma_days_before_year_increases(d2.year as int + 1, d1.year as int);
    }
    assert(d1.year == d2.year);
}

/// The unique well-formed date with the given day number.
pub open spec fn spec_civil_of_day(day: int) -> CalendarDate {
    choose|d: CalendarDate| d.wf() && d.spec_day_number() == day
}

/// The year a representable day number falls in, searching upward from
/// `y0`, which must not lie past it.
proof fn lemma_year_of_day_from(day: int, y0: int) -> (y: int)
    requires
        1970 <= y0 <= 9999,
        spec_days_before_year(y0) <= day <= MAX_DAY_NUMBER,
    ensures
        y0 <= y <= 9999,
        spec_days_before_year(y) <= day < spec_days_before_year(y + 1),
    decreases 9999 - y0,
{
    if day < spec_days_before_year(y0 + 1) {
        y0
    } else if y0 == 9999 {
        assert(spec_days_before_year(10000) == MAX_DAY_NUMBER + 1);
        assert(false);
        y0
    } else {
        lemma_year_of_day_from(day, y0 + 1)
    }
}

/// The month a day offset within year `y` falls in.
proof fn lemma_month_of_rem(y: int, rem: int) -> (m: int)
    requires
        1970 <= y <= 9999,
        0 <= rem,
        rem < spec_days_before_year(y + 1) - spec_days_before_year(y),
    ensures
        1 <= m <= 12,
        spec_days_before_month(y, m) <= rem < spec_days_before_month(y, m) + spec_days_in_month(
            y,
            m,
        ),
{
    lemma_year_length(y);
    let leap: int = if spec_is_leap_year(y) {
        1int
    } else {
        0int
    };
    if rem < 31 {
        1
    } else if rem < 59 + leap {
        2
    } else if rem < 90 + leap {
        3
    } else if rem < 120 + leap {
        4
    } else if rem < 151 + leap {
        5
    } else if rem < 181 + leap {
        6
    } else if rem < 212 + leap {
        7
    } else if rem < 243 + leap {
        8
    } else if rem < 273 + leap {
        9
    } else if rem < 304 + leap {
        10
    } else if rem < 334 + leap {
        11
    } else {
        12
    }
}

/// Every day number in the representable range belongs to a well-formed
/// date, so `spec_civil_of_day` is well defined on the whole range.
pub proof fn lemma_civil_of_day_wf(day: int)
    requires
        0 <= day <= MAX_DAY_NUMBER,
    ensures
        spec_civil_of_day(day).wf(),
        spec_civil_of_day(day).spec_day_number() == day,
{
    let y = lemma_year_of_day_from(day, 1970);
    let rem = day - spec_days_before_year(y);
    lemma_year_length(y);
    let m = lemma_month_of_rem(y, rem);
    let witness = CalendarDate {
        year: y as u16,
        month: m as u8,
        day: (rem - spec_days_before_month(y, m) + 1) as u8,
    };
    assert(witness.wf() && witness.spec_day_number() == day);
    assert(exists|d: CalendarDate| d.wf() && d.spec_day_number() == day);
}

/// Exec form of `spec_days_before_year`.
pub fn days_before_year(y: u16) -> (r: u32)
    requires
        1970 <= y <= 10000,
    ensures
        r == spec_days_before_year(y as int),
{
    let yy: u32 = y as u32;
    let leaps: u32 = (yy - 1) / 4 - (yy - 1) / 100 + (yy - 1) / 400;
    365 * (yy - 1970) + leaps - 477
}

/// Recover the calendar date of a day number: the inverse of
/// `day_number` on the representable range.
pub fn day_to_civil(day: u32) -> (r: CalendarDate)
    requires
        day <= MAX_DAY_NUMBER,
    ensures
        r.wf(),
        r.spec_day_number() == day as int,
        r == spec_civil_of_day(day as int),
{
    let mut y: u16 = 1970;
    while y < 9999 && days_before_year(y + 1) <= day
        invariant
            1970 <= y <= 9999,
            day <= MAX_DAY_NUMBER,
            spec_days_before_year(y as int) <= day as int,
        decreases 9999 - y,
    {
        proof {
            lemma_year_length(y as int);
        }
        y = y + 1;
    }
    proof {
        if y == 9999 {
            assert(spec_days_before_year(10000) == MAX_DAY_NUMBER + 1);
        }
        lemma_year_length(y as int);
    }
    let rem: u32 = day - days_before_year(y);
    let mut m: u8 = 1;
    while m < 12 && (days_before_month(y, m + 1) as u32) <= rem
        invariant
            1 <= m <= 12,
            1970 <= y <= 9999,
            spec_days_before_month(y as int, m as int) <= rem as int,
            (rem as int) < spec_days_before_year(y as int + 1) - spec_days_before_year(y as int),
            spec_days_before_year(y as int + 1) - spec_days_before_year(y as int)
                == if spec_is_leap_year(y as int) {
                366int
            } else {
                365int
            },
        decreases 12 - m,
    {
        m = m + 1;
    }
    let dom: u8 = (rem - days_before_month(y, m) as u32) as u8 + 1;
    let r = CalendarDate { year: y, month: m, day: dom };
    proof {
        assert(r.wf());
        assert(r.spec_day_number() == day as int);
        assert(spec_civil_of_day(day as int).wf() && spec_civil_of_day(
            day as int,
        ).spec_day_number() == day as int) by {
            assert(r.wf() && r.spec_day_number() == day as int);
        }
        lemma_day_number_injective(r, spec_civil_of_day(day as int));
    }
    r
}

/// Weekday of a day number, with 0 standing for Sunday (day 0,
/// 1970-01-01, was a Thursday, weekday 4).
pub open spec fn spec_weekday_of_day(d: int) -> int {
    (d + 4) % 7
}

/// Exec form of `spec_weekday_of_day` for nonnegative day numbers.
pub fn weekday_of_day(d: u32) -> (r: u8)
    ensures
        r == spec_weekday_of_day(d as int),
        r < 7,
{
    ((d as u64 + 4) % 7) as u8
}

} // verus!
