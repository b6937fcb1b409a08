//! Times of day and the HH:MM notation users write them in.

use vstd::prelude::*;
use crate::errors::ValidationIssue;
use crate::text::spec_two_digits;
use crate::text::two_digit_string;

verus! {

/// A time of day, hours and minutes.
#[derive(Clone, Copy, PartialEq, Eq, Structural, Debug)]
pub struct ClockTime {
    pub hour: u8,
    pub minute: u8,
}

impl ClockTime {
    /// A clock time is well formed when it is a valid 24-hour HH:MM value.
    pub open spec fn wf(self) -> bool {
        self.hour < 24 && self.minute < 60
    }

    /// Minutes elapsed since midnight.
    pub open spec fn spec_minute_of_day(self) -> int {
        self.hour * 60 + self.minute
    }

    pub fn minute_of_day(&self) -> (r: u16)
        requires
            self.wf(),
        ensures
            r as int == self.spec_minute_of_day(),
            r < 1440,
    {
        self.hour as u16 * 60 + self.minute as u16
    }
}

/// The HH:MM rendering of an hour and a minute, zero padded.
pub open spec fn spec_hhmm_string(hour: int, minute: int) -> Seq<char> {
    spec_two_digits(hour) + ":"@ + spec_two_digits(minute)
}

/// Render an hour and a minute in HH:MM form, zero padded.
pub fn format_hhmm(hour: u8, minute: u8) -> (r: String)
    requires
        hour < 100,
        minute < 100,
    ensures
        r@ =~= spec_hhmm_string(hour as int, minute as int),
{
    let mut s = two_digit_string(hour);
    s.append(":");
    s.append(two_digit_string(minute).as_str());
    s
}

/// True of the ASCII digits.
pub open spec fn spec_is_digit(c: char) -> bool {
    48 <= c as int <= 57
}

/// Numeric value of an ASCII digit.
pub open spec fn spec_digit_val(c: char) -> int {
    c as int - 48
}

/// True of five-character strings of the exact shape HH:MM, with any
/// digit values.
pub open spec fn spec_hhmm_shape(s: Seq<char>) -> bool {
    s.len() == 5 && spec_is_digit(s[0]) && spec_is_digit(s[1]) && s[2] == ':' && spec_is_digit(
        s[3],
    ) && spec_is_digit(s[4])
}

/// Hour value of a string of HH:MM shape.
pub open spec fn spec_hhmm_hour(s: Seq<char>) -> int {
    spec_digit_val(s[0]) * 10 + spec_digit_val(s[1])
}

/// Minute value of a string of HH:MM shape.
pub open spec fn spec_hhmm_minute(s: Seq<char>) -> int {
    spec_digit_val(s[3]) * 10 + spec_digit_val(s[4])
}

/// True of strings that denote a valid 24-hour time of day.
pub open spec fn spec_valid_hhmm(s: Seq<char>) -> bool {
    spec_hhmm_shape(s) && spec_hhmm_hour(s) < 24 && spec_hhmm_minute(s) < 60
}

/// Parse an HH:MM string into a time of day. Succeeds exactly on valid
/// 24-hour times; the error names what was wrong with the input.
pub fn parse_hhmm(s: &str) -> (r: Result<ClockTime, ValidationIssue>)
    ensures
        r is Ok <==> spec_valid_hhmm(s@),
        r is Ok ==> r.unwrap().wf() && r.unwrap().hour == spec_hhmm_hour(s@)
            && r.unwrap().minute == spec_hhmm_minute(s@),
        !spec_hhmm_shape(s@) ==> r == Err::<ClockTime, ValidationIssue>(
            ValidationIssue::MalformedTime,
        ),
        spec_hhmm_shape(s@) && spec_hhmm_hour(s@) >= 24 ==> r == Err::<ClockTime, ValidationIssue>(
            ValidationIssue::HourOutOfRange,
        ),
        spec_hhmm_shape(s@) && spec_hhmm_hour(s@) < 24 && spec_hhmm_minute(s@) >= 60 ==> r == Err::<
            ClockTime,
            ValidationIssue,
        >(ValidationIssue::MinuteOutOfRange),
{
    if s.unicode_len() != 5 {
        return Err(ValidationIssue::MalformedTime);
    }
    let c0 = s.get_char(0);
    let c1 = s.get_char(1);
    let c2 = s.get_char(2);
    let c3 = s.get_char(3);
    let c4 = s.get_char(4);
    if !(is_digit(c0) && is_digit(c1) && c2 == ':' && is_digit(c3) && is_digit(c4)) {
        return Err(ValidationIssue::MalformedTime);
    }
    let hour: u8 = digit_val(c0) * 10 + digit_val(c1);
    let minute: u8 = digit_val(c3) * 10 + digit_val(c4);
    if hour >= 24 {
        return Err(ValidationIssue::HourOutOfRange);
    }
    if minute >= 60 {
        return Err(ValidationIssue::MinuteOutOfRange);
    }
    Ok(ClockTime { hour, minute })
}

fn is_digit(c: char) -> (r: bool)
    ensures
        r == spec_is_digit(c),
{
    let v = c as u32;
    48 <= v && v <= 57
}

fn digit_val(c: char) -> (r: u8)
    requires
        spec_is_digit(c),
    ensures
        r as int == spec_digit_val(c),
        r < 10,
{
    (c as u32 - 48) as u8
}

} // verus!
