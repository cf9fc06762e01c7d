//! Calendar dates as plain year, month and day, checked against `chrono`.

use vstd::prelude::*;
use vstd::string::*;
use crate::scan::{LOWER_A, UPPER_A, UPPER_Z};

verus! {

/// The earliest year a date may have.
pub const MIN_YEAR: i32 = -262143;

/// The latest year a date may have.
pub const MAX_YEAR: i32 = 262142;

/// Leap years of the proleptic Gregorian calendar.
pub open spec fn is_leap_year(year: int) -> bool {
    year % 4 == 0 && (year % 100 != 0 || year % 400 == 0)
}

/// Number of days of the given month, for a month from 1 to 12.
pub open spec fn days_in_month(year: int, month: int) -> int {
    if month == 2 {
        if is_leap_year(year) {
            29
        } else {
            28
        }
    } else if month == 4 || month == 6 || month == 9 || month == 11 {
        30
    } else {
        31
    }
}

/// Year, month and day name a day of the proleptic Gregorian calendar, in a
/// year that a date can hold.
pub open spec fn is_calendar_date(year: int, month: int, day: int) -> bool {
    &&& MIN_YEAR <= year <= MAX_YEAR
    &&& 1 <= month <= 12
    &&& 1 <= day <= days_in_month(year, month)
}

/// A calendar date.
#[derive(Clone, Copy, Debug, PartialEq, Eq, Structural)]
pub struct Date {
    pub year: i32,
    pub month: u32,
    pub day: u32,
}

impl Date {
    /// The date names a day that exists.
    pub open spec fn is_valid(self) -> bool {
        is_calendar_date(self.year as int, self.month as int, self.day as int)
    }

    /// The date with the given parts, if there is such a day.
    pub open spec fn spec_from_ymd_opt(year: int, month: int, day: int) -> Option<Date> {
        if is_calendar_date(year, month, day) {
            Some(Date { year: year as i32, month: month as u32, day: day as u32 })
        } else {
            None
        }
    }

    /// Makes a date from its parts; `None` where no such day exists.
    pub fn from_ymd_opt(year: i32, month: u32, day: u32) -> (r: Option<Date>)
        ensures
            r == Self::spec_from_ymd_opt(year as int, month as int, day as int),
            r matches Some(d) ==> d.is_valid(),
    {
        if calendar_has(year, month, day) {
            Some(Date { year, month, day })
        } else {
            None
        }
    }
}

/// Calls `chrono::NaiveDate::from_ymd_opt` and reports whether it produced a
/// date. Trusted: chrono returns a date exactly for the days of the proleptic
/// Gregorian calendar whose year lies between its `MIN_YEAR` and `MAX_YEAR`.
#[verifier::external_body]
fn calendar_has(year: i32, month: u32, day: u32) -> (ok: bool)
    ensures
        ok == is_calendar_date(year as int, month as int, day as int),
{
    chrono::NaiveDate::from_ymd_opt(year, month, day).is_some()
}

/// An upper-case ASCII letter becomes lower case; any other byte is kept.
pub open spec fn fold_case(b: u8) -> u8 {
    if UPPER_A <= b <= UPPER_Z {
        (b + (LOWER_A - UPPER_A)) as u8
    } else {
        b
    }
}

/// The two byte strings are equal up to the case of ASCII letters.
pub open spec fn same_letters(a: Seq<u8>, b: Seq<u8>) -> bool {
    &&& a.len() == b.len()
    &&& forall|i: int| 0 <= i < a.len() ==> fold_case(#[trigger] a[i]) == fold_case(b[i])
}

/// `name` is the short or the long English name of a month, in any case.
pub open spec fn names_month(name: Seq<u8>, short: &str, long: &str) -> bool {
    same_letters(name, short.spec_bytes()) || same_letters(name, long.spec_bytes())
}

/// The number, from 1 to 12, of the month that `name` names.
pub open spec fn month_of_name(name: Seq<u8>) -> Option<u32> {
    if names_month(name, "jan", "january") {
        Some(1)
    } else if names_month(name, "feb", "february") {
        Some(2)
    } else if names_month(name, "mar", "march") {
        Some(3)
    } else if names_month(name, "apr", "april") {
        Some(4)
    } else if names_month(name, "may", "may") {
        Some(5)
    } else if names_month(name, "jun", "june") {
        Some(6)
    } else if names_month(name, "jul", "july") {
        Some(7)
    } else if names_month(name, "aug", "august") {
        Some(8)
    } else if names_month(name, "sep", "september") {
        Some(9)
    } else if names_month(name, "oct", "october") {
        Some(10)
    } else if names_month(name, "nov", "november") {
        Some(11)
    } else if names_month(name, "dec", "december") {
        Some(12)
    } else {
        None
    }
}

/// Parses `name` with chrono's `FromStr` for `Month` and gives the month's
/// number by `Month::number_from_month`. Trusted: chrono accepts the
/// three-letter and the full English month names, ignoring ASCII case, and
/// nothing else; bytes that are not UTF-8 are no name.
#[verifier::external_body]
pub(crate) fn month_from_name(name: &[u8]) -> (r: Option<u32>)
    ensures
        r == month_of_name(name@),
{
    match std::str::from_utf8(name) {
        Ok(text) => match text.parse::<chrono::Month>() {
            Ok(month) => Some(month.number_from_month()),
            Err(_) => None,
        },
        Err(_) => None,
    }
}

} // verus!
