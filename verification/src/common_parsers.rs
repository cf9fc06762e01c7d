//! The tokens that all statement formats share: dates in their several
//! spellings, currency amounts, and the skip to a named phrase.

use vstd::prelude::*;
use vstd::slice::slice_subrange;
use crate::date::{month_from_name, month_of_name, Date, MAX_YEAR};
use crate::error::{error_at, fail_at, lexical, outcome, outcome_view, ErrorKind, ParseError};
use crate::scan::{
    advance, byte, digits_value, find, find_first, lemma_find_props, lemma_span_props, opt_byte,
    run1, signed, skip_spaces, spaces1, span, span_len, spec_byte, spec_opt_byte, spec_run1,
    spec_signed, spec_spaces1, spec_unsigned, tallies, tally, unsigned, CharClass, COMMA, DOLLAR,
    DOT, MINUS, PLUS, SLASH, ZERO,
};

verus! {

/// A month written as a word: a run of letters that names a month.
pub open spec fn spec_month_word(s: Seq<u8>) -> Result<(Seq<u8>, u32), ParseError> {
    match spec_run1(s, CharClass::Alpha) {
        Ok((rest, name)) => match month_of_name(name) {
            Some(month) => Ok((rest, month)),
            None => Err(lexical(s)),
        },
        Err(e) => Err(e),
    }
}

/// Reads a month name and gives the month's number, 1 to 12.
pub fn month_word(input: &[u8]) -> (r: Result<(&[u8], u32), ParseError>)
    ensures
        outcome(r) == spec_month_word(input@),
{
    let (rest, name) = match run1(input, CharClass::Alpha) {
        Ok(v) => v,
        Err(e) => return Err(e),
    };
    match month_from_name(name) {
        Some(month) => Ok((rest, month)),
        None => Err(error_at(ErrorKind::Lexical, input)),
    }
}

/// A month name, white space, and a day number.
pub open spec fn spec_month_word_day(s: Seq<u8>) -> Result<(Seq<u8>, (u32, u32)), ParseError> {
    match spec_month_word(s) {
        Ok((s1, month)) => match spec_spaces1(s1) {
            Ok((s2, _)) => match spec_unsigned(s2) {
                Ok((rest, day)) => Ok((rest, (month, day))),
                Err(e) => Err(e),
            },
            Err(e) => Err(e),
        },
        Err(e) => Err(e),
    }
}

/// Reads month and day in the form `Jan 31`.
pub fn month_word_day(input: &[u8]) -> (r: Result<(&[u8], (u32, u32)), ParseError>)
    ensures
        outcome(r) == spec_month_word_day(input@),
{
    let (s1, month) = match month_word(input) {
        Ok(v) => v,
        Err(e) => return Err(e),
    };
    let (s2, _) = match spaces1(s1) {
        Ok(v) => v,
        Err(e) => return Err(e),
    };
    let (rest, day) = match unsigned(s2) {
        Ok(v) => v,
        Err(e) => return Err(e),
    };
    Ok((rest, (month, day)))
}

/// Two numbers with a slash between them. Neither is held to a range here.
pub open spec fn spec_month_day(s: Seq<u8>) -> Result<(Seq<u8>, (u32, u32)), ParseError> {
    match spec_unsigned(s) {
        Ok((s1, month)) => match spec_byte(s1, SLASH) {
            Ok((s2, _)) => match spec_unsigned(s2) {
                Ok((rest, day)) => Ok((rest, (month, day))),
                Err(e) => Err(e),
            },
            Err(e) => Err(e),
        },
        Err(e) => Err(e),
    }
}

/// Reads month and day in the form `1/31`.
pub fn month_day(input: &[u8]) -> (r: Result<(&[u8], (u32, u32)), ParseError>)
    ensures
        outcome(r) == spec_month_day(input@),
{
    let (s1, month) = match unsigned(input) {
        Ok(v) => v,
        Err(e) => return Err(e),
    };
    let (s2, _) = match byte(s1, SLASH) {
        Ok(v) => v,
        Err(e) => return Err(e),
    };
    let (rest, day) = match unsigned(s2) {
        Ok(v) => v,
        Err(e) => return Err(e),
    };
    Ok((rest, (month, day)))
}

/// Month, day and a year counted from 2000, with slashes between them; the
/// three must name a day that exists.
pub open spec fn spec_month_day_year(s: Seq<u8>) -> Result<(Seq<u8>, Date), ParseError> {
    match spec_month_day(s) {
        Ok((s1, (month, day))) => match spec_byte(s1, SLASH) {
            Ok((s2, _)) => match spec_signed(s2) {
                Ok((rest, year)) => match Date::spec_from_ymd_opt(
                    2000 + year,
                    month as int,
                    day as int,
                ) {
                    Some(date) => Ok((rest, date)),
                    None => Err(fail_at(ErrorKind::InvalidDate, s)),
                },
                Err(e) => Err(e),
            },
            Err(e) => Err(e),
        },
        Err(e) => Err(e),
    }
}

/// Reads a date in the form `1/31/24`, which is taken to lie in year 2024.
pub fn month_day_year(input: &[u8]) -> (r: Result<(&[u8], Date), ParseError>)
    ensures
        outcome(r) == spec_month_day_year(input@),
        r matches Ok((_, date)) ==> date.is_valid(),
{
    let (s1, (month, day)) = match month_day(input) {
        Ok(v) => v,
        Err(e) => return Err(e),
    };
    let (s2, _) = match byte(s1, SLASH) {
        Ok(v) => v,
        Err(e) => return Err(e),
    };
    let (rest, year) = match signed(s2) {
        Ok(v) => v,
        Err(e) => return Err(e),
    };
    if year > MAX_YEAR - 2000 {
        return Err(error_at(ErrorKind::InvalidDate, input));
    }
    match Date::from_ymd_opt(2000 + year, month, day) {
        Some(date) => Ok((rest, date)),
        None => Err(error_at(ErrorKind::InvalidDate, input)),
    }
}

/// The year of a month that a statement names without one: the year the
/// statement starts in, or the next where the month comes earlier in the
/// calendar than the starting month.
pub open spec fn inferred_year(month: u32, start_date: Date) -> int {
    if month < start_date.month {
        start_date.year + 1
    } else {
        start_date.year as int
    }
}

/// The date of a month and day that a statement names without a year.
pub open spec fn spec_infer_year(month: u32, day: u32, start_date: Date) -> Option<Date> {
    Date::spec_from_ymd_opt(inferred_year(month, start_date), month as int, day as int)
}

/// Completes month and day with the year that the statement's start implies;
/// `None` where that gives no day of the calendar.
pub fn infer_year(month: u32, day: u32, start_date: Date) -> (r: Option<Date>)
    ensures
        r == spec_infer_year(month, day, start_date),
        r matches Some(date) ==> date.is_valid() && date.month == month && date.day == day
            && date.year == inferred_year(month, start_date),
{
    let year = if month < start_date.month {
        if start_date.year >= MAX_YEAR {
            return None;
        }
        start_date.year + 1
    } else {
        start_date.year
    };
    Date::from_ymd_opt(year, month, day)
}

/// In a statement that starts in December, a day of December lies in the
/// year the statement starts in, and a day of January in the next. Every
/// day of the two months has such a date, unless the next year is beyond
/// the last that a date can have.
pub proof fn lemma_december_to_january(day: u32, start_date: Date)
    requires
        start_date.month == 12,
    ensures
        spec_infer_year(12, day, start_date) matches Some(date) ==> date.year == start_date.year,
        spec_infer_year(1, day, start_date) matches Some(date) ==> date.year == start_date.year
            + 1,
        start_date.is_valid() && 1 <= day <= 31 ==> spec_infer_year(12, day, start_date) == Some(
            Date { year: start_date.year, month: 12, day },
        ),
        start_date.is_valid() && 1 <= day <= 31 && start_date.year < MAX_YEAR ==> spec_infer_year(
            1,
            day,
            start_date,
        ) == Some(Date { year: (start_date.year + 1) as i32, month: 1, day }),
{
}

/// A month before the starting month lies in the next year, any other month
/// in the starting year; the date exists exactly where the calendar has it.
pub proof fn lemma_infer_year(month: u32, day: u32, start_date: Date)
    ensures
        month < start_date.month ==> inferred_year(month, start_date) == start_date.year + 1,
        month >= start_date.month ==> inferred_year(month, start_date) == start_date.year,
        spec_infer_year(month, day, start_date) is Some <==> crate::date::is_calendar_date(
            inferred_year(month, start_date),
            month as int,
            day as int,
        ),
        spec_infer_year(month, day, start_date) matches Some(date) ==> date.year == inferred_year(
            month,
            start_date,
        ) && date.month == month && date.day == day,
{
}

/// Month and day without a year, completed from the date a statement starts
/// on; they must name a day that exists.
pub open spec fn spec_short_date(s: Seq<u8>, start_date: Date) -> Result<
    (Seq<u8>, Date),
    ParseError,
> {
    match spec_month_day(s) {
        Ok((rest, (month, day))) => match spec_infer_year(month, day, start_date) {
            Some(date) => Ok((rest, date)),
            None => Err(fail_at(ErrorKind::InvalidDate, s)),
        },
        Err(e) => Err(e),
    }
}

/// Reads a date in the form `1/31` and gives it the year that the
/// statement's start implies.
pub fn short_date(input: &[u8], start_date: Date) -> (r: Result<(&[u8], Date), ParseError>)
    ensures
        outcome(r) == spec_short_date(input@, start_date),
        r matches Ok((_, date)) ==> date.is_valid(),
{
    let (rest, (month, day)) = match month_day(input) {
        Ok(v) => v,
        Err(e) => return Err(e),
    };
    match infer_year(month, day, start_date) {
        Some(date) => Ok((rest, date)),
        None => Err(error_at(ErrorKind::InvalidDate, input)),
    }
}

/// What may stand between the day and the year of a date written in words:
/// white space, at most one comma, white space.
pub open spec fn spec_year_separator(s: Seq<u8>) -> Seq<u8> {
    let s1 = s.skip(span(s, CharClass::Space) as int);
    let s2 = spec_opt_byte(s1, COMMA);
    s2.skip(span(s2, CharClass::Space) as int)
}

/// A month name, a day, and a year, which must name a day that exists.
pub open spec fn spec_month_word_day_year(s: Seq<u8>) -> Result<(Seq<u8>, Date), ParseError> {
    match spec_month_word_day(s) {
        Ok((s1, (month, day))) => {
            let s2 = spec_year_separator(s1);
            match spec_signed(s2) {
                Ok((rest, year)) => match Date::spec_from_ymd_opt(
                    year as int,
                    month as int,
                    day as int,
                ) {
                    Some(date) => Ok((rest, date)),
                    None => Err(fail_at(ErrorKind::InvalidDate, s2)),
                },
                Err(e) => Err(e),
            }
        },
        Err(e) => Err(e),
    }
}

/// Reads a date in the form `January 31, 2024`.
pub fn month_word_day_year(input: &[u8]) -> (r: Result<(&[u8], Date), ParseError>)
    ensures
        outcome(r) == spec_month_word_day_year(input@),
        r matches Ok((_, date)) ==> date.is_valid(),
{
    let (s1, (month, day)) = match month_word_day(input) {
        Ok(v) => v,
        Err(e) => return Err(e),
    };
    let s2 = skip_spaces(opt_byte(skip_spaces(s1), COMMA));
    let (rest, year) = match signed(s2) {
        Ok(v) => v,
        Err(e) => return Err(e),
    };
    match Date::from_ymd_opt(year, month, day) {
        Some(date) => Ok((rest, date)),
        None => Err(error_at(ErrorKind::InvalidDate, s2)),
    }
}

/// The phrase `t` wherever it first occurs: what follows it is the rest.
pub open spec fn spec_take_until_including(s: Seq<u8>, t: Seq<u8>) -> Result<
    (Seq<u8>, ()),
    ParseError,
> {
    match find(s, t) {
        Some(k) => Ok((s.skip((k + t.len()) as int), ())),
        None => Err(fail_at(ErrorKind::AnchorNotFound, s)),
    }
}

/// Skips the text up to and including the first occurrence of the phrase
/// `t`. Nothing is asked of the text that is skipped.
pub fn take_until_including<'a>(input: &'a [u8], t: &[u8]) -> (r: Result<
    (&'a [u8], ()),
    ParseError,
>)
    ensures
        outcome(r) == spec_take_until_including(input@, t@),
        r matches Ok((rest, _)) ==> {
            let k = input@.len() - rest@.len() - t@.len();
            &&& 0 <= k
            &&& t@.is_prefix_of(input@.skip(k))
            &&& forall|j: int| 0 <= j < k ==> !t@.is_prefix_of(#[trigger] input@.skip(j))
        },
        r is Err ==> forall|j: int|
            0 <= j <= input@.len() ==> !t@.is_prefix_of(#[trigger] input@.skip(j)),
{
    proof {
        lemma_find_props(input@, t@);
    }
    match find_first(input, t) {
        Some(k) => {
            assert(k + t@.len() <= input.len());
            Ok((advance(input, k + t.len()), ()))
        },
        None => Err(error_at(ErrorKind::AnchorNotFound, input)),
    }
}

/// The largest whole-unit part an amount can have: with more, the amount in
/// minor units would not fit 32 bits.
pub const MAX_WHOLE_UNITS: u64 = 21_474_836;

/// An optional sign, `-` or `+`: the rest, and whether the sign was `-`.
pub open spec fn spec_sign(s: Seq<u8>) -> (Seq<u8>, bool) {
    if s.len() > 0 && s[0] == MINUS {
        (s.skip(1), true)
    } else {
        (spec_opt_byte(s, PLUS), false)
    }
}

/// Reads an optional sign.
pub fn sign(input: &[u8]) -> (r: (&[u8], bool))
    ensures
        (r.0@, r.1) == spec_sign(input@),
{
    if input.len() > 0 && input[0] == MINUS {
        (advance(input, 1), true)
    } else {
        (opt_byte(input, PLUS), false)
    }
}

/// Length of the digit group that a thousands separator at the start of `s`
/// introduces; zero where `s` does not start with a separator and a digit.
pub open spec fn next_group_len(s: Seq<u8>) -> nat {
    if s.len() > 0 && s[0] == COMMA {
        span(s.skip(1), CharClass::Digit)
    } else {
        0
    }
}

/// Further digit groups, each behind a thousands separator, after the digits
/// `read`: the rest, and all digits in order.
pub open spec fn spec_more_groups(s: Seq<u8>, read: Seq<u8>) -> (Seq<u8>, Seq<u8>)
    decreases s.len(),
    via more_groups_decreases
{
    let n = next_group_len(s) as int;
    if n > 0 {
        spec_more_groups(s.skip(1 + n), read + s.subrange(1, 1 + n))
    } else {
        (s, read)
    }
}

#[via_fn]
proof fn more_groups_decreases(s: Seq<u8>, read: Seq<u8>) {
    if s.len() > 0 {
        lemma_span_props(s.skip(1), CharClass::Digit);
    }
}

/// Digit groups with thousands separators between them, none at all
/// included: the rest, and the digits without the separators.
pub open spec fn spec_digit_groups(s: Seq<u8>) -> (Seq<u8>, Seq<u8>) {
    let n = span(s, CharClass::Digit) as int;
    if n > 0 {
        spec_more_groups(s.skip(n), s.take(n))
    } else {
        (s, Seq::empty())
    }
}

/// Reads digit groups and tallies their digits up to `limit`.
pub(crate) fn digit_groups(input: &[u8], limit: u64) -> (r: (&[u8], Option<u64>))
    requires
        limit <= 0x7fff_ffff_ffff,
    ensures
        r.0@ == spec_digit_groups(input@).0,
        tallies(r.1, spec_digit_groups(input@).1, limit),
{
    let n = span_len(input, CharClass::Digit);
    proof {
        lemma_span_props(input@, CharClass::Digit);
    }
    if n == 0 {
        return (input, Some(0));
    }
    let first = slice_subrange(input, 0, n);
    assert(Seq::<u8>::empty() + first@ =~= first@);
    let mut acc = tally(Some(0), first, limit, Ghost(Seq::empty()));
    let mut cur = advance(input, n);
    let ghost mut read = first@;
    loop
        invariant
            limit <= 0x7fff_ffff_ffff,
            tallies(acc, read, limit),
            spec_digit_groups(input@) == spec_more_groups(cur@, read),
        decreases cur@.len(),
    {
        if cur.len() == 0 || cur[0] != COMMA {
            return (cur, acc);
        }
        let tail = advance(cur, 1);
        let m = span_len(tail, CharClass::Digit);
        proof {
            lemma_span_props(tail@, CharClass::Digit);
        }
        if m == 0 {
            return (cur, acc);
        }
        let group = slice_subrange(cur, 1, 1 + m);
        assert(group@ =~= tail@.take(m as int));
        acc = tally(acc, group, limit, Ghost(read));
        proof {
            read = read + group@;
        }
        cur = advance(cur, 1 + m);
    }
}

/// The fraction of an amount: a decimal point and exactly two digits, worth
/// 0 to 99 minor units. A third digit behind them is no fraction.
pub open spec fn spec_fraction(s: Seq<u8>) -> Result<(Seq<u8>, u32), ParseError> {
    if s.len() >= 3 && s[0] == DOT && CharClass::Digit.accepts(s[1]) && CharClass::Digit.accepts(
        s[2],
    ) && !(s.len() > 3 && CharClass::Digit.accepts(s[3])) {
        Ok((s.skip(3), ((s[1] - ZERO) * 10 + (s[2] - ZERO)) as u32))
    } else {
        Err(lexical(s))
    }
}

/// Reads the fraction of an amount.
pub fn fraction(input: &[u8]) -> (r: Result<(&[u8], u32), ParseError>)
    ensures
        outcome(r) == spec_fraction(input@),
{
    if input.len() >= 3 && input[0] == DOT && CharClass::Digit.contains(input[1])
        && CharClass::Digit.contains(input[2]) && !(input.len() > 3 && CharClass::Digit.contains(
        input[3],
    )) {
        let tens: u32 = (input[1] - ZERO) as u32;
        let ones: u32 = (input[2] - ZERO) as u32;
        Ok((advance(input, 3), tens * 10 + ones))
    } else {
        Err(error_at(ErrorKind::Lexical, input))
    }
}

/// The amount in minor units that a sign, whole units and a fraction make.
pub open spec fn minor_units(negative: bool, whole: nat, cents: u32) -> int {
    if negative {
        -(whole * 100 + cents)
    } else {
        whole * 100 + cents
    }
}

/// An amount fits where its magnitude in minor units fits a signed 32-bit
/// number.
pub open spec fn fits_amount(whole: nat, cents: u32) -> bool {
    whole * 100 + cents <= i32::MAX
}

/// Puts an amount together from a tally of its whole units and its fraction;
/// `None` where it does not fit.
pub(crate) fn make_amount(negative: bool, whole: Option<u64>, cents: u32, Ghost(digits): Ghost<
    Seq<u8>,
>) -> (r: Option<i32>)
    requires
        tallies(whole, digits, MAX_WHOLE_UNITS),
        cents <= 99,
    ensures
        r == if fits_amount(digits_value(digits), cents) {
            Some(minor_units(negative, digits_value(digits), cents) as i32)
        } else {
            None
        },
{
    match whole {
        Some(w) => {
            let magnitude: u64 = w * 100 + cents as u64;
            if magnitude <= 0x7fff_ffff {
                let value: i64 = if negative {
                    -(magnitude as i64)
                } else {
                    magnitude as i64
                };
                Some(value as i32)
            } else {
                None
            }
        },
        None => None,
    }
}

/// A currency amount: an optional sign, an optional `$`, digit groups with
/// thousands separators (or none, for an amount below one unit), a decimal
/// point and exactly two digits. Its value is counted in minor units.
pub open spec fn spec_dollar_amount(s: Seq<u8>) -> Result<(Seq<u8>, i32), ParseError> {
    let (s1, negative) = spec_sign(s);
    let (s2, digits) = spec_digit_groups(spec_opt_byte(s1, DOLLAR));
    match spec_fraction(s2) {
        Ok((rest, cents)) => if fits_amount(digits_value(digits), cents) {
            Ok((rest, minor_units(negative, digits_value(digits), cents) as i32))
        } else {
            Err(lexical(s))
        },
        Err(e) => Err(e),
    }
}

/// Reads a currency amount such as `-$1,234.56` and gives it in minor units.
/// An amount whose magnitude does not fit 32 bits is rejected.
pub fn dollar_amount(input: &[u8]) -> (r: Result<(&[u8], i32), ParseError>)
    ensures
        outcome(r) == spec_dollar_amount(input@),
{
    let (s1, negative) = sign(input);
    let (s2, whole) = digit_groups(opt_byte(s1, DOLLAR), MAX_WHOLE_UNITS);
    let (rest, cents) = match fraction(s2) {
        Ok(v) => v,
        Err(e) => return Err(e),
    };
    let ghost digits = spec_digit_groups(spec_opt_byte(s1@, DOLLAR)).1;
    match make_amount(negative, whole, cents, Ghost(digits)) {
        Some(amount) => Ok((rest, amount)),
        None => Err(error_at(ErrorKind::Lexical, input)),
    }
}

/// Length of a number written as groups of digits, each of which white
/// space may precede; zero where the text does not start with such a group.
pub open spec fn spaced_digits_len(s: Seq<u8>) -> nat
    decreases s.len(),
    via spaced_digits_decreases
{
    let w = span(s, CharClass::Space);
    let d = span(s.skip(w as int), CharClass::Digit);
    if d > 0 {
        w + d + spaced_digits_len(s.skip((w + d) as int))
    } else {
        0
    }
}

#[via_fn]
proof fn spaced_digits_decreases(s: Seq<u8>) {
    lemma_span_props(s, CharClass::Space);
    lemma_span_props(s.skip(span(s, CharClass::Space) as int), CharClass::Digit);
}

/// The groups never reach past the end of the text.
pub proof fn lemma_spaced_digits_len(s: Seq<u8>)
    ensures
        spaced_digits_len(s) <= s.len(),
    decreases s.len(),
{
    let w = span(s, CharClass::Space);
    lemma_span_props(s, CharClass::Space);
    let d = span(s.skip(w as int), CharClass::Digit);
    lemma_span_props(s.skip(w as int), CharClass::Digit);
    if d > 0 {
        lemma_spaced_digits_len(s.skip((w + d) as int));
    }
}

/// A number written as one or more groups of digits with white space
/// before or between them: the rest, and the text as it stands.
pub open spec fn spec_spaced_digits(s: Seq<u8>) -> Result<(Seq<u8>, Seq<u8>), ParseError> {
    let n = spaced_digits_len(s) as int;
    if n > 0 {
        Ok((s.skip(n), s.take(n)))
    } else {
        Err(lexical(s))
    }
}

/// Reads a number written in groups of digits, such as an account number.
pub fn spaced_digits(input: &[u8]) -> (r: Result<(&[u8], &[u8]), ParseError>)
    ensures
        outcome_view(r) == spec_spaced_digits(input@),
{
    let mut n: usize = 0;
    proof {
        lemma_spaced_digits_len(input@);
        assert(input@.skip(0) =~= input@);
    }
    loop
        invariant
            n <= input.len(),
            spaced_digits_len(input@) == n + spaced_digits_len(input@.skip(n as int)),
        decreases input.len() - n,
    {
        let cur = advance(input, n);
        let w = span_len(cur, CharClass::Space);
        proof {
            lemma_span_props(cur@, CharClass::Space);
        }
        let d = span_len(advance(cur, w), CharClass::Digit);
        proof {
            lemma_span_props(cur@.skip(w as int), CharClass::Digit);
        }
        if d == 0 {
            if n == 0 {
                return Err(error_at(ErrorKind::Lexical, input));
            } else {
                return Ok((advance(input, n), slice_subrange(input, 0, n)));
            }
        }
        proof {
            assert(cur@.skip((w + d) as int) =~= input@.skip((n + w + d) as int));
        }
        n = n + w + d;
    }
}

} // verus!
