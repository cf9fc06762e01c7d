//! The canonical written form of numbers and amounts, and the laws that say
//! the parsers read it back.

use vstd::prelude::*;
use vstd::string::*;
use crate::common_parsers::{
    inferred_year, next_group_len, spec_digit_groups, spec_dollar_amount, spec_fraction,
    spec_month_day_year, spec_month_word, spec_month_word_day, spec_month_word_day_year,
    spec_more_groups, spec_short_date, spec_sign, spec_take_until_including,
};
use crate::date::{month_of_name, same_letters, Date};
use crate::error::ParseError;
use crate::scan::{
    all_digits, digits_value, find, lemma_digits_value_push, lemma_find_is, lemma_span_is,
    lemma_span_props, span, spec_opt_byte, spec_signed, spec_tag, spec_unsigned, CharClass, COMMA,
    DOLLAR, DOT, LF, MINUS, SLASH, SPACE, ZERO,
};

verus! {

/// The decimal digits of `n`, most significant first, without leading zeros.
pub open spec fn decimal(n: nat) -> Seq<u8>
    decreases n,
{
    if n < 10 {
        seq![(ZERO + n) as u8]
    } else {
        decimal(n / 10).push((ZERO + n % 10) as u8)
    }
}

/// The canonical text of an amount of `v` minor units: `-` for a negative
/// amount, `$`, the whole units without separators, a decimal point, and two
/// digits.
pub open spec fn canonical_amount(v: int) -> Seq<u8> {
    let m = (if v < 0 {
        -v
    } else {
        v
    }) as nat;
    let sign = if v < 0 {
        seq![MINUS]
    } else {
        Seq::empty()
    };
    let cents = m % 100;
    sign + seq![DOLLAR] + decimal(m / 100) + seq![DOT, (ZERO + cents / 10) as u8, (ZERO + cents
        % 10) as u8]
}

/// No digit comes first in `s`.
pub open spec fn no_digit_first(s: Seq<u8>) -> bool {
    s.len() == 0 || !CharClass::Digit.accepts(s[0])
}

/// The digits of a number are digits, and their value is the number.
pub proof fn lemma_decimal_value(n: nat)
    ensures
        decimal(n).len() > 0,
        all_digits(decimal(n)),
        digits_value(decimal(n)) == n,
    decreases n,
{
    if n < 10 {
        let d = decimal(n);
        assert(d.drop_last() =~= Seq::<u8>::empty());
        assert(digits_value(d.drop_last()) == 0);
    } else {
        lemma_decimal_value(n / 10);
        let b = (ZERO + n % 10) as u8;
        lemma_digits_value_push(decimal(n / 10), b);
    }
}

/// In a text that begins with digits and goes on with something else, the
/// run of digits is those digits.
pub proof fn lemma_digits_span(digits: Seq<u8>, rest: Seq<u8>)
    requires
        all_digits(digits),
        no_digit_first(rest),
    ensures
        span(digits + rest, CharClass::Digit) == digits.len(),
        (digits + rest).take(digits.len() as int) == digits,
        (digits + rest).skip(digits.len() as int) == rest,
{
    let text = digits + rest;
    assert forall|j: int| 0 <= j < digits.len() implies CharClass::Digit.accepts(
        #[trigger] text[j],
    ) by {
        assert(text[j] == digits[j]);
    }
    if digits.len() < text.len() {
        assert(text[digits.len() as int] == rest[0]);
    }
    lemma_span_is(text, CharClass::Digit, digits.len());
    assert(text.take(digits.len() as int) =~= digits);
    assert(text.skip(digits.len() as int) =~= rest);
}

/// Any digits that are worth a number that fits 32 bits read as that
/// number, leading zeros and all, where no digit follows them.
pub proof fn lemma_unsigned_reads_digits(digits: Seq<u8>, rest: Seq<u8>)
    requires
        digits.len() > 0,
        all_digits(digits),
        digits_value(digits) <= u32::MAX,
        no_digit_first(rest),
    ensures
        spec_unsigned(digits + rest) == Ok::<_, ParseError>((rest, digits_value(digits) as u32)),
{
    lemma_digits_span(digits, rest);
}

/// Any digits that are worth a number that fits 31 bits read as that number
/// where a sign may stand and no digit follows them.
pub proof fn lemma_signed_reads_digits(digits: Seq<u8>, rest: Seq<u8>)
    requires
        digits.len() > 0,
        all_digits(digits),
        digits_value(digits) <= i32::MAX,
        no_digit_first(rest),
    ensures
        spec_signed(digits + rest) == Ok::<_, ParseError>((rest, digits_value(digits) as i32)),
{
    lemma_digits_span(digits, rest);
    assert((digits + rest)[0] == digits[0]);
}

/// The digits of a number that fits 32 bits read back as that number.
pub proof fn lemma_unsigned_reads_decimal(n: nat, rest: Seq<u8>)
    requires
        n <= u32::MAX,
        no_digit_first(rest),
    ensures
        spec_unsigned(decimal(n) + rest) == Ok::<_, ParseError>((rest, n as u32)),
{
    lemma_decimal_value(n);
    lemma_unsigned_reads_digits(decimal(n), rest);
}

/// The digits of a number that fits 31 bits read back as that number where
/// a sign may stand.
pub proof fn lemma_signed_reads_decimal(n: nat, rest: Seq<u8>)
    requires
        n <= i32::MAX,
        no_digit_first(rest),
    ensures
        spec_signed(decimal(n) + rest) == Ok::<_, ParseError>((rest, n as i32)),
{
    lemma_decimal_value(n);
    lemma_signed_reads_digits(decimal(n), rest);
}

/// A run that ends inside a text is the same run whatever follows the text.
pub proof fn lemma_span_before(text: Seq<u8>, rest: Seq<u8>, c: CharClass)
    requires
        span(text, c) < text.len(),
    ensures
        span(text + rest, c) == span(text, c),
{
    let n = span(text, c);
    let whole = text + rest;
    lemma_span_props(text, c);
    assert forall|j: int| 0 <= j < n implies c.accepts(#[trigger] whole[j]) by {
        assert(whole[j] == text[j]);
    }
    assert(whole[n as int] == text[n as int]);
    lemma_span_is(whole, c, n);
}

/// Further digit groups leave a rest that is no longer than the text.
pub proof fn lemma_more_groups_len(s: Seq<u8>, read: Seq<u8>)
    ensures
        spec_more_groups(s, read).0.len() <= s.len(),
    decreases s.len(),
{
    let n = next_group_len(s) as int;
    if n > 0 {
        lemma_span_props(s.skip(1), CharClass::Digit);
        lemma_more_groups_len(s.skip(1 + n), read + s.subrange(1, 1 + n));
    }
}

/// Digit groups that end inside a text are the same groups whatever
/// follows the text but a digit.
pub proof fn lemma_more_groups_before(s: Seq<u8>, read: Seq<u8>, rest: Seq<u8>)
    requires
        spec_more_groups(s, read).0.len() > 0,
        no_digit_first(rest),
    ensures
        spec_more_groups(s + rest, read) == (
            spec_more_groups(s, read).0 + rest,
            spec_more_groups(s, read).1,
        ),
    decreases s.len(),
{
    let n = next_group_len(s) as int;
    let whole = s + rest;
    if n > 0 {
        let after = s.skip(1 + n);
        lemma_span_props(s.skip(1), CharClass::Digit);
        lemma_more_groups_len(after, read + s.subrange(1, 1 + n));
        assert(whole.skip(1) =~= s.skip(1) + rest);
        lemma_span_before(s.skip(1), rest, CharClass::Digit);
        assert(whole[0] == s[0]);
        assert(whole.skip(1 + n) =~= after + rest);
        assert(whole.subrange(1, 1 + n) =~= s.subrange(1, 1 + n));
        lemma_more_groups_before(after, read + s.subrange(1, 1 + n), rest);
    } else {
        assert(whole[0] == s[0]);
        if s[0] == COMMA {
            assert(whole.skip(1) =~= s.skip(1) + rest);
            if s.len() > 1 {
                assert((s.skip(1) + rest)[0] == s[1]);
                assert(s.skip(1)[0] == s[1]);
            }
            lemma_span_is(s.skip(1), CharClass::Digit, 0);
            lemma_span_is(s.skip(1) + rest, CharClass::Digit, 0);
        }
    }
}

/// Any text that is an amount, all of it, reads as the same amount before
/// whatever follows it but a digit: with or without `$` or a sign, with or
/// without thousands separators.
pub proof fn lemma_amount_before(text: Seq<u8>, rest: Seq<u8>)
    requires
        spec_dollar_amount(text) matches Ok((left, _)) && left.len() == 0,
        no_digit_first(rest),
    ensures
        spec_dollar_amount(text + rest) == Ok::<_, ParseError>(
            (rest, spec_dollar_amount(text)->Ok_0.1),
        ),
{
    let whole = text + rest;
    let (s1, negative) = spec_sign(text);
    let x = spec_opt_byte(s1, DOLLAR);
    let (s2, digits) = spec_digit_groups(x);
    let n = span(x, CharClass::Digit) as int;
    lemma_span_props(x, CharClass::Digit);
    if n > 0 {
        lemma_more_groups_len(x.skip(n), x.take(n));
    }
    // the fraction is the last three bytes of the text
    assert(s2.len() == 3);
    assert(x.len() >= 3 && s1.len() >= 3 && text.len() >= 3);
    assert(whole[0] == text[0]);
    let (w1, _) = spec_sign(whole);
    assert(w1 =~= s1 + rest);
    assert((s1 + rest)[0] == s1[0]);
    let wx = spec_opt_byte(w1, DOLLAR);
    assert(wx =~= x + rest);
    if n > 0 {
        lemma_span_before(x, rest, CharClass::Digit);
        assert((x + rest).skip(n) =~= x.skip(n) + rest);
        assert((x + rest).take(n) =~= x.take(n));
        lemma_more_groups_before(x.skip(n), x.take(n), rest);
    } else {
        assert((x + rest)[0] == x[0]);
        lemma_span_is(x + rest, CharClass::Digit, 0);
    }
    assert(spec_digit_groups(x + rest) == (s2 + rest, digits));
    let f = s2 + rest;
    assert(f[0] == s2[0] && f[1] == s2[1] && f[2] == s2[2]);
    if rest.len() > 0 {
        assert(f[3] == rest[0]);
    }
    assert(f.skip(3) =~= rest);
    assert(s2.skip(3) =~= Seq::<u8>::empty());
}

/// Any name of a month, in any case, reads as that month where no letter
/// follows it.
pub proof fn lemma_month_word_reads_as(name: Seq<u8>, month: u32, rest: Seq<u8>)
    requires
        name.len() > 0,
        forall|i: int| 0 <= i < name.len() ==> CharClass::Alpha.accepts(#[trigger] name[i]),
        month_of_name(name) == Some(month),
        no_letter_first(rest),
    ensures
        spec_month_word(name + rest) == Ok::<_, ParseError>((rest, month)),
{
    let text = name + rest;
    assert forall|j: int| 0 <= j < name.len() implies CharClass::Alpha.accepts(
        #[trigger] text[j],
    ) by {
        assert(text[j] == name[j]);
    }
    if rest.len() > 0 {
        assert(text[name.len() as int] == rest[0]);
    }
    lemma_span_is(text, CharClass::Alpha, name.len());
    assert(text.take(name.len() as int) =~= name);
    assert(text.skip(name.len() as int) =~= rest);
}

/// The canonical text of every amount that fits reads back as that amount,
/// whatever follows it but a digit.
pub proof fn lemma_canonical_amount_then(v: int, rest: Seq<u8>)
    requires
        -i32::MAX <= v <= i32::MAX,
        no_digit_first(rest),
    ensures
        spec_dollar_amount(canonical_amount(v) + rest) == Ok::<_, ParseError>((rest, v as i32)),
{
    let m = (if v < 0 {
        -v
    } else {
        v
    }) as nat;
    let whole = m / 100;
    let cents = m % 100;
    let text = canonical_amount(v) + rest;
    let tail = seq![DOT, (ZERO + cents / 10) as u8, (ZERO + cents % 10) as u8] + rest;
    let body = decimal(whole) + tail;
    lemma_decimal_value(whole);
    lemma_digits_span(decimal(whole), tail);
    let (s1, negative) = spec_sign(text);
    assert(negative == (v < 0));
    assert(spec_opt_byte(s1, DOLLAR) =~= body);
    assert(next_group_len(tail) == 0);
    assert(spec_digit_groups(body) == (tail, decimal(whole)));
    assert(tail.skip(3) =~= rest);
    if rest.len() > 0 {
        assert(tail[3] == rest[0]);
    }
    assert(spec_fraction(tail) == Ok::<_, ParseError>((rest, cents as u32)));
}

/// The canonical text of every amount that fits reads back as that amount,
/// with nothing left over.
pub proof fn lemma_canonical_amount_parses(v: int)
    requires
        -i32::MAX <= v <= i32::MAX,
    ensures
        spec_dollar_amount(canonical_amount(v)) == Ok::<_, ParseError>(
            (Seq::<u8>::empty(), v as i32),
        ),
{
    lemma_canonical_amount_then(v, Seq::empty());
    assert(canonical_amount(v) + Seq::<u8>::empty() =~= canonical_amount(v));
}

/// Writing the value of any amount text in canonical form and reading that
/// again gives the same value.
pub proof fn lemma_amount_round_trip(text: Seq<u8>)
    requires
        spec_dollar_amount(text) is Ok,
    ensures
        spec_dollar_amount(canonical_amount(spec_dollar_amount(text)->Ok_0.1 as int)) == Ok::<
            _,
            ParseError,
        >((Seq::<u8>::empty(), spec_dollar_amount(text)->Ok_0.1)),
{
    lemma_canonical_amount_parses(spec_dollar_amount(text)->Ok_0.1 as int);
}

/// A description that is written as it is read: it begins and ends with a
/// letter and holds letters and spaces only.
pub open spec fn is_plain(d: Seq<u8>) -> bool {
    &&& d.len() > 0
    &&& CharClass::Alpha.accepts(d[0])
    &&& CharClass::Alpha.accepts(d.last())
    &&& forall|i: int| 0 <= i < d.len() ==> CharClass::Alpha.accepts(#[trigger] d[i]) || d[i] == SPACE
}

/// From any place inside a plain description, the text behind the white
/// space that may stand there begins with a letter of the description.
pub proof fn lemma_plain_then_letter(d: Seq<u8>, tail: Seq<u8>, j: int)
    requires
        is_plain(d),
        0 <= j < d.len(),
    ensures
        ({
            let t = (d + tail).skip(j);
            let n = span(t, CharClass::Space) as int;
            n < t.len() && CharClass::Alpha.accepts(t[n]) && n < d.len() - j
        }),
{
    let t = (d + tail).skip(j);
    let n = span(t, CharClass::Space) as int;
    let last = d.len() - 1 - j;
    lemma_span_props(t, CharClass::Space);
    assert(t[last] == d.last());
    if n > last {
        assert(CharClass::Space.accepts(t[last]));
    }
    assert(t[n] == d[j + n]);
}

/// A single byte of white space before text that begins with none is all
/// the white space there is.
pub proof fn lemma_one_space(b: u8, rest: Seq<u8>)
    requires
        CharClass::Space.accepts(b),
        rest.len() > 0,
        !CharClass::Space.accepts(rest[0]),
    ensures
        span(seq![b] + rest, CharClass::Space) == 1,
        (seq![b] + rest).skip(1) == rest,
{
    let text = seq![b] + rest;
    assert(text[1] == rest[0]);
    lemma_span_is(text, CharClass::Space, 1);
    assert(text.skip(1) =~= rest);
}

/// No amount begins with a letter.
pub proof fn lemma_no_amount_at_letter(s: Seq<u8>)
    requires
        s.len() > 0,
        CharClass::Alpha.accepts(s[0]),
    ensures
        spec_dollar_amount(s) is Err,
{
    lemma_span_is(s, CharClass::Digit, 0);
}

/// The canonical text of an amount begins with its sign or with `$`: with
/// no white space, no digit and no letter.
pub proof fn lemma_canonical_amount_start(v: int, rest: Seq<u8>)
    ensures
        (canonical_amount(v) + rest).len() > 0,
        (canonical_amount(v) + rest)[0] == MINUS || (canonical_amount(v) + rest)[0] == DOLLAR,
{
    let m = (if v < 0 {
        -v
    } else {
        v
    }) as nat;
    lemma_decimal_value(m / 100);
    let text = canonical_amount(v) + rest;
    assert(text[0] == canonical_amount(v)[0]);
}

/// A date written as month, day and the year counted from 2000, with slashes
/// between them, before the text `rest`.
pub open spec fn slashed_date_then(date: Date, rest: Seq<u8>) -> Seq<u8> {
    decimal(date.month as nat) + (seq![SLASH] + (decimal(date.day as nat) + (seq![SLASH] + (
    decimal((date.year - 2000) as nat) + rest))))
}

/// A date from the year 2000 on that is written with slashes reads back as
/// that date.
pub proof fn lemma_slashed_date_reads(date: Date, rest: Seq<u8>)
    requires
        date.is_valid(),
        date.year >= 2000,
        no_digit_first(rest),
    ensures
        spec_month_day_year(slashed_date_then(date, rest)) == Ok::<_, ParseError>((rest, date)),
{
    let year = decimal((date.year - 2000) as nat) + rest;
    let day = decimal(date.day as nat) + (seq![SLASH] + year);
    lemma_unsigned_reads_decimal(date.month as nat, seq![SLASH] + day);
    assert((seq![SLASH] + day).skip(1) =~= day);
    lemma_unsigned_reads_decimal(date.day as nat, seq![SLASH] + year);
    assert((seq![SLASH] + year).skip(1) =~= year);
    lemma_signed_reads_decimal((date.year - 2000) as nat, rest);
}

/// A date written as month and day with a slash between them, before the
/// text `rest`.
pub open spec fn short_date_then(date: Date, rest: Seq<u8>) -> Seq<u8> {
    decimal(date.month as nat) + (seq![SLASH] + (decimal(date.day as nat) + rest))
}

/// A date written without its year reads back as that date where the year
/// is the one that the statement's start implies for the month.
pub proof fn lemma_short_date_reads(date: Date, start_date: Date, rest: Seq<u8>)
    requires
        date.is_valid(),
        date.year == inferred_year(date.month, start_date),
        no_digit_first(rest),
    ensures
        spec_short_date(short_date_then(date, rest), start_date) == Ok::<_, ParseError>(
            (rest, date),
        ),
{
    let day = decimal(date.day as nat) + rest;
    lemma_unsigned_reads_decimal(date.month as nat, seq![SLASH] + day);
    assert((seq![SLASH] + day).skip(1) =~= day);
    lemma_unsigned_reads_decimal(date.day as nat, rest);
}

/// The three-letter name of a month, in lower case.
pub open spec fn month_name(month: u32) -> Seq<u8> {
    if month == 1 {
        "jan".spec_bytes()
    } else if month == 2 {
        "feb".spec_bytes()
    } else if month == 3 {
        "mar".spec_bytes()
    } else if month == 4 {
        "apr".spec_bytes()
    } else if month == 5 {
        "may".spec_bytes()
    } else if month == 6 {
        "jun".spec_bytes()
    } else if month == 7 {
        "jul".spec_bytes()
    } else if month == 8 {
        "aug".spec_bytes()
    } else if month == 9 {
        "sep".spec_bytes()
    } else if month == 10 {
        "oct".spec_bytes()
    } else if month == 11 {
        "nov".spec_bytes()
    } else {
        "dec".spec_bytes()
    }
}

/// No letter comes first in `s`.
pub open spec fn no_letter_first(s: Seq<u8>) -> bool {
    s.len() == 0 || !CharClass::Alpha.accepts(s[0])
}

/// The name of a month is three letters and names that month.
#[verifier::spinoff_prover]
#[verifier::rlimit(30)]
pub proof fn lemma_month_name(month: u32)
    requires
        1 <= month <= 12,
    ensures
        month_name(month).len() == 3,
        forall|i: int| 0 <= i < 3 ==> CharClass::Alpha.accepts(#[trigger] month_name(month)[i]),
        month_of_name(month_name(month)) == Some(month),
{
    broadcast use vstd::string::is_ascii_spec_bytes;

    reveal_strlit("jan");
    reveal_strlit("feb");
    reveal_strlit("mar");
    reveal_strlit("apr");
    reveal_strlit("may");
    reveal_strlit("jun");
    reveal_strlit("jul");
    reveal_strlit("aug");
    reveal_strlit("sep");
    reveal_strlit("oct");
    reveal_strlit("nov");
    reveal_strlit("dec");
    reveal_strlit("january");
    reveal_strlit("february");
    reveal_strlit("march");
    reveal_strlit("april");
    reveal_strlit("june");
    reveal_strlit("july");
    reveal_strlit("august");
    reveal_strlit("september");
    reveal_strlit("october");
    reveal_strlit("november");
    reveal_strlit("december");
    assert(is_ascii("jan") && is_ascii("feb") && is_ascii("mar") && is_ascii("apr"));
    assert(is_ascii("may") && is_ascii("jun") && is_ascii("jul") && is_ascii("aug"));
    assert(is_ascii("sep") && is_ascii("oct") && is_ascii("nov") && is_ascii("dec"));
    assert(is_ascii("january") && is_ascii("february") && is_ascii("march") && is_ascii("april"));
    assert(is_ascii("june") && is_ascii("july") && is_ascii("august") && is_ascii("september"));
    assert(is_ascii("october") && is_ascii("november") && is_ascii("december"));
    let name = month_name(month);
    assert(same_letters(name, name));
    let first = name[0];
    let second = name[1];
    let third = name[2];
    assert("jan".spec_bytes()[0] == 106 && "jan".spec_bytes()[1] == 97 && "jan".spec_bytes()[2]
        == 110);
    assert("feb".spec_bytes()[0] == 102);
    assert("mar".spec_bytes()[0] == 109 && "mar".spec_bytes()[2] == 114);
    assert("apr".spec_bytes()[0] == 97 && "apr".spec_bytes()[1] == 112);
    assert("may".spec_bytes()[0] == 109 && "may".spec_bytes()[2] == 121);
    assert("jun".spec_bytes()[1] == 117 && "jun".spec_bytes()[2] == 110);
    assert("jul".spec_bytes()[1] == 117 && "jul".spec_bytes()[2] == 108);
    assert("aug".spec_bytes()[0] == 97 && "aug".spec_bytes()[1] == 117);
    assert("sep".spec_bytes()[0] == 115);
    assert("oct".spec_bytes()[0] == 111);
    assert("nov".spec_bytes()[0] == 110);
    assert("dec".spec_bytes()[0] == 100);
}

/// The name of a month reads back as that month where no letter follows it.
pub proof fn lemma_month_word_reads(month: u32, rest: Seq<u8>)
    requires
        1 <= month <= 12,
        no_letter_first(rest),
    ensures
        spec_month_word(month_name(month) + rest) == Ok::<_, ParseError>((rest, month)),
{
    lemma_month_name(month);
    lemma_month_word_reads_as(month_name(month), month, rest);
}

/// A phrase that the text begins with is found there: what follows it is
/// the rest.
pub proof fn lemma_found_at_start(phrase: Seq<u8>, rest: Seq<u8>)
    ensures
        spec_take_until_including(phrase + rest, phrase) == Ok::<_, ParseError>((rest, ())),
        phrase.is_prefix_of(phrase + rest),
        spec_tag(phrase + rest, phrase) == Ok::<_, ParseError>((rest, ())),
{
    let text = phrase + rest;
    assert(phrase =~= text.subrange(0, phrase.len() as int));
    assert(find(text, phrase) == Some(0nat));
    assert(text.skip(phrase.len() as int) =~= rest);
}

/// A phrase behind a text in which it does not occur is found there: what
/// follows it is the rest.
pub proof fn lemma_found_behind(junk: Seq<u8>, phrase: Seq<u8>, rest: Seq<u8>)
    requires
        forall|j: int| 0 <= j < junk.len() ==> !phrase.is_prefix_of(#[trigger] (junk + phrase).skip(j)),
    ensures
        spec_take_until_including(junk + (phrase + rest), phrase) == Ok::<_, ParseError>(
            (rest, ()),
        ),
{
    let text = junk + (phrase + rest);
    let k = junk.len() as int;
    assert(text.skip(k) =~= phrase + rest);
    lemma_found_at_start(phrase, rest);
    assert forall|j: int| 0 <= j < k implies !phrase.is_prefix_of(#[trigger] text.skip(j)) by {
        let short = (junk + phrase).skip(j);
        if phrase.is_prefix_of(text.skip(j)) {
            assert(text.skip(j).subrange(0, phrase.len() as int) =~= short.subrange(
                0,
                phrase.len() as int,
            ));
        }
    }
    lemma_find_is(text, phrase, junk.len());
    assert(text.skip(k + phrase.len()) =~= rest);
}

/// A phrase at the start of the line after a line break is found there,
/// unless the phrase itself begins with a line break.
pub proof fn lemma_found_on_next_line(phrase: Seq<u8>, rest: Seq<u8>)
    requires
        phrase.len() > 0,
        phrase[0] != LF,
    ensures
        spec_take_until_including(seq![LF] + (phrase + rest), phrase) == Ok::<_, ParseError>(
            (rest, ()),
        ),
{
    let line = phrase + rest;
    let text = seq![LF] + line;
    lemma_found_at_start(phrase, rest);
    assert(text.skip(1) =~= line);
    assert(!phrase.is_prefix_of(text)) by {
        if phrase.is_prefix_of(text) {
            assert(phrase[0] == text.subrange(0, phrase.len() as int)[0]);
        }
    }
    assert(find(text, phrase) == Some(1nat));
    assert(text.skip(1 + phrase.len() as int) =~= rest);
}

/// A day written as the name of its month and its number, before the text
/// `rest`.
pub open spec fn day_in_words_then(month: u32, day: u32, rest: Seq<u8>) -> Seq<u8> {
    month_name(month) + (seq![SPACE] + (decimal(day as nat) + rest))
}

/// A day written in words reads back as its month and its number.
pub proof fn lemma_day_in_words_reads(month: u32, day: u32, rest: Seq<u8>)
    requires
        1 <= month <= 12,
        no_digit_first(rest),
    ensures
        spec_month_word_day(day_in_words_then(month, day, rest)) == Ok::<_, ParseError>(
            (rest, (month, day)),
        ),
{
    let number = decimal(day as nat) + rest;
    lemma_month_word_reads(month, seq![SPACE] + number);
    lemma_decimal_value(day as nat);
    assert(number[0] == decimal(day as nat)[0]);
    lemma_one_space(SPACE, number);
    lemma_unsigned_reads_decimal(day as nat, rest);
}

/// A date written in words before the text `rest`: the name of the month,
/// the day, a comma, and the year.
pub open spec fn date_in_words_then(date: Date, rest: Seq<u8>) -> Seq<u8> {
    day_in_words_then(
        date.month,
        date.day,
        seq![COMMA, SPACE] + (decimal(date.year as nat) + rest),
    )
}

/// A date of a year that is not negative, written in words, reads back as
/// that date.
pub proof fn lemma_date_in_words_reads(date: Date, rest: Seq<u8>)
    requires
        date.is_valid(),
        date.year >= 0,
        no_digit_first(rest),
    ensures
        spec_month_word_day_year(date_in_words_then(date, rest)) == Ok::<_, ParseError>(
            (rest, date),
        ),
{
    let year = decimal(date.year as nat) + rest;
    let comma = seq![COMMA, SPACE] + year;
    lemma_day_in_words_reads(date.month, date.day, comma);
    lemma_span_is(comma, CharClass::Space, 0);
    assert(comma.skip(0) =~= comma);
    assert(comma.skip(1) =~= seq![SPACE] + year);
    lemma_decimal_value(date.year as nat);
    assert(year[0] == decimal(date.year as nat)[0]);
    lemma_one_space(SPACE, year);
    lemma_signed_reads_decimal(date.year as nat, rest);
}

/// Every byte of `run` is of the class `c`.
pub open spec fn all_in(run: Seq<u8>, c: CharClass) -> bool {
    forall|i: int| 0 <= i < run.len() ==> c.accepts(#[trigger] run[i])
}

/// No byte of the class `c` comes first in `s`.
pub open spec fn none_first(s: Seq<u8>, c: CharClass) -> bool {
    s.len() == 0 || !c.accepts(s[0])
}

/// In a text that begins with bytes of a class and goes on with something
/// else, the run of the class is those bytes.
pub proof fn lemma_run_before(run: Seq<u8>, rest: Seq<u8>, c: CharClass)
    requires
        all_in(run, c),
        none_first(rest, c),
    ensures
        span(run + rest, c) == run.len(),
        (run + rest).take(run.len() as int) == run,
        (run + rest).skip(run.len() as int) == rest,
{
    let text = run + rest;
    assert forall|j: int| 0 <= j < run.len() implies c.accepts(#[trigger] text[j]) by {
        assert(text[j] == run[j]);
    }
    if run.len() < text.len() {
        assert(text[run.len() as int] == rest[0]);
    }
    lemma_span_is(text, c, run.len());
    assert(text.take(run.len() as int) =~= run);
    assert(text.skip(run.len() as int) =~= rest);
}

/// A day written as any name of its month, white space, and any digits of
/// its number reads as that month and that number.
pub proof fn lemma_day_in_words_reads_as(
    name: Seq<u8>,
    month: u32,
    gap: Seq<u8>,
    digits: Seq<u8>,
    rest: Seq<u8>,
)
    requires
        name.len() > 0,
        all_in(name, CharClass::Alpha),
        month_of_name(name) == Some(month),
        gap.len() > 0,
        all_in(gap, CharClass::Space),
        digits.len() > 0,
        all_digits(digits),
        digits_value(digits) <= u32::MAX,
        no_digit_first(rest),
    ensures
        spec_month_word_day(name + (gap + (digits + rest))) == Ok::<_, ParseError>(
            (rest, (month, digits_value(digits) as u32)),
        ),
{
    let number = digits + rest;
    let spaced = gap + number;
    assert(spaced[0] == gap[0]);
    lemma_month_word_reads_as(name, month, spaced);
    assert(number[0] == digits[0]);
    lemma_run_before(gap, number, CharClass::Space);
    lemma_unsigned_reads_digits(digits, rest);
}

} // verus!
