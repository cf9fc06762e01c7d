//! Byte-level building blocks of the statement grammars: character classes,
//! runs, literal phrases, substring search and decimal numbers.

use vstd::prelude::*;
use vstd::slice::slice_subrange;
use crate::error::{error_at, lexical, outcome, ErrorKind, ParseError};

verus! {

/// Horizontal tab.
pub const TAB: u8 = 9;

/// Line feed, the end of a line.
pub const LF: u8 = 10;

/// Carriage return.
pub const CR: u8 = 13;

/// Space.
pub const SPACE: u8 = 32;

/// `$`
pub const DOLLAR: u8 = 36;

/// `+`
pub const PLUS: u8 = 43;

/// `,`
pub const COMMA: u8 = 44;

/// `-`
pub const MINUS: u8 = 45;

/// `.`
pub const DOT: u8 = 46;

/// `/`
pub const SLASH: u8 = 47;

/// `0`
pub const ZERO: u8 = 48;

/// `9`
pub const NINE: u8 = 57;

/// `A`
pub const UPPER_A: u8 = 65;

/// `Z`
pub const UPPER_Z: u8 = 90;

/// `a`
pub const LOWER_A: u8 = 97;

/// `z`
pub const LOWER_Z: u8 = 122;

/// The sets of bytes that make up the runs of the grammars.
#[derive(Clone, Copy, Debug, PartialEq, Eq, Structural)]
pub enum CharClass {
    /// `0` to `9`.
    Digit,
    /// `a` to `z` and `A` to `Z`.
    Alpha,
    /// Space, tab, carriage return and line feed.
    Space,
    /// A digit or a space: what an account number is written with.
    DigitOrSpace,
    /// Anything but carriage return and line feed.
    LineText,
}

impl CharClass {
    /// The byte `b` belongs to the class.
    pub open spec fn accepts(self, b: u8) -> bool {
        match self {
            CharClass::Digit => ZERO <= b <= NINE,
            CharClass::Alpha => (UPPER_A <= b <= UPPER_Z) || (LOWER_A <= b <= LOWER_Z),
            CharClass::Space => b == SPACE || b == TAB || b == CR || b == LF,
            CharClass::DigitOrSpace => (ZERO <= b <= NINE) || b == SPACE,
            CharClass::LineText => b != CR && b != LF,
        }
    }

    /// Tells whether the byte `b` belongs to the class.
    pub fn contains(self, b: u8) -> (r: bool)
        ensures
            r == self.accepts(b),
    {
        match self {
            CharClass::Digit => ZERO <= b && b <= NINE,
            CharClass::Alpha => (UPPER_A <= b && b <= UPPER_Z) || (LOWER_A <= b && b <= LOWER_Z),
            CharClass::Space => b == SPACE || b == TAB || b == CR || b == LF,
            CharClass::DigitOrSpace => (ZERO <= b && b <= NINE) || b == SPACE,
            CharClass::LineText => b != CR && b != LF,
        }
    }
}

/// Length of the longest prefix of `s` made of bytes of class `c`.
pub open spec fn span(s: Seq<u8>, c: CharClass) -> nat
    decreases s.len(),
{
    if s.len() > 0 && c.accepts(s[0]) {
        1 + span(s.skip(1), c)
    } else {
        0
    }
}

/// The run is a prefix, all of it is in the class, and the byte after it is not.
pub proof fn lemma_span_props(s: Seq<u8>, c: CharClass)
    ensures
        span(s, c) <= s.len(),
        forall|j: int| 0 <= j < span(s, c) ==> c.accepts(#[trigger] s[j]),
        span(s, c) < s.len() ==> !c.accepts(s[span(s, c) as int]),
    decreases s.len(),
{
    if s.len() > 0 && c.accepts(s[0]) {
        let t = s.skip(1);
        lemma_span_props(t, c);
        assert forall|j: int| 0 <= j < span(s, c) implies c.accepts(#[trigger] s[j]) by {
            if j > 0 {
                assert(s[j] == t[j - 1]);
            }
        }
        if span(s, c) < s.len() {
            assert(s[span(s, c) as int] == t[span(t, c) as int]);
        }
    }
}

/// A prefix of class bytes that cannot be extended is the run.
pub proof fn lemma_span_is(s: Seq<u8>, c: CharClass, n: nat)
    requires
        n <= s.len(),
        forall|j: int| 0 <= j < n ==> c.accepts(#[trigger] s[j]),
        n < s.len() ==> !c.accepts(s[n as int]),
    ensures
        span(s, c) == n,
    decreases n,
{
    if n > 0 {
        let t = s.skip(1);
        assert(c.accepts(s[0]));
        assert forall|j: int| 0 <= j < n - 1 implies c.accepts(#[trigger] t[j]) by {
            assert(t[j] == s[j + 1]);
        }
        if n - 1 < t.len() {
            assert(t[n - 1] == s[n as int]);
        }
        lemma_span_is(t, c, (n - 1) as nat);
    }
}

/// Measures the run of class `c` at the start of `input`.
pub fn span_len(input: &[u8], c: CharClass) -> (n: usize)
    ensures
        n == span(input@, c),
{
    let mut i: usize = 0;
    while i < input.len() && c.contains(input[i])
        invariant
            i <= input.len(),
            forall|j: int| 0 <= j < i ==> c.accepts(#[trigger] input@[j]),
        decreases input.len() - i,
    {
        i += 1;
    }
    proof {
        lemma_span_is(input@, c, i as nat);
    }
    i
}

/// The text after the first `n` bytes.
pub fn advance(input: &[u8], n: usize) -> (rest: &[u8])
    requires
        n <= input@.len(),
    ensures
        rest@ == input@.skip(n as int),
{
    slice_subrange(input, n, input.len())
}

/// Skips white space, if there is any.
pub fn skip_spaces(input: &[u8]) -> (rest: &[u8])
    ensures
        rest@ == input@.skip(span(input@, CharClass::Space) as int),
{
    let n = span_len(input, CharClass::Space);
    proof {
        lemma_span_props(input@, CharClass::Space);
    }
    advance(input, n)
}

/// A run of at least one byte of class `c`: the rest and the run.
pub open spec fn spec_run1(s: Seq<u8>, c: CharClass) -> Result<(Seq<u8>, Seq<u8>), ParseError> {
    let n = span(s, c) as int;
    if n > 0 {
        Ok((s.skip(n), s.take(n)))
    } else {
        Err(lexical(s))
    }
}

/// Takes a run of at least one byte of class `c`.
pub fn run1<'a>(input: &'a [u8], c: CharClass) -> (r: Result<(&'a [u8], &'a [u8]), ParseError>)
    ensures
        match r {
            Ok((rest, run)) => spec_run1(input@, c) == Ok::<_, ParseError>((rest@, run@)),
            Err(e) => spec_run1(input@, c) == Err::<(Seq<u8>, Seq<u8>), _>(e),
        },
{
    let n = span_len(input, c);
    proof {
        lemma_span_props(input@, c);
    }
    if n == 0 {
        Err(error_at(ErrorKind::Lexical, input))
    } else {
        Ok((advance(input, n), slice_subrange(input, 0, n)))
    }
}

/// At least one byte of white space.
pub open spec fn spec_spaces1(s: Seq<u8>) -> Result<(Seq<u8>, ()), ParseError> {
    let n = span(s, CharClass::Space) as int;
    if n > 0 {
        Ok((s.skip(n), ()))
    } else {
        Err(lexical(s))
    }
}

/// Skips white space, of which there must be some.
pub fn spaces1(input: &[u8]) -> (r: Result<(&[u8], ()), ParseError>)
    ensures
        outcome(r) == spec_spaces1(input@),
{
    let n = span_len(input, CharClass::Space);
    proof {
        lemma_span_props(input@, CharClass::Space);
    }
    if n == 0 {
        Err(error_at(ErrorKind::Lexical, input))
    } else {
        Ok((advance(input, n), ()))
    }
}

/// Tells whether `input` begins with the phrase `t`.
pub fn starts_with(input: &[u8], t: &[u8]) -> (b: bool)
    ensures
        b == t@.is_prefix_of(input@),
{
    if t.len() > input.len() {
        return false;
    }
    let mut i: usize = 0;
    while i < t.len()
        invariant
            i <= t.len() <= input.len(),
            forall|j: int| 0 <= j < i ==> input@[j] == t@[j],
        decreases t.len() - i,
    {
        if input[i] != t[i] {
            assert(input@.subrange(0, t@.len() as int)[i as int] != t@[i as int]);
            return false;
        }
        i += 1;
    }
    assert(t@ =~= input@.subrange(0, t@.len() as int));
    true
}

/// The literal phrase `t`.
pub open spec fn spec_tag(s: Seq<u8>, t: Seq<u8>) -> Result<(Seq<u8>, ()), ParseError> {
    if t.is_prefix_of(s) {
        Ok((s.skip(t.len() as int), ()))
    } else {
        Err(lexical(s))
    }
}

/// Consumes the literal phrase `t`.
pub fn tag<'a>(input: &'a [u8], t: &[u8]) -> (r: Result<(&'a [u8], ()), ParseError>)
    ensures
        outcome(r) == spec_tag(input@, t@),
{
    if starts_with(input, t) {
        Ok((advance(input, t.len()), ()))
    } else {
        Err(error_at(ErrorKind::Lexical, input))
    }
}

/// The single byte `b`.
pub open spec fn spec_byte(s: Seq<u8>, b: u8) -> Result<(Seq<u8>, ()), ParseError> {
    if s.len() > 0 && s[0] == b {
        Ok((s.skip(1), ()))
    } else {
        Err(lexical(s))
    }
}

/// Consumes the single byte `b`.
pub fn byte(input: &[u8], b: u8) -> (r: Result<(&[u8], ()), ParseError>)
    ensures
        outcome(r) == spec_byte(input@, b),
{
    if input.len() > 0 && input[0] == b {
        Ok((advance(input, 1), ()))
    } else {
        Err(error_at(ErrorKind::Lexical, input))
    }
}

/// The text after the byte `b`, if the text begins with it, else the text.
pub open spec fn spec_opt_byte(s: Seq<u8>, b: u8) -> Seq<u8> {
    if s.len() > 0 && s[0] == b {
        s.skip(1)
    } else {
        s
    }
}

/// Consumes the byte `b` if it comes next.
pub fn opt_byte(input: &[u8], b: u8) -> (rest: &[u8])
    ensures
        rest@ == spec_opt_byte(input@, b),
{
    if input.len() > 0 && input[0] == b {
        advance(input, 1)
    } else {
        input
    }
}

/// A blank line: the end of one line and an empty line after it.
pub open spec fn spec_blank_line(s: Seq<u8>) -> Result<(Seq<u8>, ()), ParseError> {
    if s.len() >= 2 && s[0] == LF && s[1] == LF {
        Ok((s.skip(2), ()))
    } else {
        Err(lexical(s))
    }
}

/// Consumes a blank line.
pub fn blank_line(input: &[u8]) -> (r: Result<(&[u8], ()), ParseError>)
    ensures
        outcome(r) == spec_blank_line(input@),
{
    if input.len() >= 2 && input[0] == LF && input[1] == LF {
        Ok((advance(input, 2), ()))
    } else {
        Err(error_at(ErrorKind::Lexical, input))
    }
}

/// The texts `parts[i]`, `parts[i + 1]` and so on to the last, put one
/// behind the other, and `end` behind them.
pub open spec fn joined_from(parts: Seq<Seq<u8>>, i: int, end: Seq<u8>) -> Seq<u8>
    decreases parts.len() - i,
{
    if i < 0 || i >= parts.len() {
        end
    } else {
        parts[i] + joined_from(parts, i + 1, end)
    }
}

/// Offset of the first occurrence of the phrase `t` in `s`.
pub open spec fn find(s: Seq<u8>, t: Seq<u8>) -> Option<nat>
    decreases s.len(),
{
    if t.is_prefix_of(s) {
        Some(0)
    } else if s.len() == 0 {
        None
    } else {
        match find(s.skip(1), t) {
            Some(k) => Some(k + 1),
            None => None,
        }
    }
}

/// The phrase occurs at the offset found and nowhere before it; where none
/// is found it occurs nowhere.
pub proof fn lemma_find_props(s: Seq<u8>, t: Seq<u8>)
    ensures
        match find(s, t) {
            Some(k) => {
                &&& k + t.len() <= s.len()
                &&& t.is_prefix_of(s.skip(k as int))
                &&& forall|j: int| 0 <= j < k ==> !t.is_prefix_of(#[trigger] s.skip(j))
            },
            None => forall|j: int| 0 <= j <= s.len() ==> !t.is_prefix_of(#[trigger] s.skip(j)),
        },
    decreases s.len(),
{
    assert(s.skip(0) =~= s);
    if t.is_prefix_of(s) {
    } else if s.len() == 0 {
    } else {
        let u = s.skip(1);
        lemma_find_props(u, t);
        match find(u, t) {
            Some(k) => {
                assert(u.skip(k as int) =~= s.skip(k as int + 1));
                assert forall|j: int| 0 <= j < k + 1 implies !t.is_prefix_of(
                    #[trigger] s.skip(j),
                ) by {
                    if j > 0 {
                        assert(u.skip(j - 1) =~= s.skip(j));
                    }
                }
            },
            None => {
                assert forall|j: int| 0 <= j <= s.len() implies !t.is_prefix_of(
                    #[trigger] s.skip(j),
                ) by {
                    if j > 0 {
                        assert(u.skip(j - 1) =~= s.skip(j));
                    }
                }
            },
        }
    }
}

/// An occurrence with none before it is the one found.
pub proof fn lemma_find_is(s: Seq<u8>, t: Seq<u8>, k: nat)
    requires
        k <= s.len(),
        t.is_prefix_of(s.skip(k as int)),
        forall|j: int| 0 <= j < k ==> !t.is_prefix_of(#[trigger] s.skip(j)),
    ensures
        find(s, t) == Some(k),
    decreases k,
{
    assert(s.skip(0) =~= s);
    if k > 0 {
        let u = s.skip(1);
        assert(u.skip(k - 1) =~= s.skip(k as int));
        assert forall|j: int| 0 <= j < k - 1 implies !t.is_prefix_of(#[trigger] u.skip(j)) by {
            assert(u.skip(j) =~= s.skip(j + 1));
        }
        lemma_find_is(u, t, (k - 1) as nat);
    }
}

/// A phrase that occurs at no offset is not found.
pub proof fn lemma_find_none(s: Seq<u8>, t: Seq<u8>)
    requires
        forall|j: int| 0 <= j <= s.len() ==> !t.is_prefix_of(#[trigger] s.skip(j)),
    ensures
        find(s, t) is None,
    decreases s.len(),
{
    assert(s.skip(0) =~= s);
    if s.len() > 0 {
        let u = s.skip(1);
        assert forall|j: int| 0 <= j <= u.len() implies !t.is_prefix_of(#[trigger] u.skip(j)) by {
            assert(u.skip(j) =~= s.skip(j + 1));
        }
        lemma_find_none(u, t);
    }
}

/// Searches `input` for the first occurrence of the phrase `t`.
pub fn find_first(input: &[u8], t: &[u8]) -> (r: Option<usize>)
    ensures
        match r {
            Some(k) => find(input@, t@) == Some(k as nat) && k + t@.len() <= input@.len(),
            None => find(input@, t@) is None,
        },
{
    if t.len() > input.len() {
        proof {
            lemma_find_none(input@, t@);
        }
        return None;
    }
    let last: usize = input.len() - t.len();
    let mut i: usize = 0;
    loop
        invariant
            i <= last,
            last == input@.len() - t@.len(),
            forall|j: int| 0 <= j < i ==> !t@.is_prefix_of(#[trigger] input@.skip(j)),
        decreases last - i,
    {
        if starts_with(advance(input, i), t) {
            proof {
                lemma_find_is(input@, t@, i as nat);
            }
            return Some(i);
        }
        if i == last {
            proof {
                lemma_find_none(input@, t@);
            }
            return None;
        }
        i += 1;
    }
}

/// Value of a string of decimal digits, most significant first.
pub open spec fn digits_value(d: Seq<u8>) -> nat
    decreases d.len(),
{
    if d.len() == 0 {
        0
    } else {
        digits_value(d.drop_last()) * 10 + (d.last() - ZERO) as nat
    }
}

/// Every byte of `d` is a decimal digit.
pub open spec fn all_digits(d: Seq<u8>) -> bool {
    forall|j: int| 0 <= j < d.len() ==> CharClass::Digit.accepts(#[trigger] d[j])
}

/// Appending a digit multiplies by ten and adds the digit.
pub proof fn lemma_digits_value_push(d: Seq<u8>, b: u8)
    requires
        CharClass::Digit.accepts(b),
    ensures
        digits_value(d.push(b)) == digits_value(d) * 10 + (b - ZERO),
{
    assert(d.push(b).drop_last() =~= d);
}

/// A decimal accumulator: `Some(v)` while the digits read so far are worth
/// `v <= limit`, `None` once they are worth more than `limit`.
pub open spec fn tallies(acc: Option<u64>, d: Seq<u8>, limit: u64) -> bool {
    match acc {
        Some(v) => v == digits_value(d) && v <= limit,
        None => digits_value(d) > limit,
    }
}

/// Feeds the digits of `digits` to a decimal accumulator that has read `read`.
pub(crate) fn tally(acc: Option<u64>, digits: &[u8], limit: u64, Ghost(read): Ghost<Seq<u8>>) -> (r:
    Option<u64>)
    requires
        all_digits(digits@),
        tallies(acc, read, limit),
        limit <= 0x7fff_ffff_ffff,
    ensures
        tallies(r, read + digits@, limit),
{
    let mut acc = acc;
    let mut i: usize = 0;
    assert(read + digits@.take(0) =~= read);
    while i < digits.len()
        invariant
            i <= digits.len(),
            all_digits(digits@),
            tallies(acc, read + digits@.take(i as int), limit),
            limit <= 0x7fff_ffff_ffff,
        decreases digits.len() - i,
    {
        let b = digits[i];
        proof {
            lemma_digits_value_push(read + digits@.take(i as int), b);
            assert((read + digits@.take(i as int)).push(b) =~= read + digits@.take(i + 1));
        }
        acc = match acc {
            Some(v) => {
                let w: u64 = v * 10 + (b - ZERO) as u64;
                if w <= limit {
                    Some(w)
                } else {
                    None
                }
            },
            None => None,
        };
        i += 1;
    }
    assert(digits@.take(digits@.len() as int) =~= digits@);
    acc
}

/// An unsigned decimal number that fits 32 bits.
pub open spec fn spec_unsigned(s: Seq<u8>) -> Result<(Seq<u8>, u32), ParseError> {
    let n = span(s, CharClass::Digit) as int;
    let v = digits_value(s.take(n));
    if n > 0 && v <= u32::MAX {
        Ok((s.skip(n), v as u32))
    } else {
        Err(lexical(s))
    }
}

/// Reads an unsigned decimal number.
pub fn unsigned(input: &[u8]) -> (r: Result<(&[u8], u32), ParseError>)
    ensures
        outcome(r) == spec_unsigned(input@),
{
    let n = span_len(input, CharClass::Digit);
    proof {
        lemma_span_props(input@, CharClass::Digit);
    }
    if n == 0 {
        return Err(error_at(ErrorKind::Lexical, input));
    }
    let digits = slice_subrange(input, 0, n);
    assert(Seq::<u8>::empty() + digits@ =~= digits@);
    match tally(Some(0), digits, 0xffff_ffff, Ghost(Seq::empty())) {
        Some(v) => Ok((advance(input, n), v as u32)),
        None => Err(error_at(ErrorKind::Lexical, input)),
    }
}

/// A decimal number with an optional sign that fits 32 bits.
pub open spec fn spec_signed(s: Seq<u8>) -> Result<(Seq<u8>, i32), ParseError> {
    let negative = s.len() > 0 && s[0] == MINUS;
    let t = if negative {
        s.skip(1)
    } else {
        spec_opt_byte(s, PLUS)
    };
    let n = span(t, CharClass::Digit) as int;
    let m = digits_value(t.take(n));
    let v = if negative { -m } else { m as int };
    if n > 0 && i32::MIN <= v <= i32::MAX {
        Ok((t.skip(n), v as i32))
    } else {
        Err(lexical(s))
    }
}

/// Reads a decimal number with an optional sign.
pub fn signed(input: &[u8]) -> (r: Result<(&[u8], i32), ParseError>)
    ensures
        outcome(r) == spec_signed(input@),
{
    let negative = input.len() > 0 && input[0] == MINUS;
    let t = if negative {
        advance(input, 1)
    } else {
        opt_byte(input, PLUS)
    };
    let n = span_len(t, CharClass::Digit);
    proof {
        lemma_span_props(t@, CharClass::Digit);
    }
    if n == 0 {
        return Err(error_at(ErrorKind::Lexical, input));
    }
    let digits = slice_subrange(t, 0, n);
    assert(Seq::<u8>::empty() + digits@ =~= digits@);
    let limit: u64 = if negative {
        0x8000_0000
    } else {
        0x7fff_ffff
    };
    match tally(Some(0), digits, limit, Ghost(Seq::empty())) {
        Some(m) => {
            let v: i64 = if negative {
                -(m as i64)
            } else {
                m as i64
            };
            Ok((advance(t, n), v as i32))
        },
        None => Err(error_at(ErrorKind::Lexical, input)),
    }
}

} // verus!
