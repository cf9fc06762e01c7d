//! The failure a parser reports, and the shape every parser result takes.

use vstd::prelude::*;

verus! {

/// Why a statement text was rejected.
#[derive(Clone, Copy, Debug, PartialEq, Eq, Structural)]
pub enum ErrorKind {
    /// A section header or footer phrase does not occur in the text.
    AnchorNotFound,
    /// A token (date, amount, separator) does not match its grammar.
    Lexical,
    /// A declared total differs from the sum of the parsed amounts.
    TotalsMismatch,
    /// Month, day and year do not name a day of the calendar.
    InvalidDate,
}

/// A rejected parse: the reason, and how many bytes of the text were still
/// unread where the failing element began. A parser only ever consumes a
/// prefix of its input, so that count identifies the unparsed remainder.
#[derive(Clone, Copy, Debug, PartialEq, Eq, Structural)]
pub struct ParseError {
    pub kind: ErrorKind,
    pub remaining: usize,
}

/// The error of the given kind raised at the start of `s`.
pub open spec fn fail_at(kind: ErrorKind, s: Seq<u8>) -> ParseError {
    ParseError { kind, remaining: s.len() as usize }
}

/// A token at the start of `s` does not match its grammar.
pub open spec fn lexical(s: Seq<u8>) -> ParseError {
    fail_at(ErrorKind::Lexical, s)
}

/// The executable form of [`fail_at`].
pub fn error_at(kind: ErrorKind, input: &[u8]) -> (e: ParseError)
    ensures
        e == fail_at(kind, input@),
{
    ParseError { kind, remaining: input.len() }
}

/// What a parser result denotes: the unread rest of the text and the value,
/// or the error.
pub open spec fn outcome<T>(r: Result<(&[u8], T), ParseError>) -> Result<(Seq<u8>, T), ParseError> {
    match r {
        Ok((rest, value)) => Ok((rest@, value)),
        Err(e) => Err(e),
    }
}

/// [`outcome`] for a value that is described by its view.
pub open spec fn outcome_view<T: View>(r: Result<(&[u8], T), ParseError>) -> Result<
    (Seq<u8>, T::V),
    ParseError,
> {
    match r {
        Ok((rest, value)) => Ok((rest@, value@)),
        Err(e) => Err(e),
    }
}

} // verus!
