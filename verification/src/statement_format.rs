//! What every statement format offers: a grammar, and a parser that follows it.

use vstd::prelude::*;
use crate::error::ParseError;

verus! {

/// A kind of bank statement that can be read from the text of one document.
/// The caller names the format; none is guessed from the text.
pub trait StatementFormat: Sized + View {
    /// What the text of a statement denotes under this format: the statement,
    /// or the first failure met.
    spec fn spec_parse(text: Seq<u8>) -> Result<Self::V, ParseError>;

    /// Reads a whole statement from `text`. There is no partial result: any
    /// failure of a part, or of a check, fails the statement.
    fn parse(text: &[u8]) -> (r: Result<Self, ParseError>)
        ensures
            match r {
                Ok(statement) => Self::spec_parse(text@) == Ok::<Self::V, ParseError>(
                    statement@,
                ),
                Err(e) => Self::spec_parse(text@) == Err::<Self::V, ParseError>(e),
            },
    ;
}

} // verus!
