use vstd::prelude::*;

verus! {

/// Why a document was refused.
#[derive(Debug, PartialEq)]
pub enum ParserError {
    /// A complete value was read, but something other than whitespace follows it.
    /// Holds the position of the first such character.
    ConsumeInputNotFinished(usize),
    /// No value can start with the character at the cursor, or the text has ended.
    ParseHelperFailed(String),
    /// A token that the grammar asks for at the cursor is not there: a quote, a
    /// colon, a comma, a closing bracket, a digit behind a minus sign, the rest
    /// of `true`, `false` or `null`, a valid escape sequence, or the closing
    /// quote of a string before the text ends.
    ParseError(String),
    /// A structural rule is broken, such as a comma right before a closing bracket.
    InvalidJson(String),
    /// Arrays and objects are nested deeper than the parser was allowed to go.
    DepthExceeded,
}

/// A [`ParserError`] as a mathematical object: positions are integers, messages are
/// sequences of characters.
pub enum Failure {
    ConsumeInputNotFinished(int),
    ParseHelperFailed(Seq<char>),
    ParseError(Seq<char>),
    InvalidJson(Seq<char>),
    DepthExceeded,
}

impl View for ParserError {
    type V = Failure;

    open spec fn view(&self) -> Failure {
        match self {
            ParserError::ConsumeInputNotFinished(position) => Failure::ConsumeInputNotFinished(
                *position as int,
            ),
            ParserError::ParseHelperFailed(message) => Failure::ParseHelperFailed(message@),
            ParserError::ParseError(message) => Failure::ParseError(message@),
            ParserError::InvalidJson(message) => Failure::InvalidJson(message@),
            ParserError::DepthExceeded => Failure::DepthExceeded,
        }
    }
}

} // verus!
