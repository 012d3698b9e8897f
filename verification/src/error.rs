//! What a rule reports when it does not match.

use vstd::prelude::*;

verus! {

/// The lexical step at which a rule gave up.
#[derive(Clone, Copy, Debug, PartialEq, Eq)]
pub enum ErrorKind {
    /// A fixed spelling was expected.
    Tag,
    /// A decimal digit was expected.
    Digit,
    /// The digits do not fit a 64-bit signed integer.
    MapRes,
    /// A block comment is never closed.
    TakeUntil,
    /// Whitespace was expected.
    MultiSpace,
    /// Text is left where the input should end.
    Eof,
}

/// A failed match: the input from the position at which the rule gave up
/// to its end, and the step that failed there.
#[derive(Clone, Copy, Debug, PartialEq, Eq)]
pub struct ParseError<'a> {
    pub input: &'a str,
    pub code: ErrorKind,
}

/// The model of a failed match.
pub ghost struct Failure {
    pub input: Seq<char>,
    pub code: ErrorKind,
}

impl<'a> View for ParseError<'a> {
    type V = Failure;

    open spec fn view(&self) -> Failure {
        Failure { input: self.input@, code: self.code }
    }
}

/// The model of a rule's result on some input: the value matched, together
/// with the input that follows the match, or a failure.
pub type Parsed<T> = Result<(T, Seq<char>), Failure>;

/// The failure of the step `code` in front of `input`.
pub open spec fn failed<T>(input: Seq<char>, code: ErrorKind) -> Parsed<T> {
    Err(Failure { input, code })
}

/// The model of what an executable rule returned.
pub open spec fn outcome<'a, T: View>(r: Result<(&'a str, T), ParseError<'a>>) -> Parsed<T::V> {
    match r {
        Ok((rest, value)) => Ok((value@, rest@)),
        Err(e) => Err(e@),
    }
}

} // verus!
