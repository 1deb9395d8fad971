use crate::span::{ArithmeticOverflow, Span};
use vstd::prelude::*;

verus! {

/// What made a grammar rule fail.
#[derive(Debug, Clone, PartialEq)]
pub enum ErrorKind<SpecificError> {
    /// An error of the rule's own kind.
    Specific(SpecificError),
    /// The core found something other than what was asked for.
    Unexpected,
}

/// A failed grammar rule, with the span at which it failed.
#[derive(Debug, Clone, PartialEq)]
pub struct SyntaxError<SpecificError> {
    pub kind: ErrorKind<SpecificError>,
    pub span: Span,
}

/// The error that a nested parse hands back to its caller.
#[derive(Debug, Clone, PartialEq)]
pub enum Error<SpecificError> {
    /// A span computation would leave the range of `usize`.
    ArithmeticOverflow(ArithmeticOverflow),
    /// A grammar rule failed.
    SyntaxError(SyntaxError<SpecificError>),
}

impl<SpecificError> Error<SpecificError> {
    /// An `Unexpected` syntax error over the empty span at the start of the source.
    pub fn new_syntax_temp() -> (r: Self)
        ensures
            r == Error::<SpecificError>::SyntaxError(
                SyntaxError {
                    kind: ErrorKind::Unexpected,
                    span: Span { start: 0, length: 0, byte_start: 0, byte_length: 0 },
                },
            ),
    {
        Error::SyntaxError(SyntaxError { kind: ErrorKind::Unexpected, span: Span::default() })
    }
}

} // verus!
