use crate::span::Span;
use vstd::prelude::*;

verus! {

/// A saved position of a parser: the span it had consumed when the snapshot
/// was taken. Restoring it gives back every character consumed since.
#[derive(Debug, Clone, Copy, PartialEq, Eq, Structural)]
pub struct Snapshot {
    span: Span,
}

impl Snapshot {
    /// The saved span.
    pub closed spec fn span_spec(&self) -> Span {
        self.span
    }

    pub(crate) fn of(span: Span) -> (r: Snapshot)
        ensures
            r.span_spec() == span,
    {
        Snapshot { span }
    }

    /// The saved span.
    pub fn span(&self) -> (r: Span)
        ensures
            r == self.span_spec(),
    {
        self.span
    }
}

} // verus!
