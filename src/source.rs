use crate::span::Span;
use bytestring::ByteString;
use std::ops::Range;
use vstd::prelude::*;

verus! {

/// An immutable text held in a `ByteString`: cheap to slice, and its slices
/// share its storage. Its contents are `text_chars`.
#[derive(Debug)]
#[verifier::external_body]
pub struct SourceText {
    bytes: ByteString,
}

/// The characters that a `SourceText` holds.
pub uninterp spec fn text_chars(t: SourceText) -> Seq<char>;

/// Relies on `ByteString`'s `From<&str>`: the new string holds a copy of `s`.
#[verifier::external_body]
pub(crate) fn text_from(s: &str) -> (r: SourceText)
    ensures
        text_chars(r) == s@,
{
    SourceText { bytes: ByteString::from(s) }
}

/// Relies on `ByteString`'s `Deref<Target = str>`: the text it holds.
#[verifier::external_body]
pub(crate) fn text_as_str(t: &SourceText) -> (r: &str)
    ensures
        r@ == text_chars(*t),
{
    &t.bytes
}

/// Relies on `ByteString::slice_ref` over `t[range]`: the part of `t` that
/// `span` covers, sharing `t`'s storage. The byte range is the span's, so it
/// lies on character boundaries and neither call panics.
#[verifier::external_body]
pub(crate) fn text_slice(t: &SourceText, span: &Span, range: Range<usize>) -> (r: SourceText)
    requires
        span.lies_in(text_chars(*t)),
        range.start == span.byte_start,
        range.end == span.byte_end_spec(),
    ensures
        text_chars(r) == span.text(text_chars(*t)),
{
    SourceText { bytes: t.bytes.slice_ref(&t.bytes[range]) }
}

} // verus!
