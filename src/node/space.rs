use crate::error::Error;
use crate::{Parsable, Parser};
use vstd::prelude::*;

verus! {

/// Whether `c` has the Unicode `White_Space` property: the characters
/// U+0009 to U+000D, U+0020, U+0085, U+00A0, U+1680, U+2000 to U+200A,
/// U+2028, U+2029, U+202F, U+205F and U+3000.
pub open spec fn white_space(c: char) -> bool {
    let v = c as u32;
    ||| 0x9 <= v <= 0xD
    ||| v == 0x20
    ||| v == 0x85
    ||| v == 0xA0
    ||| v == 0x1680
    ||| 0x2000 <= v <= 0x200A
    ||| v == 0x2028
    ||| v == 0x2029
    ||| v == 0x202F
    ||| v == 0x205F
    ||| v == 0x3000
}

/// `after` is `before` extended over the longest run of characters for
/// which `accept` holds, starting at `before`'s position.
pub open spec fn consumed_run(before: Parser<()>, after: Parser<()>, accept: spec_fn(char) -> bool) -> bool {
    let src = before.source_text();
    &&& after.scanned_from(before)
    &&& forall|i: int| before.position() <= i < after.position() ==> accept(#[trigger] src[i])
    &&& after.position() < src.len() ==> !accept(src[after.position()])
}

/// Relies on `char::is_whitespace`: whether `c` has the Unicode
/// `White_Space` property, which depends on the character alone.
#[verifier::external_body]
fn is_whitespace(c: char) -> (r: bool)
    ensures
        r == white_space(c),
{
    c.is_whitespace()
}

/// A run of white space, possibly empty.
#[derive(Debug, Clone, Copy, PartialEq, Eq, Structural)]
pub struct Space;

impl Parsable for Space {
    type Error = ();
    type Token = ();
    type Data = ();

    /// Always succeeds, having consumed the longest run of white space.
    open spec fn parsed(before: Parser<()>, after: Parser<()>, r: Result<Space, Error<()>>) -> bool {
        &&& r == Ok::<Space, Error<()>>(Space)
        &&& consumed_run(before, after, |c: char| white_space(c))
    }

    fn parse(parser: &mut Parser<()>, data: &mut ()) -> (r: Result<Space, Error<()>>) {
        let blank = |c: char| -> (b: bool)
            ensures
                b == white_space(c),
            { is_whitespace(c) };
        parser.parse_while(blank);
        Ok(Space)
    }
}

/// A run of white space within one line, possibly empty.
#[derive(Debug, Clone, Copy, PartialEq, Eq, Structural)]
pub struct Line;

impl Parsable for Line {
    type Error = ();
    type Token = ();
    type Data = ();

    /// Always succeeds, having consumed the longest run of white space
    /// other than a line feed.
    open spec fn parsed(before: Parser<()>, after: Parser<()>, r: Result<Line, Error<()>>) -> bool {
        &&& r == Ok::<Line, Error<()>>(Line)
        &&& consumed_run(before, after, |c: char| white_space(c) && c != '\n')
    }

    fn parse(parser: &mut Parser<()>, data: &mut ()) -> (r: Result<Line, Error<()>>) {
        let blank = |c: char| -> (b: bool)
            ensures
                b == (white_space(c) && c != '\n'),
            { is_whitespace(c) && c != '\n' };
        parser.parse_while(blank);
        Ok(Line)
    }
}

} // verus!
