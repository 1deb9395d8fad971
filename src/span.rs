use std::ops::Range;
use vstd::prelude::*;
use vstd::utf8::{char_is_scalar, encode_utf8};
use vstd::wrapping::usize_specs::wrapping_add;

verus! {

/// Number of bytes in the UTF-8 encoding of `c`.
pub open spec fn char_width(c: char) -> nat {
    if (c as u32) < 0x80 {
        1
    } else if (c as u32) < 0x800 {
        2
    } else if (c as u32) < 0x10000 {
        3
    } else {
        4
    }
}

/// Number of bytes in the UTF-8 encoding of the characters `s`.
pub open spec fn utf8_width(s: Seq<char>) -> nat
    decreases s.len(),
{
    if s.len() == 0 {
        0
    } else {
        char_width(s[0]) + utf8_width(s.drop_first())
    }
}

/// The encoded width of a concatenation is the sum of the widths.
pub proof fn lemma_utf8_width_concat(a: Seq<char>, b: Seq<char>)
    ensures
        utf8_width(a + b) == utf8_width(a) + utf8_width(b),
    decreases a.len(),
{
    if a.len() == 0 {
        assert(a + b =~= b);
    } else {
        assert((a + b).drop_first() =~= a.drop_first() + b);
        lemma_utf8_width_concat(a.drop_first(), b);
    }
}

/// Every character takes at least one byte.
pub proof fn lemma_utf8_width_at_least_len(s: Seq<char>)
    ensures
        s.len() <= utf8_width(s),
    decreases s.len(),
{
    if s.len() > 0 {
        lemma_utf8_width_at_least_len(s.drop_first());
    }
}

/// Width of a prefix extended by one character.
pub proof fn lemma_utf8_width_push(s: Seq<char>, c: char)
    ensures
        utf8_width(s.push(c)) == utf8_width(s) + char_width(c),
{
    lemma_utf8_width_concat(s, seq![c]);
    assert(s.push(c) =~= s + seq![c]);
    assert(seq![c].drop_first() =~= Seq::<char>::empty());
    assert(utf8_width(seq![c]) == char_width(c) + utf8_width(seq![c].drop_first()));
}

/// Width of a prefix of a prefix: splitting `src[..j]` at `i`.
pub proof fn lemma_utf8_width_split(src: Seq<char>, i: int, j: int)
    requires
        0 <= i <= j <= src.len(),
    ensures
        utf8_width(src.subrange(0, j)) == utf8_width(src.subrange(0, i)) + utf8_width(
            src.subrange(i, j),
        ),
{
    assert(src.subrange(0, j) =~= src.subrange(0, i) + src.subrange(i, j));
    lemma_utf8_width_concat(src.subrange(0, i), src.subrange(i, j));
}

/// Width of a range of `src` split at `b`.
pub proof fn lemma_utf8_width_split_range(src: Seq<char>, a: int, b: int, c: int)
    requires
        0 <= a <= b <= c <= src.len(),
    ensures
        utf8_width(src.subrange(a, c)) == utf8_width(src.subrange(a, b)) + utf8_width(
            src.subrange(b, c),
        ),
{
    assert(src.subrange(a, c) =~= src.subrange(a, b) + src.subrange(b, c));
    lemma_utf8_width_concat(src.subrange(a, b), src.subrange(b, c));
}

/// The encoded width of the whole source bounds that of any of its prefixes.
pub proof fn lemma_utf8_width_prefix_bound(src: Seq<char>, i: int)
    requires
        0 <= i <= src.len(),
    ensures
        utf8_width(src.subrange(0, i)) <= utf8_width(src),
{
    lemma_utf8_width_split(src, i, src.len() as int);
    assert(src.subrange(0, src.len() as int) =~= src);
}

/// `utf8_width` is the length of vstd's UTF-8 encoding of the characters.
pub proof fn lemma_utf8_width_is_encoded_len(s: Seq<char>)
    ensures
        encode_utf8(s).len() == utf8_width(s),
    decreases s.len(),
{
    if s.len() > 0 {
        char_is_scalar(s[0]);
        lemma_utf8_width_is_encoded_len(s.drop_first());
    }
}

/// Byte length of the UTF-8 encoding of `c`, as `char::len_utf8` documents it.
pub fn len_utf8(c: char) -> (r: usize)
    ensures
        r == char_width(c),
        1 <= r <= 4,
{
    let v = c as u32;
    if v < 0x80 {
        1
    } else if v < 0x800 {
        2
    } else if v < 0x10000 {
        3
    } else {
        4
    }
}

/// A bound of characters with respect to the source string, given both as a
/// count of Unicode scalar values and as a count of bytes.
///
/// Used by the parser for attributing text to a syntax node.
#[derive(Debug, Clone, Copy, PartialEq, Eq, Structural)]
pub struct Span {
    /// Index of the character where this span's bound starts.
    pub start: usize,
    /// Length in characters of this span relative to the start position.
    pub length: usize,
    /// Byte index in the source string where this span's bound starts.
    pub byte_start: usize,
    /// Quantity of bytes the span's bound covers relative to the byte start position.
    pub byte_length: usize,
}

/// A span computation would leave the range of `usize`.
#[derive(Debug, Clone, Copy, PartialEq, Eq, Structural)]
pub struct ArithmeticOverflow;

impl Default for Span {
    fn default() -> (r: Span)
        ensures
            r == (Span { start: 0, length: 0, byte_start: 0, byte_length: 0 }),
    {
        Span { start: 0, length: 0, byte_start: 0, byte_length: 0 }
    }
}

impl Span {
    /// Index of the character just past this span.
    pub open spec fn end(self) -> int {
        self.start + self.length
    }

    /// Index of the byte just past this span.
    pub open spec fn byte_end_spec(self) -> int {
        self.byte_start + self.byte_length
    }

    /// The empty span that begins where this one ends.
    pub open spec fn at_end_spec(self) -> Span {
        Span {
            start: (self.start + self.length) as usize,
            length: 0,
            byte_start: (self.byte_start + self.byte_length) as usize,
            byte_length: 0,
        }
    }

    /// This span extended by `child`, which must begin where this one ends.
    pub open spec fn commit_spec(self, child: Span) -> Span {
        Span {
            start: self.start,
            length: (self.length + child.length) as usize,
            byte_start: self.byte_start,
            byte_length: (self.byte_length + child.byte_length) as usize,
        }
    }

    /// `child` begins exactly where this span ends, in both coordinates.
    pub open spec fn adjoins(self, child: Span) -> bool {
        child.start == self.end() && child.byte_start == self.byte_end_spec()
    }

    /// The span covers characters of `src`, and its byte fields are the UTF-8
    /// widths of the characters before it and of the characters in it.
    pub open spec fn lies_in(self, src: Seq<char>) -> bool {
        &&& self.end() <= src.len()
        &&& self.byte_start == utf8_width(src.subrange(0, self.start as int))
        &&& self.byte_length == utf8_width(src.subrange(self.start as int, self.end()))
    }

    /// The characters of `src` that the span covers.
    pub open spec fn text(self, src: Seq<char>) -> Seq<char> {
        src.subrange(self.start as int, self.end())
    }

    /// Create a new span that starts at the end of the current span.
    ///
    /// Fails if the start of the new span, in characters or in bytes, does
    /// not fit in `usize`; this span is left as it is.
    pub fn at_end(&self) -> (r: Result<Span, ArithmeticOverflow>)
        ensures
            r is Ok <==> (self.end() <= usize::MAX && self.byte_end_spec() <= usize::MAX),
            r matches Ok(s) ==> s == self.at_end_spec(),
    {
        if self.byte_start > usize::MAX - self.byte_length {
            return Err(ArithmeticOverflow);
        }
        if self.start > usize::MAX - self.length {
            return Err(ArithmeticOverflow);
        }
        Ok(Span {
            start: self.start + self.length,
            length: 0,
            byte_start: self.byte_end(),
            byte_length: 0,
        })
    }

    /// The byte index that this span's bound ends at.
    pub fn byte_end(&self) -> (r: usize)
        requires
            self.byte_end_spec() <= usize::MAX,
        ensures
            r == self.byte_end_spec(),
    {
        self.byte_start + self.byte_length
    }

    /// Expand the span to cover one more character.
    ///
    /// Fails, leaving the span unchanged, if either length would leave the
    /// range of `usize`.
    pub fn expand(&mut self, c: char) -> (r: Result<(), ArithmeticOverflow>)
        ensures
            r is Ok <==> (old(self).length + 1 <= usize::MAX && old(self).byte_length
                + char_width(c) <= usize::MAX),
            r is Ok ==> *final(self) == (Span {
                length: (old(self).length + 1) as usize,
                byte_length: (old(self).byte_length + char_width(c)) as usize,
                ..*old(self)
            }),
            r is Err ==> *final(self) == *old(self),
    {
        let width = len_utf8(c);
        if self.byte_length > usize::MAX - width || self.length == usize::MAX {
            return Err(ArithmeticOverflow);
        }
        self.add_lengths([1, width]);
        Ok(())
    }

    /// Same as [`Span::expand`] with no check: each length wraps around on
    /// overflow.
    pub fn overflowing_expand(&mut self, c: char)
        ensures
            *final(self) == (Span {
                length: wrapping_add(old(self).length, 1),
                byte_length: wrapping_add(old(self).byte_length, char_width(c) as usize),
                ..*old(self)
            }),
    {
        let width = len_utf8(c);
        self.add_lengths([1, width]);
    }

    /// Add a character length (`lengths[0]`) and a byte length (`lengths[1]`)
    /// to this span. Each sum wraps around on overflow.
    pub fn add_lengths(&mut self, lengths: [usize; 2])
        ensures
            *final(self) == (Span {
                length: wrapping_add(old(self).length, lengths[0]),
                byte_length: wrapping_add(old(self).byte_length, lengths[1]),
                ..*old(self)
            }),
    {
        self.length = self.length.wrapping_add(lengths[0]);
        self.byte_length = self.byte_length.wrapping_add(lengths[1]);
    }

    /// The byte range that this span bounds, for slicing the source string.
    pub fn byte_range(&self) -> (r: Range<usize>)
        requires
            self.byte_end_spec() <= usize::MAX,
        ensures
            r.start == self.byte_start,
            r.end == self.byte_end_spec(),
    {
        Range { start: self.byte_start, end: self.byte_end() }
    }
}

/// `parent` after committing each of `children` in turn.
pub open spec fn commit_all(parent: Span, children: Seq<Span>) -> Span
    decreases children.len(),
{
    if children.len() == 0 {
        parent
    } else {
        commit_all(parent, children.drop_last()).commit_spec(children.last())
    }
}

/// Each child lies in `src` and begins where `parent` ended after the
/// children before it were committed.
pub open spec fn chained(src: Seq<char>, parent: Span, children: Seq<Span>) -> bool {
    forall|i: int|
        0 <= i < children.len() ==> {
            &&& #[trigger] children[i].lies_in(src)
            &&& commit_all(parent, children.take(i)).adjoins(children[i])
        }
}

/// The texts of `children` in `src`, one after another.
pub open spec fn texts(src: Seq<char>, children: Seq<Span>) -> Seq<char>
    decreases children.len(),
{
    if children.len() == 0 {
        Seq::empty()
    } else {
        texts(src, children.drop_last()) + children.last().text(src)
    }
}

/// Committing one child that begins where `parent` ends gives a span over
/// the parent's text followed by the child's, with consistent byte fields.
pub proof fn lemma_commit(src: Seq<char>, parent: Span, child: Span)
    requires
        utf8_width(src) <= usize::MAX,
        parent.lies_in(src),
        child.lies_in(src),
        parent.adjoins(child),
    ensures
        parent.commit_spec(child).lies_in(src),
        parent.commit_spec(child).end() == child.end(),
        parent.commit_spec(child).byte_end_spec() == child.byte_end_spec(),
        parent.commit_spec(child).text(src) == parent.text(src) + child.text(src),
{
    lemma_utf8_width_at_least_len(src);
    lemma_utf8_width_split_range(src, parent.start as int, parent.end(), child.end());
    lemma_utf8_width_split(src, parent.start as int, parent.end());
    lemma_utf8_width_prefix_bound(src, child.end());
    lemma_utf8_width_split(src, child.start as int, child.end());
    assert(src.subrange(parent.start as int, child.end()) =~= src.subrange(
        parent.start as int,
        parent.end(),
    ) + src.subrange(child.start as int, child.end()));
}

/// Committed children partition their parent: when each child begins where
/// the parent's span ended after the ones before it, the final span starts
/// where the parent did and covers the parent's text and then each child's
/// text in order, with no gap and no overlap.
pub proof fn lemma_commits_partition(src: Seq<char>, parent: Span, children: Seq<Span>)
    requires
        utf8_width(src) <= usize::MAX,
        parent.lies_in(src),
        chained(src, parent, children),
    ensures
        commit_all(parent, children).lies_in(src),
        commit_all(parent, children).start == parent.start,
        commit_all(parent, children).byte_start == parent.byte_start,
        commit_all(parent, children).text(src) == parent.text(src) + texts(src, children),
    decreases children.len(),
{
    if children.len() == 0 {
        assert(parent.text(src) + Seq::<char>::empty() =~= parent.text(src));
    } else {
        let init = children.drop_last();
        let n = children.len() - 1;
        assert forall|i: int| 0 <= i < init.len() implies {
            &&& #[trigger] init[i].lies_in(src)
            &&& commit_all(parent, init.take(i)).adjoins(init[i])
        } by {
            assert(init.take(i) =~= children.take(i));
            assert(init[i] == children[i]);
            assert(children[i].lies_in(src));
        }
        lemma_commits_partition(src, parent, init);
        assert(children.take(n) =~= init);
        assert(children[n].lies_in(src));
        lemma_commit(src, commit_all(parent, init), children.last());
        assert(parent.text(src) + texts(src, init) + children.last().text(src) =~= parent.text(
            src,
        ) + (texts(src, init) + children.last().text(src)));
    }
}

} // verus!
