//! A recursive-descent parsing substrate: grammar rules compose through
//! nested parses, each construct is credited with the exact character and
//! byte range it covers in the source, and scanned texts are classified into
//! caller-defined tokens through an intern table.
//!
//! The scan cursor is the end of the span of the parser that is active: a
//! nested parse starts a fresh span there, and folds it into its caller's
//! span when the rule succeeds. When a rule fails, its caller's span is
//! untouched, so the characters the rule consumed go back to the stream:
//! grammars may try one rule after another at the same position. Entries
//! that a failed rule added to the intern table stay in it.
pub mod error;
pub mod node;
pub mod snapshot;
pub mod source;
pub mod span;
pub mod string;

use crate::error::Error;
use crate::snapshot::Snapshot;
use crate::source::{SourceText, text_as_str, text_chars, text_from, text_slice};
use crate::span::{
    ArithmeticOverflow, Span, chained, char_width, commit_all, lemma_commit,
    lemma_commits_partition, lemma_utf8_width_is_encoded_len, lemma_utf8_width_prefix_bound,
    lemma_utf8_width_push, lemma_utf8_width_split, lemma_utf8_width_split_range, texts,
    utf8_width,
};
use crate::string::{ReInternalizationError, Strings, index_of, interned};
use vstd::prelude::*;
use vstd::slice::axiom_spec_len;
use vstd::std_specs::vec::axiom_spec_len as vec_len_fits;
use vstd::std_specs::iter::IteratorSpec;
use vstd::string::{axiom_spec_iter, next_postcondition};

pub use crate::string::String as ParserString;

verus! {

broadcast use next_postcondition;

/// The result of a successful nested parse: the rule's value, with the span
/// and the source text it covers.
#[derive(Debug)]
pub struct Node<Supplementary> {
    bounds: Span,
    source: SourceText,
    supplementary: Supplementary,
}

impl<S> Node<S> {
    /// The span the node covers.
    pub closed spec fn span_spec(&self) -> Span {
        self.bounds
    }

    /// The source text the node covers.
    pub closed spec fn text(&self) -> Seq<char> {
        text_chars(self.source)
    }

    /// The rule's value.
    pub closed spec fn value_spec(&self) -> S {
        self.supplementary
    }

    /// The source text the node covers.
    pub fn slice(&self) -> (r: &str)
        ensures
            r@ == self.text(),
    {
        text_as_str(&self.source)
    }

    /// The span the node covers.
    pub fn span(&self) -> (r: &Span)
        ensures
            *r == self.span_spec(),
    {
        &self.bounds
    }

    /// The rule's value.
    pub fn value(&self) -> (r: &S)
        ensures
            *r == self.value_spec(),
    {
        &self.supplementary
    }

    /// The rule's value, taken out of the node.
    pub fn into_value(self) -> (r: S)
        ensures
            r == self.value_spec(),
    {
        self.supplementary
    }
}

impl<S> std::ops::Deref for Node<S> {
    type Target = S;

    fn deref(&self) -> &S {
        &self.supplementary
    }
}

impl<S> std::ops::DerefMut for Node<S> {
    fn deref_mut(&mut self) -> &mut S {
        &mut self.supplementary
    }
}

/// A parser over one source text: the span it has consumed so far, and the
/// intern table it shares with the parses nested in it.
#[derive(Debug)]
pub struct Parser<Token> {
    source: SourceText,
    chars: Vec<char>,
    span: Span,
    strings: Strings<Token>,
}

/// What `expect_char` can report.
#[derive(Debug, Clone, Copy, PartialEq, Eq, Structural)]
pub enum ExpectError {
    /// The span could not be resized.
    BlockedSpan,
    /// The next character is not the one asked for, or there is none.
    Unexpected,
}

/// What eager registration can report.
#[derive(Debug, Clone, Copy, PartialEq, Eq, Structural)]
pub enum InternalizeError {
    /// The table holds the text already.
    EntryExists,
}

/// The rule's own result inside the result of a nested parse: the node's
/// value, or the error.
pub open spec fn rule_result<T, E>(r: Result<Node<T>, Error<E>>) -> Result<T, Error<E>> {
    match r {
        Ok(node) => Ok(node.value_spec()),
        Err(e) => Err(e),
    }
}

/// The characters of `s`, in order.
fn chars_of(s: &str) -> (r: Vec<char>)
    ensures
        r@ == s@,
{
    let mut out: Vec<char> = Vec::new();
    let mut it = s.chars();
    proof {
        axiom_spec_iter(s);
    }

    loop
        invariant
            out@ + it.remaining() == s@,
            it.decrease() is Some,
        ensures
            out@ == s@,
        decreases it.decrease()->0,
    {
        match it.next() {
            Some(c) => out.push(c),
            None => {
                assert(out@ =~= s@);
                break;
            },
        }
    }
    out
}

impl<Token> Parser<Token> {
    /// The source text, as characters.
    pub closed spec fn source_text(&self) -> Seq<char> {
        self.chars@
    }

    /// The span this parser has consumed.
    pub closed spec fn span_spec(&self) -> Span {
        self.span
    }

    /// The intern table.
    pub closed spec fn strings_spec(&self) -> Strings<Token> {
        self.strings
    }

    /// The span lies in the source, the table is well formed, and the whole
    /// source has a byte length that fits in `usize`.
    pub closed spec fn wf(&self) -> bool {
        &&& text_chars(self.source) == self.chars@
        &&& self.span.lies_in(self.chars@)
        &&& self.strings.wf()
        &&& utf8_width(self.chars@) <= usize::MAX
    }

    /// Index of the next character to scan.
    pub open spec fn position(&self) -> int {
        self.span_spec().end()
    }

    /// The text this parser has consumed.
    pub open spec fn consumed(&self) -> Seq<char> {
        self.span_spec().text(self.source_text())
    }

    /// `self` is `before` after scanning: same source and table, and a span
    /// with the same start that was extended by zero or more characters.
    pub open spec fn scanned_from(&self, before: Parser<Token>) -> bool {
        &&& self.source_text() == before.source_text()
        &&& self.strings_spec() == before.strings_spec()
        &&& self.span_spec().start == before.span_spec().start
        &&& self.span_spec().byte_start == before.span_spec().byte_start
        &&& before.position() <= self.position()
    }

    /// `self` is `before` after a grammar rule ran on it: same source, and a
    /// span with the same start.
    pub open spec fn continues(&self, before: Parser<Token>) -> bool {
        &&& self.source_text() == before.source_text()
        &&& self.span_spec().start == before.span_spec().start
        &&& self.span_spec().byte_start == before.span_spec().byte_start
    }

    /// `after` is this parser after a nested parse that gave `node`: the
    /// node's span begins where this span ends, lies in the source and
    /// covers the node's text, and `after`'s span is this span extended by
    /// exactly the node's span.
    pub open spec fn committed<T>(&self, node: Node<T>, after: Parser<Token>) -> bool {
        &&& self.span_spec().adjoins(node.span_spec())
        &&& node.span_spec().lies_in(self.source_text())
        &&& node.text() == node.span_spec().text(self.source_text())
        &&& after.span_spec() == self.span_spec().commit_spec(node.span_spec())
        &&& after.consumed() == self.consumed() + node.text()
    }

    /// `r` came from one run of the rule `T` on a fork of this parser: the
    /// rule started from this parser with the empty span at its end, the same
    /// source and the same table, and left a parser with the table `table`
    /// whose span is the node's on success. What the rule did is `T::parsed`.
    pub open spec fn ran<T: Parsable<Token = Token>>(
        &self,
        r: Result<Node<T>, Error<T::Error>>,
        table: Strings<Token>,
    ) -> bool {
        exists|b: Parser<Token>, a: Parser<Token>|
            {
                &&& b.wf()
                &&& b.source_text() == self.source_text()
                &&& b.span_spec() == self.span_spec().at_end_spec()
                &&& b.strings_spec() == self.strings_spec()
                &&& a.strings_spec() == table
                &&& (r matches Ok(node) ==> a.span_spec() == node.span_spec())
                &&& #[trigger] T::parsed(b, a, rule_result(r))
            }
    }

    /// What a valid parser guarantees: its span lies in the source, its
    /// intern table is well formed, and the whole source's UTF-8 length fits
    /// in `usize`.
    pub proof fn lemma_wf_facts(&self)
        requires
            self.wf(),
        ensures
            self.span_spec().lies_in(self.source_text()),
            utf8_width(self.source_text()) <= usize::MAX,
            self.span_spec().byte_end_spec() == utf8_width(
                self.source_text().subrange(0, self.position()),
            ),
            self.span_spec().byte_end_spec() <= usize::MAX,
            self.strings_spec().wf(),
    {
        let src = self.chars@;
        lemma_utf8_width_split(src, self.span.start as int, self.span.end());
        lemma_utf8_width_prefix_bound(src, self.span.end());
    }

    /// A parser at the start of `source`, with an empty span and an empty
    /// intern table.
    pub fn new(source: &str) -> (r: Parser<Token>)
        ensures
            r.wf(),
            r.source_text() == source@,
            r.span_spec() == (Span { start: 0, length: 0, byte_start: 0, byte_length: 0 }),
            r.strings_spec().keys() == Seq::<Seq<char>>::empty(),
            r.strings_spec().tokens() == Seq::<Token>::empty(),
    {
        let chars = chars_of(source);
        let bytes = source.as_bytes();
        proof {
            axiom_spec_len(bytes);
            lemma_utf8_width_is_encoded_len(source@);
            assert(chars@.subrange(0, 0) =~= Seq::<char>::empty());
            assert(utf8_width(Seq::<char>::empty()) == 0);
        }
        let r = Parser {
            source: text_from(source),
            chars,
            span: Span::default(),
            strings: Strings::new(),
        };
        r
    }

    /// The span this parser has consumed.
    pub fn span(&self) -> (r: &Span)
        ensures
            *r == self.span_spec(),
    {
        &self.span
    }

    /// The intern table.
    pub fn strings(&self) -> (r: &Strings<Token>)
        ensures
            *r == self.strings_spec(),
    {
        &self.strings
    }

    /// The position of this parser, to come back to with
    /// [`Parser::restore`].
    pub fn snapshot(&self) -> (r: Snapshot)
        ensures
            r.span_spec() == self.span_spec(),
    {
        Snapshot::of(self.span)
    }

    /// Go back to a position taken from this parser earlier: the span
    /// becomes the saved one, so the characters consumed since are scanned
    /// again. The intern table keeps what was added since.
    pub fn restore(&mut self, snapshot: Snapshot)
        requires
            old(self).wf(),
            snapshot.span_spec().lies_in(old(self).source_text()),
            snapshot.span_spec().start == old(self).span_spec().start,
            snapshot.span_spec().byte_start == old(self).span_spec().byte_start,
        ensures
            final(self).wf(),
            final(self).continues(*old(self)),
            final(self).strings_spec() == old(self).strings_spec(),
            final(self).span_spec() == snapshot.span_spec(),
    {
        self.span = snapshot.span();
    }

    /// The next character, without consuming it.
    pub fn peek(&self) -> (r: Option<char>)
        requires
            self.wf(),
        ensures
            self.position() < self.source_text().len() ==> r == Some(
                self.source_text()[self.position()],
            ),
            self.position() >= self.source_text().len() ==> r is None,
    {
        let n = self.chars.len();
        let pos = self.span.start + self.span.length;
        if pos < n {
            Some(self.chars[pos])
        } else {
            None
        }
    }

    /// The characters of the source that `span` covers, sharing the
    /// source's storage.
    fn source_slice(&self, span: &Span) -> (r: SourceText)
        requires
            self.wf(),
            span.lies_in(self.source_text()),
        ensures
            text_chars(r) == span.text(self.source_text()),
    {
        proof {
            let src = self.chars@;
            lemma_utf8_width_split(src, span.start as int, span.end());
            lemma_utf8_width_prefix_bound(src, span.end());
        }
        text_slice(&self.source, span, span.byte_range())
    }

    /// Consume the next character and extend the span over it.
    fn advance(&mut self)
        requires
            old(self).wf(),
            old(self).position() < old(self).source_text().len(),
        ensures
            final(self).wf(),
            final(self).scanned_from(*old(self)),
            final(self).span_spec().length == old(self).span_spec().length + 1,
            final(self).span_spec().byte_length == old(self).span_spec().byte_length + char_width(
                old(self).source_text()[old(self).position()],
            ),
    {
        proof {
            vec_len_fits(&self.chars);
        }
        let pos = self.span.start + self.span.length;
        let c = self.chars[pos];
        proof {
            let src = self.chars@;
            let start = self.span.start as int;
            let end = pos as int;
            assert(src.subrange(start, end + 1) =~= src.subrange(start, end).push(c));
            lemma_utf8_width_push(src.subrange(start, end), c);
            lemma_utf8_width_split(src, start, end + 1);
            lemma_utf8_width_prefix_bound(src, end + 1);
        }
        self.span.overflowing_expand(c);
    }

    /// Consume the next character if it is `c`, extending the span over it.
    /// Otherwise fail with `Unexpected`, leaving the parser as it was.
    pub fn expect_char(&mut self, c: char) -> (r: Result<(), ExpectError>)
        requires
            old(self).wf(),
        ensures
            final(self).wf(),
            final(self).span_spec().lies_in(final(self).source_text()),
            ({
                let src = old(self).source_text();
                let pos = old(self).position();
                if pos < src.len() && src[pos] == c {
                    &&& r is Ok
                    &&& final(self).scanned_from(*old(self))
                    &&& final(self).span_spec() == (Span {
                        length: (old(self).span_spec().length + 1) as usize,
                        byte_length: (old(self).span_spec().byte_length + char_width(c)) as usize,
                        ..old(self).span_spec()
                    })
                } else {
                    &&& r == Err::<(), ExpectError>(ExpectError::Unexpected)
                    &&& *final(self) == *old(self)
                }
            }),
    {
        match self.peek() {
            Some(next) => {
                if next != c {
                    return Err(ExpectError::Unexpected);
                }
            },
            None => {
                return Err(ExpectError::Unexpected);
            },
        }
        self.advance();
        Ok(())
    }

    /// Consume characters while `predicate` holds of them, extending the
    /// span over them. Stops at the first character for which it does not
    /// hold, or at the end of the source. Gives the consumed text, not yet
    /// classified; it may be empty.
    pub fn parse_while<P: Fn(char) -> bool>(&mut self, predicate: P) -> (r: ParserString)
        requires
            old(self).wf(),
            forall|c: char| predicate.requires((c,)),
        ensures
            final(self).wf(),
            final(self).scanned_from(*old(self)),
            final(self).span_spec().lies_in(final(self).source_text()),
            forall|i: int|
                old(self).position() <= i < final(self).position() ==> predicate.ensures(
                    (old(self).source_text()[i],),
                    true,
                ),
            final(self).position() < old(self).source_text().len() ==> predicate.ensures(
                (old(self).source_text()[final(self).position()],),
                false,
            ),
            r.text() == old(self).source_text().subrange(
                old(self).position(),
                final(self).position(),
            ),
            r.index_spec() is None,
    {
        let ghost orig = *self;
        let mark = self.span;
        let n = self.chars.len();
        loop
            invariant
                self.wf(),
                self.scanned_from(orig),
                self.span.length >= mark.length,
                self.span.byte_length >= mark.byte_length,
                n == self.chars@.len(),
                forall|c: char| predicate.requires((c,)),
                forall|i: int|
                    orig.position() <= i < self.position() ==> predicate.ensures(
                        (orig.source_text()[i],),
                        true,
                    ),
            ensures
                self.wf(),
                self.scanned_from(orig),
                self.span.length >= mark.length,
                self.span.byte_length >= mark.byte_length,
                forall|i: int|
                    orig.position() <= i < self.position() ==> predicate.ensures(
                        (orig.source_text()[i],),
                        true,
                    ),
                self.position() < orig.source_text().len() ==> predicate.ensures(
                    (orig.source_text()[self.position()],),
                    false,
                ),
            decreases n - self.position(),
        {
            let pos = self.span.start + self.span.length;
            if pos >= n {
                break;
            }
            let c = self.chars[pos];
            if !predicate(c) {
                break;
            }
            self.advance();
        }
        proof {
            orig.lemma_wf_facts();
            let src = self.chars@;
            lemma_utf8_width_split_range(src, mark.start as int, mark.end(), self.position());
            lemma_utf8_width_split(src, mark.start as int, mark.end());
        }
        let matched = Span {
            start: mark.start + mark.length,
            length: self.span.length - mark.length,
            byte_start: mark.byte_start + mark.byte_length,
            byte_length: self.span.byte_length - mark.byte_length,
        };
        ParserString::from_parts(self.source_slice(&matched), None)
    }

    /// Consume characters up to the first `c`, or to the end of the source.
    pub fn parse_till_char(&mut self, c: char) -> (r: ParserString)
        requires
            old(self).wf(),
        ensures
            final(self).wf(),
            final(self).scanned_from(*old(self)),
            final(self).span_spec().lies_in(final(self).source_text()),
            forall|i: int|
                old(self).position() <= i < final(self).position() ==> old(
                    self,
                ).source_text()[i] != c,
            final(self).position() < old(self).source_text().len() ==> old(
                self,
            ).source_text()[final(self).position()] == c,
            r.text() == old(self).source_text().subrange(
                old(self).position(),
                final(self).position(),
            ),
            r.index_spec() is None,
    {
        let other = |p: char| -> (b: bool)
            ensures
                b == (p != c),
            { p != c };
        self.parse_while(other)
    }

    /// Register `slice` with `token` in the intern table, for a vocabulary
    /// known before parsing. Fails if the table holds `slice` already.
    pub fn internalize(&mut self, slice: &str, token: Token) -> (r: Result<ParserString, InternalizeError>)
        requires
            old(self).wf(),
        ensures
            final(self).wf(),
            final(self).continues(*old(self)),
            final(self).span_spec() == old(self).span_spec(),
            index_of(old(self).strings_spec().keys(), slice@) is Some ==> {
                &&& r == Err::<ParserString, InternalizeError>(InternalizeError::EntryExists)
                &&& *final(self) == *old(self)
            },
            index_of(old(self).strings_spec().keys(), slice@) is None ==> {
                &&& r is Ok
                &&& r->Ok_0.text() == slice@
                &&& r->Ok_0.index_spec() == Some(old(self).strings_spec().keys().len() as usize)
                &&& final(self).strings_spec().keys() == old(self).strings_spec().keys().push(slice@)
                &&& final(self).strings_spec().tokens() == old(self).strings_spec().tokens().push(token)
            },
    {
        match self.strings.insert_new(slice, token) {
            Some(index) => Ok(ParserString::from_parts(text_from(slice), Some(index))),
            None => Err(InternalizeError::EntryExists),
        }
    }

    /// Classify `s` through this parser's intern table: see
    /// [`ParserString::try_internalize`].
    pub fn try_internalize<F: FnOnce(&str) -> Option<Token>>(
        &mut self,
        s: &mut ParserString,
        on_create: F,
    ) -> (r: Result<Option<usize>, ReInternalizationError>)
        requires
            old(self).wf(),
            forall|t: &str| t@ == old(s).text() ==> on_create.requires((t,)),
        ensures
            final(self).wf(),
            final(self).continues(*old(self)),
            final(self).span_spec() == old(self).span_spec(),
            interned(*old(s), old(self).strings_spec(), on_create, r, *final(s), final(self).strings_spec()),
    {
        s.try_internalize(&mut self.strings, on_create)
    }

    /// The span a nested parse starts with: the empty span at the end of
    /// this parser's span.
    pub fn derive(&self) -> (r: Result<Span, ArithmeticOverflow>)
        requires
            self.wf(),
        ensures
            r == Ok::<Span, ArithmeticOverflow>(self.span_spec().at_end_spec()),
    {
        proof {
            vec_len_fits(&self.chars);
            self.lemma_wf_facts();
        }
        self.span.at_end()
    }

    /// Parse a `T` at the end of this parser's span.
    ///
    /// The rule runs on this parser with a fresh span that starts where the
    /// current one ends. On success this span grows by exactly the rule's
    /// span, and the node holds the rule's value with its span and text. On
    /// failure the rule's error comes back and this span is as it was, so
    /// the next scan starts where the rule started.
    pub fn parse<T: Parsable<Token = Token>>(&mut self, data: &mut T::Data) -> (r: Result<Node<T>, Error<T::Error>>)
        requires
            old(self).wf(),
        ensures
            final(self).wf(),
            final(self).continues(*old(self)),
            final(self).span_spec().lies_in(final(self).source_text()),
            r is Err ==> final(self).span_spec() == old(self).span_spec(),
            r matches Ok(node) ==> old(self).committed(node, *final(self)),
            old(self).ran::<T>(r, final(self).strings_spec()),
    {
        proof {
            vec_len_fits(&self.chars);
        }
        let parent = self.span;
        let fork = match self.derive() {
            Ok(span) => span,
            Err(e) => {
                return Err(Error::ArithmeticOverflow(e));
            },
        };
        proof {
            self.lemma_wf_facts();
            assert(self.chars@.subrange(fork.start as int, fork.start as int) =~= Seq::<char>::empty());
            assert(utf8_width(Seq::<char>::empty()) == 0);
        }
        self.span = fork;
        let ghost before = *self;
        let result = T::parse(self, data);
        let ghost after = *self;
        proof {
            self.lemma_wf_facts();
        }
        let child = self.span;
        self.span = parent;
        let r = match result {
            Err(e) => Err(e),
            Ok(value) => {
                proof {
                    lemma_commit(self.chars@, parent, child);
                }
                let source = self.source_slice(&child);
                self.span.add_lengths([child.length, child.byte_length]);
                Ok(Node { bounds: child, source, supplementary: value })
            },
        };
        proof {
            assert(rule_result(r) == result);
            assert(T::parsed(before, after, rule_result(r)));
        }
        r
    }
}

impl<Token: Clone> Parser<Token> {
    /// Like [`Parser::parse`], and when the rule fails the intern table is
    /// also put back as it was before the rule ran: entries the rule added
    /// are gone, and the tokens are clones of the earlier ones.
    pub fn cloning_parse<T: Parsable<Token = Token>>(&mut self, data: &mut T::Data) -> (r: Result<Node<T>, Error<T::Error>>)
        requires
            old(self).wf(),
        ensures
            final(self).wf(),
            final(self).continues(*old(self)),
            final(self).span_spec().lies_in(final(self).source_text()),
            r matches Ok(node) ==> old(self).committed(node, *final(self)),
            r is Ok ==> old(self).ran::<T>(r, final(self).strings_spec()),
            r is Err ==> exists|table: Strings<Token>| old(self).ran::<T>(r, table),
            r is Err ==> {
                &&& final(self).span_spec() == old(self).span_spec()
                &&& final(self).strings_spec().keys() == old(self).strings_spec().keys()
                &&& final(self).strings_spec().tokens().len() == old(self).strings_spec().tokens().len()
                &&& forall|i: int|
                    0 <= i < old(self).strings_spec().tokens().len() ==> cloned(
                        old(self).strings_spec().tokens()[i],
                        final(self).strings_spec().tokens()[i],
                    )
            },
    {
        let saved = self.strings.snapshot();
        let r = self.parse::<T>(data);
        if r.is_err() {
            self.strings = saved;
        }
        r
    }
}

/// Each step from `parsers[i]` to `parsers[i + 1]` is one successful nested
/// parse whose node has the span `spans[i]`, as `Parser::parse` ensures it.
pub open spec fn parse_steps<Token>(parsers: Seq<Parser<Token>>, spans: Seq<Span>) -> bool {
    &&& parsers.len() == spans.len() + 1
    &&& forall|i: int|
        0 <= i < spans.len() ==> {
            &&& #[trigger] parsers[i + 1].source_text() == parsers[i].source_text()
            &&& parsers[i].span_spec().adjoins(spans[i])
            &&& spans[i].lies_in(parsers[i].source_text())
            &&& parsers[i + 1].span_spec() == parsers[i].span_spec().commit_spec(spans[i])
        }
}

proof fn lemma_steps_commit_all<Token>(parsers: Seq<Parser<Token>>, spans: Seq<Span>)
    requires
        parse_steps(parsers, spans),
    ensures
        parsers.last().span_spec() == commit_all(parsers[0].span_spec(), spans),
        parsers.last().source_text() == parsers[0].source_text(),
        forall|i: int|
            0 <= i <= spans.len() ==> #[trigger] parsers[i].span_spec() == commit_all(
                parsers[0].span_spec(),
                spans.take(i),
            ) && parsers[i].source_text() == parsers[0].source_text(),
    decreases spans.len(),
{
    if spans.len() == 0 {
        assert(spans.take(0) =~= spans);
    } else {
        let n = spans.len() - 1;
        let ps = parsers.drop_last();
        let ss = spans.drop_last();
        assert forall|i: int| 0 <= i < ss.len() implies {
            &&& #[trigger] ps[i + 1].source_text() == ps[i].source_text()
            &&& ps[i].span_spec().adjoins(ss[i])
            &&& ss[i].lies_in(ps[i].source_text())
            &&& ps[i + 1].span_spec() == ps[i].span_spec().commit_spec(ss[i])
        } by {
            assert(parsers[i + 1].source_text() == parsers[i].source_text());
        }
        lemma_steps_commit_all(ps, ss);
        assert(parsers[n + 1].source_text() == parsers[n].source_text());
        assert forall|i: int| 0 <= i <= spans.len() implies #[trigger] parsers[i].span_spec()
            == commit_all(parsers[0].span_spec(), spans.take(i)) && parsers[i].source_text()
            == parsers[0].source_text() by {
            if i <= n {
                assert(ss.take(i) =~= spans.take(i));
                assert(ps[i] == parsers[i]);
            } else {
                assert(ss.take(n) =~= ss);
                assert(spans.take(i) =~= spans);
                assert(spans.take(i).drop_last() =~= ss);
                assert(ps[n] == parsers[n]);
            }
        }
        assert(spans.take(spans.len() as int) =~= spans);
    }
}

/// Successive nested parses on one parser, with no scanning in between:
/// each node's span begins where the one before ended (the first where the
/// parser's span ended), and the parser's final span starts where it did and
/// covers its earlier text followed by each node's text, in order, with no
/// gap and no overlap.
pub proof fn lemma_successive_parses<Token>(parsers: Seq<Parser<Token>>, spans: Seq<Span>)
    requires
        parsers[0].wf(),
        parse_steps(parsers, spans),
    ensures
        chained(parsers[0].source_text(), parsers[0].span_spec(), spans),
        parsers.last().span_spec() == commit_all(parsers[0].span_spec(), spans),
        parsers.last().span_spec().start == parsers[0].span_spec().start,
        parsers.last().consumed() == parsers[0].consumed() + texts(parsers[0].source_text(), spans),
{
    let src = parsers[0].source_text();
    lemma_steps_commit_all(parsers, spans);
    assert forall|i: int| 0 <= i < spans.len() implies {
        &&& #[trigger] spans[i].lies_in(src)
        &&& commit_all(parsers[0].span_spec(), spans.take(i)).adjoins(spans[i])
    } by {
        assert(parsers[i + 1].source_text() == parsers[i].source_text());
        assert(parsers[i].span_spec() == commit_all(parsers[0].span_spec(), spans.take(i)));
    }
    parsers[0].lemma_wf_facts();
    lemma_commits_partition(src, parsers[0].span_spec(), spans);
}

/// A grammar rule: a type that can be parsed from a `Parser`.
///
/// `parse` runs on a parser whose span is fresh and starts where the
/// caller's ends; it scans with the parser's primitives and may nest further
/// parses. Whatever it consumed is credited to the caller when it succeeds.
pub trait Parsable: Sized {
    /// The rule's own error.
    type Error;
    /// The tokens of the intern table.
    type Token;
    /// Context handed down through the nested parses.
    type Data;

    /// What the rule does: run on the parser `before`, it may leave the
    /// parser `after` and return `r`. A rule that states nothing of itself
    /// keeps the default, which allows anything.
    open spec fn parsed(
        before: Parser<Self::Token>,
        after: Parser<Self::Token>,
        r: Result<Self, Error<Self::Error>>,
    ) -> bool {
        true
    }

    fn parse(parser: &mut Parser<Self::Token>, data: &mut Self::Data) -> (r: Result<
        Self,
        Error<Self::Error>,
    >)
        requires
            old(parser).wf(),
        ensures
            final(parser).wf(),
            final(parser).continues(*old(parser)),
            Self::parsed(*old(parser), *final(parser), r),
    ;
}

} // verus!
