use parser::error::{Error, ErrorKind, SyntaxError};
use parser::node::space::{Line, Space};
use parser::span::Span;
use parser::string::ReInternalizationError;
use parser::{ExpectError, InternalizeError, Parsable, Parser, ParserString};

#[derive(Debug, Clone, Copy, PartialEq)]
enum Token {
    Hello,
    Plus,
    Minus,
    World,
    Identifier,
}

#[derive(Debug)]
struct Word {
    text: ParserString,
}

impl Parsable for Word {
    type Error = ();
    type Token = Token;
    type Data = ();

    fn parse(parser: &mut Parser<Token>, _: &mut ()) -> Result<Self, Error<()>> {
        let mut text = parser.parse_while(|c| c.is_alphabetic());
        parser.try_internalize(&mut text, |_| Some(Token::Identifier)).unwrap();
        Ok(Word { text })
    }
}

#[derive(Debug)]
struct Operator {
    token: Option<Token>,
    length: usize,
}

impl Parsable for Operator {
    type Error = ();
    type Token = Token;
    type Data = ();

    fn parse(parser: &mut Parser<Token>, _: &mut ()) -> Result<Self, Error<()>> {
        let mut op = parser.parse_while(|c| c == '+' || c == '-');
        let length = op.as_str().chars().count();
        let index = parser
            .try_internalize(&mut op, |s| match s {
                "+" => Some(Token::Plus),
                "-" => Some(Token::Minus),
                _ => None,
            })
            .unwrap();
        let token = index.map(|_| *op.token(parser.strings()).unwrap().get());
        Ok(Operator { token, length })
    }
}

/// Consumes one `h`, then nests itself while the next character is `h`.
#[derive(Debug)]
struct Aitches {
    depth: usize,
}

impl Parsable for Aitches {
    type Error = ();
    type Token = ();
    type Data = usize;

    fn parse(parser: &mut Parser<()>, calls: &mut usize) -> Result<Self, Error<()>> {
        *calls += 1;
        if parser.expect_char('h').is_err() {
            return Err(Error::SyntaxError(SyntaxError { kind: ErrorKind::Unexpected, span: *parser.span() }));
        }
        if parser.peek() == Some('h') {
            let inner = parser.parse::<Aitches>(calls)?;
            Ok(Aitches { depth: inner.value().depth + 1 })
        } else {
            Ok(Aitches { depth: 1 })
        }
    }
}

/// Consumes two characters, then fails.
#[derive(Debug)]
struct Failing;

impl Parsable for Failing {
    type Error = &'static str;
    type Token = ();
    type Data = ();

    fn parse(parser: &mut Parser<()>, _: &mut ()) -> Result<Self, Error<&'static str>> {
        parser.parse_while(|_| true);
        Err(Error::SyntaxError(SyntaxError { kind: ErrorKind::Specific("nope"), span: *parser.span() }))
    }
}

fn sp(start: usize, length: usize, byte_start: usize, byte_length: usize) -> Span {
    Span { start, length, byte_start, byte_length }
}

#[test]
fn scenario_hello_plus_world() {
    let mut parser = Parser::<Token>::new("hello+world");
    parser.internalize("hello", Token::Hello).unwrap();
    parser.internalize("+", Token::Plus).unwrap();
    parser.internalize("world", Token::World).unwrap();

    let node = parser.parse::<Word>(&mut ()).unwrap();
    let word = node.value();
    assert_eq!(word.text.as_str(), "hello");
    assert_eq!(word.text.index(), Some(0));
    assert_eq!(*word.text.token(parser.strings()).unwrap().get(), Token::Hello);
    assert_eq!(node.span().byte_range(), 0..5);
    assert_eq!(parser.span().byte_range(), 0..5);
    assert_eq!(node.slice(), "hello");
    assert_eq!(parser.strings().len(), 3);
}

#[test]
fn scenario_operator() {
    let mut parser = Parser::<Token>::new("+");
    let node = parser.parse::<Operator>(&mut ()).unwrap();
    assert_eq!(node.value().length, 1);
    assert_eq!(node.value().token, Some(Token::Plus));
    assert_eq!(node.slice(), "+");

    let mut parser = Parser::<Token>::new("-");
    let node = parser.parse::<Operator>(&mut ()).unwrap();
    assert_eq!(node.value().token, Some(Token::Minus));
}

#[test]
fn scenario_recursive_rule() {
    let mut parser = Parser::<()>::new("hhhllo");
    let mut calls = 0usize;
    let node = parser.parse::<Aitches>(&mut calls).unwrap();
    assert_eq!(node.slice(), "hhh");
    assert_eq!(*node.span(), sp(0, 3, 0, 3));
    assert_eq!(node.value().depth, 3);
    assert_eq!(calls, 3);
    assert_eq!(*parser.span(), sp(0, 3, 0, 3));
    assert_eq!(parser.peek(), Some('l'));
}

#[test]
fn scenario_expect_char_mismatch() {
    let mut parser = Parser::<()>::new("abc");
    parser.expect_char('a').unwrap();
    let before = *parser.span();
    assert_eq!(parser.expect_char('x'), Err(ExpectError::Unexpected));
    assert_eq!(*parser.span(), before);
    assert_eq!(parser.peek(), Some('b'));
    assert_eq!(parser.expect_char('b'), Ok(()));
    assert_eq!(*parser.span(), sp(0, 2, 0, 2));
}

#[test]
fn expect_char_at_end() {
    let mut parser = Parser::<()>::new("");
    assert_eq!(parser.expect_char('a'), Err(ExpectError::Unexpected));
    assert_eq!(*parser.span(), Span::default());
    assert_eq!(parser.peek(), None);
}

#[test]
fn expect_char_multibyte() {
    let mut parser = Parser::<()>::new("é!");
    assert_eq!(parser.expect_char('é'), Ok(()));
    assert_eq!(*parser.span(), sp(0, 1, 0, 2));
    assert_eq!(parser.expect_char('!'), Ok(()));
    assert_eq!(*parser.span(), sp(0, 2, 0, 3));
}

#[test]
fn parse_while_accumulates() {
    let mut parser = Parser::<()>::new("ab12cd");
    let letters = parser.parse_while(|c| c.is_ascii_alphabetic());
    assert_eq!(letters.as_str(), "ab");
    assert_eq!(letters.index(), None);
    let digits = parser.parse_while(|c| c.is_ascii_digit());
    assert_eq!(digits.as_str(), "12");
    assert_eq!(*parser.span(), sp(0, 4, 0, 4));
    let none = parser.parse_while(|c| c.is_ascii_digit());
    assert_eq!(none.as_str(), "");
    assert_eq!(*parser.span(), sp(0, 4, 0, 4));
    let rest = parser.parse_while(|_| true);
    assert_eq!(rest.as_str(), "cd");
    assert_eq!(parser.peek(), None);
}

#[test]
fn parse_while_multibyte_byte_lengths() {
    let mut parser = Parser::<()>::new("héllo wörld");
    let word = parser.parse_while(|c| c.is_alphabetic());
    assert_eq!(word.as_str(), "héllo");
    assert_eq!(*parser.span(), sp(0, 5, 0, 6));
    parser.expect_char(' ').unwrap();
    let node = parser.parse::<Space>(&mut ());
    assert!(node.is_ok());
    let second = parser.parse_while(|c| c.is_alphabetic());
    assert_eq!(second.as_str(), "wörld");
    assert_eq!(*parser.span(), sp(0, 11, 0, 13));
}

#[test]
fn parse_till_char_stops_before() {
    let mut parser = Parser::<()>::new("key=value");
    let key = parser.parse_till_char('=');
    assert_eq!(key.as_str(), "key");
    assert_eq!(parser.peek(), Some('='));
    parser.expect_char('=').unwrap();
    let value = parser.parse_till_char('=');
    assert_eq!(value.as_str(), "value");
    assert_eq!(parser.peek(), None);
}

#[test]
fn nested_spans_are_contiguous() {
    let mut parser = Parser::<Token>::new("ab+cd");
    let first = parser.parse::<Word>(&mut ()).unwrap();
    let op = parser.parse::<Operator>(&mut ()).unwrap();
    let second = parser.parse::<Word>(&mut ()).unwrap();
    assert_eq!(*first.span(), sp(0, 2, 0, 2));
    assert_eq!(*op.span(), sp(2, 1, 2, 1));
    assert_eq!(*second.span(), sp(3, 2, 3, 2));
    assert_eq!(*parser.span(), sp(0, 5, 0, 5));
    let joined = format!("{}{}{}", first.slice(), op.slice(), second.slice());
    assert_eq!(joined, "ab+cd");
}

#[test]
fn derive_gives_empty_span_at_end() {
    let mut parser = Parser::<()>::new("aé b");
    parser.parse_while(|c| c != ' ');
    assert_eq!(parser.derive(), Ok(sp(2, 0, 3, 0)));
}

#[test]
fn failed_parse_gives_input_back() {
    let mut parser = Parser::<()>::new("xyz");
    parser.expect_char('x').unwrap();
    let r = parser.parse::<Failing>(&mut ());
    match r {
        Err(Error::SyntaxError(e)) => {
            assert_eq!(e.kind, ErrorKind::Specific("nope"));
            assert_eq!(e.span, sp(1, 2, 1, 2));
        }
        _ => panic!("expected a syntax error"),
    }
    assert_eq!(*parser.span(), sp(0, 1, 0, 1));
    assert_eq!(parser.peek(), Some('y'));
}

#[test]
fn failed_nested_rule_propagates() {
    let mut parser = Parser::<()>::new("hx");
    let mut calls = 0usize;
    let node = parser.parse::<Aitches>(&mut calls).unwrap();
    assert_eq!(node.slice(), "h");
    let r = parser.parse::<Aitches>(&mut calls);
    assert!(matches!(r, Err(Error::SyntaxError(SyntaxError { kind: ErrorKind::Unexpected, .. }))));
    assert_eq!(*parser.span(), sp(0, 1, 0, 1));
}

#[test]
fn space_and_line_rules() {
    let mut parser = Parser::<()>::new(" \t\u{3000}x");
    let node = parser.parse::<Space>(&mut ()).unwrap();
    assert_eq!(node.slice(), " \t\u{3000}");
    assert_eq!(*node.value(), Space);
    assert_eq!(*parser.span(), sp(0, 3, 0, 5));

    let mut parser = Parser::<()>::new("  \n  y");
    let line = parser.parse::<Line>(&mut ()).unwrap();
    assert_eq!(line.slice(), "  ");
    assert_eq!(parser.peek(), Some('\n'));
    let space = parser.parse::<Space>(&mut ()).unwrap();
    assert_eq!(space.slice(), "\n  ");
    assert_eq!(parser.peek(), Some('y'));
}

#[test]
fn internalize_twice_fails() {
    let mut parser = Parser::<Token>::new("");
    let hello = parser.internalize("hello", Token::Hello).unwrap();
    assert_eq!(hello.as_str(), "hello");
    assert_eq!(hello.index(), Some(0));
    let world = parser.internalize("world", Token::World).unwrap();
    assert_eq!(world.index(), Some(1));
    assert_eq!(parser.internalize("hello", Token::World).unwrap_err(), InternalizeError::EntryExists);
    assert_eq!(parser.strings().len(), 2);
    assert_eq!(*hello.token(parser.strings()).unwrap().get(), Token::Hello);
}

#[test]
fn interning_is_idempotent() {
    let mut parser = Parser::<Token>::new("abc abc");
    let mut first = parser.parse_while(|c| c != ' ');
    let mut created = 0;
    let i = parser
        .try_internalize(&mut first, |_| {
            created += 1;
            Some(Token::Identifier)
        })
        .unwrap();
    assert_eq!(i, Some(0));
    assert_eq!(created, 1);
    parser.expect_char(' ').unwrap();
    let mut second = parser.parse_while(|c| c != ' ');
    assert_eq!(second.as_str(), "abc");
    let j = parser.try_internalize(&mut second, |_| panic!("the text is interned already")).unwrap();
    assert_eq!(j, Some(0));
    assert_eq!(second.index(), Some(0));
    assert_eq!(parser.strings().len(), 1);
    assert_eq!(*second.token(parser.strings()).unwrap().get(), Token::Identifier);
}

#[test]
fn reinternalization_fails() {
    let mut parser = Parser::<Token>::new("abc");
    let mut s = parser.parse_while(|_| true);
    parser.try_internalize(&mut s, |_| Some(Token::Identifier)).unwrap();
    assert_eq!(parser.try_internalize(&mut s, |_| Some(Token::Hello)), Err(ReInternalizationError));
    assert_eq!(s.index(), Some(0));
    assert_eq!(parser.strings().len(), 1);
}

#[test]
fn declined_classification_leaves_text_open() {
    let mut parser = Parser::<Token>::new("*");
    let mut s = parser.parse_while(|_| true);
    assert_eq!(parser.try_internalize(&mut s, |_| None), Ok(None));
    assert_eq!(s.index(), None);
    assert_eq!(parser.strings().len(), 0);
    assert!(s.token(parser.strings()).is_none());
    assert_eq!(parser.try_internalize(&mut s, |_| Some(Token::Plus)), Ok(Some(0)));
    assert_eq!(*s.token(parser.strings()).unwrap().get(), Token::Plus);
}

#[test]
fn eager_then_lazy() {
    let mut parser = Parser::<Token>::new("world");
    parser.internalize("hello", Token::Hello).unwrap();
    parser.internalize("world", Token::World).unwrap();
    let mut s = parser.parse_while(|_| true);
    assert_eq!(s.token(parser.strings()).unwrap().index(), 1);
    let i = parser.try_internalize(&mut s, |_| panic!("registered eagerly")).unwrap();
    assert_eq!(i, Some(1));
    assert_eq!(*s.token(parser.strings()).unwrap().get(), Token::World);
}

#[test]
fn lazy_then_eager() {
    let mut parser = Parser::<Token>::new("plus");
    let mut s = parser.parse_while(|_| true);
    assert_eq!(parser.try_internalize(&mut s, |_| Some(Token::Identifier)), Ok(Some(0)));
    assert_eq!(parser.internalize("plus", Token::Plus).unwrap_err(), InternalizeError::EntryExists);
    assert_eq!(*s.token(parser.strings()).unwrap().get(), Token::Identifier);
    let other = parser.internalize("plu", Token::Plus).unwrap();
    assert_eq!(other.index(), Some(1));
}

#[test]
fn token_of_unknown_index_is_none() {
    let mut parser = Parser::<Token>::new("");
    let s = parser.internalize("a", Token::Hello).unwrap();
    let empty = Parser::<Token>::new("");
    assert!(s.token(empty.strings()).is_none());
    assert!(s.token(parser.strings()).is_some());
}

#[test]
fn node_into_value() {
    let mut parser = Parser::<Token>::new("abc");
    let node = parser.parse::<Word>(&mut ()).unwrap();
    let word = node.into_value();
    assert_eq!(word.text.as_str(), "abc");
}

/// Registers its text lazily, then fails.
struct RegisterThenFail;

impl Parsable for RegisterThenFail {
    type Error = ();
    type Token = Token;
    type Data = ();

    fn parse(parser: &mut Parser<Token>, _: &mut ()) -> Result<Self, Error<()>> {
        let mut s = parser.parse_while(|c| c.is_alphabetic());
        parser.try_internalize(&mut s, |_| Some(Token::Identifier)).unwrap();
        Err(Error::new_syntax_temp())
    }
}

#[test]
fn cloning_parse_restores_table_on_failure() {
    let mut parser = Parser::<Token>::new("abc");
    parser.internalize("x", Token::Hello).unwrap();
    assert!(parser.cloning_parse::<RegisterThenFail>(&mut ()).is_err());
    assert_eq!(parser.strings().len(), 1);
    assert_eq!(*parser.span(), Span::default());

    assert!(parser.parse::<RegisterThenFail>(&mut ()).is_err());
    assert_eq!(parser.strings().len(), 2);

    let node = parser.cloning_parse::<Word>(&mut ()).unwrap();
    assert_eq!(node.slice(), "abc");
    assert_eq!(*parser.span(), sp(0, 3, 0, 3));
}

#[test]
fn snapshot_copies_table() {
    let mut parser = Parser::<Token>::new("");
    parser.internalize("a", Token::Hello).unwrap();
    parser.internalize("b", Token::World).unwrap();
    let copy = parser.strings().snapshot();
    assert_eq!(copy.len(), 2);
    assert_eq!(copy.lookup("b"), Some(1));
    assert_eq!(*copy.token_at(0), Token::Hello);
    assert_eq!(copy.lookup("c"), None);
}

#[test]
fn derefs() {
    let mut parser = Parser::<Token>::new("hey");
    let mut node = parser.parse::<Word>(&mut ()).unwrap();
    assert_eq!(&*node.text, "hey");
    let as_ref: &str = node.text.as_ref();
    assert_eq!(as_ref, "hey");
    let guard = node.text.token(parser.strings()).unwrap();
    assert_eq!(*guard, Token::Identifier);
    assert_eq!(guard.index(), 0);
    node.text = parser.parse_while(|_| true);
    assert_eq!(node.value().text.as_str(), "");
}

#[test]
fn table_insert_and_lookup() {
    let mut table = parser::string::Strings::<u32>::new();
    assert_eq!(table.len(), 0);
    assert_eq!(table.insert_new("one", 1), Some(0));
    assert_eq!(table.insert_new("two", 2), Some(1));
    assert_eq!(table.insert_new("one", 3), None);
    assert_eq!(table.len(), 2);
    assert_eq!(table.lookup("two"), Some(1));
    assert_eq!(table.lookup("one"), Some(0));
    assert_eq!(table.lookup("three"), None);
    assert_eq!(*table.token_at(0), 1);
    assert_eq!(*table.token_at(1), 2);
}

#[test]
fn snapshot_and_restore() {
    let mut parser = Parser::<()>::new("abcd");
    parser.expect_char('a').unwrap();
    let saved = parser.snapshot();
    assert_eq!(saved.span(), sp(0, 1, 0, 1));
    parser.parse_while(|c| c != 'd');
    assert_eq!(*parser.span(), sp(0, 3, 0, 3));
    parser.restore(saved);
    assert_eq!(*parser.span(), sp(0, 1, 0, 1));
    assert_eq!(parser.peek(), Some('b'));
}

#[test]
fn space_nodes_around_accented_letter() {
    let mut p = Parser::<()>::new(" é ");
    let n1 = p.parse::<Space>(&mut ()).unwrap();
    assert_eq!(*n1.span(), sp(0, 1, 0, 1));
    assert_eq!(p.expect_char('é'), Ok(()));
    let n2 = p.parse::<Space>(&mut ()).unwrap();
    assert_eq!(*n2.span(), sp(2, 1, 3, 1));
    assert_eq!(n2.slice(), " ");
    assert_eq!(*p.span(), sp(0, 3, 0, 4));
}

#[test]
fn space_rule_matches_std_white_space() {
    for c in ['\t', '\n', '\u{b}', '\u{c}', '\r', ' ', '\u{85}', '\u{a0}', '\u{1680}', '\u{2000}', '\u{200a}', '\u{2028}', '\u{2029}', '\u{202f}', '\u{205f}', '\u{3000}', 'a', '\u{8}', '\u{e}', '\u{200b}', '\u{180e}', '\u{feff}'] {
        let text = c.to_string();
        let mut p = Parser::<()>::new(&text);
        let node = p.parse::<Space>(&mut ()).unwrap();
        assert_eq!(node.slice().is_empty(), !c.is_whitespace());
    }
}
