use crate::source::{SourceText, text_as_str, text_chars};
use indexmap::IndexSet;
use vstd::prelude::*;
use vstd::std_specs::vec::axiom_spec_len;

verus! {

/// `indexmap`'s insertion-ordered set, which holds the intern table's texts.
#[verifier::external_type_specification]
#[verifier::external_body]
#[verifier::reject_recursive_types(T)]
#[verifier::reject_recursive_types(S)]
pub struct ExIndexSet<T, S>(IndexSet<T, S>);

/// The texts that a set of strings holds, in insertion order.
pub uninterp spec fn key_texts(s: IndexSet<std::string::String>) -> Seq<Seq<char>>;

/// Relies on `IndexSet::new`: a new set is empty.
#[verifier::external_body]
fn key_set_new() -> (r: IndexSet<std::string::String>)
    ensures
        key_texts(r) == Seq::<Seq<char>>::empty(),
{
    IndexSet::new()
}

/// Relies on `IndexSet::get_index_of`: the insertion index of the item equal
/// to `text`, if the set holds one.
#[verifier::external_body]
fn key_index_of(s: &IndexSet<std::string::String>, text: &str) -> (r: Option<usize>)
    ensures
        r matches Some(i) ==> (i < key_texts(*s).len() && key_texts(*s)[i as int] == text@),
        r is None ==> !key_texts(*s).contains(text@),
{
    s.get_index_of(text)
}

/// Relies on `IndexSet::insert_full`: an item already present keeps its
/// place and the set is unchanged; a new item goes at the end.
#[verifier::external_body]
fn key_insert(s: &mut IndexSet<std::string::String>, text: std::string::String) -> (r: (usize, bool))
    ensures
        key_texts(*old(s)).contains(text@) ==> {
            &&& key_texts(*final(s)) == key_texts(*old(s))
            &&& !r.1
            &&& r.0 < key_texts(*old(s)).len()
            &&& key_texts(*old(s))[r.0 as int] == text@
        },
        !key_texts(*old(s)).contains(text@) ==> {
            &&& key_texts(*final(s)) == key_texts(*old(s)).push(text@)
            &&& r.1
            &&& r.0 == key_texts(*old(s)).len()
        },
{
    s.insert_full(text)
}

/// Relies on `IndexSet`'s `Clone`: the copy holds the same items in the same
/// order.
#[verifier::external_body]
fn key_set_clone(s: &IndexSet<std::string::String>) -> (r: IndexSet<std::string::String>)
    ensures
        key_texts(r) == key_texts(*s),
{
    s.clone()
}

/// The index at which `keys` holds `text`, if it does.
pub open spec fn index_of(keys: Seq<Seq<char>>, text: Seq<char>) -> Option<int> {
    if keys.contains(text) {
        Some(choose|i: int| 0 <= i < keys.len() && keys[i] == text)
    } else {
        None
    }
}

/// In a sequence without repeats, the place of a text is the one index that holds it.
pub proof fn lemma_index_of_unique(keys: Seq<Seq<char>>, text: Seq<char>, i: int)
    requires
        keys.no_duplicates(),
        0 <= i < keys.len(),
        keys[i] == text,
    ensures
        index_of(keys, text) == Some(i),
{
    assert(keys.contains(text));
    let j = choose|j: int| 0 <= j < keys.len() && keys[j] == text;
    assert(keys[j] == keys[i]);
}

/// The intern table: an insertion-ordered map from text to token. Each text
/// is held once; an entry's index and token never change once it is in.
#[derive(Debug)]
pub struct Strings<Token> {
    keys: IndexSet<std::string::String>,
    tokens: Vec<Token>,
}

impl<Token> Strings<Token> {
    /// The texts in the table, in insertion order.
    pub closed spec fn keys(&self) -> Seq<Seq<char>> {
        key_texts(self.keys)
    }

    /// The tokens in the table; the one at index `i` belongs to `keys()[i]`.
    pub closed spec fn tokens(&self) -> Seq<Token> {
        self.tokens@
    }

    /// A text is held once, and each text has its token.
    pub open spec fn wf(&self) -> bool {
        &&& self.keys().len() == self.tokens().len()
        &&& self.keys().len() <= usize::MAX
        &&& self.keys().no_duplicates()
    }

    /// An empty table.
    pub fn new() -> (r: Strings<Token>)
        ensures
            r.wf(),
            r.keys() == Seq::<Seq<char>>::empty(),
            r.tokens() == Seq::<Token>::empty(),
    {
        Strings { keys: key_set_new(), tokens: Vec::new() }
    }

    /// Number of entries.
    pub fn len(&self) -> (r: usize)
        requires
            self.wf(),
        ensures
            r == self.keys().len(),
    {
        self.tokens.len()
    }

    /// The index of `text`, if the table holds it.
    pub fn lookup(&self, text: &str) -> (r: Option<usize>)
        requires
            self.wf(),
        ensures
            r matches Some(i) ==> (index_of(self.keys(), text@) == Some(i as int)),
            r is None ==> index_of(self.keys(), text@) is None,
    {
        let r = key_index_of(&self.keys, text);
        if let Some(i) = r {
            proof {
                lemma_index_of_unique(self.keys(), text@, i as int);
            }
        }
        r
    }

    /// Add `text` with `token` unless the table already holds `text`; gives
    /// the index of the new entry, or `None` with the table unchanged.
    pub fn insert_new(&mut self, text: &str, token: Token) -> (r: Option<usize>)
        requires
            old(self).wf(),
        ensures
            final(self).wf(),
            index_of(old(self).keys(), text@) is Some ==> r is None && *final(self) == *old(self),
            index_of(old(self).keys(), text@) is None ==> {
                &&& r is Some && r->0 == old(self).keys().len()
                &&& final(self).keys() == old(self).keys().push(text@)
                &&& final(self).tokens() == old(self).tokens().push(token)
            },
    {
        let found = key_index_of(&self.keys, text);
        if found.is_some() {
            return None;
        }
        let ghost old_keys = self.keys();
        let ghost t = text@;
        let (i, _) = key_insert(&mut self.keys, text.to_owned());
        self.tokens.push(token);
        proof {
            axiom_spec_len(&self.tokens);
            assert forall|a: int, b: int|
                0 <= a < b < self.keys().len() implies self.keys()[a] != self.keys()[b] by {
                if b == old_keys.len() {
                    assert(old_keys[a] == self.keys()[a]);
                    assert(!old_keys.contains(t));
                }
            }
        }
        Some(i)
    }

    /// The token at `index`.
    pub fn token_at(&self, index: usize) -> (r: &Token)
        requires
            self.wf(),
            index < self.keys().len(),
        ensures
            *r == self.tokens()[index as int],
    {
        &self.tokens[index]
    }
}

impl<Token: Clone> Strings<Token> {
    /// A copy of the table: the same texts at the same indices, each token
    /// cloned.
    pub fn snapshot(&self) -> (r: Strings<Token>)
        requires
            self.wf(),
        ensures
            r.wf(),
            r.keys() == self.keys(),
            r.tokens().len() == self.tokens().len(),
            forall|i: int| 0 <= i < self.tokens().len() ==> cloned(self.tokens()[i], r.tokens()[i]),
    {
        Strings { keys: key_set_clone(&self.keys), tokens: self.tokens.clone() }
    }
}

impl<'a, Token> std::ops::Deref for TokenGuard<'a, Token> {
    type Target = Token;

    fn deref(&self) -> &Token {
        self.token
    }
}

impl std::ops::Deref for String {
    type Target = str;

    fn deref(&self) -> &str {
        text_as_str(&self.slice)
    }
}

impl AsRef<str> for String {
    fn as_ref(&self) -> &str {
        text_as_str(&self.slice)
    }
}

/// What classifying `before` through `table` with `on_create` may give:
/// the result `r`, the string `after` and the table `new_table`.
///
/// A string classified already fails and nothing changes. A text the table
/// holds takes its index, and nothing else changes. Otherwise `on_create`
/// was called on the text: a token it gave was added at the next index, and
/// `None` left everything as it was.
pub open spec fn interned<Token, F: FnOnce(&str) -> Option<Token>>(
    before: String,
    table: Strings<Token>,
    on_create: F,
    r: Result<Option<usize>, ReInternalizationError>,
    after: String,
    new_table: Strings<Token>,
) -> bool {
    let text = before.text();
    &&& after.text() == text
    &&& before.index_spec() is Some ==> r is Err && after == before && new_table == table
    &&& before.index_spec() is None ==> r is Ok
    &&& before.index_spec() is None && index_of(table.keys(), text) is Some ==> {
        let i = index_of(table.keys(), text)->0;
        &&& r == Ok::<Option<usize>, ReInternalizationError>(Some(i as usize))
        &&& after.index_spec() == Some(i as usize)
        &&& new_table == table
    }
    &&& before.index_spec() is None && index_of(table.keys(), text) is None ==> match r {
        Ok(Some(i)) => {
            &&& i == table.keys().len()
            &&& after.index_spec() == Some(i)
            &&& new_table.keys() == table.keys().push(text)
            &&& new_table.tokens().len() == table.tokens().len() + 1
            &&& new_table.tokens().drop_last() == table.tokens()
            &&& exists|s: &str| s@ == text && on_create.ensures((s,), Some(new_table.tokens().last()))
        },
        Ok(None) => {
            &&& after == before
            &&& new_table == table
            &&& exists|s: &str| s@ == text && on_create.ensures((s,), None)
        },
        Err(_) => false,
    }
}

/// A text that was scanned from the source and may be classified into a
/// token of the intern table.
#[derive(Debug)]
pub struct String {
    slice: SourceText,
    index: Option<usize>,
}

/// The text was classified already.
#[derive(Debug, Clone, Copy, PartialEq, Eq, Structural)]
pub struct ReInternalizationError;

/// Read access to a token of the intern table, for as long as the table is
/// borrowed.
#[derive(Debug)]
pub struct TokenGuard<'a, Token> {
    token: &'a Token,
    index: usize,
}

impl<'a, Token> TokenGuard<'a, Token> {
    /// The token read.
    pub closed spec fn token_spec(&self) -> Token {
        *self.token
    }

    /// The table index of the token.
    pub closed spec fn index_spec(&self) -> usize {
        self.index
    }

    /// The token read.
    pub fn get(&self) -> (r: &'a Token)
        ensures
            *r == self.token_spec(),
    {
        self.token
    }

    /// The table index of the token.
    pub fn index(&self) -> (r: usize)
        ensures
            r == self.index_spec(),
    {
        self.index
    }
}

impl String {
    /// The scanned text.
    pub closed spec fn text(&self) -> Seq<char> {
        text_chars(self.slice)
    }

    /// The table index fixed for this text, once it is classified.
    pub closed spec fn index_spec(&self) -> Option<usize> {
        self.index
    }

    pub(crate) fn from_parts(slice: SourceText, index: Option<usize>) -> (r: String)
        ensures
            r.text() == text_chars(slice),
            r.index_spec() == index,
    {
        String { slice, index }
    }

    /// The scanned text.
    pub fn as_str(&self) -> (r: &str)
        ensures
            r@ == self.text(),
    {
        text_as_str(&self.slice)
    }

    /// The table index fixed for this text, if it is classified.
    pub fn index(&self) -> (r: Option<usize>)
        ensures
            r == self.index_spec(),
    {
        self.index
    }

    /// Classify the text through the intern table.
    ///
    /// If the table holds the text, its index is taken and `on_create` is not
    /// called. Otherwise `on_create` decides: a token is added to the table
    /// under the text, at the next index; `None` leaves the table and this
    /// string as they were, so that a later attempt may decide otherwise.
    /// Fails if the text was classified already.
    pub fn try_internalize<Token, F: FnOnce(&str) -> Option<Token>>(
        &mut self,
        strings: &mut Strings<Token>,
        on_create: F,
    ) -> (r: Result<Option<usize>, ReInternalizationError>)
        requires
            old(strings).wf(),
            forall|s: &str| s@ == old(self).text() ==> on_create.requires((s,)),
        ensures
            final(strings).wf(),
            interned(*old(self), *old(strings), on_create, r, *final(self), *final(strings)),
    {
        if self.index.is_some() {
            return Err(ReInternalizationError);
        }
        let text = text_as_str(&self.slice);
        let index = match strings.lookup(text) {
            Some(i) => i,
            None => {
                let created = on_create(text);
                match created {
                    None => {
                        assert(on_create.ensures((text,), None::<Token>));
                        return Ok(None);
                    },
                    Some(token) => {
                        assert(on_create.ensures((text,), Some(token)));
                        let i = strings.insert_new(text, token);
                        match i {
                            Some(i) => {
                                assert(strings.tokens().drop_last() =~= old(strings).tokens());
                                assert(strings.tokens().last() == token);
                                i
                            },
                            None => {
                                return Ok(None);
                            },
                        }
                    },
                }
            },
        };
        self.index = Some(index);
        Ok(Some(index))
    }

    /// Read the token of this text: the one at the fixed index, or for a text
    /// not yet classified, the one the table holds under the text. `None`
    /// where there is none.
    pub fn token<'a, Token>(&self, strings: &'a Strings<Token>) -> (r: Option<TokenGuard<'a, Token>>)
        requires
            strings.wf(),
        ensures
            ({
                let i = match self.index_spec() {
                    Some(i) => Some(i as int),
                    None => index_of(strings.keys(), self.text()),
                };
                match r {
                    Some(g) => i == Some(g.index_spec() as int) && g.index_spec()
                        < strings.keys().len() && g.token_spec() == strings.tokens()[g.index_spec()
                        as int],
                    None => i is None || i->0 >= strings.keys().len(),
                }
            }),
    {
        let index = match self.index {
            Some(i) => i,
            None => match strings.lookup(text_as_str(&self.slice)) {
                Some(i) => i,
                None => {
                    return None;
                },
            },
        };
        if index >= strings.len() {
            return None;
        }
        Some(TokenGuard { token: strings.token_at(index), index })
    }
}

} // verus!

verus! {

/// Classifying a text a second time, after a first classification gave it
/// an index, takes that same index whatever the second callback is: the
/// callback is not consulted and the table is left as it was.
pub proof fn lemma_intern_idempotent<Token, F1: FnOnce(&str) -> Option<Token>, F2: FnOnce(&str) -> Option<Token>>(
    first: String,
    table: Strings<Token>,
    on_create_first: F1,
    r1: Result<Option<usize>, ReInternalizationError>,
    first_after: String,
    table1: Strings<Token>,
    second: String,
    on_create_second: F2,
    r2: Result<Option<usize>, ReInternalizationError>,
    second_after: String,
    table2: Strings<Token>,
)
    requires
        table.wf(),
        table1.wf(),
        first.index_spec() is None,
        interned(first, table, on_create_first, r1, first_after, table1),
        r1 matches Ok(Some(_)),
        second.text() == first.text(),
        second.index_spec() is None,
        interned(second, table1, on_create_second, r2, second_after, table2),
    ensures
        r2 == r1,
        table2 == table1,
        second_after.index_spec() == first_after.index_spec(),
{
    let text = first.text();
    let i = r1->Ok_0->0;
    if index_of(table.keys(), text) is None {
        assert(table1.keys()[i as int] == text);
    } else {
        let j = index_of(table.keys(), text)->0;
        assert(table.keys().contains(text));
        assert(table.keys()[j] == text);
    }
    lemma_index_of_unique(table1.keys(), text, i as int);
}

/// A text registered eagerly is found by a later lazy classification, which
/// takes its index and adds nothing.
pub proof fn lemma_eager_then_lazy<Token, F: FnOnce(&str) -> Option<Token>>(
    table: Strings<Token>,
    text: Seq<char>,
    token: Token,
    table1: Strings<Token>,
    s: String,
    on_create: F,
    r: Result<Option<usize>, ReInternalizationError>,
    s_after: String,
    table2: Strings<Token>,
)
    requires
        table.wf(),
        index_of(table.keys(), text) is None,
        table1.keys() == table.keys().push(text),
        table1.tokens() == table.tokens().push(token),
        s.text() == text,
        s.index_spec() is None,
        interned(s, table1, on_create, r, s_after, table2),
    ensures
        r == Ok::<Option<usize>, ReInternalizationError>(Some(table.keys().len() as usize)),
        table2 == table1,
        table2.tokens()[table.keys().len() as int] == token,
{
    assert forall|a: int, b: int| 0 <= a < b < table1.keys().len() implies table1.keys()[a]
        != table1.keys()[b] by {
        if b == table.keys().len() {
            assert(table.keys()[a] == table1.keys()[a]);
        }
    }
    lemma_index_of_unique(table1.keys(), text, table.keys().len() as int);
}

/// A text classified lazily is in the table afterwards, at the index the
/// classification gave, so a later eager registration of it fails.
pub proof fn lemma_lazy_then_eager<Token, F: FnOnce(&str) -> Option<Token>>(
    s: String,
    table: Strings<Token>,
    on_create: F,
    r: Result<Option<usize>, ReInternalizationError>,
    s_after: String,
    table1: Strings<Token>,
)
    requires
        table.wf(),
        table1.wf(),
        s.index_spec() is None,
        interned(s, table, on_create, r, s_after, table1),
        r matches Ok(Some(_)),
    ensures
        index_of(table1.keys(), s.text()) == Some(r->Ok_0->0 as int),
{
    let text = s.text();
    let i = r->Ok_0->0;
    if index_of(table.keys(), text) is None {
        assert(table1.keys()[i as int] == text);
    } else {
        let j = index_of(table.keys(), text)->0;
        assert(table.keys().contains(text));
        assert(table.keys()[j] == text);
    }
    lemma_index_of_unique(table1.keys(), text, i as int);
}

} // verus!
