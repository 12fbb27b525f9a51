//! The value tree, the error taxonomy, the input cursor, and the character
//! helpers that the sub-parsers share, together with their mathematical views.

use vstd::prelude::*;
use vstd::string::StrSliceExecFns;

verus! {

/// A parsed JSON document: a tagged tree of values.
///
/// `Number` carries the digit text exactly as it appeared in the input;
/// `String` carries fully decoded text (escapes already resolved).
#[derive(Debug, PartialEq, Eq)]
pub enum Json {
    Null,
    Bool(bool),
    Number(String),
    String(String),
    Array(Vec<Json>),
    Object(Jmap),
}

/// A string-keyed map of JSON values with unique keys, backed by a vector of
/// entries. Inserting an existing key replaces its value, so the number of
/// entries always equals the number of distinct keys.
#[derive(Debug, PartialEq, Eq)]
pub struct Jmap {
    entries: Vec<(String, Json)>,
}

/// The mathematical shape of a [`Json`] value: sequences for strings and
/// arrays, a map for objects.
pub enum JsonView {
    Null,
    Bool(bool),
    Number(Seq<char>),
    String(Seq<char>),
    Array(Seq<JsonView>),
    Object(Map<Seq<char>, JsonView>),
}

impl View for Json {
    type V = JsonView;

    open spec fn view(&self) -> JsonView
        decreases self,
    {
        match self {
            Json::Null => JsonView::Null,
            Json::Bool(b) => JsonView::Bool(*b),
            Json::Number(n) => JsonView::Number(n@),
            Json::String(s) => JsonView::String(s@),
            Json::Array(v) => JsonView::Array(seq_view(v@)),
            Json::Object(m) => JsonView::Object(m@),
        }
    }
}

/// The views of a sequence of values, element by element.
pub open spec fn seq_view(v: Seq<Json>) -> Seq<JsonView>
    decreases v,
{
    Seq::new(v.len(), |i: int| if 0 <= i < v.len() { v[i]@ } else { JsonView::Null })
}

impl View for Jmap {
    type V = Map<Seq<char>, JsonView>;

    closed spec fn view(&self) -> Map<Seq<char>, JsonView>
        decreases self,
    {
        map_of_entries(self.entries@)
    }
}

/// The map denoted by a sequence of key/value entries, later entries
/// overriding earlier ones on equal keys.
pub open spec fn map_of_entries(es: Seq<(String, Json)>) -> Map<Seq<char>, JsonView>
    decreases es,
{
    if es.len() == 0 {
        Map::empty()
    } else {
        map_of_entries(es.drop_last()).insert(es.last().0@, es.last().1@)
    }
}

impl Jmap {
    /// The entries as a sequence of key/value pairs, in insertion order.
    pub closed spec fn spec_entries(&self) -> Seq<(String, Json)> {
        self.entries@
    }

    /// Keys are pairwise distinct; every constructor and method keeps this.
    pub closed spec fn wf(&self) -> bool {
        forall|i: int, j: int|
            0 <= i < j < self.entries@.len() ==> self.entries@[i].0@ != self.entries@[j].0@
    }

    /// An empty map.
    pub fn new() -> (r: Jmap)
        ensures
            r.wf(),
            r@ == Map::<Seq<char>, JsonView>::empty(),
            r.spec_entries().len() == 0,
    {
        Jmap { entries: Vec::new() }
    }

    /// Binds `key` to `value`, replacing any earlier binding of the same key:
    /// either the entry that held the key is updated in place, or a new entry
    /// is appended.
    pub fn insert(&mut self, key: String, value: Json)
        requires
            old(self).wf(),
        ensures
            final(self).wf(),
            final(self)@ == old(self)@.insert(key@, value@),
            (exists|k: int|
                0 <= k < old(self).spec_entries().len() && (#[trigger] old(self).spec_entries()[k]).0@
                    == key@ && final(self).spec_entries() == old(self).spec_entries().update(
                    k,
                    (key, value),
                )) || final(self).spec_entries() == old(self).spec_entries().push((key, value)),
    {
        let n = self.entries.len();
        let mut i: usize = 0;
        while i < n
            invariant
                n == self.entries@.len(),
                i <= n,
                self.wf(),
                *self == *old(self),
                forall|k: int| 0 <= k < i ==> self.entries@[k].0@ != key@,
            decreases n - i,
        {
            if string_eq(&self.entries[i].0, &key) {
                self.entries[i] = (key, value);
                proof {
                    lemma_map_of_entries_update(old(self).entries@, i as int, key, value);
                    assert(old(self).spec_entries()[i as int].0@ == key@);
                    assert(self.spec_entries() == old(self).spec_entries().update(
                        i as int,
                        (key, value),
                    ));
                }
                return;
            }
            i += 1;
        }
        self.entries.push((key, value));
        proof {
            assert(self.entries@.drop_last() =~= old(self).entries@);
        }
    }

    /// The value bound to `key`, if any.
    pub fn get(&self, key: &String) -> (r: Option<&Json>)
        requires
            self.wf(),
        ensures
            r is Some <==> self@.contains_key(key@),
            r matches Some(j) ==> self@.contains_key(key@) && j@ == self@[key@],
    {
        let n = self.entries.len();
        let mut i: usize = 0;
        while i < n
            invariant
                n == self.entries@.len(),
                i <= n,
                self.wf(),
                forall|k: int| 0 <= k < i ==> self.entries@[k].0@ != key@,
            decreases n - i,
        {
            if string_eq(&self.entries[i].0, key) {
                proof {
                    lemma_map_of_entries_found(self.entries@, i as int);
                }
                return Some(&self.entries[i].1);
            }
            i += 1;
        }
        proof {
            lemma_map_of_entries_absent(self.entries@, key@);
        }
        None
    }

    /// How many keys the map holds.
    pub fn len(&self) -> (r: usize)
        requires
            self.wf(),
        ensures
            r == self@.dom().len(),
    {
        proof {
            lemma_map_of_entries_len(self.entries@);
        }
        self.entries.len()
    }

    /// The entries as a vector of key/value pairs, in insertion order.
    pub fn entries(&self) -> (r: &Vec<(String, Json)>)
        ensures
            r@ == self.spec_entries(),
            self@ == map_of_entries(r@),
    {
        &self.entries
    }
}

proof fn lemma_map_of_entries_update(es: Seq<(String, Json)>, i: int, key: String, value: Json)
    requires
        0 <= i < es.len(),
        es[i].0@ == key@,
        forall|p: int, q: int| 0 <= p < q < es.len() ==> es[p].0@ != es[q].0@,
    ensures
        map_of_entries(es.update(i, (key, value))) == map_of_entries(es).insert(key@, value@),
    decreases es.len(),
{
    let es2 = es.update(i, (key, value));
    assert(map_of_entries(es2) == map_of_entries(es2.drop_last()).insert(
        es2.last().0@,
        es2.last().1@,
    ));
    assert(map_of_entries(es) == map_of_entries(es.drop_last()).insert(
        es.last().0@,
        es.last().1@,
    ));
    if i == es.len() - 1 {
        assert(es2.last() == (key, value));
        assert(es2.drop_last() =~= es.drop_last());
        assert(map_of_entries(es2) =~= map_of_entries(es).insert(key@, value@));
    } else {
        lemma_map_of_entries_update(es.drop_last(), i, key, value);
        assert(es2.drop_last() =~= es.drop_last().update(i, (key, value)));
        assert(es2.last() == es.last());
        assert(es.last().0@ != es[i].0@);
        assert(map_of_entries(es2) =~= map_of_entries(es).insert(key@, value@));
    }
}

proof fn lemma_map_of_entries_found(es: Seq<(String, Json)>, i: int)
    requires
        0 <= i < es.len(),
        forall|p: int, q: int| 0 <= p < q < es.len() ==> es[p].0@ != es[q].0@,
    ensures
        map_of_entries(es).contains_key(es[i].0@),
        map_of_entries(es)[es[i].0@] == es[i].1@,
    decreases es.len(),
{
    assert(map_of_entries(es) == map_of_entries(es.drop_last()).insert(
        es.last().0@,
        es.last().1@,
    ));
    if i < es.len() - 1 {
        lemma_map_of_entries_found(es.drop_last(), i);
        assert(es.last().0@ != es[i].0@);
    }
}

proof fn lemma_map_of_entries_absent(es: Seq<(String, Json)>, key: Seq<char>)
    requires
        forall|k: int| 0 <= k < es.len() ==> es[k].0@ != key,
    ensures
        !map_of_entries(es).contains_key(key),
    decreases es.len(),
{
    if es.len() > 0 {
        lemma_map_of_entries_absent(es.drop_last(), key);
        assert(es[es.len() - 1].0@ != key);
        assert(map_of_entries(es) == map_of_entries(es.drop_last()).insert(
            es.last().0@,
            es.last().1@,
        ));
    } else {
        assert(map_of_entries(es) == Map::<Seq<char>, JsonView>::empty());
    }
}

proof fn lemma_map_of_entries_len(es: Seq<(String, Json)>)
    requires
        forall|p: int, q: int| 0 <= p < q < es.len() ==> es[p].0@ != es[q].0@,
    ensures
        map_of_entries(es).dom().finite(),
        map_of_entries(es).dom().len() == es.len(),
    decreases es.len(),
{
    if es.len() > 0 {
        lemma_map_of_entries_len(es.drop_last());
        lemma_map_of_entries_absent(es.drop_last(), es.last().0@);
        assert(map_of_entries(es) == map_of_entries(es.drop_last()).insert(
            es.last().0@,
            es.last().1@,
        ));
        assert(map_of_entries(es).dom() =~= map_of_entries(es.drop_last()).dom().insert(
            es.last().0@,
        ));
    } else {
        assert(map_of_entries(es) == Map::<Seq<char>, JsonView>::empty());
        assert(map_of_entries(es).dom() =~= Set::<Seq<char>>::empty());
    }
}

/// What a map denotes is exactly what its entry sequence denotes.
pub proof fn lemma_jmap_view_entries(m: Jmap)
    ensures
        m@ == map_of_entries(m.spec_entries()),
{
}

/// A map stands above its entry sequence in the termination order.
pub proof fn lemma_jmap_entries_decreases(m: Jmap)
    ensures
        decreases_to!(m => m.spec_entries()),
{
    assert(decreases_to!(m => m.entries));
    assert(decreases_to!(m.entries => m.entries@));
    assert(decreases_to!(m => m.entries@));
}

/// A map stands above its entry sequence in the termination order, and each
/// entry's value below that: recursion through an object's entries is sound.
pub proof fn lemma_jmap_entry_decreases(m: Jmap, i: int)
    requires
        0 <= i < m.spec_entries().len(),
    ensures
        decreases_to!(m => m.spec_entries()),
        decreases_to!(m => m.spec_entries()[i].1),
{
    assert(decreases_to!(m => m.entries));
    assert(decreases_to!(m.entries => m.entries@));
    assert(decreases_to!(m => m.entries@));
    assert(decreases_to!(m.entries@ => m.entries@[i]));
    assert(decreases_to!(m.entries@[i] => m.entries@[i].1));
    assert(decreases_to!(m => m.entries@[i].1));
}

/// Every element of the sequence is a well-formed value.
pub open spec fn json_seq_wf(v: Seq<Json>) -> bool
    decreases v,
{
    forall|i: int| 0 <= i < v.len() ==> json_wf(#[trigger] v[i])
}

/// Every value bound in the map is itself well-formed.
pub open spec fn jmap_values_wf(m: Jmap) -> bool
    decreases m,
    via jmap_values_wf_decreases
{
    forall|i: int|
        0 <= i < m.spec_entries().len() ==> json_wf(#[trigger] m.spec_entries()[i].1)
}

#[via_fn]
proof fn jmap_values_wf_decreases(m: Jmap) {
    assert forall|i: int| 0 <= i < m.spec_entries().len() implies decreases_to!(
        m => m.spec_entries()[i].1) by {
        lemma_jmap_entry_decreases(m, i);
    }
}

/// Every object inside the value has pairwise-distinct keys, so its lookups
/// are usable: the well-formedness that every parsed value enjoys.
pub open spec fn json_wf(j: Json) -> bool
    decreases j,
{
    match j {
        Json::Null => true,
        Json::Bool(_) => true,
        Json::Number(_) => true,
        Json::String(_) => true,
        Json::Array(v) => json_seq_wf(v@),
        Json::Object(m) => m.wf() && jmap_values_wf(m),
    }
}

/// A value whose view is a leaf is well-formed outright.
pub proof fn lemma_leaf_json_wf(j: Json)
    requires
        !(j@ is Array),
        !(j@ is Object),
    ensures
        json_wf(j),
{
    match j {
        Json::Array(v) => {
            assert(j@ is Array);
        },
        Json::Object(m) => {
            assert(j@ is Object);
        },
        _ => {},
    }
}

impl Json {
    /// A copy denoting the same value.
    #[verifier::loop_isolation(false)]
    pub fn deep_clone(&self) -> (r: Json)
        ensures
            r@ == self@,
        decreases self,
    {
        match self {
            Json::Null => Json::Null,
            Json::Bool(b) => Json::Bool(*b),
            Json::Number(n) => Json::Number(n.clone()),
            Json::String(str) => Json::String(str.clone()),
            Json::Array(v) => {
                let mut nv: Vec<Json> = Vec::new();
                let n = v.len();
                let mut i: usize = 0;
                while i < n
                    invariant
                        n == v@.len(),
                        i <= n,
                        nv@.len() == i,
                        forall|k: int| 0 <= k < i ==> (#[trigger] nv@[k])@ == v@[k]@,
                    decreases n - i,
                {
                    proof {
                        assert(decreases_to!(*self => *v));
                        assert(decreases_to!(*v => v@));
                        assert(decreases_to!(v@ => v@[i as int]));
                        assert(decreases_to!(*self => v@[i as int]));
                    }
                    nv.push(v[i].deep_clone());
                    i += 1;
                }
                proof {
                    assert(seq_view(nv@) =~= seq_view(v@));
                }
                Json::Array(nv)
            },
            Json::Object(m) => Json::Object(m.deep_clone()),
        }
    }
}

impl Clone for Json {
    /// A copy denoting the same value.
    fn clone(&self) -> (r: Json)
        ensures
            r@ == self@,
    {
        self.deep_clone()
    }
}

impl Jmap {
    /// A copy denoting the same map, with well-formedness preserved.
    #[verifier::loop_isolation(false)]
    pub fn deep_clone(&self) -> (r: Jmap)
        ensures
            r@ == self@,
            self.wf() ==> r.wf(),
            r.spec_entries().len() == self.spec_entries().len(),
        decreases self,
    {
        let mut nv: Vec<(String, Json)> = Vec::new();
        let n = self.entries.len();
        let mut i: usize = 0;
        while i < n
            invariant
                n == self.entries@.len(),
                i <= n,
                nv@.len() == i,
                forall|k: int|
                    0 <= k < i ==> (#[trigger] nv@[k]).0 == self.entries@[k].0 && nv@[k].1@
                        == self.entries@[k].1@,
                map_of_entries(nv@) == map_of_entries(self.entries@.subrange(0, i as int)),
            decreases n - i,
        {
            let key = self.entries[i].0.clone();
            proof {
                lemma_jmap_entry_decreases(*self, i as int);
            }
            let val = self.entries[i].1.deep_clone();
            let ghost prev = nv@;
            nv.push((key, val));
            proof {
                assert(nv@.drop_last() =~= prev);
                assert(self.entries@.subrange(0, i + 1).drop_last() =~= self.entries@.subrange(
                    0,
                    i as int,
                ));
                assert(self.entries@.subrange(0, i + 1).last() == self.entries@[i as int]);
                assert(map_of_entries(nv@) == map_of_entries(self.entries@.subrange(0, i + 1)));
            }
            i += 1;
        }
        proof {
            assert(self.entries@.subrange(0, n as int) =~= self.entries@);
        }
        Jmap { entries: nv }
    }
}

impl Clone for Jmap {
    /// A copy denoting the same map, with well-formedness preserved.
    fn clone(&self) -> (r: Jmap)
        ensures
            r@ == self@,
            self.wf() ==> r.wf(),
    {
        self.deep_clone()
    }
}

/// Compares two strings by contents.
pub fn string_eq(a: &String, b: &String) -> (r: bool)
    ensures
        r == (a@ == b@),
{
    a.eq(b)
}

/// Everything that can go wrong during a parse. Positional variants carry the
/// zero-based index, within the original input, of the character at fault.
#[derive(Debug, PartialEq, Eq)]
pub enum Jerr {
    InvalidToken(String),
    UnexpectedChar(usize),
    UnexpectedEnd,
    InvalidUnicodeSequence(String),
    UnknownEscape(char),
    ExpectedCommaOrEnd(usize),
    ExpectedColon(usize),
    ExpectedValue(usize),
    ExpectedProperty(usize),
    ExpectedEnd(usize),
}

/// The mathematical shape of a [`Jerr`].
pub enum JerrView {
    InvalidToken(Seq<char>),
    UnexpectedChar(int),
    UnexpectedEnd,
    InvalidUnicodeSequence(Seq<char>),
    UnknownEscape(char),
    ExpectedCommaOrEnd(int),
    ExpectedColon(int),
    ExpectedValue(int),
    ExpectedProperty(int),
    ExpectedEnd(int),
}

impl View for Jerr {
    type V = JerrView;

    open spec fn view(&self) -> JerrView {
        match self {
            Jerr::InvalidToken(t) => JerrView::InvalidToken(t@),
            Jerr::UnexpectedChar(i) => JerrView::UnexpectedChar(*i as int),
            Jerr::UnexpectedEnd => JerrView::UnexpectedEnd,
            Jerr::InvalidUnicodeSequence(t) => JerrView::InvalidUnicodeSequence(t@),
            Jerr::UnknownEscape(c) => JerrView::UnknownEscape(*c),
            Jerr::ExpectedCommaOrEnd(i) => JerrView::ExpectedCommaOrEnd(*i as int),
            Jerr::ExpectedColon(i) => JerrView::ExpectedColon(*i as int),
            Jerr::ExpectedValue(i) => JerrView::ExpectedValue(*i as int),
            Jerr::ExpectedProperty(i) => JerrView::ExpectedProperty(*i as int),
            Jerr::ExpectedEnd(i) => JerrView::ExpectedEnd(*i as int),
        }
    }
}

/// A decimal digit.
pub open spec fn spec_is_digit(c: char) -> bool {
    '0' <= c && c <= '9'
}

/// The whitespace that the array and object sub-parsers skip between tokens.
pub open spec fn spec_is_space(c: char) -> bool {
    c == ' ' || c == '\t' || c == '\n'
}

/// The whitespace that the top-level driver trims around a document: the
/// characters with the Unicode `White_Space` property.
pub open spec fn spec_is_trim_space(c: char) -> bool {
    ||| c == '\t' || c == '\n' || c == '\u{B}' || c == '\u{C}' || c == '\r' || c == ' '
    ||| c == '\u{85}' || c == '\u{A0}' || c == '\u{1680}'
    ||| '\u{2000}' <= c && c <= '\u{200A}'
    ||| c == '\u{2028}' || c == '\u{2029}' || c == '\u{202F}' || c == '\u{205F}' || c
        == '\u{3000}'
}

/// A hexadecimal digit, either case.
pub open spec fn spec_is_hex_digit(c: char) -> bool {
    spec_is_digit(c) || ('a' <= c && c <= 'f') || ('A' <= c && c <= 'F')
}

/// The numeric value of a hexadecimal digit.
pub open spec fn spec_hex_val(c: char) -> int {
    if spec_is_digit(c) {
        c as int - '0' as int
    } else if 'a' <= c && c <= 'f' {
        10 + c as int - 'a' as int
    } else {
        10 + c as int - 'A' as int
    }
}

/// The 16-bit code unit that four hexadecimal digits denote, big-endian.
pub open spec fn spec_code_unit(q: Seq<char>) -> int
    recommends
        q.len() == 4,
{
    4096 * spec_hex_val(q[0]) + 256 * spec_hex_val(q[1]) + 16 * spec_hex_val(q[2]) + spec_hex_val(
        q[3],
    )
}

/// Every character is a hexadecimal digit.
pub open spec fn spec_hex_digits(q: Seq<char>) -> bool {
    forall|i: int| 0 <= i < q.len() ==> spec_is_hex_digit(#[trigger] q[i])
}

/// The character that a `\uXXXX` escape denotes. A code unit in the surrogate
/// range has no character of its own and decodes to the replacement character.
pub open spec fn spec_unicode_char(q: Seq<char>) -> char {
    let v = spec_code_unit(q);
    if 0xD800 <= v && v < 0xE000 {
        '\u{FFFD}'
    } else {
        v as char
    }
}

/// The literal `lit` occurs in `s` at position `pos`.
pub open spec fn spec_begins_with(s: Seq<char>, pos: int, lit: Seq<char>) -> bool {
    &&& 0 <= pos
    &&& pos + lit.len() <= s.len()
    &&& forall|i: int| 0 <= i < lit.len() ==> s[pos + i] == #[trigger] lit[i]
}

/// A peekable character stream over the input text, reporting the zero-based
/// position of the next character.
pub struct Cursor {
    text: Vec<char>,
    pos: usize,
}

impl Cursor {
    /// The characters of the input.
    pub closed spec fn chars(&self) -> Seq<char> {
        self.text@
    }

    /// The position of the next unconsumed character.
    pub closed spec fn position(&self) -> int {
        self.pos as int
    }

    /// The position never runs past the end of the text.
    pub open spec fn wf(&self) -> bool {
        0 <= self.position() <= self.chars().len()
    }

    /// At least one character remains.
    pub open spec fn has_next(&self) -> bool {
        self.position() < self.chars().len()
    }

    /// What [`Cursor::peek`] returns.
    pub open spec fn spec_peek(&self) -> Option<(usize, char)> {
        if self.has_next() {
            Some((self.position() as usize, self.chars()[self.position()]))
        } else {
            None
        }
    }

    /// The next character and its position, without consuming it.
    pub fn peek(&self) -> (r: Option<(usize, char)>)
        requires
            self.wf(),
        ensures
            r == self.spec_peek(),
            r is Some <==> self.has_next(),
            r matches Some(pc) ==> pc.0 == self.position() && pc.1 == self.chars()[self.position()],
    {
        if self.pos < self.text.len() {
            Some((self.pos, self.text[self.pos]))
        } else {
            None
        }
    }

    /// Consumes and returns the next character and its position.
    pub fn next(&mut self) -> (r: Option<(usize, char)>)
        requires
            old(self).wf(),
        ensures
            final(self).wf(),
            final(self).chars() == old(self).chars(),
            r == old(self).spec_peek(),
            r is Some <==> old(self).has_next(),
            r matches Some(pc) ==> pc.0 == old(self).position() && pc.1 == old(self).chars()[old(
                self,
            ).position()],
            old(self).has_next() ==> final(self).position() == old(self).position() + 1,
            !old(self).has_next() ==> final(self).position() == old(self).position(),
    {
        if self.pos < self.text.len() {
            let r = Some((self.pos, self.text[self.pos]));
            self.pos += 1;
            r
        } else {
            None
        }
    }
}

/// A fresh cursor over `text`, positioned at its first character.
pub fn make_iterator(text: &str) -> (r: Cursor)
    ensures
        r.wf(),
        r.chars() == text@,
        r.position() == 0,
{
    let n = text.unicode_len();
    let mut v: Vec<char> = Vec::new();
    let mut i: usize = 0;
    while i < n
        invariant
            n == text@.len(),
            i <= n,
            v@ =~= text@.subrange(0, i as int),
        decreases n - i,
    {
        v.push(text.get_char(i));
        i += 1;
    }
    proof {
        assert(v@ =~= text@);
    }
    Cursor { text: v, pos: 0 }
}

/// The next character is a decimal digit, i.e. a number starts here.
pub fn is_number(iter: &Cursor) -> (r: bool)
    requires
        iter.wf(),
        iter.has_next(),
    ensures
        r == spec_is_digit(iter.chars()[iter.position()]),
{
    is_digit(iter.peek().unwrap().1)
}

/// The next character opens a string.
pub fn is_string(iter: &Cursor) -> (r: bool)
    requires
        iter.wf(),
        iter.has_next(),
    ensures
        r == (iter.chars()[iter.position()] == '"'),
{
    iter.peek().unwrap().1 == '"'
}

/// The next character opens an array.
pub fn is_array(iter: &Cursor) -> (r: bool)
    requires
        iter.wf(),
        iter.has_next(),
    ensures
        r == (iter.chars()[iter.position()] == '['),
{
    iter.peek().unwrap().1 == '['
}

/// The next character opens an object.
pub fn is_object(iter: &Cursor) -> (r: bool)
    requires
        iter.wf(),
        iter.has_next(),
    ensures
        r == (iter.chars()[iter.position()] == '{'),
{
    iter.peek().unwrap().1 == '{'
}

/// `c` is a decimal digit.
pub fn is_digit(c: char) -> (r: bool)
    ensures
        r == spec_is_digit(c),
{
    c >= '0' && c <= '9'
}

/// The first character of `text` is `c`.
pub fn starts_with(text: &str, c: char) -> (r: bool)
    requires
        text@.len() > 0,
    ensures
        r == (text@[0] == c),
{
    text.get_char(0) == c
}

/// The last character of `text` is `c`.
pub fn ends_with(text: &str, c: char) -> (r: bool)
    requires
        text@.len() > 0,
    ensures
        r == (text@[text@.len() - 1] == c),
{
    text.get_char(text.unicode_len() - 1) == c
}

/// Joins consecutive byte pairs into big-endian 16-bit units.
pub fn u8arr_to_u16arr(v: Vec<u8>) -> (r: Vec<u16>)
    ensures
        r@.len() == v@.len() / 2,
        forall|i: int|
            0 <= i < r@.len() ==> #[trigger] r@[i] == 256 * (v@[2 * i] as int) + (v@[2 * i
                + 1] as int),
{
    let mut nv: Vec<u16> = Vec::new();
    let n = v.len() / 2;
    let mut i: usize = 0;
    while i < n
        invariant
            v@.len() <= usize::MAX,
            n == v@.len() / 2,
            i <= n,
            nv@.len() == i,
            forall|k: int|
                0 <= k < i ==> #[trigger] nv@[k] == 256 * (v@[2 * k] as int) + (v@[2 * k
                    + 1] as int),
        decreases n - i,
    {
        proof {
            vstd::arithmetic::div_mod::lemma_fundamental_div_mod(v@.len() as int, 2);
            assert(2 * i + 1 < v@.len());
        }
        let oc1 = v[i * 2];
        let oc2 = v[i * 2 + 1];
        let hd: u16 = (oc1 as u16) * 256 + (oc2 as u16);
        nv.push(hd);
        i += 1;
    }
    nv
}

/// Decodes a string of hexadecimal digits into its bytes.
///
/// Relies on `hex::decode`: it returns the decoded bytes exactly when the
/// input has even length and consists of hexadecimal digits (either case),
/// each byte combining two consecutive digits big-endian; any other input
/// is rejected.
#[verifier::external_body]
pub fn convert_to_u8(unicode: &String) -> (r: Result<Vec<u8>, Jerr>)
    ensures
        r is Ok <==> (unicode@.len() % 2 == 0 && spec_hex_digits(unicode@)),
        r matches Ok(v) ==> {
            &&& v@.len() == unicode@.len() / 2
            &&& forall|i: int|
                0 <= i < v@.len() ==> #[trigger] v@[i] == 16 * spec_hex_val(unicode@[2 * i])
                    + spec_hex_val(unicode@[2 * i + 1])
        },
        r matches Err(e) ==> e@ == JerrView::InvalidUnicodeSequence(unicode@),
{
    match hex::decode(unicode) {
        Ok(vec) => Ok(vec),
        Err(_) => Err(Jerr::InvalidUnicodeSequence(unicode.clone())),
    }
}

/// Appends one character to a string.
///
/// Relies on `String::push`: it appends exactly the given character.
#[verifier::external_body]
pub fn push_char(s: &mut String, c: char)
    ensures
        final(s)@ == old(s)@.push(c),
{
    s.push(c)
}

/// Removes the last character of a string.
///
/// Relies on `String::pop`: it removes and returns exactly the last
/// character, or returns `None` on an empty string.
#[verifier::external_body]
pub fn pop_char(s: &mut String) -> (r: Option<char>)
    ensures
        old(s)@.len() == 0 ==> r is None && final(s)@ == old(s)@,
        old(s)@.len() > 0 ==> r == Some(old(s)@.last()) && final(s)@ == old(s)@.drop_last(),
{
    s.pop()
}

/// Turns a code point into the character it denotes.
///
/// Relies on `char::from_u32`: it returns `Some` exactly on Unicode scalar
/// values, i.e. code points outside the surrogate range and at most
/// `0x10FFFF`, and the returned character has the given code point.
#[verifier::external_body]
pub fn char_from_u32(v: u32) -> (r: Option<char>)
    ensures
        r is Some <==> (v < 0xD800 || (0xE000 <= v && v <= 0x10FFFF)),
        r matches Some(c) ==> c as u32 == v,
{
    char::from_u32(v)
}

/// Advances the cursor past `text` if the input continues with it; otherwise
/// leaves the cursor exactly where it was.
pub fn begins_with_str(iter: &mut Cursor, text: &str) -> (r: bool)
    requires
        old(iter).wf(),
    ensures
        final(iter).wf(),
        final(iter).chars() == old(iter).chars(),
        r == spec_begins_with(old(iter).chars(), old(iter).position(), text@),
        r ==> final(iter).position() == old(iter).position() + text@.len(),
        !r ==> final(iter).position() == old(iter).position(),
{
    let n = text.unicode_len();
    let mut j: usize = 0;
    while j < n
        invariant
            iter == old(iter),
            iter.wf(),
            n == text@.len(),
            j <= n,
            iter.position() + j <= iter.chars().len(),
            forall|k: int|
                0 <= k < j ==> iter.chars()[iter.position() + k] == #[trigger] text@[k],
        decreases n - j,
    {
        match iter.peek_at(j) {
            None => {
                return false;
            },
            Some(c) => {
                if c != text.get_char(j) {
                    return false;
                }
            },
        }
        j += 1;
    }
    iter.advance_by(n);
    true
}

impl Cursor {
    /// The character `offset` places past the next one, if the input reaches
    /// that far.
    fn peek_at(&self, offset: usize) -> (r: Option<char>)
        requires
            self.wf(),
            self.position() + offset <= self.chars().len(),
        ensures
            r == if self.position() + offset < self.chars().len() {
                Some(self.chars()[self.position() + offset])
            } else {
                None::<char>
            },
    {
        let l = self.text.len();
        if offset < l - self.pos {
            Some(self.text[self.pos + offset])
        } else {
            None
        }
    }

    /// Consumes `n` characters at once.
    fn advance_by(&mut self, n: usize)
        requires
            old(self).wf(),
            old(self).position() + n <= old(self).chars().len(),
        ensures
            final(self).wf(),
            final(self).chars() == old(self).chars(),
            final(self).position() == old(self).position() + n,
    {
        let l = self.text.len();
        self.pos += n;
    }
}

/// A strategy for parsing one JSON value at a cursor; the array and object
/// sub-parsers delegate their elements through it.
pub trait IteratorParser {
    fn parse(&self, iter: &mut Cursor) -> Result<Json, Jerr>
        requires
            old(iter).wf(),
    ;
}

} // verus!
