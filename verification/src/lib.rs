//! A small self-contained JSON codec: a recursive-descent parser from text to
//! a [`Json`] value tree, and a debug-oriented serializer back to text.
//!
//! The single entry point is [`Json::parse`]. Its contract, and the contract
//! of every sub-parser, is stated against the specification parsers in
//! [`model`], which define the accepted grammar character by character.

pub mod array;
pub mod common;
pub mod display;
pub mod laws;
pub mod model;
pub mod number;
pub mod object;
pub mod string;

pub use common::{Jerr, Jmap, Json};

use crate::common::{
    begins_with_str, is_array, is_number, is_object, is_string, json_wf, make_iterator,
    spec_is_trim_space, Cursor, IteratorParser, JsonView,
};
use crate::laws::lemma_value_error_index;
use crate::model::{
    lit_false, lit_null, lit_true, spec_error_index, spec_json_parse, spec_no_value_start,
    spec_offset_error, spec_parse_value, spec_result_matches, spec_trim, spec_trim_back,
    spec_trim_front, spec_trim_offset,
};
use vstd::prelude::*;
use vstd::string::StrSliceExecFns;

verus! {

/// The value dispatcher: picks the sub-parser that one character of lookahead
/// calls for.
pub struct BasicIteratorParser;

impl BasicIteratorParser {
    /// Parses one JSON value at the cursor: a literal keyword, a number, a
    /// string, an array or an object, tried in that order. Whitespace is not
    /// skipped here; that is the caller's business.
    pub fn parse(&self, iter: &mut Cursor) -> (r: Result<Json, Jerr>)
        requires
            old(iter).wf(),
        ensures
            final(iter).wf(),
            final(iter).chars() == old(iter).chars(),
            spec_result_matches(
                r,
                spec_parse_value(old(iter).chars(), old(iter).position()),
                final(iter).position(),
            ),
            spec_no_value_start(old(iter).chars(), old(iter).position()) ==> final(iter).position()
                == old(iter).position(),
            r matches Ok(j) ==> json_wf(j),
        decreases old(iter).chars().len() - old(iter).position(), 1int,
    {
        proof {
            reveal_strlit("true");
            reveal_strlit("false");
            reveal_strlit("null");
            assert("true"@ =~= lit_true());
            assert("false"@ =~= lit_false());
            assert("null"@ =~= lit_null());
        }
        if begins_with_str(iter, "true") {
            return Ok(Json::Bool(true));
        } else if begins_with_str(iter, "false") {
            return Ok(Json::Bool(false));
        } else if begins_with_str(iter, "null") {
            return Ok(Json::Null);
        }
        match iter.peek() {
            None => Err(Jerr::UnexpectedEnd),
            Some((i, _)) => {
                if is_number(iter) {
                    crate::number::JNumberParser::parse(iter)
                } else if is_string(iter) {
                    let mut parser = crate::string::JStringParser::new();
                    parser.parse(iter)
                } else if is_array(iter) {
                    let mut parser = crate::array::JArrayParser::new();
                    parser.parse(iter, self)
                } else if is_object(iter) {
                    let mut parser = crate::object::JObjectParser::new();
                    parser.parse(iter, self)
                } else {
                    Err(Jerr::UnexpectedChar(i))
                }
            },
        }
    }
}

impl IteratorParser for BasicIteratorParser {
    fn parse(&self, iter: &mut Cursor) -> Result<Json, Jerr> {
        BasicIteratorParser::parse(self, iter)
    }
}

/// The character is whitespace that the top-level driver trims.
fn is_trim_space(c: char) -> (r: bool)
    ensures
        r == spec_is_trim_space(c),
{
    (c == '\t' || c == '\n' || c == '\u{B}' || c == '\u{C}' || c == '\r' || c == ' ')
        || (c == '\u{85}' || c == '\u{A0}' || c == '\u{1680}')
        || ('\u{2000}' <= c && c <= '\u{200A}')
        || (c == '\u{2028}' || c == '\u{2029}' || c == '\u{202F}' || c == '\u{205F}' || c
            == '\u{3000}')
}

/// Strips the whitespace around a document, and reports how many characters
/// were cut in front, so that error positions can be mapped back.
fn trim(text: &str) -> (r: (usize, &str))
    ensures
        r.1@ == spec_trim(text@),
        r.0 == spec_trim_offset(text@),
        r.0 + r.1@.len() <= usize::MAX,
{
    let n = text.unicode_len();
    let mut start: usize = 0;
    while start < n && is_trim_space(text.get_char(start))
        invariant
            n == text@.len(),
            start <= n,
            forall|k: int| 0 <= k < start ==> spec_is_trim_space(#[trigger] text@[k]),
        decreases n - start,
    {
        start += 1;
    }
    let mut end: usize = n;
    while end > start && is_trim_space(text.get_char(end - 1))
        invariant
            n == text@.len(),
            start <= end <= n,
            forall|k: int| end <= k < n ==> spec_is_trim_space(#[trigger] text@[k]),
        decreases end,
    {
        end -= 1;
    }
    proof {
        lemma_trim_front_at(text@, start as int);
        lemma_trim_back_at(
            text@.subrange(start as int, text@.len() as int),
            end - start as int,
        );
        assert(text@.subrange(start as int, text@.len() as int).subrange(0, end - start as int)
            =~= text@.subrange(start as int, end as int));
    }
    (start, text.substring_char(start, end))
}

/// The same error with any carried position shifted forward by `off`: what
/// maps an index over the trimmed text back to the original input.
fn offset_error(e: Jerr, off: usize) -> (r: Jerr)
    requires
        spec_error_index(e@) matches Some(i) ==> i + off <= usize::MAX,
    ensures
        r@ == spec_offset_error(e@, off as int),
{
    match e {
        Jerr::UnexpectedChar(i) => Jerr::UnexpectedChar(i + off),
        Jerr::ExpectedCommaOrEnd(i) => Jerr::ExpectedCommaOrEnd(i + off),
        Jerr::ExpectedColon(i) => Jerr::ExpectedColon(i + off),
        Jerr::ExpectedValue(i) => Jerr::ExpectedValue(i + off),
        Jerr::ExpectedProperty(i) => Jerr::ExpectedProperty(i + off),
        Jerr::ExpectedEnd(i) => Jerr::ExpectedEnd(i + off),
        other => other,
    }
}

/// Dropping exactly the leading whitespace run is what the front trim does.
proof fn lemma_trim_front_at(s: Seq<char>, i: int)
    requires
        0 <= i <= s.len(),
        forall|k: int| 0 <= k < i ==> spec_is_trim_space(#[trigger] s[k]),
        i < s.len() ==> !spec_is_trim_space(s[i]),
    ensures
        spec_trim_front(s) =~= s.subrange(i, s.len() as int),
    decreases i,
{
    if i == 0 {
        assert(spec_trim_front(s) =~= s.subrange(0, s.len() as int));
    } else {
        lemma_trim_front_at(s.drop_first(), i - 1);
        assert(s.drop_first().subrange(i - 1, s.len() - 1) =~= s.subrange(i, s.len() as int));
    }
}

/// Dropping exactly the trailing whitespace run is what the back trim does.
proof fn lemma_trim_back_at(s: Seq<char>, j: int)
    requires
        0 <= j <= s.len(),
        forall|k: int| j <= k < s.len() ==> spec_is_trim_space(#[trigger] s[k]),
        j > 0 ==> !spec_is_trim_space(s[j - 1]),
    ensures
        spec_trim_back(s) =~= s.subrange(0, j),
    decreases s.len() - j,
{
    if j == s.len() {
        assert(spec_trim_back(s) =~= s.subrange(0, j));
    } else {
        lemma_trim_back_at(s.drop_last(), j);
        assert(s.drop_last().subrange(0, j) =~= s.subrange(0, j));
    }
}

impl Json {
    /// Parses a complete JSON document: trims surrounding whitespace, reads
    /// one value, and demands that nothing follow it.
    pub fn parse(input: &String) -> (r: Result<Json, Jerr>)
        ensures
            ({
                let sp = spec_json_parse(input@);
                match r {
                    Ok(j) => sp matches Ok(v) && j@ == v,
                    Err(e) => sp matches Err(ev) && e@ == ev,
                }
            }),
            r matches Ok(j) ==> json_wf(j),
    {
        let (start, trimmed) = trim(input.as_str());
        let mut iter = make_iterator(trimmed);
        let basic_parser = BasicIteratorParser;
        let json = match basic_parser.parse(&mut iter) {
            Ok(j) => j,
            Err(e) => {
                proof {
                    lemma_value_error_index(trimmed@, 0);
                }
                return Err(offset_error(e, start));
            },
        };
        match iter.peek() {
            None => Ok(json),
            Some((i, _)) => Err(Jerr::ExpectedEnd(i + start)),
        }
    }

    /// The number text, if this value is a number.
    pub fn as_number(&self) -> (r: Option<&String>)
        ensures
            match r {
                Some(n) => self@ == JsonView::Number(n@),
                None => !(self@ is Number),
            },
    {
        match self {
            Json::Number(num) => Some(num),
            _ => None,
        }
    }

    /// The decoded text, if this value is a string.
    pub fn as_string(&self) -> (r: Option<&String>)
        ensures
            match r {
                Some(s) => self@ == JsonView::String(s@),
                None => !(self@ is String),
            },
    {
        match self {
            Json::String(str) => Some(str),
            _ => None,
        }
    }

    /// The boolean, if this value is a boolean.
    pub fn as_bool(&self) -> (r: Option<&bool>)
        ensures
            match r {
                Some(b) => self@ == JsonView::Bool(*b),
                None => !(self@ is Bool),
            },
    {
        match self {
            Json::Bool(b) => Some(b),
            _ => None,
        }
    }

    /// Whether this value is `null`.
    pub fn as_null(&self) -> (r: Option<()>)
        ensures
            r is Some <==> self@ is Null,
    {
        match self {
            Json::Null => Some(()),
            _ => None,
        }
    }

    /// The elements, if this value is an array.
    pub fn as_array(&self) -> (r: Option<&Vec<Json>>)
        ensures
            match r {
                Some(v) => self@ == JsonView::Array(crate::common::seq_view(v@)),
                None => !(self@ is Array),
            },
    {
        match self {
            Json::Array(vec) => Some(vec),
            _ => None,
        }
    }

    /// The elements, mutably, if this value is an array.
    pub fn as_mut_array(&mut self) -> (r: Option<&mut Vec<Json>>)
        ensures
            r is Some <==> old(self)@ is Array,
            r matches Some(v) ==> *old(self) == Json::Array(*v) && *final(self) == Json::Array(
                *final(v),
            ),
            r is None ==> *final(self) == *old(self),
    {
        match self {
            Json::Array(vec) => Some(vec),
            _ => None,
        }
    }

    /// The bindings, if this value is an object.
    pub fn as_object(&self) -> (r: Option<&Jmap>)
        ensures
            match r {
                Some(m) => self@ == JsonView::Object(m@),
                None => !(self@ is Object),
            },
    {
        match self {
            Json::Object(o) => Some(o),
            _ => None,
        }
    }

    /// The bindings, mutably, if this value is an object.
    pub fn as_mut_object(&mut self) -> (r: Option<&mut Jmap>)
        ensures
            r is Some <==> old(self)@ is Object,
            r matches Some(m) ==> *old(self) == Json::Object(*m) && *final(self) == Json::Object(
                *final(m),
            ),
            r is None ==> *final(self) == *old(self),
    {
        match self {
            Json::Object(o) => Some(o),
            _ => None,
        }
    }
}

} // verus!
