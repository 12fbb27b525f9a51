//! The grammar that the parser enforces, written as total recursive
//! specification functions over the input characters.
//!
//! Each executable sub-parser promises to return exactly what its
//! specification counterpart here computes: the same value or error, and, on
//! success, the same final cursor position. On failure the cursor position is
//! deliberately left unspecified, as only the error value reaches the caller.

use crate::common::{
    spec_begins_with, spec_hex_digits, spec_is_digit, spec_is_space, spec_is_trim_space,
    spec_unicode_char, Jerr, JerrView, Json, JsonView,
};
use vstd::prelude::*;

verus! {

/// Where the array sub-parser stands: before anything, after a value, or
/// after a comma.
#[derive(Debug, PartialEq, Eq, Structural, Clone, Copy)]
pub enum ArrayParserState {
    Beginning,
    Comma,
    Value,
}

/// Where the object sub-parser stands: expecting a key, a colon, a value, or
/// a comma.
#[derive(Debug, PartialEq, Eq, Structural, Clone, Copy)]
pub enum ObjectParserState {
    Value,
    Colon,
    Label,
    Comma,
}

/// The position right after the number lexeme that starts at `pos`: digits,
/// with at most one dot accepted along the way.
pub open spec fn spec_number_end(s: Seq<char>, pos: int, seen_dot: bool) -> int
    decreases s.len() - pos,
{
    if pos < s.len() {
        if spec_is_digit(s[pos]) {
            spec_number_end(s, pos + 1, seen_dot)
        } else if s[pos] == '.' && !seen_dot {
            spec_number_end(s, pos + 1, true)
        } else {
            pos
        }
    } else {
        pos
    }
}

/// The number grammar's validation of an accumulated lexeme: non-empty, no
/// trailing dot, and a leading zero only when the text is exactly `0`.
///
/// Note that this rejects `0.5`: the leading-zero test fires on the length of
/// the whole lexeme, dot included.
pub open spec fn spec_number_valid(text: Seq<char>) -> bool {
    &&& text.len() > 0
    &&& text[text.len() - 1] != '.'
    &&& !(text[0] == '0' && text.len() > 1)
}

/// What the number sub-parser returns when entered at `pos`.
pub open spec fn spec_parse_number(s: Seq<char>, pos: int) -> (Result<JsonView, JerrView>, int) {
    let end = spec_number_end(s, pos, false);
    let text = s.subrange(pos, end);
    if spec_number_valid(text) {
        (Ok(JsonView::Number(text)), end)
    } else {
        (Err(JerrView::InvalidToken(text)), end)
    }
}

/// One step per character of the string sub-parser, carrying its whole state:
/// the decoded accumulator, the escape flag, and the unicode escape buffer.
pub open spec fn spec_string_loop(
    s: Seq<char>,
    pos: int,
    acc: Seq<char>,
    escape: bool,
    in_unicode: bool,
    uni: Seq<char>,
) -> (Result<JsonView, JerrView>, int)
    decreases s.len() - pos,
{
    if pos >= s.len() {
        (Err(JerrView::UnexpectedEnd), pos)
    } else {
        let c = s[pos];
        if in_unicode {
            let uni2 = uni.push(c);
            if uni2.len() == 4 {
                if spec_hex_digits(uni2) {
                    spec_string_loop(
                        s,
                        pos + 1,
                        acc.push(spec_unicode_char(uni2)),
                        escape,
                        false,
                        Seq::empty(),
                    )
                } else {
                    (Err(JerrView::InvalidUnicodeSequence(uni2)), pos + 1)
                }
            } else {
                spec_string_loop(s, pos + 1, acc, escape, true, uni2)
            }
        } else if escape {
            if c == '"' || c == '\\' {
                spec_string_loop(s, pos + 1, acc.push(c), false, in_unicode, uni)
            } else if c == 'r' {
                spec_string_loop(s, pos + 1, acc.push('\r'), false, in_unicode, uni)
            } else if c == 'b' {
                spec_string_loop(s, pos + 1, acc.push('\u{8}'), false, in_unicode, uni)
            } else if c == 't' {
                spec_string_loop(s, pos + 1, acc.push('\t'), false, in_unicode, uni)
            } else if c == 'n' {
                spec_string_loop(s, pos + 1, acc.push('\n'), false, in_unicode, uni)
            } else if c == 'f' {
                spec_string_loop(s, pos + 1, acc.push('\u{c}'), false, in_unicode, uni)
            } else if c == 'u' {
                spec_string_loop(s, pos + 1, acc, false, true, uni)
            } else {
                (Err(JerrView::UnknownEscape(c)), pos + 1)
            }
        } else {
            if c == '\\' {
                spec_string_loop(s, pos + 1, acc, true, in_unicode, uni)
            } else if c == '"' {
                (Ok(JsonView::String(acc)), pos + 1)
            } else {
                spec_string_loop(s, pos + 1, acc.push(c), false, in_unicode, uni)
            }
        }
    }
}

/// What the string sub-parser returns when entered at `pos`, the position of
/// the opening quote (which it consumes unexamined).
pub open spec fn spec_parse_string(s: Seq<char>, pos: int) -> (Result<JsonView, JerrView>, int) {
    spec_string_loop(s, pos + 1, Seq::empty(), false, false, Seq::empty())
}

/// The characters of the literal `true`.
pub open spec fn lit_true() -> Seq<char> {
    seq!['t', 'r', 'u', 'e']
}

/// The characters of the literal `false`.
pub open spec fn lit_false() -> Seq<char> {
    seq!['f', 'a', 'l', 's', 'e']
}

/// The characters of the literal `null`.
pub open spec fn lit_null() -> Seq<char> {
    seq!['n', 'u', 'l', 'l']
}

/// What the value dispatcher returns when entered at `pos`: a literal
/// keyword, a number, a string, an array or an object, each tried in that
/// order on one character of lookahead; whitespace is not skipped here.
pub open spec fn spec_parse_value(s: Seq<char>, pos: int) -> (Result<JsonView, JerrView>, int)
    decreases s.len() - pos, 0int,
{
    if spec_begins_with(s, pos, lit_true()) {
        (Ok(JsonView::Bool(true)), pos + 4)
    } else if spec_begins_with(s, pos, lit_false()) {
        (Ok(JsonView::Bool(false)), pos + 5)
    } else if spec_begins_with(s, pos, lit_null()) {
        (Ok(JsonView::Null), pos + 4)
    } else if pos < s.len() {
        let c = s[pos];
        if spec_is_digit(c) {
            spec_parse_number(s, pos)
        } else if c == '"' {
            spec_parse_string(s, pos)
        } else if c == '[' {
            spec_array_loop(s, pos + 1, ArrayParserState::Beginning, Seq::empty())
        } else if c == '{' {
            spec_object_start(s, pos + 1)
        } else {
            (Err(JerrView::UnexpectedChar(pos)), pos)
        }
    } else {
        (Err(JerrView::UnexpectedEnd), pos)
    }
}

/// No value can start at `pos`: no keyword literal matches and the next
/// character (if any) opens no number, string, array or object. On such input
/// the dispatcher fails without moving the cursor.
pub open spec fn spec_no_value_start(s: Seq<char>, pos: int) -> bool {
    &&& !spec_begins_with(s, pos, lit_true())
    &&& !spec_begins_with(s, pos, lit_false())
    &&& !spec_begins_with(s, pos, lit_null())
    &&& (pos >= s.len() || (!spec_is_digit(s[pos]) && s[pos] != '"' && s[pos] != '[' && s[pos]
        != '{'))
}

/// The array sub-parser's loop, entered right after the opening bracket with
/// state `Beginning`, collecting elements into `acc`.
pub open spec fn spec_array_loop(
    s: Seq<char>,
    pos: int,
    state: ArrayParserState,
    acc: Seq<JsonView>,
) -> (Result<JsonView, JerrView>, int)
    decreases s.len() - pos, 1int,
{
    if pos >= s.len() {
        (Err(JerrView::UnexpectedEnd), pos)
    } else {
        let c = s[pos];
        if c == ',' {
            if state == ArrayParserState::Comma {
                spec_array_loop(s, pos + 1, ArrayParserState::Value, acc)
            } else {
                (Err(JerrView::ExpectedValue(pos)), pos)
            }
        } else if c == ']' {
            if state == ArrayParserState::Comma || state == ArrayParserState::Beginning {
                (Ok(JsonView::Array(acc)), pos + 1)
            } else {
                (Err(JerrView::ExpectedValue(pos)), pos)
            }
        } else if spec_is_space(c) {
            spec_array_loop(s, pos + 1, state, acc)
        } else {
            if state == ArrayParserState::Value || state == ArrayParserState::Beginning {
                let step = spec_parse_value(s, pos);
                match step.0 {
                    Ok(v) => if pos < step.1 <= s.len() {
                        spec_array_loop(s, step.1, ArrayParserState::Comma, acc.push(v))
                    } else {
                        (Err(JerrView::UnexpectedEnd), step.1)
                    },
                    Err(e) => (Err(e), step.1),
                }
            } else {
                (Err(JerrView::ExpectedCommaOrEnd(pos)), pos)
            }
        }
    }
}

/// The object sub-parser's loop, cycling through key, colon, value and comma,
/// collecting bindings into `acc`; a repeated key takes the later value.
pub open spec fn spec_object_loop(
    s: Seq<char>,
    pos: int,
    state: ObjectParserState,
    ident: Seq<char>,
    acc: Map<Seq<char>, JsonView>,
) -> (Result<JsonView, JerrView>, int)
    decreases s.len() - pos, 1int,
{
    if pos >= s.len() {
        (Err(JerrView::UnexpectedEnd), pos)
    } else {
        let c = s[pos];
        if spec_is_space(c) {
            spec_object_loop(s, pos + 1, state, ident, acc)
        } else {
            match state {
                ObjectParserState::Label => {
                    let step = spec_parse_value(s, pos);
                    match step.0 {
                        Ok(JsonView::String(k)) => if pos < step.1 <= s.len() {
                            spec_object_loop(s, step.1, ObjectParserState::Colon, k, acc)
                        } else {
                            (Err(JerrView::UnexpectedEnd), step.1)
                        },
                        Ok(_) => (Err(JerrView::ExpectedProperty(pos)), step.1),
                        Err(_) => (Err(JerrView::ExpectedProperty(pos)), step.1),
                    }
                },
                ObjectParserState::Colon => {
                    if c == ':' {
                        spec_object_loop(s, pos + 1, ObjectParserState::Value, ident, acc)
                    } else {
                        (Err(JerrView::ExpectedColon(pos)), pos)
                    }
                },
                ObjectParserState::Value => {
                    let step = spec_parse_value(s, pos);
                    match step.0 {
                        Ok(v) => if pos < step.1 <= s.len() {
                            spec_object_loop(
                                s,
                                step.1,
                                ObjectParserState::Comma,
                                Seq::empty(),
                                acc.insert(ident, v),
                            )
                        } else {
                            (Err(JerrView::UnexpectedEnd), step.1)
                        },
                        Err(_) => (Err(JerrView::ExpectedValue(pos)), step.1),
                    }
                },
                ObjectParserState::Comma => {
                    if c == ',' {
                        spec_object_loop(s, pos + 1, ObjectParserState::Label, ident, acc)
                    } else if c == '}' {
                        (Ok(JsonView::Object(acc)), pos + 1)
                    } else {
                        (Err(JerrView::ExpectedCommaOrEnd(pos)), pos)
                    }
                },
            }
        }
    }
}

/// What the object sub-parser returns when entered right after the opening
/// brace: if the next non-whitespace character is the closing brace it closes
/// the empty object; otherwise the key/value loop takes over there.
pub open spec fn spec_object_start(s: Seq<char>, pos: int) -> (Result<JsonView, JerrView>, int)
    decreases s.len() - pos, 2int,
{
    if pos < s.len() && spec_is_space(s[pos]) {
        spec_object_start(s, pos + 1)
    } else if pos < s.len() && s[pos] == '}' {
        (Ok(JsonView::Object(Map::empty())), pos + 1)
    } else {
        spec_object_loop(s, pos, ObjectParserState::Label, Seq::empty(), Map::empty())
    }
}

/// `s` with leading trim-whitespace removed.
pub open spec fn spec_trim_front(s: Seq<char>) -> Seq<char>
    decreases s.len(),
{
    if s.len() > 0 && spec_is_trim_space(s[0]) {
        spec_trim_front(s.drop_first())
    } else {
        s
    }
}

/// `s` with trailing trim-whitespace removed.
pub open spec fn spec_trim_back(s: Seq<char>) -> Seq<char>
    decreases s.len(),
{
    if s.len() > 0 && spec_is_trim_space(s[s.len() - 1]) {
        spec_trim_back(s.drop_last())
    } else {
        s
    }
}

/// `s` with whitespace removed from both ends.
pub open spec fn spec_trim(s: Seq<char>) -> Seq<char> {
    spec_trim_back(spec_trim_front(s))
}

/// How many leading characters the trim removes: positional errors, raised
/// over the trimmed text, are shifted by this much so that they refer to the
/// original input.
pub open spec fn spec_trim_offset(s: Seq<char>) -> int {
    s.len() - spec_trim_front(s).len()
}

/// The same error with any carried position shifted by `off`.
pub open spec fn spec_offset_error(e: JerrView, off: int) -> JerrView {
    match e {
        JerrView::UnexpectedChar(i) => JerrView::UnexpectedChar(i + off),
        JerrView::ExpectedCommaOrEnd(i) => JerrView::ExpectedCommaOrEnd(i + off),
        JerrView::ExpectedColon(i) => JerrView::ExpectedColon(i + off),
        JerrView::ExpectedValue(i) => JerrView::ExpectedValue(i + off),
        JerrView::ExpectedProperty(i) => JerrView::ExpectedProperty(i + off),
        JerrView::ExpectedEnd(i) => JerrView::ExpectedEnd(i + off),
        JerrView::InvalidToken(t) => JerrView::InvalidToken(t),
        JerrView::UnexpectedEnd => JerrView::UnexpectedEnd,
        JerrView::InvalidUnicodeSequence(t) => JerrView::InvalidUnicodeSequence(t),
        JerrView::UnknownEscape(c) => JerrView::UnknownEscape(c),
    }
}

/// The index that a positional error carries, if it carries one.
pub open spec fn spec_error_index(e: JerrView) -> Option<int> {
    match e {
        JerrView::UnexpectedChar(i) => Some(i),
        JerrView::ExpectedCommaOrEnd(i) => Some(i),
        JerrView::ExpectedColon(i) => Some(i),
        JerrView::ExpectedValue(i) => Some(i),
        JerrView::ExpectedProperty(i) => Some(i),
        JerrView::ExpectedEnd(i) => Some(i),
        JerrView::InvalidToken(_) => None,
        JerrView::UnexpectedEnd => None,
        JerrView::InvalidUnicodeSequence(_) => None,
        JerrView::UnknownEscape(_) => None,
    }
}

/// What the whole parse of a document returns: trim, dispatch one value, and
/// demand that it reaches the end of the trimmed text. Positional errors are
/// shifted so that they index into the original, untrimmed input.
pub open spec fn spec_json_parse(s: Seq<char>) -> Result<JsonView, JerrView> {
    let t = spec_trim(s);
    let off = spec_trim_offset(s);
    let step = spec_parse_value(t, 0);
    match step.0 {
        Ok(v) => if step.1 == t.len() {
            Ok(v)
        } else {
            Err(JerrView::ExpectedEnd(step.1 + off))
        },
        Err(e) => Err(spec_offset_error(e, off)),
    }
}

/// Two parse outcomes agree: same result, and the same end position whenever
/// the result is a success. On failure the end positions may differ: nothing
/// downstream reads a cursor after an error.
pub open spec fn spec_step_eq(
    a: (Result<JsonView, JerrView>, int),
    b: (Result<JsonView, JerrView>, int),
) -> bool {
    &&& b.0 == a.0
    &&& (a.0 is Ok ==> b.1 == a.1)
}

/// An executable outcome `r` matches a specification outcome `sp` when they
/// carry the same value or the same error, and, on success, the cursor ends
/// at the position `sp` names (`pos_after`).
pub open spec fn spec_result_matches(
    r: Result<Json, Jerr>,
    sp: (Result<JsonView, JerrView>, int),
    pos_after: int,
) -> bool {
    match r {
        Ok(j) => sp.0 matches Ok(v) && j@ == v && pos_after == sp.1,
        Err(e) => sp.0 matches Err(ev) && e@ == ev,
    }
}

/// The number lexeme never runs past the end of the text, and never moves
/// backwards.
pub proof fn lemma_number_end_bounds(s: Seq<char>, pos: int, seen_dot: bool)
    requires
        pos <= s.len(),
    ensures
        pos <= spec_number_end(s, pos, seen_dot) <= s.len(),
    decreases s.len() - pos,
{
    if pos < s.len() {
        if spec_is_digit(s[pos]) {
            lemma_number_end_bounds(s, pos + 1, seen_dot);
        } else if s[pos] == '.' && !seen_dot {
            lemma_number_end_bounds(s, pos + 1, true);
        }
    }
}

/// The string sub-parser's loop ends within the text, past where it began.
pub proof fn lemma_string_loop_bounds(
    s: Seq<char>,
    pos: int,
    acc: Seq<char>,
    escape: bool,
    in_unicode: bool,
    uni: Seq<char>,
)
    requires
        0 <= pos <= s.len(),
    ensures
        ({
            let step = spec_string_loop(s, pos, acc, escape, in_unicode, uni);
            step.0 is Ok ==> pos < step.1 <= s.len()
        }),
    decreases s.len() - pos,
{
    if pos < s.len() {
        let c = s[pos];
        if in_unicode {
            let uni2 = uni.push(c);
            if uni2.len() == 4 {
                if spec_hex_digits(uni2) {
                    lemma_string_loop_bounds(
                        s,
                        pos + 1,
                        acc.push(spec_unicode_char(uni2)),
                        escape,
                        false,
                        Seq::empty(),
                    );
                }
            } else {
                lemma_string_loop_bounds(s, pos + 1, acc, escape, true, uni2);
            }
        } else if escape {
            if c == '"' || c == '\\' {
                lemma_string_loop_bounds(s, pos + 1, acc.push(c), false, in_unicode, uni);
            } else if c == 'r' {
                lemma_string_loop_bounds(s, pos + 1, acc.push('\r'), false, in_unicode, uni);
            } else if c == 'b' {
                lemma_string_loop_bounds(s, pos + 1, acc.push('\u{8}'), false, in_unicode, uni);
            } else if c == 't' {
                lemma_string_loop_bounds(s, pos + 1, acc.push('\t'), false, in_unicode, uni);
            } else if c == 'n' {
                lemma_string_loop_bounds(s, pos + 1, acc.push('\n'), false, in_unicode, uni);
            } else if c == 'f' {
                lemma_string_loop_bounds(s, pos + 1, acc.push('\u{c}'), false, in_unicode, uni);
            } else if c == 'u' {
                lemma_string_loop_bounds(s, pos + 1, acc, false, true, uni);
            }
        } else {
            if c == '\\' {
                lemma_string_loop_bounds(s, pos + 1, acc, true, in_unicode, uni);
            } else if c == '"' {
            } else {
                lemma_string_loop_bounds(s, pos + 1, acc.push(c), false, in_unicode, uni);
            }
        }
    }
}

/// Every sub-parser that succeeds consumed at least one character and ends
/// within the text: the dispatcher's case.
pub proof fn lemma_parse_value_bounds(s: Seq<char>, pos: int)
    requires
        0 <= pos <= s.len(),
    ensures
        ({
            let step = spec_parse_value(s, pos);
            step.0 is Ok ==> pos < step.1 <= s.len()
        }),
    decreases s.len() - pos, 0int,
{
    if spec_begins_with(s, pos, lit_true()) {
    } else if spec_begins_with(s, pos, lit_false()) {
    } else if spec_begins_with(s, pos, lit_null()) {
    } else if pos < s.len() {
        let c = s[pos];
        if spec_is_digit(c) {
            lemma_number_end_bounds(s, pos, false);
        } else if c == '"' {
            lemma_string_loop_bounds(s, pos + 1, Seq::empty(), false, false, Seq::empty());
        } else if c == '[' {
            lemma_array_loop_bounds(s, pos + 1, ArrayParserState::Beginning, Seq::empty());
        } else if c == '{' {
            lemma_object_start_bounds(s, pos + 1);
        }
    }
}

/// Every sub-parser that succeeds consumed at least one character and ends
/// within the text: the array loop's case.
pub proof fn lemma_array_loop_bounds(s: Seq<char>, pos: int, state: ArrayParserState, acc: Seq<JsonView>)
    requires
        0 <= pos <= s.len(),
    ensures
        ({
            let step = spec_array_loop(s, pos, state, acc);
            step.0 is Ok ==> pos < step.1 <= s.len()
        }),
    decreases s.len() - pos, 1int,
{
    if pos < s.len() {
        let c = s[pos];
        if c == ',' {
            if state == ArrayParserState::Comma {
                lemma_array_loop_bounds(s, pos + 1, ArrayParserState::Value, acc);
            }
        } else if c == ']' {
        } else if spec_is_space(c) {
            lemma_array_loop_bounds(s, pos + 1, state, acc);
        } else {
            if state == ArrayParserState::Value || state == ArrayParserState::Beginning {
                let step = spec_parse_value(s, pos);
                lemma_parse_value_bounds(s, pos);
                if step.0 is Ok && pos < step.1 <= s.len() {
                    lemma_array_loop_bounds(
                        s,
                        step.1,
                        ArrayParserState::Comma,
                        acc.push(step.0->Ok_0),
                    );
                }
            }
        }
    }
}

/// Every sub-parser that succeeds consumed at least one character and ends
/// within the text: the object loop's case.
pub proof fn lemma_object_loop_bounds(
    s: Seq<char>,
    pos: int,
    state: ObjectParserState,
    ident: Seq<char>,
    acc: Map<Seq<char>, JsonView>,
)
    requires
        0 <= pos <= s.len(),
    ensures
        ({
            let step = spec_object_loop(s, pos, state, ident, acc);
            step.0 is Ok ==> pos < step.1 <= s.len()
        }),
    decreases s.len() - pos, 1int,
{
    if pos < s.len() {
        let c = s[pos];
        if spec_is_space(c) {
            lemma_object_loop_bounds(s, pos + 1, state, ident, acc);
        } else {
            match state {
                ObjectParserState::Label => {
                    let step = spec_parse_value(s, pos);
                    lemma_parse_value_bounds(s, pos);
                    match step.0 {
                        Ok(JsonView::String(k)) => {
                            if pos < step.1 <= s.len() {
                                lemma_object_loop_bounds(s, step.1, ObjectParserState::Colon, k, acc);
                            }
                        },
                        _ => {},
                    }
                },
                ObjectParserState::Colon => {
                    if c == ':' {
                        lemma_object_loop_bounds(s, pos + 1, ObjectParserState::Value, ident, acc);
                    }
                },
                ObjectParserState::Value => {
                    let step = spec_parse_value(s, pos);
                    lemma_parse_value_bounds(s, pos);
                    match step.0 {
                        Ok(v) => {
                            if pos < step.1 <= s.len() {
                                lemma_object_loop_bounds(
                                    s,
                                    step.1,
                                    ObjectParserState::Comma,
                                    Seq::empty(),
                                    acc.insert(ident, v),
                                );
                            }
                        },
                        _ => {},
                    }
                },
                ObjectParserState::Comma => {
                    if c == ',' {
                        lemma_object_loop_bounds(s, pos + 1, ObjectParserState::Label, ident, acc);
                    }
                },
            }
        }
    }
}

/// Every sub-parser that succeeds consumed at least one character and ends
/// within the text: the object entry's case.
pub proof fn lemma_object_start_bounds(s: Seq<char>, pos: int)
    requires
        0 <= pos <= s.len(),
    ensures
        ({
            let step = spec_object_start(s, pos);
            step.0 is Ok ==> pos < step.1 <= s.len()
        }),
    decreases s.len() - pos, 2int,
{
    if pos < s.len() && spec_is_space(s[pos]) {
        lemma_object_start_bounds(s, pos + 1);
    } else if pos < s.len() && s[pos] == '}' {
    } else {
        lemma_object_loop_bounds(s, pos, ObjectParserState::Label, Seq::empty(), Map::empty());
    }
}

} // verus!
