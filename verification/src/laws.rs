//! Crate-wide laws: properties of the parser and serializer that hold for
//! every input, each proved once and for all.

use crate::common::{
    map_of_entries, seq_view, spec_begins_with, spec_hex_digits, spec_is_digit, spec_is_space,
    spec_is_trim_space, spec_unicode_char, JerrView, Json, JsonView,
};
use crate::display::{spec_array_items, spec_object_items, spec_to_string};
use crate::model::{
    lemma_parse_value_bounds, lit_false, lit_null, lit_true, spec_array_loop, spec_error_index,
    spec_json_parse, spec_number_end, spec_object_loop, spec_object_start, spec_offset_error,
    spec_parse_number, spec_parse_value, spec_string_loop, spec_trim, spec_trim_back,
    spec_trim_front, spec_trim_offset, ArrayParserState, ObjectParserState,
};
use vstd::prelude::*;

verus! {

/// A positional index, if present, falls short of `len`.
pub open spec fn spec_error_index_below(e: JerrView, len: int) -> bool {
    match spec_error_index(e) {
        Some(i) => 0 <= i < len,
        None => true,
    }
}

/// After a successful top-level parse, the dispatcher has consumed exactly
/// the trimmed input: the cursor position equals its length.
pub proof fn lemma_parse_exhausts_trimmed_input(s: Seq<char>)
    ensures
        spec_json_parse(s) is Ok ==> spec_parse_value(spec_trim(s), 0).1 == spec_trim(s).len(),
{
}

/// The string sub-parser raises no positional error at all.
proof fn lemma_string_loop_error_index(
    s: Seq<char>,
    pos: int,
    acc: Seq<char>,
    escape: bool,
    in_unicode: bool,
    uni: Seq<char>,
)
    ensures
        ({
            let step = spec_string_loop(s, pos, acc, escape, in_unicode, uni);
            step.0 matches Err(e) ==> spec_error_index(e) is None
        }),
    decreases s.len() - pos,
{
    if pos < s.len() {
        let c = s[pos];
        if in_unicode {
            let uni2 = uni.push(c);
            if uni2.len() == 4 {
                if spec_hex_digits(uni2) {
                    lemma_string_loop_error_index(
                        s,
                        pos + 1,
                        acc.push(spec_unicode_char(uni2)),
                        escape,
                        false,
                        Seq::empty(),
                    );
                }
            } else {
                lemma_string_loop_error_index(s, pos + 1, acc, escape, true, uni2);
            }
        } else if escape {
            if c == '"' || c == '\\' {
                lemma_string_loop_error_index(s, pos + 1, acc.push(c), false, in_unicode, uni);
            } else if c == 'r' {
                lemma_string_loop_error_index(s, pos + 1, acc.push('\r'), false, in_unicode, uni);
            } else if c == 'b' {
                lemma_string_loop_error_index(
                    s,
                    pos + 1,
                    acc.push('\u{8}'),
                    false,
                    in_unicode,
                    uni,
                );
            } else if c == 't' {
                lemma_string_loop_error_index(s, pos + 1, acc.push('\t'), false, in_unicode, uni);
            } else if c == 'n' {
                lemma_string_loop_error_index(s, pos + 1, acc.push('\n'), false, in_unicode, uni);
            } else if c == 'f' {
                lemma_string_loop_error_index(
                    s,
                    pos + 1,
                    acc.push('\u{c}'),
                    false,
                    in_unicode,
                    uni,
                );
            } else if c == 'u' {
                lemma_string_loop_error_index(s, pos + 1, acc, false, true, uni);
            }
        } else {
            if c == '\\' {
                lemma_string_loop_error_index(s, pos + 1, acc, true, in_unicode, uni);
            } else if c == '"' {
            } else {
                lemma_string_loop_error_index(s, pos + 1, acc.push(c), false, in_unicode, uni);
            }
        }
    }
}

/// Positional errors point into the text: the dispatcher's case.
pub proof fn lemma_value_error_index(s: Seq<char>, pos: int)
    requires
        0 <= pos <= s.len(),
    ensures
        ({
            let step = spec_parse_value(s, pos);
            step.0 matches Err(e) ==> spec_error_index_below(e, s.len() as int)
        }),
    decreases s.len() - pos, 0int,
{
    if spec_begins_with(s, pos, lit_true()) {
    } else if spec_begins_with(s, pos, lit_false()) {
    } else if spec_begins_with(s, pos, lit_null()) {
    } else if pos < s.len() {
        let c = s[pos];
        if spec_is_digit(c) {
        } else if c == '"' {
            lemma_string_loop_error_index(s, pos + 1, Seq::empty(), false, false, Seq::empty());
        } else if c == '[' {
            lemma_array_error_index(s, pos + 1, ArrayParserState::Beginning, Seq::empty());
        } else if c == '{' {
            lemma_object_start_error_index(s, pos + 1);
        }
    }
}

/// Positional errors point into the text: the array loop's case.
proof fn lemma_array_error_index(
    s: Seq<char>,
    pos: int,
    state: ArrayParserState,
    acc: Seq<JsonView>,
)
    requires
        0 <= pos <= s.len(),
    ensures
        ({
            let step = spec_array_loop(s, pos, state, acc);
            step.0 matches Err(e) ==> spec_error_index_below(e, s.len() as int)
        }),
    decreases s.len() - pos, 1int,
{
    if pos < s.len() {
        let c = s[pos];
        if c == ',' {
            if state == ArrayParserState::Comma {
                lemma_array_error_index(s, pos + 1, ArrayParserState::Value, acc);
            }
        } else if c == ']' {
        } else if spec_is_space(c) {
            lemma_array_error_index(s, pos + 1, state, acc);
        } else {
            if state == ArrayParserState::Value || state == ArrayParserState::Beginning {
                let step = spec_parse_value(s, pos);
                lemma_parse_value_bounds(s, pos);
                lemma_value_error_index(s, pos);
                match step.0 {
                    Ok(v) => {
                        if pos < step.1 <= s.len() {
                            lemma_array_error_index(
                                s,
                                step.1,
                                ArrayParserState::Comma,
                                acc.push(v),
                            );
                        }
                    },
                    Err(_) => {},
                }
            }
        }
    }
}

/// Positional errors point into the text: the object loop's case.
proof fn lemma_object_error_index(
    s: Seq<char>,
    pos: int,
    state: ObjectParserState,
    ident: Seq<char>,
    acc: Map<Seq<char>, JsonView>,
)
    requires
        0 <= pos <= s.len(),
    ensures
        ({
            let step = spec_object_loop(s, pos, state, ident, acc);
            step.0 matches Err(e) ==> spec_error_index_below(e, s.len() as int)
        }),
    decreases s.len() - pos, 1int,
{
    if pos < s.len() {
        let c = s[pos];
        if spec_is_space(c) {
            lemma_object_error_index(s, pos + 1, state, ident, acc);
        } else {
            match state {
                ObjectParserState::Label => {
                    let step = spec_parse_value(s, pos);
                    lemma_parse_value_bounds(s, pos);
                    match step.0 {
                        Ok(JsonView::String(k)) => {
                            if pos < step.1 <= s.len() {
                                lemma_object_error_index(
                                    s,
                                    step.1,
                                    ObjectParserState::Colon,
                                    k,
                                    acc,
                                );
                            }
                        },
                        _ => {},
                    }
                },
                ObjectParserState::Colon => {
                    if c == ':' {
                        lemma_object_error_index(s, pos + 1, ObjectParserState::Value, ident, acc);
                    }
                },
                ObjectParserState::Value => {
                    let step = spec_parse_value(s, pos);
                    lemma_parse_value_bounds(s, pos);
                    match step.0 {
                        Ok(v) => {
                            if pos < step.1 <= s.len() {
                                lemma_object_error_index(
                                    s,
                                    step.1,
                                    ObjectParserState::Comma,
                                    Seq::empty(),
                                    acc.insert(ident, v),
                                );
                            }
                        },
                        Err(_) => {},
                    }
                },
                ObjectParserState::Comma => {
                    if c == ',' {
                        lemma_object_error_index(s, pos + 1, ObjectParserState::Label, ident, acc);
                    }
                },
            }
        }
    }
}

/// Positional errors point into the text: the object entry's case.
proof fn lemma_object_start_error_index(s: Seq<char>, pos: int)
    requires
        0 <= pos <= s.len(),
    ensures
        ({
            let step = spec_object_start(s, pos);
            step.0 matches Err(e) ==> spec_error_index_below(e, s.len() as int)
        }),
    decreases s.len() - pos, 2int,
{
    if pos < s.len() && spec_is_space(s[pos]) {
        lemma_object_start_error_index(s, pos + 1);
    } else if pos < s.len() && s[pos] == '}' {
    } else {
        lemma_object_error_index(s, pos, ObjectParserState::Label, Seq::empty(), Map::empty());
    }
}

/// Trimming never lengthens the text.
proof fn lemma_trim_len(s: Seq<char>)
    ensures
        spec_trim(s).len() <= s.len(),
        spec_trim_front(s).len() <= s.len(),
    decreases s.len(),
{
    if s.len() > 0 && spec_is_trim_space(s[0]) {
        lemma_trim_len(s.drop_first());
        lemma_trim_back_len(spec_trim_front(s));
    } else {
        lemma_trim_back_len(s);
    }
}

/// Back-trimming never lengthens the text.
proof fn lemma_trim_back_len(s: Seq<char>)
    ensures
        spec_trim_back(s).len() <= s.len(),
    decreases s.len(),
{
    if s.len() > 0 && spec_is_trim_space(s[s.len() - 1]) {
        lemma_trim_back_len(s.drop_last());
    }
}

/// Whenever a parse fails with a positional error, the carried index points
/// into the original input: it is at least zero and less than the input's
/// length.
pub proof fn lemma_error_index_in_input(s: Seq<char>)
    ensures
        ({
            match spec_json_parse(s) {
                Ok(_) => true,
                Err(e) => spec_error_index_below(e, s.len() as int),
            }
        }),
{
    let t = spec_trim(s);
    let off = spec_trim_offset(s);
    lemma_trim_len(s);
    lemma_trim_back_len(spec_trim_front(s));
    assert(0 <= off);
    assert(off + t.len() <= s.len());
    let step = spec_parse_value(t, 0);
    lemma_value_error_index(t, 0);
    lemma_parse_value_bounds(t, 0);
    match step.0 {
        Ok(_) => {
            if step.1 != t.len() {
                assert(0 <= step.1 < t.len());
            }
        },
        Err(_) => {},
    }
}


/// The text of a number as the grammar admits it: digits with at most one
/// dot, starting and ending on a digit, and a leading zero only in `0`.
pub open spec fn spec_is_number_text(t: Seq<char>) -> bool {
    &&& t.len() > 0
    &&& spec_is_digit(t[0])
    &&& spec_is_digit(t[t.len() - 1])
    &&& forall|i: int| 0 <= i < t.len() ==> spec_is_digit(#[trigger] t[i]) || t[i] == '.'
    &&& forall|i: int, k: int|
        0 <= i < k < t.len() && #[trigger] t[i] == '.' ==> #[trigger] t[k] != '.'
    &&& !(t[0] == '0' && t.len() > 1)
}

/// A value survives one trip through the serializer: its numbers are exactly
/// grammar-shaped, its strings contain no character the parser would treat as
/// a quote or an escape, its arrays are safe element by element, and its
/// objects are empty (the serializer emits keys raw, which cannot re-parse).
pub open spec fn spec_round_trip_safe(j: Json) -> bool
    decreases j,
{
    match j {
        Json::Null => true,
        Json::Bool(_) => true,
        Json::Number(n) => spec_is_number_text(n@),
        Json::String(s) => forall|i: int|
            0 <= i < s@.len() ==> #[trigger] s@[i] != '"' && s@[i] != '\\',
        Json::Array(v) => forall|i: int|
            0 <= i < v@.len() ==> spec_round_trip_safe(#[trigger] v@[i]),
        Json::Object(m) => m.spec_entries().len() == 0,
    }
}

/// A prefix made of two parts begins with the first, and the second follows.
proof fn lemma_begins_with_concat(s: Seq<char>, pos: int, a: Seq<char>, b: Seq<char>)
    requires
        spec_begins_with(s, pos, a + b),
    ensures
        spec_begins_with(s, pos, a),
        spec_begins_with(s, pos + a.len(), b),
{
    assert forall|i: int| 0 <= i < a.len() implies s[pos + i] == #[trigger] a[i] by {
        assert((a + b)[i] == a[i]);
        assert(s[pos + i] == (a + b)[i]);
    }
    assert forall|i: int| 0 <= i < b.len() implies s[pos + a.len() + i] == #[trigger] b[i] by {
        assert((a + b)[a.len() + i] == b[i]);
        assert(s[pos + (a.len() + i)] == (a + b)[a.len() + i]);
    }
}

/// None of the three keyword literals starts with anything but its own first
/// letter.
proof fn lemma_literals_unmatched(s: Seq<char>, pos: int)
    requires
        0 <= pos < s.len(),
        s[pos] != 't',
        s[pos] != 'f',
        s[pos] != 'n',
    ensures
        !spec_begins_with(s, pos, lit_true()),
        !spec_begins_with(s, pos, lit_false()),
        !spec_begins_with(s, pos, lit_null()),
{
    if spec_begins_with(s, pos, lit_true()) {
        assert(s[pos + 0] == lit_true()[0]);
    }
    if spec_begins_with(s, pos, lit_false()) {
        assert(s[pos + 0] == lit_false()[0]);
    }
    if spec_begins_with(s, pos, lit_null()) {
        assert(s[pos + 0] == lit_null()[0]);
    }
}

/// What serialized text looks like from the outside: never empty, opening
/// with a character that dispatches to the right sub-parser, and closing with
/// a character that is not whitespace.
proof fn lemma_ser_shape(j: Json)
    requires
        spec_round_trip_safe(j),
    ensures
        ({
            let t = spec_to_string(j);
            &&& t.len() > 0
            &&& (t[0] == 't' || t[0] == 'f' || t[0] == 'n' || spec_is_digit(t[0]) || t[0] == '"'
                || t[0] == '[' || t[0] == '{')
            &&& !spec_is_trim_space(t[0])
            &&& !spec_is_trim_space(t[t.len() - 1])
            &&& !spec_is_digit(t[t.len() - 1]) || (j is Number)
            &&& t[t.len() - 1] != '.'
        }),
{
    let t = spec_to_string(j);
    match j {
        Json::Null => {
            assert(t == lit_null());
            assert(t[0] == 'n' && t[3] == 'l');
        },
        Json::Bool(b) => {
            if b {
                assert(t == lit_true());
                assert(t[0] == 't' && t[3] == 'e');
            } else {
                assert(t == lit_false());
                assert(t[0] == 'f' && t[4] == 'e');
            }
        },
        Json::Number(n) => {
            assert(t == n@);
        },
        Json::String(str) => {
            assert(t[0] == '"');
            assert(t[t.len() - 1] == '"');
        },
        Json::Array(v) => {
            assert(t[0] == '[');
            assert(t[t.len() - 1] == ']');
        },
        Json::Object(m) => {
            assert(t[0] == '{');
            assert(t[t.len() - 1] == '}');
        },
    }
}


/// The number lexeme scan consumes exactly a grammar-shaped run of digits
/// and dots when the character after it (if any) extends no number.
proof fn lemma_number_end_exact(s: Seq<char>, pos: int, n: int, seen_dot: bool)
    requires
        0 <= pos,
        pos + n <= s.len(),
        0 <= n,
        forall|k: int| 0 <= k < n ==> spec_is_digit(#[trigger] s[pos + k]) || s[pos + k] == '.',
        seen_dot ==> forall|k: int| 0 <= k < n ==> #[trigger] s[pos + k] != '.',
        !seen_dot ==> forall|k: int, l: int|
            0 <= k < l < n && #[trigger] s[pos + k] == '.' ==> #[trigger] s[pos + l] != '.',
        pos + n == s.len() || (!spec_is_digit(s[pos + n]) && s[pos + n] != '.'),
    ensures
        spec_number_end(s, pos, seen_dot) == pos + n,
    decreases n,
{
    if n == 0 {
    } else {
        assert(spec_is_digit(s[pos + 0]) || s[pos + 0] == '.');
        if spec_is_digit(s[pos]) {
            assert forall|k: int| 0 <= k < n - 1 implies spec_is_digit(#[trigger] s[pos + 1 + k])
                || s[pos + 1 + k] == '.' by {
                assert(spec_is_digit(s[pos + (k + 1)]) || s[pos + (k + 1)] == '.');
            }
            if seen_dot {
                assert forall|k: int| 0 <= k < n - 1 implies #[trigger] s[pos + 1 + k] != '.' by {
                    assert(s[pos + (k + 1)] != '.');
                }
            } else {
                assert forall|k: int, l: int|
                    0 <= k < l < n - 1 && #[trigger] s[pos + 1 + k] == '.' implies #[trigger] s[pos
                    + 1 + l] != '.' by {
                    assert(s[pos + (k + 1)] == '.' ==> s[pos + (l + 1)] != '.');
                }
            }
            lemma_number_end_exact(s, pos + 1, n - 1, seen_dot);
        } else {
            assert(s[pos] == '.');
            assert(!seen_dot) by {
                if seen_dot {
                    assert(s[pos + 0] != '.');
                }
            }
            assert forall|k: int| 0 <= k < n - 1 implies spec_is_digit(#[trigger] s[pos + 1 + k])
                || s[pos + 1 + k] == '.' by {
                assert(spec_is_digit(s[pos + (k + 1)]) || s[pos + (k + 1)] == '.');
            }
            assert forall|k: int| 0 <= k < n - 1 implies #[trigger] s[pos + 1 + k] != '.' by {
                assert(s[pos + 0] == '.');
                assert(s[pos + (k + 1)] != '.');
            }
            lemma_number_end_exact(s, pos + 1, n - 1, true);
        }
    }
}

/// The string sub-parser consumes plain content (no quotes, no backslashes)
/// verbatim up to the closing quote.
proof fn lemma_string_content(s: Seq<char>, pos: int, content: Seq<char>, acc: Seq<char>)
    requires
        0 <= pos,
        pos + content.len() < s.len(),
        forall|i: int| 0 <= i < content.len() ==> s[pos + i] == #[trigger] content[i],
        forall|i: int| 0 <= i < content.len() ==> #[trigger] content[i] != '"' && content[i] != '\\',
        s[pos + content.len()] == '"',
    ensures
        spec_string_loop(s, pos, acc, false, false, Seq::empty()) == (
            Ok::<JsonView, JerrView>(JsonView::String(acc + content)),
            pos + content.len() + 1,
        ),
    decreases content.len(),
{
    if content.len() == 0 {
        assert(s[pos] == '"');
        assert(acc + content =~= acc);
    } else {
        let c0 = content[0];
        assert(s[pos + 0] == c0);
        assert(c0 != '"' && c0 != '\\');
        let rest = content.drop_first();
        assert forall|i: int| 0 <= i < rest.len() implies s[pos + 1 + i] == #[trigger] rest[i] by {
            assert(s[pos + (i + 1)] == content[i + 1]);
        }
        assert forall|i: int| 0 <= i < rest.len() implies #[trigger] rest[i] != '"' && rest[i]
            != '\\' by {
            assert(content[i + 1] != '"' && content[i + 1] != '\\');
        }
        assert(s[pos + 1 + rest.len()] == '"');
        lemma_string_content(s, pos + 1, rest, acc.push(c0));
        assert(acc.push(c0) + rest =~= acc + content);
    }
}

/// The serialized items of a non-empty sequence, read from the front: the
/// first element, then a comma and the rest.
proof fn lemma_array_items_front(v: Seq<Json>)
    requires
        v.len() > 0,
    ensures
        v.len() == 1 ==> spec_array_items(v) == spec_to_string(v[0]),
        v.len() > 1 ==> spec_array_items(v) == spec_to_string(v[0]) + seq![',']
            + spec_array_items(v.drop_first()),
    decreases v.len(),
{
    if v.len() == 1 {
    } else if v.len() == 2 {
        assert(v.drop_last() =~= seq![v[0]]);
        assert(v.drop_first() =~= seq![v[1]]);
        assert(spec_array_items(seq![v[0]]) == spec_to_string(v[0]));
        assert(spec_array_items(seq![v[1]]) == spec_to_string(v[1]));
        assert(v.last() == v[1]);
    } else {
        lemma_array_items_front(v.drop_last());
        assert(v.drop_last()[0] == v[0]);
        assert(v.drop_last().drop_first() =~= v.drop_first().drop_last());
        assert(v.drop_first().last() == v.last());
        assert(v.drop_first().len() > 1);
        assert(spec_array_items(v.drop_first()) == spec_array_items(v.drop_first().drop_last())
            + seq![','] + spec_to_string(v.drop_first().last()));
        assert(spec_array_items(v) == spec_array_items(v.drop_last()) + seq![',']
            + spec_to_string(v.last()));
        assert(spec_array_items(v.drop_last()) == spec_to_string(v[0]) + seq![',']
            + spec_array_items(v.drop_last().drop_first()));
        assert(spec_array_items(v) =~= spec_to_string(v[0]) + seq![','] + spec_array_items(
            v.drop_first(),
        ));
    }
}

/// Parsing what the serializer wrote gives back the value: the dispatcher's
/// case, for one serialized value followed by nothing a number could absorb.
proof fn lemma_parse_serialized(j: Json, s: Seq<char>, pos: int)
    requires
        spec_round_trip_safe(j),
        0 <= pos,
        spec_begins_with(s, pos, spec_to_string(j)),
        pos + spec_to_string(j).len() == s.len() || (!spec_is_digit(
            s[pos + spec_to_string(j).len()],
        ) && s[pos + spec_to_string(j).len()] != '.'),
    ensures
        spec_parse_value(s, pos) == (
            Ok::<JsonView, JerrView>(j@),
            pos + spec_to_string(j).len(),
        ),
    decreases j, 0int,
{
    let t = spec_to_string(j);
    lemma_ser_shape(j);
    assert(s[pos + 0] == t[0]);
    match j {
        Json::Null => {
            assert(t == lit_null());
            assert(spec_begins_with(s, pos, lit_null()));
            if spec_begins_with(s, pos, lit_true()) {
                assert(s[pos + 0] == lit_true()[0]);
            }
            if spec_begins_with(s, pos, lit_false()) {
                assert(s[pos + 0] == lit_false()[0]);
            }
        },
        Json::Bool(b) => {
            if b {
                assert(t == lit_true());
            } else {
                assert(t == lit_false());
                if spec_begins_with(s, pos, lit_true()) {
                    assert(s[pos + 0] == lit_true()[0]);
                }
            }
        },
        Json::Number(num) => {
            let nt = num@;
            lemma_literals_unmatched(s, pos);
            assert(spec_is_digit(s[pos]));
            assert forall|k: int| 0 <= k < nt.len() implies spec_is_digit(#[trigger] s[pos + k])
                || s[pos + k] == '.' by {
                assert(s[pos + k] == nt[k]);
            }
            assert forall|k: int, l: int|
                0 <= k < l < nt.len() && #[trigger] s[pos + k] == '.' implies #[trigger] s[pos + l]
                != '.' by {
                assert(s[pos + k] == nt[k]);
                assert(s[pos + l] == nt[l]);
            }
            lemma_number_end_exact(s, pos, nt.len() as int, false);
            assert(s.subrange(pos, pos + nt.len()) =~= nt);
            assert(spec_parse_number(s, pos) == (
                Ok::<JsonView, JerrView>(JsonView::Number(nt)),
                pos + nt.len(),
            ));
        },
        Json::String(str) => {
            lemma_literals_unmatched(s, pos);
            assert(s[pos] == '"');
            let content = str@;
            assert(t =~= seq!['"'] + content + seq!['"']);
            assert forall|i: int| 0 <= i < content.len() implies s[pos + 1 + i] == #[trigger] content[i] by {
                assert(s[pos + (i + 1)] == t[i + 1]);
                assert(t[i + 1] == content[i]);
            }
            assert(s[pos + (1 + content.len())] == t[1 + content.len() as int]);
            assert(t[1 + content.len() as int] == '"');
            lemma_string_content(s, pos + 1, content, Seq::empty());
            assert(Seq::<char>::empty() + content =~= content);
        },
        Json::Array(vec) => {
            lemma_literals_unmatched(s, pos);
            assert(s[pos] == '[');
            let items = spec_array_items(vec@);
            assert(t =~= seq!['['] + items + seq![']']);
            if vec@.len() == 0 {
                assert(items =~= Seq::<char>::empty());
                assert(t.len() == 2);
                assert(s[pos + 1] == t[1]);
                assert(t[1] == ']');
                assert(spec_array_loop(s, pos + 1, ArrayParserState::Beginning, Seq::empty()) == (
                    Ok::<JsonView, JerrView>(JsonView::Array(Seq::empty())),
                    pos + 2,
                ));
                assert(seq_view(vec@) =~= Seq::<JsonView>::empty());
            } else {
                assert forall|i: int|
                    0 <= i < (items + seq![']']).len() implies s[pos + 1 + i] == #[trigger] (items
                    + seq![']'])[i] by {
                    assert(s[pos + (i + 1)] == t[i + 1]);
                    assert(t[i + 1] == (items + seq![']'])[i]);
                }
                assert(spec_begins_with(s, pos + 1, items + seq![']']));
                lemma_parse_serialized_items(vec@, s, pos + 1, ArrayParserState::Beginning, Seq::empty());
                assert(Seq::<JsonView>::empty() + seq_view(vec@) =~= seq_view(vec@));
            }
        },
        Json::Object(map) => {
            lemma_literals_unmatched(s, pos);
            assert(s[pos] == '{');
            assert(spec_object_items(map.spec_entries()) =~= Seq::<char>::empty());
            assert(t.len() == 2);
            assert(s[pos + 1] == t[1]);
            assert(t[1] == '}');
            crate::common::lemma_jmap_view_entries(map);
            assert(map@ =~= Map::<Seq<char>, JsonView>::empty());
        },
    }
}

/// Parsing what the serializer wrote gives back the values: the array loop's
/// case, for serialized elements joined by commas and closed by a bracket.
proof fn lemma_parse_serialized_items(
    elems: Seq<Json>,
    s: Seq<char>,
    pos: int,
    state: ArrayParserState,
    acc: Seq<JsonView>,
)
    requires
        elems.len() > 0,
        forall|i: int| 0 <= i < elems.len() ==> spec_round_trip_safe(#[trigger] elems[i]),
        0 <= pos,
        state == ArrayParserState::Beginning || state == ArrayParserState::Value,
        spec_begins_with(s, pos, spec_array_items(elems) + seq![']']),
    ensures
        spec_array_loop(s, pos, state, acc) == (
            Ok::<JsonView, JerrView>(JsonView::Array(acc + seq_view(elems))),
            pos + spec_array_items(elems).len() + 1,
        ),
    decreases elems, 1int,
{
    let e0 = elems[0];
    let t0 = spec_to_string(e0);
    let items = spec_array_items(elems);
    lemma_array_items_front(elems);
    lemma_ser_shape(e0);
    if elems.len() == 1 {
        assert(items == t0);
        lemma_begins_with_concat(s, pos, t0, seq![']']);
        assert((seq![']'])[0] == ']');
        assert(s[(pos + t0.len()) + 0] == (seq![']'])[0]);
        assert(s[pos + t0.len()] == ']');
        lemma_parse_serialized(e0, s, pos);
        assert(s[pos + 0] == t0[0]);
        let c = s[pos];
        assert(c != ',' && c != ']' && !spec_is_space(c));
        let step = spec_parse_value(s, pos);
        assert(step == (Ok::<JsonView, JerrView>(e0@), pos + t0.len()));
        assert(pos + t0.len() < s.len());
        assert(spec_array_loop(s, pos + t0.len(), ArrayParserState::Comma, acc.push(e0@)) == (
            Ok::<JsonView, JerrView>(JsonView::Array(acc.push(e0@))),
            pos + t0.len() + 1,
        ));
        assert(acc.push(e0@) =~= acc + seq_view(elems));
    } else {
        let rest = elems.drop_first();
        assert(items == t0 + seq![','] + spec_array_items(rest));
        assert(items + seq![']'] =~= t0 + (seq![','] + spec_array_items(rest) + seq![']']));
        lemma_begins_with_concat(s, pos, t0, seq![','] + spec_array_items(rest) + seq![']']);
        let after = pos + t0.len();
        assert(s[after + 0] == (seq![','] + spec_array_items(rest) + seq![']'])[0]);
        assert(s[after] == ',');
        lemma_parse_serialized(e0, s, pos);
        assert(s[pos + 0] == t0[0]);
        let c = s[pos];
        assert(c != ',' && c != ']' && !spec_is_space(c));
        let step = spec_parse_value(s, pos);
        assert(step == (Ok::<JsonView, JerrView>(e0@), after));
        assert(after < s.len());
        assert(seq![','] + spec_array_items(rest) + seq![']'] =~= seq![','] + (spec_array_items(
            rest,
        ) + seq![']']));
        lemma_begins_with_concat(
            s,
            after,
            seq![','],
            spec_array_items(rest) + seq![']'],
        );
        assert forall|i: int| 0 <= i < rest.len() implies spec_round_trip_safe(
            #[trigger] rest[i],
        ) by {
            assert(spec_round_trip_safe(elems[i + 1]));
        }
        lemma_parse_serialized_items(rest, s, after + 1, ArrayParserState::Value, acc.push(e0@));
        assert(spec_array_loop(s, after, ArrayParserState::Comma, acc.push(e0@))
            == spec_array_loop(s, after + 1, ArrayParserState::Value, acc.push(e0@)));
        assert(acc.push(e0@) + seq_view(rest) =~= acc + seq_view(elems));
        assert(pos + items.len() + 1 == after + 1 + spec_array_items(rest).len() + 1);
    }
}

/// Serializing a round-trip-safe value and parsing the text back yields the
/// value again. Objects other than the empty one are not round-trip-safe:
/// the serializer emits their keys raw, which cannot re-parse.
pub proof fn lemma_serialize_then_parse(j: Json)
    requires
        spec_round_trip_safe(j),
    ensures
        spec_json_parse(spec_to_string(j)) == Ok::<JsonView, JerrView>(j@),
{
    let t = spec_to_string(j);
    lemma_ser_shape(j);
    assert(spec_trim_front(t) == t);
    assert(spec_trim_back(t) == t);
    assert(spec_trim(t) == t);
    assert(spec_begins_with(t, 0, t)) by {
        assert(forall|i: int| 0 <= i < t.len() ==> t[0 + i] == #[trigger] t[i]);
    }
    lemma_parse_serialized(j, t, 0);
}


/// Duplicate keys: the later binding wins. The map denoted by a sequence of
/// key/value entries — which is what a [`crate::common::Jmap`] holds, and
/// what the object sub-parser builds binding by binding in textual order —
/// gives each key the value of that key's last occurrence.
pub proof fn lemma_last_write_wins(es: Seq<(String, Json)>, i: int)
    requires
        0 <= i < es.len(),
        forall|k: int| i < k < es.len() ==> (#[trigger] es[k]).0@ != es[i].0@,
    ensures
        map_of_entries(es).contains_key(es[i].0@),
        map_of_entries(es)[es[i].0@] == es[i].1@,
    decreases es.len(),
{
    assert(map_of_entries(es) == map_of_entries(es.drop_last()).insert(
        es.last().0@,
        es.last().1@,
    ));
    if i < es.len() - 1 {
        assert(es.last().0@ != es[i].0@);
        lemma_last_write_wins(es.drop_last(), i);
    }
}

/// Duplicate keys: the map's size is the number of distinct keys. The domain
/// of the denoted map is exactly the (finite) set of keys that occur in the
/// entry sequence, however many times each occurs.
pub proof fn lemma_map_size_is_distinct_keys(es: Seq<(String, Json)>)
    ensures
        map_of_entries(es).dom().finite(),
        map_of_entries(es).dom() =~= Set::new(
            |key: Seq<char>| exists|k: int| 0 <= k < es.len() && (#[trigger] es[k]).0@ == key,
        ),
    decreases es.len(),
{
    let keys = Set::new(
        |key: Seq<char>| exists|k: int| 0 <= k < es.len() && (#[trigger] es[k]).0@ == key,
    );
    if es.len() == 0 {
        assert(map_of_entries(es) == Map::<Seq<char>, JsonView>::empty());
        assert(map_of_entries(es).dom() =~= keys);
    } else {
        lemma_map_size_is_distinct_keys(es.drop_last());
        assert(map_of_entries(es) == map_of_entries(es.drop_last()).insert(
            es.last().0@,
            es.last().1@,
        ));
        let prev = Set::new(
            |key: Seq<char>| exists|k: int|
                0 <= k < es.drop_last().len() && (#[trigger] es.drop_last()[k]).0@ == key,
        );
        assert forall|key: Seq<char>| map_of_entries(es).dom().contains(key) implies keys.contains(
            key,
        ) by {
            if key == es.last().0@ {
                assert((es[es.len() - 1]).0@ == key);
            } else {
                assert(prev.contains(key));
                let k = choose|k: int|
                    0 <= k < es.drop_last().len() && (#[trigger] es.drop_last()[k]).0@ == key;
                assert((es[k]).0@ == key);
            }
        }
        assert forall|key: Seq<char>| keys.contains(key) implies map_of_entries(
            es,
        ).dom().contains(key) by {
            let k = choose|k: int| 0 <= k < es.len() && (#[trigger] es[k]).0@ == key;
            if k == es.len() - 1 {
                assert(key == es.last().0@);
            } else {
                assert((es.drop_last()[k]).0@ == key);
                assert(prev.contains(key));
            }
        }
        assert(map_of_entries(es).dom() =~= keys);
    }
}

} // verus!
