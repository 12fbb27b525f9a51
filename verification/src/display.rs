//! The serializer: a human-readable debug projection of a value tree back to
//! text. It is deliberately lossy: object keys are emitted raw, and string
//! content is not re-escaped, so it is not a round-trip encoder in general.

use crate::common::{ends_with, pop_char, push_char, Jmap, Json};
use crate::model::{lit_false, lit_null, lit_true};
use vstd::prelude::*;
use vstd::string::{StrSliceExecFns, StringExecFns};

verus! {

/// The text that the serializer produces for a value.
pub open spec fn spec_to_string(j: Json) -> Seq<char>
    decreases j,
    via spec_to_string_decreases
{
    match j {
        Json::Null => lit_null(),
        Json::Bool(b) => if b {
            lit_true()
        } else {
            lit_false()
        },
        Json::Number(num) => num@,
        Json::String(str) => seq!['"'] + str@ + seq!['"'],
        Json::Array(vec) => seq!['['] + spec_array_items(vec@) + seq![']'],
        Json::Object(map) => seq!['{'] + spec_object_items(map.spec_entries()) + seq!['}'],
    }
}

#[via_fn]
proof fn spec_to_string_decreases(j: Json) {
    match j {
        Json::Object(map) => {
            if map.spec_entries().len() > 0 {
                crate::common::lemma_jmap_entry_decreases(map, 0);
            } else {
                crate::common::lemma_jmap_entries_decreases(map);
            }
        },
        _ => {},
    }
}

/// The serialized elements of an array, joined by commas.
pub open spec fn spec_array_items(v: Seq<Json>) -> Seq<char>
    decreases v,
{
    if v.len() == 0 {
        Seq::empty()
    } else if v.len() == 1 {
        spec_to_string(v[0])
    } else {
        spec_array_items(v.drop_last()) + seq![','] + spec_to_string(v.last())
    }
}

/// The serialized `key:value` bindings of an object, joined by commas; keys
/// are emitted raw, without quotes or escaping.
pub open spec fn spec_object_items(es: Seq<(String, Json)>) -> Seq<char>
    decreases es,
{
    if es.len() == 0 {
        Seq::empty()
    } else if es.len() == 1 {
        es[0].0@ + seq![':'] + spec_to_string(es[0].1)
    } else {
        spec_object_items(es.drop_last()) + seq![','] + es.last().0@ + seq![':'] + spec_to_string(
            es.last().1,
        )
    }
}

/// Serializes an array: the elements joined by commas, in brackets.
fn array_to_string(vec: &Vec<Json>) -> (r: String)
    ensures
        r@ == seq!['['] + spec_array_items(vec@) + seq![']'],
    decreases vec,
{
    let mut text = String::from_str("[");
    proof {
        reveal_strlit("[");
        assert(text@ =~= seq!['[']);
    }
    let n = vec.len();
    let mut i: usize = 0;
    while i < n
        invariant
            n == vec@.len(),
            i <= n,
            i == 0 ==> text@ == seq!['['],
            i > 0 ==> text@ == seq!['['] + spec_array_items(vec@.take(i as int)) + seq![','],
        decreases n - i,
    {
        let s = vec[i].to_string();
        text.append(s.as_str());
        push_char(&mut text, ',');
        proof {
            if i == 0 {
                assert(vec@.take(1)[0] == vec@[0]);
                assert(spec_array_items(vec@.take(1)) == spec_to_string(vec@[0]));
                assert(text@ =~= seq!['['] + spec_array_items(vec@.take(1)) + seq![',']);
            } else {
                assert(vec@.take(i + 1).drop_last() =~= vec@.take(i as int));
                assert(vec@.take(i + 1).last() == vec@[i as int]);
                assert(spec_array_items(vec@.take(i + 1)) == spec_array_items(vec@.take(i as int))
                    + seq![','] + spec_to_string(vec@[i as int]));
                assert(text@ =~= seq!['['] + spec_array_items(vec@.take(i + 1)) + seq![',']);
            }
        }
        i += 1;
    }
    if ends_with(text.as_str(), ',') {
        let _ = pop_char(&mut text);
        proof {
            assert(n > 0);
            assert(text@ =~= seq!['['] + spec_array_items(vec@.take(n as int)));
        }
    }
    push_char(&mut text, ']');
    proof {
        assert(vec@.take(n as int) =~= vec@);
        assert(text@ =~= seq!['['] + spec_array_items(vec@) + seq![']']);
    }
    text
}

/// Serializes an object: the `key:value` bindings joined by commas, in
/// braces, keys raw.
fn object_to_string(map: &Jmap) -> (r: String)
    ensures
        r@ == seq!['{'] + spec_object_items(map.spec_entries()) + seq!['}'],
    decreases map,
{
    let mut text = String::from_str("{");
    proof {
        reveal_strlit("{");
        assert(text@ =~= seq!['{']);
    }
    let entries = map.entries();
    let ghost es = map.spec_entries();
    let n = entries.len();
    let mut i: usize = 0;
    while i < n
        invariant
            es == map.spec_entries(),
            entries@ == es,
            n == es.len(),
            i <= n,
            i == 0 ==> text@ == seq!['{'],
            i > 0 ==> text@ == seq!['{'] + spec_object_items(es.take(i as int)) + seq![','],
        decreases n - i,
    {
        text.append(entries[i].0.as_str());
        push_char(&mut text, ':');
        proof {
            crate::common::lemma_jmap_entry_decreases(*map, i as int);
        }
        let s = entries[i].1.to_string();
        text.append(s.as_str());
        push_char(&mut text, ',');
        proof {
            if i == 0 {
                assert(es.take(1)[0] == es[0]);
                assert(spec_object_items(es.take(1)) == es[0].0@ + seq![':'] + spec_to_string(
                    es[0].1,
                ));
                assert(text@ =~= seq!['{'] + spec_object_items(es.take(1)) + seq![',']);
            } else {
                assert(es.take(i + 1).drop_last() =~= es.take(i as int));
                assert(es.take(i + 1).last() == es[i as int]);
                assert(spec_object_items(es.take(i + 1)) == spec_object_items(es.take(i as int))
                    + seq![','] + es[i as int].0@ + seq![':'] + spec_to_string(es[i as int].1));
                assert(text@ =~= seq!['{'] + spec_object_items(es.take(i + 1)) + seq![',']);
            }
        }
        i += 1;
    }
    if ends_with(text.as_str(), ',') {
        let _ = pop_char(&mut text);
        proof {
            assert(n > 0);
            assert(text@ =~= seq!['{'] + spec_object_items(es.take(n as int)));
        }
    }
    push_char(&mut text, '}');
    proof {
        assert(es.take(n as int) =~= es);
        assert(text@ =~= seq!['{'] + spec_object_items(es) + seq!['}']);
    }
    text
}

impl Json {
    /// Serializes this value as text.
    pub fn to_string(&self) -> (r: String)
        ensures
            r@ == spec_to_string(*self),
        decreases self,
    {
        match self {
            Json::Null => {
                let r = String::from_str("null");
                proof {
                    reveal_strlit("null");
                    assert(r@ =~= lit_null());
                }
                r
            },
            Json::Number(num) => num.clone(),
            Json::String(str) => {
                let mut text = String::new();
                push_char(&mut text, '"');
                text.append(str.as_str());
                push_char(&mut text, '"');
                proof {
                    assert(text@ =~= seq!['"'] + str@ + seq!['"']);
                }
                text
            },
            Json::Bool(bl) => {
                if *bl {
                    let r = String::from_str("true");
                    proof {
                        reveal_strlit("true");
                        assert(r@ =~= lit_true());
                    }
                    r
                } else {
                    let r = String::from_str("false");
                    proof {
                        reveal_strlit("false");
                        assert(r@ =~= lit_false());
                    }
                    r
                }
            },
            Json::Array(vec) => array_to_string(vec),
            Json::Object(map) => object_to_string(map),
        }
    }
}

} // verus!
