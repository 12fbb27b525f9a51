//! The number sub-parser: accumulates a digit/dot lexeme and validates it.

use crate::common::{
    ends_with, is_digit, json_wf, push_char, spec_is_digit, starts_with, Cursor, Jerr, JerrView,
    Json, JsonView,
};
use crate::model::{spec_number_end, spec_number_valid, spec_parse_number, spec_result_matches};
use vstd::prelude::*;
use vstd::string::StrSliceExecFns;

verus! {

/// The number sub-parser. It keeps no state of its own: the lexeme buffer and
/// the dot flag live in [`JNumberParser::parse`].
pub struct JNumberParser;

impl JNumberParser {
    /// Validates an accumulated lexeme: no trailing dot, and a leading zero
    /// only in the one-character text `0`.
    fn number_final_check(text: &str) -> (r: bool)
        requires
            text@.len() > 0,
        ensures
            r == spec_number_valid(text@),
    {
        let r2 = ends_with(text, '.');
        let r3 = starts_with(text, '0') && text.unicode_len() > 1;
        return !r2 && !r3;
    }

    /// Wraps a validated lexeme as a number value, or reports it as an
    /// invalid token.
    fn parse_number_finalize(buffer: String) -> (r: Result<Json, Jerr>)
        requires
            buffer@.len() > 0,
        ensures
            spec_number_valid(buffer@) ==> (r matches Ok(j) && j@ == JsonView::Number(buffer@)
                && json_wf(j)),
            !spec_number_valid(buffer@) ==> (r matches Err(e) && e@ == JerrView::InvalidToken(
                buffer@,
            )),
    {
        if JNumberParser::number_final_check(buffer.as_str()) {
            Ok(Json::Number(buffer))
        } else {
            Err(Jerr::InvalidToken(buffer))
        }
    }

    /// One step of the accumulation loop: consume a digit, or the first dot,
    /// into the buffer; any other character finalizes the lexeme.
    fn parse_number_push(iter: &mut Cursor, buffer: String, once_dot: &mut bool, c: char) -> (r:
        Result<Result<Json, Jerr>, String>)
        requires
            old(iter).wf(),
            old(iter).has_next(),
            c == old(iter).chars()[old(iter).position()],
            buffer@.len() == 0 ==> spec_is_digit(c) || (c == '.' && !*old(once_dot)),
        ensures
            final(iter).wf(),
            final(iter).chars() == old(iter).chars(),
            spec_is_digit(c) ==> {
                &&& r matches Err(b2) && b2@ == buffer@.push(c)
                &&& final(iter).position() == old(iter).position() + 1
                &&& *final(once_dot) == *old(once_dot)
            },
            !spec_is_digit(c) && c == '.' && !*old(once_dot) ==> {
                &&& r matches Err(b2) && b2@ == buffer@.push(c)
                &&& final(iter).position() == old(iter).position() + 1
                &&& *final(once_dot)
            },
            !spec_is_digit(c) && (c != '.' || *old(once_dot)) ==> {
                &&& *final(iter) == *old(iter)
                &&& *final(once_dot) == *old(once_dot)
                &&& r matches Ok(inner) && (if spec_number_valid(buffer@) {
                    inner matches Ok(j) && j@ == JsonView::Number(buffer@) && json_wf(j)
                } else {
                    inner matches Err(e) && e@ == JerrView::InvalidToken(buffer@)
                })
            },
    {
        if is_digit(c) {
            let mut buffer = buffer;
            push_char(&mut buffer, c);
            iter.next();
            Err(buffer)
        } else if c == '.' {
            if !*once_dot {
                *once_dot = true;
                let mut buffer = buffer;
                push_char(&mut buffer, c);
                iter.next();
                Err(buffer)
            } else {
                Ok(JNumberParser::parse_number_finalize(buffer))
            }
        } else {
            Ok(JNumberParser::parse_number_finalize(buffer))
        }
    }

    /// Consumes the number lexeme that starts at the cursor and returns its
    /// value, leaving the cursor on the first character past the lexeme.
    #[verifier::loop_isolation(false)]
    pub fn parse(iter: &mut Cursor) -> (r: Result<Json, Jerr>)
        requires
            old(iter).wf(),
            old(iter).has_next(),
            spec_is_digit(old(iter).chars()[old(iter).position()]) || old(iter).chars()[old(
                iter,
            ).position()] == '.',
        ensures
            final(iter).wf(),
            final(iter).chars() == old(iter).chars(),
            spec_result_matches(
                r,
                spec_parse_number(old(iter).chars(), old(iter).position()),
                final(iter).position(),
            ),
            r matches Ok(j) ==> json_wf(j),
    {
        let mut buffer = String::new();
        let mut once_dot = false;
        let ghost s = old(iter).chars();
        let ghost pos0 = old(iter).position();
        proof {
            assert(buffer@ =~= s.subrange(pos0, pos0));
        }

        loop
            invariant
                iter.wf(),
                iter.chars() == s,
                0 <= pos0 <= iter.position() <= s.len(),
                pos0 < s.len(),
                spec_is_digit(s[pos0]) || s[pos0] == '.',
                buffer@ == s.subrange(pos0, iter.position()),
                spec_number_end(s, pos0, false) == spec_number_end(
                    s,
                    iter.position(),
                    once_dot,
                ),
                buffer@.len() == 0 ==> iter.position() == pos0 && !once_dot,
            decreases s.len() - iter.position(),
        {
            match iter.peek() {
                None => {
                    proof {
                        assert(spec_number_end(s, iter.position(), once_dot) == iter.position());
                    }
                    return JNumberParser::parse_number_finalize(buffer);
                },
                Some((_, c)) => {
                    let ghost pos_before = iter.position();
                    match JNumberParser::parse_number_push(iter, buffer, &mut once_dot, c) {
                        Err(string) => {
                            proof {
                                assert(s.subrange(pos0, pos_before + 1) =~= s.subrange(
                                    pos0,
                                    pos_before,
                                ).push(s[pos_before]));
                            }
                            buffer = string;
                        },
                        Ok(res) => {
                            proof {
                                assert(spec_number_end(s, iter.position(), once_dot)
                                    == iter.position());
                            }
                            return res;
                        },
                    }
                },
            }
        }
    }
}

} // verus!
