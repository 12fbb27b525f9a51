//! The array sub-parser: a three-state machine over `[` … `]`, delegating
//! elements to the value dispatcher.

use crate::common::{json_seq_wf, json_wf, seq_view, Cursor, Jerr, JerrView, Json, JsonView};
use crate::BasicIteratorParser;
use crate::model::{
    lemma_parse_value_bounds, spec_array_loop, spec_parse_value, spec_result_matches, spec_step_eq,
    ArrayParserState,
};
use vstd::prelude::*;

verus! {

/// The array sub-parser: the elements collected so far and the state of the
/// comma/value machine.
pub struct JArrayParser {
    vector: Vec<Json>,
    state: ArrayParserState,
}

impl JArrayParser {
    /// The parser is in its starting state, ready for a fresh array.
    pub closed spec fn spec_fresh(&self) -> bool {
        &&& self.vector@.len() == 0
        &&& self.state == ArrayParserState::Beginning
    }

    /// A fresh array sub-parser.
    pub fn new() -> (r: JArrayParser)
        ensures
            r.spec_fresh(),
    {
        JArrayParser { vector: Vec::new(), state: ArrayParserState::Beginning }
    }

    /// Puts the parser back into its starting state.
    fn reset(&mut self)
        ensures
            final(self).spec_fresh(),
    {
        *self = JArrayParser::new();
    }

    /// Consumes a comma between elements; anywhere else a comma means a
    /// missing value.
    fn push_comma(&mut self, iter: &mut Cursor, i: usize) -> (r: Result<(), Jerr>)
        requires
            old(iter).wf(),
            old(iter).has_next(),
            i == old(iter).position(),
        ensures
            final(iter).wf(),
            final(iter).chars() == old(iter).chars(),
            old(self).state == ArrayParserState::Comma ==> {
                &&& r is Ok
                &&& final(iter).position() == old(iter).position() + 1
                &&& final(self).state == ArrayParserState::Value
                &&& final(self).vector == old(self).vector
            },
            old(self).state != ArrayParserState::Comma ==> {
                &&& (r matches Err(e) && e@ == JerrView::ExpectedValue(i as int))
                &&& *final(iter) == *old(iter)
                &&& *final(self) == *old(self)
            },
    {
        if self.state == ArrayParserState::Comma {
            let _ = iter.next();
            self.state = ArrayParserState::Value;
            Ok(())
        } else {
            Err(Jerr::ExpectedValue(i))
        }
    }

    /// Consumes the closing bracket and emits the array; right after a comma
    /// a bracket means a missing value.
    fn push_bracket(&mut self, iter: &mut Cursor, i: usize) -> (r: Result<Json, Jerr>)
        requires
            old(iter).wf(),
            old(iter).has_next(),
            i == old(iter).position(),
        ensures
            final(iter).wf(),
            final(iter).chars() == old(iter).chars(),
            old(self).state == ArrayParserState::Comma || old(self).state
                == ArrayParserState::Beginning ==> {
                &&& (r matches Ok(j) && j@ == JsonView::Array(seq_view(old(self).vector@)))
                &&& (json_seq_wf(old(self).vector@) ==> (r matches Ok(j) && json_wf(j)))
                &&& final(iter).position() == old(iter).position() + 1
                &&& final(self).spec_fresh()
            },
            !(old(self).state == ArrayParserState::Comma || old(self).state
                == ArrayParserState::Beginning) ==> {
                &&& (r matches Err(e) && e@ == JerrView::ExpectedValue(i as int))
                &&& *final(iter) == *old(iter)
                &&& *final(self) == *old(self)
            },
    {
        if self.state == ArrayParserState::Comma || self.state == ArrayParserState::Beginning {
            let _ = iter.next();
            let mut vec: Vec<Json> = Vec::new();
            core::mem::swap(&mut vec, &mut self.vector);
            self.reset();
            return Ok(Json::Array(vec));
        } else {
            return Err(Jerr::ExpectedValue(i));
        }
    }

    /// Delegates one element to the dispatcher and appends it; where only a
    /// comma or the closing bracket may stand, anything else is rejected.
    fn push_value(
        &mut self,
        iter: &mut Cursor,
        iterparser: &BasicIteratorParser,
        i: usize,
    ) -> (r: Result<(), Jerr>)
        requires
            old(iter).wf(),
            i == old(iter).position(),
        ensures
            final(iter).wf(),
            final(iter).chars() == old(iter).chars(),
            old(self).state == ArrayParserState::Value || old(self).state
                == ArrayParserState::Beginning ==> ({
                let step = spec_parse_value(old(iter).chars(), i as int);
                match step.0 {
                    Ok(v) => {
                        &&& r is Ok
                        &&& final(self).state == ArrayParserState::Comma
                        &&& seq_view(final(self).vector@) == seq_view(old(self).vector@).push(v)
                        &&& (json_seq_wf(old(self).vector@) ==> json_seq_wf(final(self).vector@))
                        &&& final(iter).position() == step.1
                    },
                    Err(ev) => r matches Err(e) && e@ == ev,
                }
            }),
            !(old(self).state == ArrayParserState::Value || old(self).state
                == ArrayParserState::Beginning) ==> {
                &&& (r matches Err(e) && e@ == JerrView::ExpectedCommaOrEnd(i as int))
                &&& *final(iter) == *old(iter)
                &&& *final(self) == *old(self)
            },
        decreases old(iter).chars().len() - old(iter).position(), 2int,
    {
        if self.state == ArrayParserState::Value || self.state == ArrayParserState::Beginning {
            match iterparser.parse(iter) {
                Ok(j) => {
                    self.vector.push(j);
                    proof {
                        assert(seq_view(self.vector@) =~= seq_view(old(self).vector@).push(j@));
                        if json_seq_wf(old(self).vector@) {
                            assert forall|k: int| 0 <= k < self.vector@.len() implies json_wf(
                                #[trigger] self.vector@[k],
                            ) by {
                                if k < old(self).vector@.len() {
                                    assert(self.vector@[k] == old(self).vector@[k]);
                                }
                            }
                        }
                    }
                    self.state = ArrayParserState::Comma;
                    Ok(())
                },
                Err(e) => Err(e),
            }
        } else {
            return Err(Jerr::ExpectedCommaOrEnd(i));
        }
    }

    /// Skips one whitespace character.
    fn push_space(&mut self, iter: &mut Cursor)
        requires
            old(iter).wf(),
            old(iter).has_next(),
        ensures
            final(iter).wf(),
            final(iter).chars() == old(iter).chars(),
            final(iter).position() == old(iter).position() + 1,
            *final(self) == *old(self),
    {
        let _ = iter.next();
    }

    /// Consumes a whole array, the opening bracket included, and returns it;
    /// the cursor ends just past the closing bracket.
    pub fn parse(&mut self, iter: &mut Cursor, iterparser: &BasicIteratorParser) -> (r: Result<
        Json,
        Jerr,
    >)
        requires
            old(self).spec_fresh(),
            old(iter).wf(),
            old(iter).has_next(),
        ensures
            final(iter).wf(),
            final(iter).chars() == old(iter).chars(),
            spec_result_matches(
                r,
                spec_array_loop(
                    old(iter).chars(),
                    old(iter).position() + 1,
                    ArrayParserState::Beginning,
                    Seq::empty(),
                ),
                final(iter).position(),
            ),
            r is Ok ==> final(self).spec_fresh(),
            r matches Ok(j) ==> json_wf(j),
        decreases old(iter).chars().len() - old(iter).position(), 0int,
    {
        let ghost s = old(iter).chars();
        let ghost pos0 = old(iter).position();
        let ghost whole = spec_array_loop(s, pos0 + 1, ArrayParserState::Beginning, Seq::empty());
        iter.next().unwrap();
        proof {
            assert(seq_view(self.vector@) =~= Seq::<JsonView>::empty());
        }
        loop
            invariant
                s == old(iter).chars(),
                pos0 == old(iter).position(),
                whole == spec_array_loop(s, pos0 + 1, ArrayParserState::Beginning, Seq::empty()),
                iter.wf(),
                iter.chars() == s,
                pos0 < iter.position() <= s.len(),
                spec_step_eq(
                    whole,
                    spec_array_loop(s, iter.position(), self.state, seq_view(self.vector@)),
                ),
                json_seq_wf(self.vector@),
            decreases s.len() - iter.position(),
        {
            let ghost p = iter.position();
            let ghost stprev = self.state;
            let ghost accprev = seq_view(self.vector@);
            match iter.peek() {
                None => {
                    proof {
                        assert(spec_array_loop(s, p, stprev, accprev) == (
                            Err::<JsonView, JerrView>(JerrView::UnexpectedEnd),
                            p,
                        ));
                    }
                    return Err(Jerr::UnexpectedEnd);
                },
                Some((i, c)) => {
                    if c == ',' {
                        match self.push_comma(iter, i) {
                            Ok(_) => {
                                proof {
                                    assert(spec_array_loop(s, p, stprev, accprev)
                                        == spec_array_loop(
                                        s,
                                        p + 1,
                                        ArrayParserState::Value,
                                        accprev,
                                    ));
                                }
                            },
                            Err(e) => {
                                proof {
                                    assert(spec_array_loop(s, p, stprev, accprev).0
                                        == Err::<JsonView, JerrView>(e@));
                                }
                                return Err(e);
                            },
                        }
                    } else if c == ']' {
                        match self.push_bracket(iter, i) {
                            Ok(j) => {
                                proof {
                                    assert(spec_array_loop(s, p, stprev, accprev) == (
                                        Ok::<JsonView, JerrView>(JsonView::Array(accprev)),
                                        p + 1,
                                    ));
                                }
                                return Ok(j);
                            },
                            Err(e) => {
                                proof {
                                    assert(spec_array_loop(s, p, stprev, accprev).0
                                        == Err::<JsonView, JerrView>(e@));
                                }
                                return Err(e);
                            },
                        }
                    } else if c == ' ' || c == '\n' || c == '\t' {
                        self.push_space(iter);
                        proof {
                            assert(spec_array_loop(s, p, stprev, accprev) == spec_array_loop(
                                s,
                                p + 1,
                                stprev,
                                accprev,
                            ));
                        }
                    } else {
                        match self.push_value(iter, iterparser, i) {
                            Ok(_) => {
                                proof {
                                    lemma_parse_value_bounds(s, p);
                                    let step = spec_parse_value(s, p);
                                    assert(spec_array_loop(s, p, stprev, accprev)
                                        == spec_array_loop(
                                        s,
                                        step.1,
                                        ArrayParserState::Comma,
                                        accprev.push(step.0->Ok_0),
                                    ));
                                }
                            },
                            Err(e) => {
                                proof {
                                    assert(spec_array_loop(s, p, stprev, accprev).0
                                        == Err::<JsonView, JerrView>(e@));
                                }
                                return Err(e);
                            },
                        }
                    }
                },
            }
        }
    }
}

} // verus!
