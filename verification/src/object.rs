//! The object sub-parser: a four-state machine over `{` … `}`, delegating
//! keys and values to the value dispatcher.

use crate::common::{jmap_values_wf, json_wf, Cursor, Jerr, JerrView, Jmap, Json, JsonView};
use crate::model::{
    lemma_parse_value_bounds, spec_object_loop, spec_object_start, spec_parse_value,
    spec_result_matches, spec_step_eq, ObjectParserState,
};
use crate::BasicIteratorParser;
use vstd::prelude::*;

verus! {

/// The object sub-parser: the bindings collected so far, the key awaiting its
/// value, and the state of the key/colon/value/comma machine.
pub struct JObjectParser {
    state: ObjectParserState,
    identifier: String,
    map: Jmap,
}

impl JObjectParser {
    /// The parser is in its starting state, ready for a fresh object.
    pub closed spec fn spec_fresh(&self) -> bool {
        &&& self.state == ObjectParserState::Label
        &&& self.identifier@.len() == 0
        &&& self.map.wf()
        &&& self.map@ == Map::<Seq<char>, JsonView>::empty()
        &&& self.map.spec_entries().len() == 0
    }

    /// A fresh object sub-parser.
    pub fn new() -> (r: JObjectParser)
        ensures
            r.spec_fresh(),
    {
        JObjectParser { state: ObjectParserState::Label, identifier: String::new(), map: Jmap::new() }
    }

    /// Puts the parser back into its starting state.
    fn reset(&mut self)
        ensures
            final(self).spec_fresh(),
    {
        *self = JObjectParser::new();
    }

    /// Delegates one key to the dispatcher; anything but a string value where
    /// a key belongs is rejected.
    fn push_label(&mut self, iter: &mut Cursor, i: usize, iterparser: &BasicIteratorParser) -> (r:
        Result<(), Jerr>)
        requires
            old(iter).wf(),
            i == old(iter).position(),
        ensures
            final(iter).wf(),
            final(iter).chars() == old(iter).chars(),
            final(self).map == old(self).map,
            ({
                let step = spec_parse_value(old(iter).chars(), i as int);
                match step.0 {
                    Ok(v) => match v {
                        JsonView::String(k) => {
                            &&& r is Ok
                            &&& final(self).state == ObjectParserState::Colon
                            &&& final(self).identifier@ == k
                            &&& final(iter).position() == step.1
                        },
                        _ => (r matches Err(e) && e@ == JerrView::ExpectedProperty(i as int)),
                    },
                    Err(_) => (r matches Err(e) && e@ == JerrView::ExpectedProperty(i as int)),
                }
            }),
        decreases old(iter).chars().len() - old(iter).position(), 2int,
    {
        match iterparser.parse(iter) {
            Ok(json) => {
                match json {
                    Json::String(str) => {
                        self.identifier = str;
                        self.state = ObjectParserState::Colon;
                        Ok(())
                    },
                    _ => Err(Jerr::ExpectedProperty(i)),
                }
            },
            Err(_) => Err(Jerr::ExpectedProperty(i)),
        }
    }

    /// Consumes the colon between a key and its value.
    fn push_colon(&mut self, iter: &mut Cursor, c: char, i: usize) -> (r: Result<(), Jerr>)
        requires
            old(iter).wf(),
            old(iter).has_next(),
            i == old(iter).position(),
        ensures
            final(iter).wf(),
            final(iter).chars() == old(iter).chars(),
            final(self).map == old(self).map,
            final(self).identifier == old(self).identifier,
            c == ':' ==> {
                &&& r is Ok
                &&& final(self).state == ObjectParserState::Value
                &&& final(iter).position() == old(iter).position() + 1
            },
            c != ':' ==> {
                &&& (r matches Err(e) && e@ == JerrView::ExpectedColon(i as int))
                &&& *final(iter) == *old(iter)
                &&& *final(self) == *old(self)
            },
    {
        match c {
            ':' => {
                let _ = iter.next();
                self.state = ObjectParserState::Value;
                Ok(())
            },
            _ => Err(Jerr::ExpectedColon(i)),
        }
    }

    /// Delegates one value to the dispatcher and binds it to the pending key,
    /// a later binding of the same key replacing the earlier.
    fn push_value(&mut self, iter: &mut Cursor, i: usize, iterparser: &BasicIteratorParser) -> (r:
        Result<(), Jerr>)
        requires
            old(iter).wf(),
            i == old(iter).position(),
            old(self).map.wf(),
        ensures
            final(iter).wf(),
            final(iter).chars() == old(iter).chars(),
            final(self).map.wf(),
            ({
                let step = spec_parse_value(old(iter).chars(), i as int);
                match step.0 {
                    Ok(v) => {
                        &&& r is Ok
                        &&& final(self).state == ObjectParserState::Comma
                        &&& final(self).identifier@.len() == 0
                        &&& final(self).map@ == old(self).map@.insert(old(self).identifier@, v)
                        &&& (jmap_values_wf(old(self).map) ==> jmap_values_wf(final(self).map))
                        &&& final(iter).position() == step.1
                    },
                    Err(_) => (r matches Err(e) && e@ == JerrView::ExpectedValue(i as int)),
                }
            }),
        decreases old(iter).chars().len() - old(iter).position(), 2int,
    {
        match iterparser.parse(iter) {
            Ok(json) => {
                let mut key = String::new();
                core::mem::swap(&mut key, &mut self.identifier);
                let ghost before = self.map.spec_entries();
                self.map.insert(key, json);
                proof {
                    if jmap_values_wf(old(self).map) {
                        assert forall|k: int|
                            0 <= k < self.map.spec_entries().len() implies json_wf(
                            #[trigger] self.map.spec_entries()[k].1,
                        ) by {
                            if self.map.spec_entries() == before.push((key, json)) {
                                if k < before.len() {
                                    assert(self.map.spec_entries()[k] == before[k]);
                                }
                            }
                        }
                    }
                }
                self.state = ObjectParserState::Comma;
                Ok(())
            },
            Err(_) => Err(Jerr::ExpectedValue(i)),
        }
    }

    /// Consumes the comma between bindings, or the closing brace, which ends
    /// the object.
    fn push_comma(&mut self, iter: &mut Cursor, c: char, i: usize) -> (r: Result<bool, Jerr>)
        requires
            old(iter).wf(),
            old(iter).has_next(),
            i == old(iter).position(),
        ensures
            final(iter).wf(),
            final(iter).chars() == old(iter).chars(),
            final(self).map == old(self).map,
            final(self).identifier == old(self).identifier,
            c == ',' || c == '}' ==> {
                &&& (r matches Ok(b) && b == (c == '}'))
                &&& final(self).state == ObjectParserState::Label
                &&& final(iter).position() == old(iter).position() + 1
            },
            !(c == ',' || c == '}') ==> {
                &&& (r matches Err(e) && e@ == JerrView::ExpectedCommaOrEnd(i as int))
                &&& *final(iter) == *old(iter)
                &&& *final(self) == *old(self)
            },
    {
        match c {
            ',' | '}' => {
                let _ = iter.next();
                self.state = ObjectParserState::Label;
                Ok(c == '}')
            },
            _ => Err(Jerr::ExpectedCommaOrEnd(i)),
        }
    }

    /// One step of the object loop: skip whitespace, or act on the character
    /// as the current state demands. Returns `true` when the closing brace
    /// ended the object.
    fn push(&mut self, iter: &mut Cursor, c: char, i: usize, iterparser: &BasicIteratorParser) -> (r:
        Result<bool, Jerr>)
        requires
            old(iter).wf(),
            old(iter).has_next(),
            i == old(iter).position(),
            c == old(iter).chars()[old(iter).position()],
            old(self).map.wf(),
        ensures
            final(iter).wf(),
            final(iter).chars() == old(iter).chars(),
            final(self).map.wf(),
            (r is Ok && jmap_values_wf(old(self).map)) ==> jmap_values_wf(final(self).map),
            ({
                let s = old(iter).chars();
                let pos = old(iter).position();
                let whole = spec_object_loop(
                    s,
                    pos,
                    old(self).state,
                    old(self).identifier@,
                    old(self).map@,
                );
                match r {
                    Ok(done) => if done {
                        &&& whole == (
                            Ok::<JsonView, JerrView>(JsonView::Object(old(self).map@)),
                            pos + 1,
                        )
                        &&& final(self).map == old(self).map
                        &&& final(iter).position() == pos + 1
                    } else {
                        &&& whole == spec_object_loop(
                            s,
                            final(iter).position(),
                            final(self).state,
                            final(self).identifier@,
                            final(self).map@,
                        )
                        &&& old(iter).position() < final(iter).position() <= s.len()
                    },
                    Err(e) => whole.0 == Err::<JsonView, JerrView>(e@),
                }
            }),
        decreases old(iter).chars().len() - old(iter).position(), 3int,
    {
        let ghost s = old(iter).chars();
        let ghost pos = old(iter).position();
        let ghost stp = self.state;
        let ghost idp = self.identifier@;
        let ghost accp = self.map@;
        if c == ' ' || c == '\t' || c == '\n' {
            let _ = iter.next();
            proof {
                assert(spec_object_loop(s, pos, stp, idp, accp) == spec_object_loop(
                    s,
                    pos + 1,
                    self.state,
                    self.identifier@,
                    self.map@,
                ));
            }
            Ok(false)
        } else {
            match self.state {
                ObjectParserState::Label => {
                    proof {
                        lemma_parse_value_bounds(s, pos);
                    }
                    match self.push_label(iter, i, iterparser) {
                        Err(e) => {
                            proof {
                                assert(spec_object_loop(s, pos, stp, idp, accp).0 == Err::<
                                    JsonView,
                                    JerrView,
                                >(e@));
                            }
                            Err(e)
                        },
                        Ok(_) => {
                            proof {
                                let step = spec_parse_value(s, pos);
                                assert(spec_object_loop(s, pos, stp, idp, accp)
                                    == spec_object_loop(
                                    s,
                                    step.1,
                                    ObjectParserState::Colon,
                                    self.identifier@,
                                    self.map@,
                                ));
                            }
                            Ok(false)
                        },
                    }
                },
                ObjectParserState::Colon => {
                    match self.push_colon(iter, c, i) {
                        Err(e) => {
                            proof {
                                assert(spec_object_loop(s, pos, stp, idp, accp).0 == Err::<
                                    JsonView,
                                    JerrView,
                                >(e@));
                            }
                            Err(e)
                        },
                        Ok(_) => {
                            proof {
                                assert(spec_object_loop(s, pos, stp, idp, accp)
                                    == spec_object_loop(
                                    s,
                                    pos + 1,
                                    ObjectParserState::Value,
                                    self.identifier@,
                                    self.map@,
                                ));
                            }
                            Ok(false)
                        },
                    }
                },
                ObjectParserState::Value => {
                    proof {
                        lemma_parse_value_bounds(s, pos);
                    }
                    match self.push_value(iter, i, iterparser) {
                        Err(e) => {
                            proof {
                                assert(spec_object_loop(s, pos, stp, idp, accp).0 == Err::<
                                    JsonView,
                                    JerrView,
                                >(e@));
                            }
                            Err(e)
                        },
                        Ok(_) => {
                            proof {
                                let step = spec_parse_value(s, pos);
                                assert(self.identifier@ =~= Seq::<char>::empty());
                                assert(spec_object_loop(s, pos, stp, idp, accp)
                                    == spec_object_loop(
                                    s,
                                    step.1,
                                    ObjectParserState::Comma,
                                    self.identifier@,
                                    self.map@,
                                ));
                            }
                            Ok(false)
                        },
                    }
                },
                ObjectParserState::Comma => {
                    match self.push_comma(iter, c, i) {
                        Err(e) => {
                            proof {
                                assert(spec_object_loop(s, pos, stp, idp, accp).0 == Err::<
                                    JsonView,
                                    JerrView,
                                >(e@));
                            }
                            Err(e)
                        },
                        Ok(done) => {
                            if done {
                                proof {
                                    assert(spec_object_loop(s, pos, stp, idp, accp) == (
                                        Ok::<JsonView, JerrView>(JsonView::Object(accp)),
                                        pos + 1,
                                    ));
                                }
                                return Ok(true);
                            }
                            proof {
                                assert(spec_object_loop(s, pos, stp, idp, accp)
                                    == spec_object_loop(
                                    s,
                                    pos + 1,
                                    ObjectParserState::Label,
                                    self.identifier@,
                                    self.map@,
                                ));
                            }
                            Ok(false)
                        },
                    }
                },
            }
        }
    }

    /// Skips whitespace after the opening brace and looks for the closing
    /// brace, which ends the empty object before the loop starts.
    fn init_check(&self, iter: &mut Cursor) -> (r: bool)
        requires
            old(iter).wf(),
        ensures
            final(iter).wf(),
            final(iter).chars() == old(iter).chars(),
            old(iter).position() <= final(iter).position() <= old(iter).chars().len(),
            r ==> spec_object_start(old(iter).chars(), old(iter).position()) == (
                Ok::<JsonView, JerrView>(JsonView::Object(Map::empty())),
                final(iter).position(),
            ),
            !r ==> spec_object_start(old(iter).chars(), old(iter).position()) == spec_object_loop(
                old(iter).chars(),
                final(iter).position(),
                ObjectParserState::Label,
                Seq::empty(),
                Map::empty(),
            ),
    {
        loop
            invariant
                iter.wf(),
                iter.chars() == old(iter).chars(),
                old(iter).position() <= iter.position() <= iter.chars().len(),
                spec_object_start(old(iter).chars(), old(iter).position()) == spec_object_start(
                    iter.chars(),
                    iter.position(),
                ),
            decreases iter.chars().len() - iter.position(),
        {
            match iter.peek() {
                None => {
                    return false;
                },
                Some((_, c)) => {
                    if c == '}' {
                        let _ = iter.next();
                        return true;
                    } else if c == ' ' || c == '\t' || c == '\n' {
                        let ghost p = iter.position();
                        let _ = iter.next();
                        proof {
                            assert(spec_object_start(iter.chars(), p) == spec_object_start(
                                iter.chars(),
                                p + 1,
                            ));
                        }
                    } else {
                        return false;
                    }
                },
            }
        }
    }

    /// Consumes a whole object, the opening brace included, and returns it;
    /// the cursor ends just past the closing brace.
    pub fn parse(&mut self, iter: &mut Cursor, iterparser: &BasicIteratorParser) -> (r: Result<
        Json,
        Jerr,
    >)
        requires
            old(self).spec_fresh(),
            old(iter).wf(),
            old(iter).has_next(),
        ensures
            final(iter).wf(),
            final(iter).chars() == old(iter).chars(),
            spec_result_matches(
                r,
                spec_object_start(old(iter).chars(), old(iter).position() + 1),
                final(iter).position(),
            ),
            r is Ok ==> final(self).spec_fresh(),
            r matches Ok(j) ==> json_wf(j),
        decreases old(iter).chars().len() - old(iter).position(), 0int,
    {
        let ghost s = old(iter).chars();
        let ghost pos0 = old(iter).position();
        let ghost whole = spec_object_start(s, pos0 + 1);
        iter.next().unwrap();
        if self.init_check(iter) {
            return Ok(Json::Object(Jmap::new()));
        }
        proof {
            assert(self.identifier@ =~= Seq::<char>::empty());
        }
        loop
            invariant
                s == old(iter).chars(),
                pos0 == old(iter).position(),
                whole == spec_object_start(s, pos0 + 1),
                iter.wf(),
                iter.chars() == s,
                pos0 < iter.position() <= s.len(),
                self.map.wf(),
                jmap_values_wf(self.map),
                spec_step_eq(
                    whole,
                    spec_object_loop(
                        s,
                        iter.position(),
                        self.state,
                        self.identifier@,
                        self.map@,
                    ),
                ),
            decreases s.len() - iter.position(),
        {
            let ghost p = iter.position();
            match iter.peek() {
                None => {
                    proof {
                        assert(spec_object_loop(s, p, self.state, self.identifier@, self.map@)
                            == (Err::<JsonView, JerrView>(JerrView::UnexpectedEnd), p));
                    }
                    return Err(Jerr::UnexpectedEnd);
                },
                Some((i, c)) => {
                    match self.push(iter, c, i, iterparser) {
                        Ok(true) => {
                            let mut map = Jmap::new();
                            core::mem::swap(&mut map, &mut self.map);
                            self.reset();
                            return Ok(Json::Object(map));
                        },
                        Ok(false) => {},
                        Err(e) => {
                            return Err(e);
                        },
                    }
                },
            }
        }
    }
}

} // verus!
