//! The string sub-parser: a quoted lexeme with escape and `\uXXXX` handling.

use crate::common::{
    char_from_u32, convert_to_u8, json_wf, push_char, spec_code_unit, spec_hex_digits,
    spec_unicode_char, u8arr_to_u16arr, Cursor, Jerr, JerrView, Json, JsonView,
};
use crate::model::{spec_parse_string, spec_result_matches, spec_step_eq, spec_string_loop};
use vstd::prelude::*;
use vstd::string::StrSliceExecFns;

verus! {

/// The string sub-parser's state: the decoded accumulator, the escape flag,
/// and the buffer of a pending `\uXXXX` escape.
pub struct JStringParser {
    has_ended: bool,
    buffer: String,
    escape: bool,
    unicode: String,
    is_unicode: bool,
}

impl JStringParser {
    /// The parser is in its starting state, ready for a fresh lexeme.
    pub closed spec fn spec_fresh(&self) -> bool {
        &&& !self.has_ended
        &&& self.buffer@.len() == 0
        &&& !self.escape
        &&& self.unicode@.len() == 0
        &&& !self.is_unicode
    }

    /// A fresh string sub-parser.
    pub fn new() -> (r: JStringParser)
        ensures
            r.spec_fresh(),
    {
        JStringParser {
            has_ended: false,
            buffer: String::new(),
            escape: false,
            unicode: String::new(),
            is_unicode: false,
        }
    }

    /// Puts the parser back into its starting state.
    fn reset(&mut self)
        ensures
            final(self).spec_fresh(),
    {
        *self = JStringParser::new();
    }

    /// Handles one ordinary character: a backslash arms the escape state, a
    /// quote ends the lexeme, anything else is literal content.
    fn push_char_non_escape(&mut self, c: char)
        requires
            !old(self).escape,
            !old(self).is_unicode,
            !old(self).has_ended,
        ensures
            final(self).is_unicode == old(self).is_unicode,
            final(self).unicode == old(self).unicode,
            c == '\\' ==> *final(self) == (JStringParser { escape: true, ..*old(self) }),
            c != '\\' && c == '"' ==> *final(self) == (JStringParser {
                has_ended: true,
                ..*old(self)
            }),
            c != '\\' && c != '"' ==> {
                &&& final(self).buffer@ == old(self).buffer@.push(c)
                &&& final(self).escape == old(self).escape
                &&& final(self).has_ended == old(self).has_ended
            },
    {
        if c == '\\' {
            self.escape = true;
        } else if c == '"' {
            self.has_ended = true;
        } else {
            push_char(&mut self.buffer, c);
        }
    }

    /// Handles one character of a pending `\uXXXX` escape; the fourth one
    /// decodes the code unit and flushes it into the accumulator.
    fn push_char_unicode(&mut self, c: char) -> (r: Result<(), Jerr>)
        requires
            old(self).is_unicode,
            !old(self).has_ended,
            old(self).unicode@.len() < 4,
        ensures
            final(self).escape == old(self).escape,
            final(self).has_ended == old(self).has_ended,
            old(self).unicode@.len() + 1 < 4 ==> {
                &&& r is Ok
                &&& final(self).is_unicode
                &&& final(self).unicode@ == old(self).unicode@.push(c)
                &&& final(self).buffer == old(self).buffer
            },
            old(self).unicode@.len() + 1 == 4 && spec_hex_digits(old(self).unicode@.push(c)) ==> {
                &&& r is Ok
                &&& !final(self).is_unicode
                &&& final(self).unicode@.len() == 0
                &&& final(self).buffer@ == old(self).buffer@.push(
                    spec_unicode_char(old(self).unicode@.push(c)),
                )
            },
            old(self).unicode@.len() + 1 == 4 && !spec_hex_digits(old(self).unicode@.push(c)) ==> (
            r matches Err(e) && e@ == JerrView::InvalidUnicodeSequence(
                old(self).unicode@.push(c),
            )),
    {
        push_char(&mut self.unicode, c);
        if self.unicode.as_str().unicode_len() == 4 {
            let ghost uni2 = self.unicode@;
            let bytes = match convert_to_u8(&self.unicode) {
                Ok(b) => b,
                Err(e) => {
                    return Err(e);
                },
            };
            let units = u8arr_to_u16arr(bytes);
            let unit = units[0];
            proof {
                assert(unit as int == spec_code_unit(uni2));
            }
            if unit >= 0xD800 && unit < 0xE000 {
                proof {
                    assert(spec_unicode_char(uni2) == '\u{FFFD}');
                }
                push_char(&mut self.buffer, '\u{FFFD}');
            } else {
                match char_from_u32(unit as u32) {
                    Some(ch) => {
                        proof {
                            vstd::utf8::char_u32_cast(ch, unit as u32);
                            assert(spec_unicode_char(uni2) == ch);
                        }
                        push_char(&mut self.buffer, ch);
                    },
                    None => {
                        proof {
                            assert(false);
                        }
                    },
                }
            }
            self.is_unicode = false;
            self.unicode = String::new();
        }
        Ok(())
    }

    /// Handles the character after a backslash: a named escape, the start of
    /// a `\uXXXX` escape, or an unknown escape.
    fn push_char_escape(&mut self, c: char) -> (r: Result<(), Jerr>)
        requires
            old(self).escape,
            !old(self).is_unicode,
            !old(self).has_ended,
        ensures
            final(self).has_ended == old(self).has_ended,
            final(self).unicode == old(self).unicode,
            c == '"' || c == '\\' ==> r is Ok && !final(self).escape && !final(self).is_unicode
                && final(self).buffer@ == old(self).buffer@.push(c),
            c == 'r' ==> r is Ok && !final(self).escape && !final(self).is_unicode && final(self).buffer@ == old(self).buffer@.push('\r'),
            c == 'b' ==> r is Ok && !final(self).escape && !final(self).is_unicode && final(self).buffer@ == old(self).buffer@.push('\u{8}'),
            c == 't' ==> r is Ok && !final(self).escape && !final(self).is_unicode && final(self).buffer@ == old(self).buffer@.push('\t'),
            c == 'n' ==> r is Ok && !final(self).escape && !final(self).is_unicode && final(self).buffer@ == old(self).buffer@.push('\n'),
            c == 'f' ==> r is Ok && !final(self).escape && !final(self).is_unicode && final(self).buffer@ == old(self).buffer@.push('\u{c}'),
            c == 'u' ==> r is Ok && !final(self).escape && final(self).is_unicode && final(self).buffer == old(self).buffer,
            !(c == '"' || c == '\\' || c == 'r' || c == 'b' || c == 't' || c == 'n' || c == 'f'
                || c == 'u') ==> (r matches Err(e) && e@ == JerrView::UnknownEscape(c) && *final(self) == *old(self)),
    {
        match c {
            '"' | '\\' => push_char(&mut self.buffer, c),
            'r' => push_char(&mut self.buffer, '\r'),
            'b' => push_char(&mut self.buffer, '\u{8}'),
            't' => push_char(&mut self.buffer, '\t'),
            'n' => push_char(&mut self.buffer, '\n'),
            'f' => push_char(&mut self.buffer, '\u{c}'),
            'u' => self.is_unicode = true,
            _ => {
                return Err(Jerr::UnknownEscape(c));
            },
        }
        self.escape = false;
        Ok(())
    }

    /// Dispatches one character to the unicode, escape or ordinary handler,
    /// in that order of priority.
    fn push_char(&mut self, c: char) -> (r: Result<(), Jerr>)
        requires
            !old(self).has_ended,
            old(self).is_unicode ==> old(self).unicode@.len() < 4,
        ensures
            ({
                let st = spec_string_step(
                    old(self).buffer@,
                    old(self).escape,
                    old(self).is_unicode,
                    old(self).unicode@,
                    c,
                );
                match r {
                    Ok(u) => (st matches Ok(n) && {
                        &&& final(self).buffer@ == n.buffer
                        &&& final(self).escape == n.escape
                        &&& final(self).is_unicode == n.is_unicode
                        &&& final(self).unicode@ == n.unicode
                        &&& final(self).has_ended == n.has_ended
                    }),
                    Err(e) => (st matches Err(ev) && e@ == ev),
                }
            }),
    {
        if self.is_unicode {
            self.push_char_unicode(c)?;
        } else if self.escape {
            self.push_char_escape(c)?;
        } else {
            self.push_char_non_escape(c);
        }
        Ok(())
    }

    /// Closes the lexeme: the accumulator if the closing quote was seen,
    /// otherwise the input ended mid-string.
    fn finalize(&mut self) -> (r: Result<Json, Jerr>)
        ensures
            final(self).spec_fresh(),
            old(self).has_ended ==> (r matches Ok(j) && j@ == JsonView::String(old(self).buffer@)
                && json_wf(j)),
            !old(self).has_ended ==> (r matches Err(e) && e@ == JerrView::UnexpectedEnd),
    {
        if self.has_ended {
            let mut buff = String::new();
            core::mem::swap(&mut buff, &mut self.buffer);
            self.reset();
            Ok(Json::String(buff))
        } else {
            self.reset();
            Err(Jerr::UnexpectedEnd)
        }
    }

    /// Consumes the string lexeme that starts at the cursor (at its opening
    /// quote) and returns its decoded value, leaving the cursor just past the
    /// closing quote.
    pub fn parse(&mut self, iter: &mut Cursor) -> (r: Result<Json, Jerr>)
        requires
            old(self).spec_fresh(),
            old(iter).wf(),
        ensures
            final(iter).wf(),
            final(iter).chars() == old(iter).chars(),
            spec_result_matches(
                r,
                spec_parse_string(old(iter).chars(), old(iter).position()),
                final(iter).position(),
            ),
            (r is Ok || (r matches Err(e) && e@ == JerrView::UnexpectedEnd))
                ==> final(self).spec_fresh(),
            r matches Ok(j) ==> json_wf(j),
    {
        let ghost s = old(iter).chars();
        let ghost pos0 = old(iter).position();
        let _ = iter.next();
        proof {
            assert(self.buffer@ =~= Seq::<char>::empty());
            assert(self.unicode@ =~= Seq::<char>::empty());
        }
        loop
            invariant
                s == old(iter).chars(),
                pos0 == old(iter).position(),
                iter.wf(),
                iter.chars() == s,
                pos0 <= iter.position() <= s.len(),
                self.is_unicode ==> self.unicode@.len() < 4,
                !self.is_unicode ==> self.unicode@.len() == 0,
                !self.has_ended ==> spec_step_eq(
                    spec_parse_string(s, pos0),
                    spec_string_loop(
                        s,
                        iter.position(),
                        self.buffer@,
                        self.escape,
                        self.is_unicode,
                        self.unicode@,
                    ),
                ),
                self.has_ended ==> spec_parse_string(s, pos0) == (
                    Ok::<JsonView, JerrView>(JsonView::String(self.buffer@)),
                    iter.position(),
                ),
            ensures
                self.has_ended || iter.position() == s.len(),
            decreases s.len() - iter.position(),
        {
            if !self.has_ended {
                let ghost bprev = self.buffer@;
                let ghost eprev = self.escape;
                let ghost uprev = self.is_unicode;
                let ghost unprev = self.unicode@;
                match iter.next() {
                    None => {
                        break ;
                    },
                    Some((_, c)) => {
                        let ghost p = iter.position() - 1;
                        match self.push_char(c) {
                            Err(e) => {
                                proof {
                                    assert(spec_string_loop(s, p, bprev, eprev, uprev, unprev).0
                                        == Err::<JsonView, JerrView>(e@));
                                }
                                return Err(e);
                            },
                            Ok(_) => {
                                proof {
                                    if self.has_ended {
                                        assert(spec_string_loop(s, p, bprev, eprev, uprev, unprev)
                                            == (
                                        Ok::<JsonView, JerrView>(JsonView::String(self.buffer@)),
                                        p + 1,
                                        ));
                                    } else {
                                        assert(spec_string_loop(s, p, bprev, eprev, uprev, unprev)
                                            == spec_string_loop(
                                            s,
                                            p + 1,
                                            self.buffer@,
                                            self.escape,
                                            self.is_unicode,
                                            self.unicode@,
                                        ));
                                    }
                                }
                            },
                        }
                    },
                }
            } else {
                break ;
            }
        }
        proof {
            if !self.has_ended {
                assert(spec_string_loop(
                    s,
                    iter.position(),
                    self.buffer@,
                    self.escape,
                    self.is_unicode,
                    self.unicode@,
                ) == (Err::<JsonView, JerrView>(JerrView::UnexpectedEnd), iter.position()));
            }
        }
        self.finalize()
    }
}

/// A snapshot of the string sub-parser's state, as one step of
/// [`spec_string_loop`] transforms it.
pub struct StringStepState {
    pub buffer: Seq<char>,
    pub escape: bool,
    pub is_unicode: bool,
    pub unicode: Seq<char>,
    pub has_ended: bool,
}

/// One transition of the string sub-parser on character `c`.
pub open spec fn spec_string_step(
    buffer: Seq<char>,
    escape: bool,
    is_unicode: bool,
    unicode: Seq<char>,
    c: char,
) -> Result<StringStepState, JerrView> {
    if is_unicode {
        let uni2 = unicode.push(c);
        if uni2.len() == 4 {
            if spec_hex_digits(uni2) {
                Ok(StringStepState {
                    buffer: buffer.push(spec_unicode_char(uni2)),
                    escape,
                    is_unicode: false,
                    unicode: Seq::empty(),
                    has_ended: false,
                })
            } else {
                Err(JerrView::InvalidUnicodeSequence(uni2))
            }
        } else {
            Ok(StringStepState { buffer, escape, is_unicode: true, unicode: uni2, has_ended: false })
        }
    } else if escape {
        if c == '"' || c == '\\' {
            Ok(StringStepState {
                buffer: buffer.push(c),
                escape: false,
                is_unicode,
                unicode,
                has_ended: false,
            })
        } else if c == 'r' {
            Ok(StringStepState {
                buffer: buffer.push('\r'),
                escape: false,
                is_unicode,
                unicode,
                has_ended: false,
            })
        } else if c == 'b' {
            Ok(StringStepState {
                buffer: buffer.push('\u{8}'),
                escape: false,
                is_unicode,
                unicode,
                has_ended: false,
            })
        } else if c == 't' {
            Ok(StringStepState {
                buffer: buffer.push('\t'),
                escape: false,
                is_unicode,
                unicode,
                has_ended: false,
            })
        } else if c == 'n' {
            Ok(StringStepState {
                buffer: buffer.push('\n'),
                escape: false,
                is_unicode,
                unicode,
                has_ended: false,
            })
        } else if c == 'f' {
            Ok(StringStepState {
                buffer: buffer.push('\u{c}'),
                escape: false,
                is_unicode,
                unicode,
                has_ended: false,
            })
        } else if c == 'u' {
            Ok(StringStepState {
                buffer,
                escape: false,
                is_unicode: true,
                unicode,
                has_ended: false,
            })
        } else {
            Err(JerrView::UnknownEscape(c))
        }
    } else {
        if c == '\\' {
            Ok(StringStepState { buffer, escape: true, is_unicode, unicode, has_ended: false })
        } else if c == '"' {
            Ok(StringStepState { buffer, escape, is_unicode, unicode, has_ended: true })
        } else {
            Ok(StringStepState {
                buffer: buffer.push(c),
                escape: false,
                is_unicode,
                unicode,
                has_ended: false,
            })
        }
    }
}

} // verus!
