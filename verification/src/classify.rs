//! The executable classifier, proved to return exactly what the spec-level
//! scan of `crate::scan` says.

use vstd::prelude::*;
use crate::chars::ascii_digit;
use crate::cursor::CharCursor;
use crate::ident::{Ident, IdentModel, MaybeQualified, ident_model};
use crate::scan::{
    ScanSt, Outcome, alpha_step, classify_spec, class_run_end, cursor_taken, dot_step, fail_taken,
    finish, init_st, is_ident_char, opt_term, scan,
};
use crate::state::{Attempting, Fail, FailReason, State};

verus! {

/// The result of one parsing step: the parsed value with the advanced
/// position, or a hard failure with the position where it occurred.
pub type ParseResult<T> = Result<(T, State), (Fail, State)>;

/// What `parse_into` owes its caller, given the characters `s` that were
/// remaining on entry: the returned value, lookahead character, advanced
/// position and final cursor all agree with `classify_spec(s)`.
pub open spec fn parse_into_matches(
    s: Seq<char>,
    state: State,
    r: ParseResult<(Ident, Option<char>)>,
    cur: CharCursor,
) -> bool {
    match classify_spec(s) {
        Outcome::Failed { reason } => {
            &&& r matches Err((f, st)) && f == (Fail {
                reason,
                attempting: Attempting::Identifier,
            }) && st == state
            &&& cur.remaining() == s.skip(fail_taken(reason))
        },
        Outcome::Token { ident, take } => {
            &&& r matches Ok(((id, next), st)) && ident_model(id) == ident && next == opt_term(
                s,
                take,
            ) && st.offset == state.offset + take
            &&& cur.remaining() == s.skip(cursor_taken(s, take))
        },
    }
}

/// Malformed recovery: `text` holds the `j` characters consumed so far of
/// the input `s`. Absorbs the rest of the identifier-like run into the
/// text, so the outer grammar does not re-attempt to parse its tail, and
/// stops at the first character that breaks the pattern, which becomes the
/// lookahead.
fn malformed_absorb(
    chars: &mut CharCursor,
    text: String,
    j: usize,
    state: State,
    Ghost(s): Ghost<Seq<char>>,
) -> (r: ParseResult<(Ident, Option<char>)>)
    requires
        old(chars).wf(),
        j <= s.len(),
        state.offset + s.len() <= usize::MAX,
        old(chars).remaining() == s.skip(j as int),
        text@ == s.subrange(0, j as int),
    ensures
        final(chars).wf(),
        ({
            let k = class_run_end(s, j as int);
            &&& r matches Ok(((id, next), st)) && ident_model(id) == (IdentModel::Malformed {
                text: s.subrange(0, k),
            }) && next == opt_term(s, k) && st.offset == state.offset + k
            &&& final(chars).remaining() == s.skip(cursor_taken(s, k))
        }),
{
    let mut text = text;
    let mut j = j;
    let ghost j0 = j as int;
    let mut next_char: Option<char> = None;
    loop
        invariant_except_break
            chars.wf(),
            j <= s.len(),
            state.offset + s.len() <= usize::MAX,
            chars.remaining() == s.skip(j as int),
            text@ == s.subrange(0, j as int),
            class_run_end(s, j0) == class_run_end(s, j as int),
            next_char is None,
        ensures
            chars.wf(),
            j <= s.len(),
            text@ == s.subrange(0, j as int),
            class_run_end(s, j0) == j as int,
            next_char == opt_term(s, j as int),
            chars.remaining() == s.skip(cursor_taken(s, j as int)),
        decreases s.len() - j,
    {
        match chars.next() {
            None => {
                proof {
                    assert(s.skip(j as int).len() == 0);
                    assert(j == s.len());
                }
                break;
            },
            Some(ch) => {
                proof {
                    assert(j < s.len());
                    assert(ch == s[j as int]);
                    assert(chars.remaining() =~= s.skip(j as int + 1));
                }
                if ch == '.' || ch.is_alphabetic() || ascii_digit(ch) {
                    proof {
                        assert(is_ident_char(s[j as int]));
                        assert(class_run_end(s, j as int) == class_run_end(s, j as int + 1));
                        assert(text@.push(ch) =~= s.subrange(0, j as int + 1));
                    }
                    text.push(ch);
                    j = j + 1;
                } else {
                    proof {
                        assert(!is_ident_char(s[j as int]));
                        assert(class_run_end(s, j as int) == j as int);
                    }
                    next_char = Some(ch);
                    break;
                }
            },
        }
    }
    let st2 = state.advance_without_indenting(j);
    Ok(((Ident::Malformed(text), next_char), st2))
}

/// Parses an identifier-like token from the cursor.
///
/// By design, this does not check for reserved keywords; those are better
/// handled later in the process, with more contextually-aware error
/// messages.
///
/// The cursor is consumed destructively up to and including the first
/// character that does not belong to the token; that character, if any, is
/// returned beside the classified value rather than re-buffered. The
/// position advances by exactly the number of characters the token's text
/// holds.
pub fn parse_into(chars: &mut CharCursor, state: State) -> (r: ParseResult<(Ident, Option<char>)>)
    requires
        old(chars).wf(),
        state.offset + old(chars).remaining().len() <= usize::MAX,
    ensures
        final(chars).wf(),
        parse_into_matches(old(chars).remaining(), state, r, *final(chars)),
{
    let ghost s = old(chars).remaining();
    let mut part_buf = String::new();
    let mut part_len: usize = 0;
    let mut capitalized_parts: Vec<String> = Vec::new();
    let mut noncapitalized_parts: Vec<String> = Vec::new();
    let mut raw = String::new();
    let mut is_capitalized: bool;
    let is_accessor_fn: bool;

    // Identifiers and accessor functions must start with either a letter
    // or a dot. If this starts with neither, it must be something else.
    match chars.next() {
        Some(ch) => {
            if ch.is_alphabetic() {
                part_buf.push(ch);
                raw.push(ch);
                part_len = 1;
                is_capitalized = ch.is_uppercase();
                is_accessor_fn = false;
            } else if ch == '.' {
                raw.push(ch);
                is_capitalized = false;
                is_accessor_fn = true;
            } else {
                return Err((
                    Fail { reason: FailReason::UnexpectedChar(ch, 0), attempting: Attempting::Identifier },
                    state,
                ));
            }
        },
        None => {
            proof {
                assert(final(chars).remaining() =~= s.skip(0));
            }
            return Err((
                Fail { reason: FailReason::UnexpectedEof(0), attempting: Attempting::Identifier },
                state,
            ));
        },
    }

    let mut i: usize = 1;
    let mut next_char: Option<char> = None;
    proof {
        assert(raw@ =~= s.subrange(0, 1));
        assert(capitalized_parts.deep_view() =~= Seq::<Seq<char>>::empty());
        assert(noncapitalized_parts.deep_view() =~= Seq::<Seq<char>>::empty());
        if is_accessor_fn {
            assert(part_buf@ =~= init_st(true).buf);
        } else {
            assert(part_buf@ =~= Seq::<char>::empty().push(s[0]));
        }
    }

    loop
        invariant_except_break
            chars.wf(),
            s == old(chars).remaining(),
            1 <= i <= s.len(),
            state.offset + s.len() <= usize::MAX,
            chars.remaining() == s.skip(i as int),
            raw@ == s.subrange(0, i as int),
            part_len == part_buf@.len(),
            part_len <= i,
            next_char is None,
            is_accessor_fn && part_buf@.len() == 0 && capitalized_parts@.len() == 0
                && noncapitalized_parts@.len() == 0 ==> i == 1,
            classify_spec(s) == scan(s, i as int, (ScanSt {
                buf: part_buf@,
                caps: capitalized_parts.deep_view(),
                lowers: noncapitalized_parts.deep_view(),
                cap: is_capitalized,
                acc: is_accessor_fn,
            })),
        ensures
            chars.wf(),
            1 <= i <= s.len(),
            state.offset + s.len() <= usize::MAX,
            raw@ == s.subrange(0, i as int),
            part_len == part_buf@.len(),
            is_accessor_fn && part_buf@.len() == 0 && capitalized_parts@.len() == 0
                && noncapitalized_parts@.len() == 0 ==> i == 1,
            classify_spec(s) == finish(s, i as int, (ScanSt {
                buf: part_buf@,
                caps: capitalized_parts.deep_view(),
                lowers: noncapitalized_parts.deep_view(),
                cap: is_capitalized,
                acc: is_accessor_fn,
            }), next_char),
            next_char is None ==> i == s.len() && chars.remaining() == s.skip(i as int),
            next_char matches Some(c) ==> i < s.len() && c == s[i as int] && chars.remaining()
                == s.skip(i as int + 1),
        decreases s.len() - i,
    {
        let ghost st_now = ScanSt {
            buf: part_buf@,
            caps: capitalized_parts.deep_view(),
            lowers: noncapitalized_parts.deep_view(),
            cap: is_capitalized,
            acc: is_accessor_fn,
        };
        match chars.next() {
            None => {
                proof {
                    assert(s.skip(i as int).len() == 0);
                    assert(i == s.len());
                    assert(scan(s, i as int, st_now) == finish(s, i as int, st_now, None));
                }
                break;
            },
            Some(ch) => {
                proof {
                    assert(i < s.len());
                    assert(ch == s[i as int]);
                    assert(chars.remaining() =~= s.skip(i as int + 1));
                }
                // After the first character, only Unicode alphabetic
                // characters, ASCII digits and dots may continue the token.
                if ch.is_alphabetic() {
                    if part_len == 0 {
                        // Capitalization is determined by the first
                        // character in the part.
                        is_capitalized = ch.is_uppercase();
                    }
                    part_buf.push(ch);
                    raw.push(ch);
                    part_len = part_len + 1;
                    proof {
                        assert(raw@ =~= s.subrange(0, i as int + 1));
                        assert(scan(s, i as int, st_now) == scan(s, i as int + 1, alpha_step(st_now, ch)));
                        assert(alpha_step(st_now, ch) == (ScanSt {
                            buf: part_buf@,
                            caps: capitalized_parts.deep_view(),
                            lowers: noncapitalized_parts.deep_view(),
                            cap: is_capitalized,
                            acc: is_accessor_fn,
                        }));
                    }
                    i = i + 1;
                } else if ascii_digit(ch) {
                    // Parts may not start with digits.
                    if part_len == 0 {
                        raw.push(ch);
                        proof {
                            assert(raw@ =~= s.subrange(0, i as int + 1));
                            assert(scan(s, i as int, st_now) == (Outcome::Token {
                                ident: IdentModel::Malformed {
                                    text: s.subrange(0, class_run_end(s, i as int + 1)),
                                },
                                take: class_run_end(s, i as int + 1),
                            }));
                        }
                        return malformed_absorb(chars, raw, i + 1, state, Ghost(s));
                    }
                    part_buf.push(ch);
                    raw.push(ch);
                    part_len = part_len + 1;
                    proof {
                        assert(raw@ =~= s.subrange(0, i as int + 1));
                        assert(scan(s, i as int, st_now) == scan(s, i as int + 1, alpha_step(st_now, ch)));
                        assert(alpha_step(st_now, ch) == (ScanSt {
                            buf: part_buf@,
                            caps: capitalized_parts.deep_view(),
                            lowers: noncapitalized_parts.deep_view(),
                            cap: is_capitalized,
                            acc: is_accessor_fn,
                        }));
                    }
                    i = i + 1;
                } else if ch == '.' {
                    // Two dots in a row, or a capitalized part after
                    // non-capitalized ones, is a structural violation.
                    if part_len == 0 || (is_capitalized && noncapitalized_parts.len() > 0) {
                        raw.push(ch);
                        proof {
                            assert(raw@ =~= s.subrange(0, i as int + 1));
                            assert(scan(s, i as int, st_now) == (Outcome::Token {
                                ident: IdentModel::Malformed {
                                    text: s.subrange(0, class_run_end(s, i as int + 1)),
                                },
                                take: class_run_end(s, i as int + 1),
                            }));
                        }
                        return malformed_absorb(chars, raw, i + 1, state, Ghost(s));
                    }
                    // The dot finalizes the current part; reset the buffer.
                    if is_capitalized {
                        capitalized_parts.push(part_buf);
                        proof {
                            assert(capitalized_parts.deep_view() =~= st_now.caps.push(st_now.buf));
                        }
                    } else {
                        noncapitalized_parts.push(part_buf);
                        proof {
                            assert(noncapitalized_parts.deep_view() =~= st_now.lowers.push(
                                st_now.buf,
                            ));
                        }
                    }
                    part_buf = String::new();
                    part_len = 0;
                    raw.push(ch);
                    proof {
                        assert(raw@ =~= s.subrange(0, i as int + 1));
                        assert(scan(s, i as int, st_now) == scan(s, i as int + 1, dot_step(st_now)));
                        assert(dot_step(st_now) == (ScanSt {
                            buf: part_buf@,
                            caps: capitalized_parts.deep_view(),
                            lowers: noncapitalized_parts.deep_view(),
                            cap: is_capitalized,
                            acc: is_accessor_fn,
                        }));
                    }
                    i = i + 1;
                } else {
                    // This must be the end of the identifier.
                    proof {
                        assert(scan(s, i as int, st_now) == finish(s, i as int, st_now, Some(ch)));
                    }
                    next_char = Some(ch);
                    break;
                }
            },
        }
    }

    let ghost st_end = ScanSt {
        buf: part_buf@,
        caps: capitalized_parts.deep_view(),
        lowers: noncapitalized_parts.deep_view(),
        cap: is_capitalized,
        acc: is_accessor_fn,
    };

    if part_len == 0 {
        // A trailing dot, or an accessor dot followed directly by the end
        // of the token. A lone stray dot, with nothing before it and
        // nothing after, is the one hard failure here.
        if is_accessor_fn && capitalized_parts.len() == 0 && noncapitalized_parts.len() == 0
            && next_char.is_none() {
            return Err((
                Fail { reason: FailReason::UnexpectedChar('.', 1), attempting: Attempting::Identifier },
                state,
            ));
        }
        match next_char {
            None => {
                let st2 = state.advance_without_indenting(i);
                return Ok(((Ident::Malformed(raw), None), st2));
            },
            Some(ch) => {
                raw.push(ch);
                proof {
                    assert(raw@ =~= s.subrange(0, i as int + 1));
                }
                return malformed_absorb(chars, raw, i + 1, state, Ghost(s));
            },
        }
    }

    if is_capitalized && noncapitalized_parts.len() > 0 {
        // The final part is capitalized although non-capitalized parts came
        // before it: the same violation the dot rule enforces.
        match next_char {
            None => {
                let st2 = state.advance_without_indenting(i);
                return Ok(((Ident::Malformed(raw), None), st2));
            },
            Some(ch) => {
                raw.push(ch);
                proof {
                    assert(raw@ =~= s.subrange(0, i as int + 1));
                }
                return malformed_absorb(chars, raw, i + 1, state, Ghost(s));
            },
        }
    }

    // Record the final part.
    if is_capitalized {
        capitalized_parts.push(part_buf);
        proof {
            assert(capitalized_parts.deep_view() =~= st_end.caps.push(st_end.buf));
        }
    } else {
        noncapitalized_parts.push(part_buf);
        proof {
            assert(noncapitalized_parts.deep_view() =~= st_end.lowers.push(st_end.buf));
        }
    }
    let ghost st_fin = dot_step(st_end);

    let answer: Ident;
    if is_accessor_fn {
        // Accessor functions may have exactly one non-capitalized part and
        // no capitalized parts.
        if capitalized_parts.len() == 0 && noncapitalized_parts.len() == 1 {
            let value = match noncapitalized_parts.pop() {
                Some(v) => v,
                None => unreached(),
            };
            proof {
                assert(value@ == st_fin.lowers[0]);
            }
            answer = Ident::AccessorFunction(value);
        } else {
            let st2 = state.advance_without_indenting(i);
            return Ok(((Ident::Malformed(raw), next_char), st2));
        }
    } else if noncapitalized_parts.len() == 0 {
        // Capitalized parts only, so this must be a variant.
        let value = match capitalized_parts.pop() {
            Some(v) => v,
            None => unreached(),
        };
        proof {
            assert(value@ == st_fin.caps.last());
            assert(capitalized_parts.deep_view() =~= st_fin.caps.drop_last());
        }
        answer = Ident::Variant(MaybeQualified { module_parts: capitalized_parts, value });
    } else if noncapitalized_parts.len() == 1 {
        // Exactly one non-capitalized part, so this must be a var.
        let value = match noncapitalized_parts.pop() {
            Some(v) => v,
            None => unreached(),
        };
        proof {
            assert(value@ == st_fin.lowers[0]);
        }
        answer = Ident::Var(MaybeQualified { module_parts: capitalized_parts, value });
    } else {
        // Multiple non-capitalized parts, so this must be a field.
        answer = Ident::Field(MaybeQualified {
            module_parts: capitalized_parts,
            value: noncapitalized_parts,
        });
    }

    let st2 = state.advance_without_indenting(i);
    Ok(((answer, next_char), st2))
}

/// Parses an identifier from the start of the input, discarding the
/// lookahead character.
pub fn ident(input: Vec<char>, state: State) -> (r: Result<(Ident, State), (Fail, State)>)
    requires
        state.offset + input@.len() <= usize::MAX,
    ensures
        match classify_spec(input@) {
            Outcome::Failed { reason } => r matches Err((f, st)) && f == (Fail {
                reason,
                attempting: Attempting::Identifier,
            }) && st == state,
            Outcome::Token { ident, take } => r matches Ok((id, st)) && ident_model(id) == ident
                && st.offset == state.offset + take,
        },
{
    let mut cursor = CharCursor::new(input);
    match parse_into(&mut cursor, state) {
        Ok(((id, _), st)) => Ok((id, st)),
        Err(e) => Err(e),
    }
}

} // verus!
