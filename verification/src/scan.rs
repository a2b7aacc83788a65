//! The mathematical model of the classification: a character-by-character
//! scan of the input, written as spec functions. The executable classifier
//! is proved to return exactly what this model says.

use vstd::prelude::*;
use crate::chars::{is_alpha_char, is_digit_char, is_upper_char};
use crate::ident::IdentModel;
use crate::state::FailReason;

verus! {

/// A character that may occur anywhere inside an identifier-like run:
/// a dot, an alphabetic character, or an ASCII digit.
pub open spec fn is_ident_char(c: char) -> bool {
    c == '.' || is_alpha_char(c) || is_digit_char(c)
}

/// The first index at or after `i` whose character falls outside the
/// identifier character class, or the end of the input.
pub open spec fn class_run_end(s: Seq<char>, i: int) -> int
    decreases s.len() - i,
{
    if i >= s.len() {
        s.len() as int
    } else if is_ident_char(s[i]) {
        class_run_end(s, i + 1)
    } else {
        i
    }
}

/// The accumulation state of one classification attempt: the segment being
/// built, the finalized capitalized and non-capitalized segments, whether
/// the current segment began with an uppercase character, and whether the
/// token began with a dot.
pub ghost struct ScanSt {
    pub buf: Seq<char>,
    pub caps: Seq<Seq<char>>,
    pub lowers: Seq<Seq<char>>,
    pub cap: bool,
    pub acc: bool,
}

/// What one classification attempt produces: a hard failure, or a token
/// (possibly `Malformed`) whose text is the first `take` characters of the
/// input. The character at index `take`, if any, ended the token and is
/// handed back unconsumed as the lookahead; the parse position advances by
/// exactly `take`.
pub ghost enum Outcome {
    Failed { reason: FailReason },
    Token { ident: IdentModel, take: int },
}

/// The state after an alphabetic character: it is appended to the current
/// segment; if the segment was empty, its case fixes the segment's
/// capitalization, never reconsidered afterwards.
pub open spec fn alpha_step(st: ScanSt, c: char) -> ScanSt {
    ScanSt {
        buf: st.buf.push(c),
        cap: if st.buf.len() == 0 {
            is_upper_char(c)
        } else {
            st.cap
        },
        ..st
    }
}

/// The state after a dot legally ends a segment: the segment joins the
/// capitalized or non-capitalized list by its capitalization, and the
/// buffer resets.
pub open spec fn dot_step(st: ScanSt) -> ScanSt {
    ScanSt {
        buf: Seq::empty(),
        caps: if st.cap {
            st.caps.push(st.buf)
        } else {
            st.caps
        },
        lowers: if st.cap {
            st.lowers
        } else {
            st.lowers.push(st.buf)
        },
        ..st
    }
}

/// The decision once the segments are finalized. `i` is the index of the
/// character that ended the token, or the input length.
pub open spec fn decide(s: Seq<char>, i: int, st: ScanSt) -> Outcome {
    if st.acc {
        // Accessor functions have the strictest requirements: exactly one
        // non-capitalized segment and no capitalized ones.
        if st.caps.len() == 0 && st.lowers.len() == 1 {
            Outcome::Token { ident: IdentModel::AccessorFunction { name: st.lowers[0] }, take: i }
        } else {
            Outcome::Token { ident: IdentModel::Malformed { text: s.subrange(0, i) }, take: i }
        }
    } else if st.lowers.len() == 0 {
        // Capitalized segments only: the last is the value, the rest the
        // qualifier.
        Outcome::Token {
            ident: IdentModel::Variant { modules: st.caps.drop_last(), name: st.caps.last() },
            take: i,
        }
    } else if st.lowers.len() == 1 {
        Outcome::Token {
            ident: IdentModel::Var { modules: st.caps, name: st.lowers[0] },
            take: i,
        }
    } else {
        Outcome::Token {
            ident: IdentModel::Field { modules: st.caps, names: st.lowers },
            take: i,
        }
    }
}

/// The end of the scanning loop, at index `i`, ended by the character
/// `term` (`None` at the end of the input). An empty buffer here means a
/// trailing dot or a bare accessor dot; a capitalized final segment after
/// non-capitalized ones is the same violation the dot rule enforces. Either
/// way the token degrades to `Malformed`: its text is everything consumed,
/// then the terminating character if there was one, then the rest of the
/// identifier-like run, so that the reported text is exactly what was
/// typed. The sole exception is a lone stray dot, which is a hard failure.
pub open spec fn finish(s: Seq<char>, i: int, st: ScanSt, term: Option<char>) -> Outcome {
    if st.buf.len() == 0 || (st.cap && st.lowers.len() > 0) {
        if st.buf.len() == 0 && st.acc && st.caps.len() == 0 && st.lowers.len() == 0
            && term is None {
            Outcome::Failed { reason: FailReason::UnexpectedChar('.', 1) }
        } else if term is None {
            Outcome::Token { ident: IdentModel::Malformed { text: s.subrange(0, i) }, take: i }
        } else {
            let k = class_run_end(s, i + 1);
            Outcome::Token { ident: IdentModel::Malformed { text: s.subrange(0, k) }, take: k }
        }
    } else {
        decide(s, i, dot_step(st))
    }
}

/// The scanning loop itself, from index `i` with accumulation state `st`.
/// The first character was already consumed into `st` by `classify_spec`.
pub open spec fn scan(s: Seq<char>, i: int, st: ScanSt) -> Outcome
    recommends
        1 <= i <= s.len(),
    decreases s.len() - i,
{
    if i >= s.len() {
        finish(s, i, st, None)
    } else {
        let c = s[i];
        if is_alpha_char(c) {
            scan(s, i + 1, alpha_step(st, c))
        } else if is_digit_char(c) {
            if st.buf.len() == 0 {
                // A segment may not start with a digit.
                let k = class_run_end(s, i + 1);
                Outcome::Token { ident: IdentModel::Malformed { text: s.subrange(0, k) }, take: k }
            } else {
                scan(s, i + 1, alpha_step(st, c))
            }
        } else if c == '.' {
            if st.buf.len() == 0 || (st.cap && st.lowers.len() > 0) {
                // An empty segment between two dots, or a capitalized
                // segment after non-capitalized ones.
                let k = class_run_end(s, i + 1);
                Outcome::Token { ident: IdentModel::Malformed { text: s.subrange(0, k) }, take: k }
            } else {
                scan(s, i + 1, dot_step(st))
            }
        } else {
            finish(s, i, st, Some(c))
        }
    }
}

/// The initial accumulation state: empty, with the accessor flag recording
/// whether the token began with a dot.
pub open spec fn init_st(acc: bool) -> ScanSt {
    ScanSt { buf: Seq::empty(), caps: Seq::empty(), lowers: Seq::empty(), cap: false, acc: acc }
}

/// The whole classification of an input. The first character must be
/// alphabetic or a dot; end of input with nothing consumed, or any other
/// leading character, is a hard failure.
pub open spec fn classify_spec(s: Seq<char>) -> Outcome {
    if s.len() == 0 {
        Outcome::Failed { reason: FailReason::UnexpectedEof(0) }
    } else if is_alpha_char(s[0]) {
        scan(s, 1, alpha_step(init_st(false), s[0]))
    } else if s[0] == '.' {
        scan(s, 1, init_st(true))
    } else {
        Outcome::Failed { reason: FailReason::UnexpectedChar(s[0], 0) }
    }
}

/// The lookahead character a token leaves unconsumed: the character right
/// after the token's text, if any.
pub open spec fn opt_term(s: Seq<char>, take: int) -> Option<char> {
    if take < s.len() {
        Some(s[take])
    } else {
        None
    }
}

/// How many characters a token removes from the cursor: its text, plus the
/// lookahead character, which is consumed but handed back separately.
pub open spec fn cursor_taken(s: Seq<char>, take: int) -> int {
    if take < s.len() {
        take + 1
    } else {
        take
    }
}

/// How many characters a hard failure removes from the cursor: the one
/// offending character, or nothing at the end of the input.
pub open spec fn fail_taken(reason: FailReason) -> int {
    match reason {
        FailReason::UnexpectedChar(_, _) => 1,
        FailReason::UnexpectedEof(_) => 0,
    }
}

} // verus!
