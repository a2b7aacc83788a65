//! Lexical classification of identifier-like tokens.
//!
//! Given a character cursor positioned at the start of a candidate
//! identifier, the classifier consumes characters under strict structural
//! rules (dot rules, capitalization rules, digit rules), and returns either
//! a classified [`ident::Ident`] value together with the first character
//! that does not belong to the token, or a hard failure for the few inputs
//! that cannot begin an identifier at all.

pub mod chars;
pub mod classify;
pub mod cursor;
pub mod ident;
pub mod laws;
pub mod scan;
pub mod state;
