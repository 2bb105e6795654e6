//! Rendering of strings, keys, identifiers and record-id segments as literals
//! of a SQL-like query language.
//!
//! Every function here is pure: it reads its input and returns text. The
//! contracts are stated over sequences of characters (the view of `str` and
//! `String`); [`text`] holds the model of what is rendered, [`grammar`] the
//! model of how rendered text is read back, and the laws that tie the two.

pub mod charset;
pub mod escape;
pub mod foreign;
pub mod grammar;
pub mod probe;
pub mod text;
