//! What the engines take from the standard library and from other crates,
//! each behind a function from plain values to plain values.
pub mod cipher;
pub mod html;
pub mod id_set;
pub mod pattern;
pub mod std_text;
pub mod url;
