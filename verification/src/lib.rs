//! The rules of two compile-time helpers, stated as contracts and proved.
//!
//! `from_hashmap` writes, for a struct with named fields, the source of a
//! conversion from a flat mapping of text keys and text values; `cache_it`
//! writes a function anew with a cache lookup as its first statement. Both
//! decide on plain text alone, and both give their result as text.
//!
//! `convert` says what the written conversion makes of a mapping, rule by
//! rule, on the mapping type of `flat_map`. `text` and `number` hold the
//! operations on texts and numerals that the rules are made of, and `syntax`
//! the calls into the parser, which are taken on trust.

pub mod cache_it;
pub mod convert;
pub mod flat_map;
pub mod from_hashmap;
pub mod number;
pub mod syntax;
pub mod text;
