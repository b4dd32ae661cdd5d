//! Compiles catalogs of localized message templates, bound to an enumerated
//! set of languages, into render plans over a small assembly protocol.

pub mod attribute;
pub mod diagnostic;
pub mod generator;
pub mod languages;
pub mod lrc;
pub mod messages;
pub mod outside;
pub mod output;
pub mod render;
pub mod text;
pub mod tokenizer;
pub mod tree;
