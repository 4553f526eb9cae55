//! A monadic parser-combinator engine over character cursors.
//!
//! Parsers are composable values interpreted by a single evaluator
//! ([`parser::Parser::parse`]); every combinator's behaviour is pinned by the
//! specification function [`parser::run`].  Positions are character (Unicode
//! scalar) offsets into the source text, never byte offsets.

pub mod ast;
pub mod text;
pub mod value;
pub mod input;
pub mod output;
pub mod parser;
pub mod grammar;
pub mod laws;
