//! Lexical scanner for a small C subset.
//!
//! The scanner turns preprocessed source text into an ordered sequence of
//! classified tokens, or, when the text contains lexical defects, into the
//! full batch of diagnostics collected in one left-to-right pass.

pub mod lexer;
