//! The lexing stage: drives a [`scanner::Scanner`] over the whole input.

pub mod laws;
pub mod scanner;

use vstd::prelude::*;

verus! {

use crate::lexer::scanner::{Scanner, TOKEN, scan_from, views_of_tokens};

/// Scans `source` completely and hands the token sequence to the following
/// stage.
///
/// The caller must already know the text to be lexically clean; a text with
/// defects is rejected before this stage runs (see [`Scanner::scan_token`]
/// for the scan that reports them).
pub fn run(source: &str) -> (tokens: Vec<TOKEN>)
    requires
        source.is_ascii(),
        source@.len() + 1 <= i32::MAX,
        scan_from(source@, 0, 1).errors.len() == 0,
    ensures
        views_of_tokens(tokens@) == scan_from(source@, 0, 1).tokens,
{
    let mut scanner = Scanner::new(source);
    match scanner.scan_token() {
        Ok(tokens) => tokens,
        Err(_) => {
            proof {
                assert(false);
            }
            vstd::pervasive::unreached()
        },
    }
}

} // verus!
