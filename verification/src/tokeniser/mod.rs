pub mod check;
pub mod parsers;
pub mod scan;
pub mod spelled;
pub mod token;
pub mod tokeniser;
pub mod trie;

pub use token::{ErrorCode, Token, TokenValue};

use crate::source_code::SourceCode;
use scan::{lemma_token_count, lemma_total_coverage, partitions, solid_count, tokens_of};
use token::token_views;
use tokeniser::Tokeniser;
use vstd::prelude::*;

verus! {

/// The tokens of a source text. They divide the text: their spans are in
/// order, none is empty, and what lies outside them is whitespace. There
/// are no more of them than characters that are not whitespace.
pub fn from_source_code<'a>(source_code: &'a SourceCode) -> (tokens: Vec<Token>)
    ensures
        token_views(tokens@) == tokens_of(source_code@),
        partitions(source_code@, token_views(tokens@), source_code@.len() as int),
        tokens.len() <= solid_count(source_code@, source_code@.len() as int),
{
    let chars = source_code.chars();
    proof {
        lemma_total_coverage(source_code@);
        lemma_token_count(source_code@);
    }
    let mut tokeniser = Tokeniser::new(source_code);
    tokeniser.parse()
}

/// The tokens of `code`. They divide the text: their spans are in order,
/// none is empty, and what lies outside them is whitespace. There are no
/// more of them than characters that are not whitespace.
pub fn from_string(code: &str) -> (tokens: Vec<Token>)
    ensures
        token_views(tokens@) == tokens_of(code@),
        partitions(code@, token_views(tokens@), code@.len() as int),
        tokens.len() <= solid_count(code@, code@.len() as int),
{
    let source_code = SourceCode::new(code.to_owned());
    from_source_code(&source_code)
}

} // verus!
