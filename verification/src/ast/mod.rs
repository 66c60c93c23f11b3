pub mod ast;
pub mod grammar;
pub mod literal;
pub mod parser;
pub mod roundtrip;
pub mod unparse;

pub use ast::{Ast, ErrorCode, Value};
pub use literal::Literal;
pub use parser::from_tokens;

use crate::source_code::SourceCode;
use crate::tokeniser::from_source_code;
use crate::tokeniser::scan::tokens_of;
use ast::assignable;
use grammar::parse_tokens;
use vstd::prelude::*;

verus! {

/// The syntax tree of the statement that `code` holds.
pub fn from_string(code: &str) -> (ast: Ast)
    ensures
        ast@ == parse_tokens(tokens_of(code@)),
        assignable(ast@),
{
    let source_code = SourceCode::new(code.to_owned());
    let tokens = from_source_code(&source_code);
    from_tokens(tokens)
}

} // verus!
