//! A small language of arithmetic expressions, verified with Verus.
//!
//! A source text is cut into tokens ([`tokeniser`]), the tokens are read as
//! one statement ([`ast`]), and the statement is evaluated against the
//! variables of a session ([`computer`]). Every token and every syntax
//! node carries the span of source text it was read from
//! ([`source_code`]).
//!
//! Malformed input never stops a stage: the tokeniser yields error tokens,
//! the parser error nodes, and only evaluation fails, with an error value.
//!
//! The library holds no floating-point arithmetic. A float literal is kept
//! as its decimal text, and evaluation reduces a statement to a
//! [`computer::Term`]: the arithmetic that is left once names are looked
//! up and every failure is ruled out. The caller works the term out.
pub mod ast;
pub mod computer;
pub mod source_code;
pub mod text;
pub mod tokeniser;
