use crate::ast::ast::ErrorCode;
use crate::ast::literal::{Literal, LiteralView};
use crate::text::{decimal, decimal_text};
use vstd::prelude::*;
use vstd::string::StringExecFns;

verus! {

/// Why an evaluation failed.
#[derive(Debug, PartialEq)]
pub enum EvalError {
    /// The tree holds an empty node.
    EmptyValue,
    /// The tree holds a character or string literal.
    UnsupportedLiteralKind(Literal),
    /// Kept for identifiers that are no variables.
    UnsupportedIdentifier,
    /// The named variable has no value.
    UnknownVariable(String),
    /// The operator text names no operation.
    UnknownOperator(String),
    /// The integer literal does not fit in 32 bits with a sign.
    ValueTooLarge(u128),
    /// The tree holds an error node.
    SyntaxError(ErrorCode),
}

/// An evaluation error with its texts as character sequences.
pub enum EvalErrorView {
    EmptyValue,
    UnsupportedLiteralKind(LiteralView),
    UnsupportedIdentifier,
    UnknownVariable(Seq<char>),
    UnknownOperator(Seq<char>),
    ValueTooLarge(u128),
    SyntaxError(ErrorCode),
}

impl View for EvalError {
    type V = EvalErrorView;

    open spec fn view(&self) -> EvalErrorView {
        match self {
            EvalError::EmptyValue => EvalErrorView::EmptyValue,
            EvalError::UnsupportedLiteralKind(l) => EvalErrorView::UnsupportedLiteralKind(l@),
            EvalError::UnsupportedIdentifier => EvalErrorView::UnsupportedIdentifier,
            EvalError::UnknownVariable(s) => EvalErrorView::UnknownVariable(s@),
            EvalError::UnknownOperator(s) => EvalErrorView::UnknownOperator(s@),
            EvalError::ValueTooLarge(i) => EvalErrorView::ValueTooLarge(*i),
            EvalError::SyntaxError(e) => EvalErrorView::SyntaxError(*e),
        }
    }
}

impl EvalErrorView {
    /// This error in words.
    pub open spec fn message(self) -> Seq<char> {
        match self {
            EvalErrorView::EmptyValue => "Cannot compute empty value"@,
            EvalErrorView::UnsupportedLiteralKind(l) => match l {
                LiteralView::Char(_) => "Char literals are currently not supported"@,
                LiteralView::String(_) => "String literals are currently not supported"@,
                _ => "Literals of this kind are currently not supported"@,
            },
            EvalErrorView::UnsupportedIdentifier => "Identifiers of this kind are currently not supported"@,
            EvalErrorView::UnknownVariable(name) => name + ": variable not found"@,
            EvalErrorView::UnknownOperator(op) => op + ": unknown operator"@,
            EvalErrorView::ValueTooLarge(i) => "Error: "@ + decimal(i as nat) + " is too big"@,
            EvalErrorView::SyntaxError(code) => code.description(),
        }
    }
}

impl EvalError {
    /// This error in words.
    pub fn to_string(&self) -> (s: String)
        ensures
            s@ == self@.message(),
    {
        match self {
            EvalError::EmptyValue => "Cannot compute empty value".to_owned(),
            EvalError::UnsupportedLiteralKind(l) => match l {
                Literal::Char(_) => "Char literals are currently not supported".to_owned(),
                Literal::String(_) => "String literals are currently not supported".to_owned(),
                _ => "Literals of this kind are currently not supported".to_owned(),
            },
            EvalError::UnsupportedIdentifier => "Identifiers of this kind are currently not supported".to_owned(),
            EvalError::UnknownVariable(name) => {
                let mut s = name.clone();
                s.append(": variable not found");
                s
            },
            EvalError::UnknownOperator(op) => {
                let mut s = op.clone();
                s.append(": unknown operator");
                s
            },
            EvalError::ValueTooLarge(i) => {
                let mut s = "Error: ".to_owned();
                s.append(decimal_text(*i).as_str());
                s.append(" is too big");
                s
            },
            EvalError::SyntaxError(code) => code.to_string(),
        }
    }
}

} // verus!
