use crate::text::{decimal, decimal_text};
use vstd::prelude::*;

verus! {

/// A literal value. A float is kept as its decimal text.
#[derive(Debug, PartialEq, Clone)]
pub enum Literal {
    Char(char),
    Int(u128),
    Float(String),
    String(String),
}

/// A literal with its texts as character sequences.
pub enum LiteralView {
    Char(char),
    Int(u128),
    Float(Seq<char>),
    String(Seq<char>),
}

impl View for Literal {
    type V = LiteralView;

    open spec fn view(&self) -> LiteralView {
        match self {
            Literal::Char(c) => LiteralView::Char(*c),
            Literal::Int(i) => LiteralView::Int(*i),
            Literal::Float(s) => LiteralView::Float(s@),
            Literal::String(s) => LiteralView::String(s@),
        }
    }
}

impl LiteralView {
    /// The text that stands for this literal: its content, without quotes.
    pub open spec fn rendered(self) -> Seq<char> {
        match self {
            LiteralView::Char(c) => seq![c],
            LiteralView::Int(i) => decimal(i as nat),
            LiteralView::Float(s) => s,
            LiteralView::String(s) => s,
        }
    }
}

impl Literal {
    /// This literal as text.
    pub fn to_string(&self) -> (s: String)
        ensures
            s@ == self@.rendered(),
    {
        match self {
            Literal::Char(c) => {
                let mut s = String::new();
                s.push(*c);
                assert(s@ =~= seq![*c]);
                s
            },
            Literal::Int(u) => decimal_text(*u),
            Literal::Float(f) => f.clone(),
            Literal::String(s) => s.clone(),
        }
    }

    /// A copy of this literal.
    pub fn duplicate(&self) -> (l: Literal)
        ensures
            l == *self,
    {
        match self {
            Literal::Char(c) => Literal::Char(*c),
            Literal::Int(u) => Literal::Int(*u),
            Literal::Float(f) => Literal::Float(f.clone()),
            Literal::String(s) => Literal::String(s.clone()),
        }
    }
}

} // verus!
