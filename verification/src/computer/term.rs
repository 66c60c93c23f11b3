use vstd::prelude::*;

verus! {

/// The arithmetic operations on two numbers.
#[derive(Debug, Clone, Copy, PartialEq, Eq, Structural)]
pub enum Operation {
    Add,
    Subtract,
    Multiply,
    Divide,
    Remainder,
}

/// A number, written as the arithmetic that yields it. Evaluation reduces
/// a syntax tree to such a term; the caller works it out in double
/// precision.
#[derive(Debug, PartialEq)]
pub enum Term {
    /// An integer.
    Int(i32),
    /// A decimal numeral: digits, a point, digits.
    Decimal(String),
    /// A number that was worked out before, as the bit pattern of a double.
    Bits(u64),
    /// The negation of a term.
    Negate(Box<Term>),
    /// An operation applied to two terms, the left one first.
    Binary(Operation, Box<Term>, Box<Term>),
}

/// A term with its texts as character sequences.
pub enum TermView {
    Int(i32),
    Decimal(Seq<char>),
    Bits(u64),
    Negate(Box<TermView>),
    Binary(Operation, Box<TermView>, Box<TermView>),
}

impl Term {
    /// This term with its texts as character sequences.
    pub open spec fn model(&self) -> TermView
        decreases self,
    {
        match self {
            Term::Int(i) => TermView::Int(*i),
            Term::Decimal(s) => TermView::Decimal(s@),
            Term::Bits(b) => TermView::Bits(*b),
            Term::Negate(t) => TermView::Negate(Box::new(t.model())),
            Term::Binary(op, l, r) => TermView::Binary(
                *op,
                Box::new(l.model()),
                Box::new(r.model()),
            ),
        }
    }

    /// A copy of this term.
    pub fn duplicate(&self) -> (t: Term)
        ensures
            t@ == self@,
        decreases self,
    {
        match self {
            Term::Int(i) => Term::Int(*i),
            Term::Decimal(s) => Term::Decimal(s.clone()),
            Term::Bits(b) => Term::Bits(*b),
            Term::Negate(t) => Term::Negate(Box::new(t.duplicate())),
            Term::Binary(op, l, r) => Term::Binary(
                *op,
                Box::new(l.duplicate()),
                Box::new(r.duplicate()),
            ),
        }
    }
}

impl View for Term {
    type V = TermView;

    open spec fn view(&self) -> TermView {
        self.model()
    }
}

/// The operation that the operator text `op` names, if it names one.
pub open spec fn operation_of(op: Seq<char>) -> Option<Operation> {
    if op == "+"@ {
        Some(Operation::Add)
    } else if op == "-"@ {
        Some(Operation::Subtract)
    } else if op == "*"@ {
        Some(Operation::Multiply)
    } else if op == "/"@ {
        Some(Operation::Divide)
    } else if op == "%"@ {
        Some(Operation::Remainder)
    } else {
        None
    }
}

} // verus!
