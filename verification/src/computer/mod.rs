pub mod error;
pub mod term;

pub use error::EvalError;
pub use term::{Operation, Term};

use crate::ast::ast::{assignable, Ast, AstView, Value, ValueView};
use crate::ast::literal::{Literal, LiteralView};
use crate::text::same_text;
use error::EvalErrorView;
use term::{operation_of, TermView};
use vstd::prelude::*;

verus! {

/// The variables and their values, by name.
pub type Context = Map<Seq<char>, TermView>;

/// What an evaluation leaves: its result and the variables after it.
pub struct Outcome {
    pub result: Result<TermView, EvalErrorView>,
    pub context: Context,
}

/// The value of a literal: an integer within 32 bits with a sign, or a
/// decimal numeral.
pub open spec fn literal_term(l: LiteralView) -> Result<TermView, EvalErrorView> {
    match l {
        LiteralView::Int(i) => if i <= i32::MAX {
            Ok(TermView::Int(i as i32))
        } else {
            Err(EvalErrorView::ValueTooLarge(i))
        },
        LiteralView::Float(s) => Ok(TermView::Decimal(s)),
        _ => Err(EvalErrorView::UnsupportedLiteralKind(l)),
    }
}

/// The value of a sign applied to `v`.
pub open spec fn unary_term(op: Seq<char>, v: TermView) -> Result<TermView, EvalErrorView> {
    if op == "+"@ {
        Ok(v)
    } else if op == "-"@ {
        Ok(TermView::Negate(Box::new(v)))
    } else {
        Err(EvalErrorView::UnknownOperator(op))
    }
}

/// The value of an operator applied to `l` and `r`.
pub open spec fn binary_term(op: Seq<char>, l: TermView, r: TermView) -> Result<
    TermView,
    EvalErrorView,
> {
    match operation_of(op) {
        Some(operation) => Ok(TermView::Binary(operation, Box::new(l), Box::new(r))),
        None => Err(EvalErrorView::UnknownOperator(op)),
    }
}

/// The evaluation of `ast` with the variables `context`. Operands are
/// evaluated from left to right and the first failure ends the evaluation;
/// an assignment whose right side has a value binds the name to it.
pub open spec fn evaluate(ast: AstView, context: Context) -> Outcome
    decreases ast,
{
    match ast.value {
        ValueView::Empty => Outcome { result: Err(EvalErrorView::EmptyValue), context },
        ValueView::Literal(l) => Outcome { result: literal_term(l), context },
        ValueView::Identifier(name) => Outcome {
            result: if context.contains_key(name) {
                Ok(context[name])
            } else {
                Err(EvalErrorView::UnknownVariable(name))
            },
            context,
        },
        ValueView::Unary(op, e) => {
            let operand = evaluate(*e, context);
            match operand.result {
                Ok(v) => Outcome { result: unary_term(op, v), context: operand.context },
                Err(_) => operand,
            }
        },
        ValueView::Binary(l, op, r) => {
            let left = evaluate(*l, context);
            match left.result {
                Ok(x) => {
                    let right = evaluate(*r, left.context);
                    match right.result {
                        Ok(y) => Outcome { result: binary_term(op, x, y), context: right.context },
                        Err(_) => right,
                    }
                },
                Err(_) => left,
            }
        },
        ValueView::Error(code) => Outcome { result: Err(EvalErrorView::SyntaxError(code)), context },
        ValueView::Expression(e) => evaluate(*e, context),
        ValueView::Assignment(id, e) => {
            let value = evaluate(*e, context);
            match (value.result, id.value) {
                (Ok(v), ValueView::Identifier(name)) => Outcome {
                    result: Ok(v),
                    context: value.context.insert(name, v),
                },
                _ => value,
            }
        },
    }
}

/// A variable without a value cannot be read: in a context that does not
/// hold `name`, the identifier `name` fails as an unknown variable and the
/// context stays as it is.
pub proof fn lemma_unknown_variable(identifier: AstView, context: Context)
    requires
        identifier.value is Identifier,
        !context.contains_key(identifier.value->Identifier_0),
    ensures
        evaluate(identifier, context).result == Err::<TermView, EvalErrorView>(
            EvalErrorView::UnknownVariable(identifier.value->Identifier_0),
        ),
        evaluate(identifier, context).context == context,
{
}

/// What an assignment binds can be read back: where an assignment to an
/// identifier has a value, it is the value of its right side, and the
/// identifier has that value in the context that the assignment leaves.
pub proof fn lemma_assigned_is_read(assignment: AstView, context: Context)
    requires
        assignment.value is Assignment,
        assignment.value->Assignment_0.value is Identifier,
        evaluate(assignment, context).result is Ok,
    ensures
        evaluate(*assignment.value->Assignment_0, evaluate(assignment, context).context).result
            == evaluate(assignment, context).result,
        evaluate(assignment, context).result == evaluate(
            *assignment.value->Assignment_1,
            context,
        ).result,
{
}

/// A failed evaluation of the right side binds nothing: the assignment
/// fails in the same way and leaves the context that the right side left.
pub proof fn lemma_failed_assignment(assignment: AstView, context: Context)
    requires
        assignment.value is Assignment,
        evaluate(*assignment.value->Assignment_1, context).result is Err,
    ensures
        evaluate(assignment, context) == evaluate(*assignment.value->Assignment_1, context),
{
}

/// Round brackets do not change a value.
pub proof fn lemma_group_is_transparent(group: AstView, context: Context)
    requires
        group.value is Expression,
    ensures
        evaluate(group, context) == evaluate(*group.value->Expression_0, context),
{
}

/// An integer literal has a value exactly when it fits in 32 bits with a
/// sign; a larger one fails with the literal's own value.
pub proof fn lemma_integer_range(i: u128)
    ensures
        i <= 0x7fff_ffff ==> literal_term(LiteralView::Int(i)) == Ok::<TermView, EvalErrorView>(
            TermView::Int(i as i32),
        ),
        i > 0x7fff_ffff ==> literal_term(LiteralView::Int(i)) == Err::<TermView, EvalErrorView>(
            EvalErrorView::ValueTooLarge(i),
        ),
{
}

/// The result of an evaluation with its texts as character sequences.
pub open spec fn result_view(r: Result<Term, EvalError>) -> Result<TermView, EvalErrorView> {
    match r {
        Ok(t) => Ok(t@),
        Err(e) => Err(e@),
    }
}

/// An evaluation session: the variables that assignments have bound.
pub struct Computer {
    names: Vec<String>,
    values: Vec<Term>,
}

impl View for Computer {
    type V = Context;

    closed spec fn view(&self) -> Context {
        Map::new(
            |name: Seq<char>| self.index_of(name) is Some,
            |name: Seq<char>| self.values[self.index_of(name)->0]@,
        )
    }
}

impl Computer {
    /// Where `name` stands among the names, if it does.
    closed spec fn index_of(&self, name: Seq<char>) -> Option<int> {
        if exists|i: int| 0 <= i < self.names.len() && self.names[i]@ == name {
            Some(choose|i: int| 0 <= i < self.names.len() && self.names[i]@ == name)
        } else {
            None
        }
    }

    /// Every name has its value and no name stands twice.
    pub closed spec fn wf(&self) -> bool {
        &&& self.names.len() == self.values.len()
        &&& forall|i: int, j: int|
            0 <= i < j < self.names.len() ==> self.names[i]@ != self.names[j]@
    }

    /// A session without variables.
    pub fn new() -> (c: Computer)
        ensures
            c.wf(),
            c@ == Map::<Seq<char>, TermView>::empty(),
    {
        let c = Computer { names: Vec::new(), values: Vec::new() };
        assert(c@ =~= Map::<Seq<char>, TermView>::empty());
        c
    }

    /// The position of `name` among the names.
    fn find(&self, name: &String) -> (r: Option<usize>)
        requires
            self.wf(),
        ensures
            match r {
                Some(i) => i < self.names.len() && self.names[i as int]@ == name@
                    && self.index_of(name@) == Some(i as int),
                None => self.index_of(name@) is None,
            },
    {
        let mut i: usize = 0;
        while i < self.names.len()
            invariant
                i <= self.names.len(),
                forall|k: int| 0 <= k < i ==> self.names[k]@ != name@,
                forall|a: int, b: int|
                    0 <= a < b < self.names.len() ==> self.names[a]@ != self.names[b]@,
            decreases self.names.len() - i,
        {
            if same_text(self.names[i].as_str(), name.as_str()) {
                return Some(i);
            }
            i += 1;
        }
        None
    }

    /// The value of the variable `name`, if it has one.
    pub fn get(&self, name: &String) -> (r: Option<Term>)
        requires
            self.wf(),
        ensures
            match r {
                Some(t) => self@.contains_key(name@) && t@ == self@[name@],
                None => !self@.contains_key(name@),
            },
    {
        match self.find(name) {
            Some(i) => Some(self.values[i].duplicate()),
            None => None,
        }
    }

    /// Binds the variable `name` to `value`.
    pub fn assign(&mut self, name: String, value: Term)
        requires
            old(self).wf(),
        ensures
            final(self).wf(),
            final(self)@ == old(self)@.insert(name@, value@),
    {
        let ghost before = *self;
        match self.find(&name) {
            Some(i) => {
                self.values.set(i, value);
                proof {
                    assert forall|n: Seq<char>| self.index_of(n) == before.index_of(n) by {}
                    assert(self@ =~= before@.insert(name@, value@));
                }
            },
            None => {
                self.names.push(name);
                self.values.push(value);
                proof {
                    let last = before.names.len() as int;
                    assert forall|n: Seq<char>| n != name@ implies self.index_of(n)
                        == before.index_of(n) by {
                        if before.index_of(n) is Some {
                            let i = before.index_of(n)->0;
                            assert(self.names[i]@ == n);
                        }
                        if self.index_of(n) is Some {
                            let i = self.index_of(n)->0;
                            assert(before.names[i]@ == n);
                        }
                    }
                    assert(self.names[last]@ == name@);
                    assert(self.index_of(name@) == Some(last));
                    assert(self@ =~= before@.insert(name@, value@));
                }
            },
        }
    }

    /// The variables with their values, in no particular order.
    pub fn iter(&self) -> (v: Vec<(String, Term)>)
        requires
            self.wf(),
        ensures
            v.len() == self@.dom().len(),
            forall|i: int|
                0 <= i < v.len() ==> self@.contains_key(#[trigger] v[i].0@) && v[i].1@
                    == self@[v[i].0@],
            forall|name: Seq<char>|
                self@.contains_key(name) ==> exists|i: int| 0 <= i < v.len() && v[i].0@ == name,
    {
        let mut v: Vec<(String, Term)> = Vec::new();
        let mut i: usize = 0;
        while i < self.names.len()
            invariant
                i <= self.names.len() == self.values.len(),
                v.len() == i,
                forall|a: int, b: int|
                    0 <= a < b < self.names.len() ==> self.names[a]@ != self.names[b]@,
                forall|k: int|
                    0 <= k < i ==> (#[trigger] v[k]).0@ == self.names[k]@ && v[k].1@
                        == self.values[k]@,
            decreases self.names.len() - i,
        {
            v.push((self.names[i].clone(), self.values[i].duplicate()));
            i += 1;
        }
        proof {
            assert forall|k: int| 0 <= k < v.len() implies self@.contains_key(#[trigger] v[k].0@)
                && v[k].1@ == self@[v[k].0@] by {
                assert(self.names[k]@ == v[k].0@);
                assert(self.index_of(v[k].0@) == Some(k));
            }
            assert forall|name: Seq<char>| self@.contains_key(name) implies exists|i: int|
                0 <= i < v.len() && v[i].0@ == name by {
                let i = self.index_of(name)->0;
                assert(v[i].0@ == name);
            }
            self.lemma_size();
        }
        v
    }

    /// There are as many variables as names.
    proof fn lemma_size(&self)
        requires
            self.wf(),
        ensures
            self@.dom().len() == self.names.len(),
            self@.dom().finite(),
    {
        let names = self.names@.map_values(|s: String| s@);
        assert(names.no_duplicates());
        assert(self@.dom() =~= names.to_set()) by {
            assert forall|n: Seq<char>| self@.dom().contains(n) <==> names.to_set().contains(n) by {
                if self@.dom().contains(n) {
                    let i = self.index_of(n)->0;
                    assert(names[i] == n);
                }
                if names.to_set().contains(n) {
                    let i = choose|i: int| 0 <= i < names.len() && names[i] == n;
                    assert(self.names[i]@ == n);
                }
            }
        }
        names.unique_seq_to_set();
    }

    /// Evaluates `ast` with the variables of this session.
    pub fn compute(&mut self, ast: &Ast) -> (r: Result<Term, EvalError>)
        requires
            old(self).wf(),
            assignable(ast@),
        ensures
            final(self).wf(),
            result_view(r) == evaluate(ast@, old(self)@).result,
            final(self)@ == evaluate(ast@, old(self)@).context,
        decreases ast,
    {
        match &ast.value {
            Value::Empty => Err(EvalError::EmptyValue),
            Value::Literal(l) => match l {
                Literal::Char(_) => Err(EvalError::UnsupportedLiteralKind(l.duplicate())),
                Literal::Int(i) => {
                    if *i <= 2147483647 {
                        Ok(Term::Int(*i as i32))
                    } else {
                        Err(EvalError::ValueTooLarge(*i))
                    }
                },
                Literal::Float(f) => Ok(Term::Decimal(f.clone())),
                Literal::String(_) => Err(EvalError::UnsupportedLiteralKind(l.duplicate())),
            },
            Value::Identifier(id) => match self.get(id) {
                Some(value) => Ok(value),
                None => Err(EvalError::UnknownVariable(id.clone())),
            },
            Value::Unary(op, expr) => {
                let value = match self.compute(expr) {
                    Ok(value) => value,
                    Err(e) => {
                        return Err(e);
                    },
                };
                if same_text(op.as_str(), "+") {
                    Ok(value)
                } else if same_text(op.as_str(), "-") {
                    Ok(Term::Negate(Box::new(value)))
                } else {
                    Err(EvalError::UnknownOperator(op.clone()))
                }
            },
            Value::Binary(left, op, right) => {
                let left = match self.compute(left) {
                    Ok(value) => value,
                    Err(e) => {
                        return Err(e);
                    },
                };
                let right = match self.compute(right) {
                    Ok(value) => value,
                    Err(e) => {
                        return Err(e);
                    },
                };
                let operation = if same_text(op.as_str(), "+") {
                    Operation::Add
                } else if same_text(op.as_str(), "-") {
                    Operation::Subtract
                } else if same_text(op.as_str(), "*") {
                    Operation::Multiply
                } else if same_text(op.as_str(), "/") {
                    Operation::Divide
                } else if same_text(op.as_str(), "%") {
                    Operation::Remainder
                } else {
                    return Err(EvalError::UnknownOperator(op.clone()));
                };
                Ok(Term::Binary(operation, Box::new(left), Box::new(right)))
            },
            Value::Error(e) => Err(EvalError::SyntaxError(*e)),
            Value::Expression(e) => self.compute(e),
            Value::Assignment(id, expr) => {
                let value = match self.compute(expr) {
                    Ok(value) => value,
                    Err(e) => {
                        return Err(e);
                    },
                };
                match &id.value {
                    Value::Identifier(name) => {
                        assert(id@.value == ValueView::Identifier(name@));
                        self.assign(name.clone(), value.duplicate());
                        Ok(value)
                    },
                    _ => Ok(value),
                }
            },
        }
    }
}

} // verus!
