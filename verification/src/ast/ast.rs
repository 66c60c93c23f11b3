use super::literal::{Literal, LiteralView};
use crate::source_code::Location;
use crate::tokeniser::token::{Token, TokenValue, TokenValueView};
use vstd::prelude::*;
use vstd::string::StringExecFns;

verus! {

/// What the parser can miss.
#[derive(Debug, Clone, Copy, PartialEq, Eq, Structural)]
pub enum ErrorCode {
    TokenExpected,
    UnexpectedToken,
    RparenExpected,
    AtomExpected,
    LiteralExpected,
}

impl ErrorCode {
    /// What was expected, in words.
    pub open spec fn description(self) -> Seq<char> {
        match self {
            ErrorCode::TokenExpected => "Expected Token"@,
            ErrorCode::RparenExpected => "Expected RPAREN"@,
            ErrorCode::AtomExpected => "Expected Identifier or Literal"@,
            ErrorCode::LiteralExpected => "Expected Literal"@,
            ErrorCode::UnexpectedToken => "Unexpected Token"@,
        }
    }

    /// This error in words.
    pub fn to_string(&self) -> (s: String)
        ensures
            s@ == self.description(),
    {
        let error = match self {
            ErrorCode::TokenExpected => "Expected Token",
            ErrorCode::RparenExpected => "Expected RPAREN",
            ErrorCode::AtomExpected => "Expected Identifier or Literal",
            ErrorCode::LiteralExpected => "Expected Literal",
            ErrorCode::UnexpectedToken => "Unexpected Token",
        };
        error.to_owned()
    }
}

/// What a syntax node is.
#[derive(Debug, PartialEq)]
pub enum Value {
    Empty,
    Literal(Literal),
    Identifier(String),
    Unary(String, Box<Ast>),
    Binary(Box<Ast>, String, Box<Ast>),
    Error(ErrorCode),
    Expression(Box<Ast>),
    Assignment(Box<Ast>, Box<Ast>),
}

/// A syntax node: what it is and the span of source text it covers.
#[derive(Debug, PartialEq)]
pub struct Ast {
    pub value: Value,
    pub start: Location,
    pub end: Location,
}

/// A node's value with its texts as character sequences.
pub enum ValueView {
    Empty,
    Literal(LiteralView),
    Identifier(Seq<char>),
    Unary(Seq<char>, Box<AstView>),
    Binary(Box<AstView>, Seq<char>, Box<AstView>),
    Error(ErrorCode),
    Expression(Box<AstView>),
    Assignment(Box<AstView>, Box<AstView>),
}

/// A syntax node with its texts as character sequences.
pub struct AstView {
    pub value: ValueView,
    pub start: Location,
    pub end: Location,
}

impl Value {
    /// This value with its texts as character sequences.
    pub open spec fn model(&self) -> ValueView
        decreases self,
    {
        match self {
            Value::Empty => ValueView::Empty,
            Value::Literal(l) => ValueView::Literal(l@),
            Value::Identifier(s) => ValueView::Identifier(s@),
            Value::Unary(op, e) => ValueView::Unary(op@, Box::new(e.model())),
            Value::Binary(l, op, r) => ValueView::Binary(
                Box::new(l.model()),
                op@,
                Box::new(r.model()),
            ),
            Value::Error(e) => ValueView::Error(*e),
            Value::Expression(e) => ValueView::Expression(Box::new(e.model())),
            Value::Assignment(id, e) => ValueView::Assignment(
                Box::new(id.model()),
                Box::new(e.model()),
            ),
        }
    }
}

impl Ast {
    /// This node with its texts as character sequences.
    pub open spec fn model(&self) -> AstView
        decreases self,
    {
        AstView { value: self.value.model(), start: self.start, end: self.end }
    }
}

impl ValueView {
    /// The source text that this value stands for: signs stand before
    /// their operand, operators between their operands with a space on
    /// either side, groups in round brackets.
    pub open spec fn rendered(self) -> Seq<char>
        decreases self,
    {
        match self {
            ValueView::Empty => "(empty)"@,
            ValueView::Literal(l) => l.rendered(),
            ValueView::Identifier(s) => s,
            ValueView::Unary(op, e) => op + e.rendered(),
            ValueView::Binary(l, op, r) => l.rendered() + " "@ + op + " "@ + r.rendered(),
            ValueView::Expression(e) => "("@ + e.rendered() + ")"@,
            ValueView::Error(err) => err.description(),
            ValueView::Assignment(id, e) => id.rendered() + " = "@ + e.rendered(),
        }
    }
}

impl AstView {
    /// The source text that this tree stands for.
    pub open spec fn rendered(self) -> Seq<char>
        decreases self,
    {
        self.value.rendered()
    }
}

impl View for Value {
    type V = ValueView;

    open spec fn view(&self) -> ValueView {
        self.model()
    }
}

impl View for Ast {
    type V = AstView;

    open spec fn view(&self) -> AstView {
        self.model()
    }
}

/// Whether every assignment in `ast` has an identifier on its left.
pub open spec fn assignable(ast: AstView) -> bool
    decreases ast,
{
    match ast.value {
        ValueView::Unary(_, e) => assignable(*e),
        ValueView::Binary(l, _, r) => assignable(*l) && assignable(*r),
        ValueView::Expression(e) => assignable(*e),
        ValueView::Assignment(id, e) => id.value is Identifier && assignable(*e),
        _ => true,
    }
}

/// Whether `ast` holds no assignment.
pub open spec fn plain(ast: AstView) -> bool
    decreases ast,
{
    match ast.value {
        ValueView::Unary(_, e) => plain(*e),
        ValueView::Binary(l, _, r) => plain(*l) && plain(*r),
        ValueView::Expression(e) => plain(*e),
        ValueView::Assignment(_, _) => false,
        _ => true,
    }
}

/// A tree without assignments has no assignment to a wrong target.
pub proof fn lemma_plain_assignable(ast: AstView)
    requires
        plain(ast),
    ensures
        assignable(ast),
    decreases ast,
{
    match ast.value {
        ValueView::Unary(_, e) => lemma_plain_assignable(*e),
        ValueView::Binary(l, _, r) => {
            lemma_plain_assignable(*l);
            lemma_plain_assignable(*r);
        },
        ValueView::Expression(e) => lemma_plain_assignable(*e),
        _ => {},
    }
}

/// The literal that a literal token holds.
pub open spec fn literal_of(v: TokenValueView) -> LiteralView {
    match v {
        TokenValueView::CharLiteral(c) => LiteralView::Char(c),
        TokenValueView::IntLiteral(i) => LiteralView::Int(i),
        TokenValueView::FloatLiteral(s) => LiteralView::Float(s),
        TokenValueView::StringLiteral(s) => LiteralView::String(s),
        _ => arbitrary(),
    }
}

/// The text that an identifier or operator token holds.
pub open spec fn text_of(v: TokenValueView) -> Seq<char> {
    match v {
        TokenValueView::Identifier(s) => s,
        TokenValueView::Operator(s) => s,
        _ => arbitrary(),
    }
}

impl Value {
    /// This value as source text.
    pub fn to_string(&self) -> (s: String)
        ensures
            s@ == self@.rendered(),
        decreases self, 0int,
    {
        match self {
            Value::Empty => "(empty)".to_owned(),
            Value::Literal(t) => t.to_string(),
            Value::Identifier(s) => s.clone(),
            Value::Unary(op, e) => {
                let mut s = op.clone();
                s.append(e.to_string().as_str());
                s
            },
            Value::Binary(left, op, right) => {
                let mut s = left.to_string();
                s.append(" ");
                s.append(op.as_str());
                s.append(" ");
                s.append(right.to_string().as_str());
                s
            },
            Value::Expression(e) => {
                let mut s = "(".to_owned();
                s.append(e.to_string().as_str());
                s.append(")");
                s
            },
            Value::Error(err) => err.to_string(),
            Value::Assignment(id, expr) => {
                let mut s = id.to_string();
                s.append(" = ");
                s.append(expr.to_string().as_str());
                s
            },
        }
    }

    /// The literal that the literal token `token` holds.
    pub fn from_literal(token: &Token) -> (v: Value)
        requires
            token@.is_literal(),
        ensures
            v@ == ValueView::Literal(literal_of(token@.value)),
    {
        let value = match &token.value {
            TokenValue::CharLiteral(c) => Literal::Char(*c),
            TokenValue::IntLiteral(i) => Literal::Int(*i),
            TokenValue::FloatLiteral(f) => Literal::Float(f.clone()),
            TokenValue::StringLiteral(s) => Literal::String(s.clone()),
            _ => {
                proof {
                    assert(false);
                }
                Literal::Int(0)
            },
        };
        Value::Literal(value)
    }

    /// The identifier that the identifier token `token` names.
    pub fn from_identifier(token: &Token) -> (v: Value)
        requires
            token@.is_identifier(),
        ensures
            v@ == ValueView::Identifier(text_of(token@.value)),
    {
        match &token.value {
            TokenValue::Identifier(id) => Value::Identifier(id.clone()),
            _ => {
                proof {
                    assert(false);
                }
                Value::Empty
            },
        }
    }

    /// The operator `op` applied to `expr`.
    pub fn from_unary(op: TokenValue, expr: Ast) -> (v: Value)
        requires
            op@ is Operator,
        ensures
            v@ == ValueView::Unary(text_of(op@), Box::new(expr@)),
    {
        match op {
            TokenValue::Operator(op) => Value::Unary(op, Box::new(expr)),
            _ => {
                proof {
                    assert(false);
                }
                Value::Empty
            },
        }
    }

    /// The operator `op` applied to `left` and `right`.
    pub fn from_binary(left: Ast, op: TokenValue, right: Ast) -> (v: Value)
        requires
            op@ is Operator,
        ensures
            v@ == ValueView::Binary(Box::new(left@), text_of(op@), Box::new(right@)),
    {
        match op {
            TokenValue::Operator(op) => Value::Binary(Box::new(left), op, Box::new(right)),
            _ => {
                proof {
                    assert(false);
                }
                Value::Empty
            },
        }
    }

    /// An error node's value.
    pub fn from_error(error: ErrorCode) -> (v: Value)
        ensures
            v@ == ValueView::Error(error),
    {
        Value::Error(error)
    }

    /// The assignment of `expr` to `id`.
    pub fn from_assignment(id: Ast, expr: Ast) -> (v: Value)
        ensures
            v@ == ValueView::Assignment(Box::new(id@), Box::new(expr@)),
    {
        Value::Assignment(Box::new(id), Box::new(expr))
    }

    /// `expr` in round brackets.
    pub fn from_expression(expr: Ast) -> (v: Value)
        ensures
            v@ == ValueView::Expression(Box::new(expr@)),
    {
        Value::Expression(Box::new(expr))
    }
}

impl Ast {
    /// The identifier node for the identifier token `id`, with its span.
    pub fn from_identifier(id: &Token) -> (ast: Ast)
        requires
            id@.is_identifier(),
        ensures
            ast@ == (AstView {
                value: ValueView::Identifier(text_of(id@.value)),
                start: id.start,
                end: id.end,
            }),
    {
        let value = Value::from_identifier(id);
        Ast { value, start: id.start, end: id.end }
    }

    /// The node with `value` that spans from `start` to `end`.
    pub fn from_value(value: Value, start: Location, end: Location) -> (ast: Ast)
        ensures
            ast == (Ast { value, start, end }),
    {
        Ast { value, start, end }
    }

    /// This tree as source text.
    pub fn to_string(&self) -> (s: String)
        ensures
            s@ == self@.rendered(),
        decreases self, 1int,
    {
        self.value.to_string()
    }

    /// Whether every assignment in this tree has an identifier on its left.
    pub fn is_assignable(&self) -> (b: bool)
        ensures
            b == assignable(self@),
        decreases self,
    {
        match &self.value {
            Value::Unary(_, e) => e.is_assignable(),
            Value::Binary(l, _, r) => l.is_assignable() && r.is_assignable(),
            Value::Expression(e) => e.is_assignable(),
            Value::Assignment(id, e) => {
                let target = match &id.value {
                    Value::Identifier(_) => true,
                    _ => false,
                };
                assert(target == (id@.value is Identifier));
                target && e.is_assignable()
            },
            _ => true,
        }
    }

    /// Where this node begins.
    pub fn start(&self) -> (l: Location)
        ensures
            l == self.start,
    {
        self.start
    }

    /// Where this node ends.
    pub fn end(&self) -> (l: Location)
        ensures
            l == self.end,
    {
        self.end
    }
}

} // verus!
