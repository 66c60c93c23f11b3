use super::ast::{assignable, Ast, ErrorCode, Value};
use super::grammar::{
    assignment_at, bracket_at, factor_operator_at, lemma_parsed_assignable, node_upto,
    parse_addition, parse_addition_rest, parse_atom, parse_expression, parse_multiplication,
    parse_multiplication_rest, parse_statement, parse_term, parse_tokens, parse_unary, reached,
    sign_at, Parsed,
};
use crate::source_code::Location;
use crate::text::same_text;
use crate::tokeniser::token::{token_views, Token, TokenValue, TokenValueView, TokenView};
use vstd::prelude::*;

verus! {

/// A cursor over a token sequence that reads one statement.
pub struct Parser {
    tokens: Vec<Token>,
    position: usize,
}

/// Whether `token` is the operator spelled `op`.
fn is_operator(token: &Token, op: &str) -> (b: bool)
    ensures
        b == (token@.value == TokenValueView::Operator(op@)),
{
    match &token.value {
        TokenValue::Operator(text) => same_text(text.as_str(), op),
        _ => false,
    }
}

impl Parser {
    /// The tokens being read.
    pub closed spec fn views(&self) -> Seq<TokenView> {
        token_views(self.tokens@)
    }

    /// The position of the next token to read.
    pub closed spec fn cursor(&self) -> int {
        self.position as int
    }

    /// The cursor lies within the tokens or at their end.
    pub closed spec fn wf(&self) -> bool {
        self.position <= self.tokens.len()
    }

    /// `self` is what `before` becomes by reading `parsed` as `ast`.
    spec fn follows(&self, before: &Parser, ast: Ast, parsed: Parsed) -> bool {
        &&& self.tokens == before.tokens
        &&& before.position <= self.position <= self.tokens.len()
        &&& self.position == parsed.next
        &&& ast@ == parsed.node
    }

    /// A parser at the first of `tokens`.
    pub fn new(tokens: Vec<Token>) -> (p: Parser)
        ensures
            p.wf(),
            p.views() == token_views(tokens@),
            p.cursor() == 0,
    {
        Parser { tokens, position: 0 }
    }

    fn current_token(&self) -> (r: Option<&Token>)
        ensures
            match r {
                Some(t) => self.position < self.tokens.len() && *t == self.tokens[self.position as int],
                None => self.position >= self.tokens.len(),
            },
    {
        if self.position < self.tokens.len() {
            Some(&self.tokens[self.position])
        } else {
            None
        }
    }

    /// Where the tokens read so far end.
    fn reached(&self) -> (l: Location)
        requires
            self.wf(),
        ensures
            l == reached(self.views(), self.position as int),
    {
        if self.position > 0 {
            self.tokens[self.position - 1].end
        } else {
            Location::new(0, 0, 0)
        }
    }

    /// The node with `value` that runs from `start` to the end of the last
    /// token read.
    fn emit_node(&self, value: Value, start: Location) -> (ast: Ast)
        requires
            self.wf(),
        ensures
            ast@ == node_upto(self.views(), value@, start, self.position as int),
    {
        let end = self.reached();
        Ast::from_value(value, start, end)
    }

    fn at_bracket(&self, c: char) -> (b: bool)
        ensures
            b == bracket_at(self.views(), self.position as int, c),
    {
        match self.current_token() {
            Some(t) => match t.value {
                TokenValue::Bracket(found) => found == c,
                _ => false,
            },
            None => false,
        }
    }

    fn at_sign(&self) -> (b: bool)
        ensures
            b == sign_at(self.views(), self.position as int),
    {
        match self.current_token() {
            Some(t) => is_operator(t, "+") || is_operator(t, "-"),
            None => false,
        }
    }

    fn at_factor_operator(&self) -> (b: bool)
        ensures
            b == factor_operator_at(self.views(), self.position as int),
    {
        match self.current_token() {
            Some(t) => is_operator(t, "*") || is_operator(t, "/") || is_operator(t, "%"),
            None => false,
        }
    }

    fn at_assignment(&self) -> (b: bool)
        ensures
            b == assignment_at(self.views(), self.position as int),
    {
        let len = self.tokens.len();
        self.position < len && len - self.position >= 2 && self.tokens[self.position].is_identifier()
            && is_operator(&self.tokens[self.position + 1], "=")
    }

    fn parse_atom(&mut self) -> (ast: Ast)
        requires
            old(self).wf(),
        ensures
            final(self).follows(old(self), ast, parse_atom(old(self).views(), old(self).cursor())),
    {
        if self.position < self.tokens.len() {
            let t = &self.tokens[self.position];
            let value = if t.is_identifier() {
                Value::from_identifier(t)
            } else if t.is_literal() {
                Value::from_literal(t)
            } else {
                Value::from_error(ErrorCode::UnexpectedToken)
            };
            let ast = Ast::from_value(value, t.start, t.end);
            self.position += 1;
            ast
        } else {
            let at = self.reached();
            self.emit_node(Value::from_error(ErrorCode::TokenExpected), at)
        }
    }

    fn parse_term(&mut self) -> (ast: Ast)
        requires
            old(self).wf(),
        ensures
            final(self).follows(old(self), ast, parse_term(old(self).views(), old(self).cursor())),
        decreases old(self).tokens.len() - old(self).position, 2int,
    {
        if self.at_bracket('(') {
            let start = self.tokens[self.position].start;
            self.position += 1;
            let expr = self.parse_expression();
            if self.at_bracket(')') {
                self.position += 1;
                self.emit_node(Value::from_expression(expr), start)
            } else {
                self.emit_node(Value::from_error(ErrorCode::RparenExpected), start)
            }
        } else {
            self.parse_atom()
        }
    }

    fn parse_unary(&mut self) -> (ast: Ast)
        requires
            old(self).wf(),
        ensures
            final(self).follows(old(self), ast, parse_unary(old(self).views(), old(self).cursor())),
        decreases old(self).tokens.len() - old(self).position, 3int,
    {
        if self.at_sign() {
            let op = self.tokens[self.position].value.duplicate();
            let start = self.tokens[self.position].start;
            self.position += 1;
            let expr = self.parse_term();
            let value = Value::from_unary(op, expr);
            self.emit_node(value, start)
        } else {
            self.parse_term()
        }
    }

    fn parse_multiplication_rest(&mut self, left: Ast) -> (ast: Ast)
        requires
            old(self).wf(),
        ensures
            final(self).follows(
                old(self),
                ast,
                parse_multiplication_rest(
                    old(self).views(),
                    Parsed { node: left@, next: old(self).cursor() },
                ),
            ),
        decreases old(self).tokens.len() - old(self).position, 0int,
    {
        if self.at_factor_operator() {
            let op = self.tokens[self.position].value.duplicate();
            self.position += 1;
            let right = self.parse_unary();
            let end = right.end();
            let start = left.start();
            let value = Value::from_binary(left, op, right);
            let left = Ast::from_value(value, start, end);
            self.parse_multiplication_rest(left)
        } else {
            left
        }
    }

    fn parse_addition_rest(&mut self, left: Ast) -> (ast: Ast)
        requires
            old(self).wf(),
        ensures
            final(self).follows(
                old(self),
                ast,
                parse_addition_rest(
                    old(self).views(),
                    Parsed { node: left@, next: old(self).cursor() },
                ),
            ),
        decreases old(self).tokens.len() - old(self).position, 1int,
    {
        if self.at_sign() {
            let op = self.tokens[self.position].value.duplicate();
            self.position += 1;
            let right = self.parse_multiplication();
            let end = right.end();
            let start = left.start();
            let value = Value::from_binary(left, op, right);
            let left = Ast::from_value(value, start, end);
            self.parse_addition_rest(left)
        } else {
            left
        }
    }

    fn parse_multiplication(&mut self) -> (ast: Ast)
        requires
            old(self).wf(),
        ensures
            final(self).follows(
                old(self),
                ast,
                parse_multiplication(old(self).views(), old(self).cursor()),
            ),
        decreases old(self).tokens.len() - old(self).position, 4int,
    {
        let left = self.parse_unary();
        self.parse_multiplication_rest(left)
    }

    fn parse_addition(&mut self) -> (ast: Ast)
        requires
            old(self).wf(),
        ensures
            final(self).follows(
                old(self),
                ast,
                parse_addition(old(self).views(), old(self).cursor()),
            ),
        decreases old(self).tokens.len() - old(self).position, 5int,
    {
        let left = self.parse_multiplication();
        self.parse_addition_rest(left)
    }

    fn parse_expression(&mut self) -> (ast: Ast)
        requires
            old(self).wf(),
        ensures
            final(self).follows(
                old(self),
                ast,
                parse_expression(old(self).views(), old(self).cursor()),
            ),
        decreases old(self).tokens.len() - old(self).position, 6int,
    {
        self.parse_addition()
    }

    fn parse_assignment_or_expression(&mut self) -> (ast: Ast)
        requires
            old(self).wf(),
        ensures
            final(self).follows(
                old(self),
                ast,
                parse_statement(old(self).views(), old(self).cursor()),
            ),
    {
        if self.at_assignment() {
            let id = Ast::from_identifier(&self.tokens[self.position]);
            let start = id.start();
            self.position += 2;
            let expr = self.parse_expression();
            self.emit_node(Value::from_assignment(id, expr), start)
        } else {
            self.parse_expression()
        }
    }

    /// Reads one statement from the cursor on.
    pub fn parse(&mut self) -> (ast: Ast)
        requires
            old(self).wf(),
        ensures
            final(self).wf(),
            final(self).views() == old(self).views(),
            ast@ == parse_statement(old(self).views(), old(self).cursor()).node,
            final(self).cursor() == parse_statement(old(self).views(), old(self).cursor()).next,
    {
        self.parse_assignment_or_expression()
    }
}

/// The syntax tree of `tokens`.
pub fn from_tokens(tokens: Vec<Token>) -> (ast: Ast)
    ensures
        ast@ == parse_tokens(token_views(tokens@)),
        assignable(ast@),
{
    proof {
        lemma_parsed_assignable(token_views(tokens@));
    }
    let mut parser = Parser::new(tokens);
    parser.parse()
}

} // verus!
