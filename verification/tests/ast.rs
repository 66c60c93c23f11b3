use calculator::ast::ast::ErrorCode;
use calculator::ast::parser::Parser;
use calculator::ast::{Ast, Literal, Value};
use calculator::computer::{EvalError, Operation, Term};
use calculator::source_code::Location;
use calculator::tokeniser::{from_string, Token, TokenValue};

fn at(position: usize) -> Location {
    Location::new(position, 0, position)
}

fn token(value: TokenValue, from: usize, to: usize) -> Token {
    Token::new(value, at(from), at(to))
}

#[test]
fn values_are_built_from_tokens() {
    let id = token(TokenValue::Identifier("x".to_string()), 0, 1);
    assert_eq!(Value::from_identifier(&id), Value::Identifier("x".to_string()));
    let ast = Ast::from_identifier(&id);
    assert_eq!(ast.value, Value::Identifier("x".to_string()));
    assert_eq!(ast.start(), at(0));
    assert_eq!(ast.end(), at(1));

    let int = token(TokenValue::IntLiteral(7), 2, 3);
    assert_eq!(Value::from_literal(&int), Value::Literal(Literal::Int(7)));
    let float = token(TokenValue::FloatLiteral("1.5".to_string()), 2, 5);
    assert_eq!(Value::from_literal(&float), Value::Literal(Literal::Float("1.5".to_string())));
    let c = token(TokenValue::CharLiteral('c'), 2, 5);
    assert_eq!(Value::from_literal(&c), Value::Literal(Literal::Char('c')));
    let s = token(TokenValue::StringLiteral("s".to_string()), 2, 5);
    assert_eq!(Value::from_literal(&s), Value::Literal(Literal::String("s".to_string())));
}

#[test]
fn values_are_built_from_parts() {
    let one = || Ast::from_value(Value::Literal(Literal::Int(1)), at(0), at(1));
    let two = || Ast::from_value(Value::Literal(Literal::Int(2)), at(4), at(5));
    let minus = TokenValue::Operator("-".to_string());

    let unary = Value::from_unary(minus.duplicate(), one());
    assert_eq!(unary, Value::Unary("-".to_string(), Box::new(one())));
    let binary = Value::from_binary(one(), minus, two());
    assert_eq!(binary, Value::Binary(Box::new(one()), "-".to_string(), Box::new(two())));
    assert_eq!(Value::from_error(ErrorCode::AtomExpected), Value::Error(ErrorCode::AtomExpected));
    assert_eq!(
        Value::from_assignment(one(), two()),
        Value::Assignment(Box::new(one()), Box::new(two()))
    );
    assert_eq!(Value::from_expression(one()), Value::Expression(Box::new(one())));

    assert_eq!(binary.to_string(), "1 - 2");
    assert_eq!(Value::from_expression(one()).to_string(), "(1)");
    assert_eq!(Value::Identifier("x".to_string()).to_string(), "x");
    let tree = Ast::from_value(binary, at(0), at(5));
    assert_eq!(tree.to_string(), "1 - 2");
    assert_eq!(Ast::from_value(unary, at(0), at(1)).to_string(), "-1");
    assert_eq!(Ast::from_value(Value::Empty, at(0), at(0)).to_string(), "(empty)");
    assert_eq!(
        Ast::from_value(Value::from_assignment(one(), two()), at(0), at(5)).to_string(),
        "1 = 2"
    );
}

#[test]
fn literals_render_and_copy() {
    assert_eq!(Literal::Char('é').to_string(), "é");
    assert_eq!(Literal::Int(0).to_string(), "0");
    assert_eq!(Literal::Int(u128::MAX).to_string(), "340282366920938463463374607431768211455");
    assert_eq!(Literal::Float("42.".to_string()).to_string(), "42.");
    assert_eq!(Literal::String("a b".to_string()).to_string(), "a b");
    for literal in [
        Literal::Char('c'),
        Literal::Int(3),
        Literal::Float(".5".to_string()),
        Literal::String("s".to_string()),
    ] {
        assert_eq!(literal.duplicate(), literal);
    }
}

#[test]
fn a_parser_reads_one_statement_and_stops() {
    let mut parser = Parser::new(from_string("a + 1 b"));
    let first = parser.parse();
    assert_eq!(first.to_string(), "a + 1");
    let second = parser.parse();
    assert_eq!(second.to_string(), "b");
    let third = parser.parse();
    assert_eq!(third.value, Value::Error(ErrorCode::TokenExpected));
    assert_eq!(third.start, at(7));
    assert_eq!(third.end, at(7));
}

#[test]
fn operators_of_other_layers_are_left_alone() {
    let mut parser = Parser::new(from_string("a ++ b"));
    assert_eq!(parser.parse().to_string(), "a");
    let mut parser = Parser::new(from_string("a += 1"));
    assert_eq!(parser.parse().to_string(), "a");
    let mut parser = Parser::new(from_string("-+a"));
    assert_eq!(parser.parse().to_string(), "-Unexpected Token");
}

#[test]
fn terms_copy_and_compare() {
    let term = Term::Binary(
        Operation::Remainder,
        Box::new(Term::Negate(Box::new(Term::Decimal("1.5".to_string())))),
        Box::new(Term::Binary(
            Operation::Divide,
            Box::new(Term::Int(-3)),
            Box::new(Term::Bits(7)),
        )),
    );
    assert_eq!(term.duplicate(), term);
    assert_ne!(term.duplicate(), Term::Int(0));
}

#[test]
fn the_reserved_error_has_its_words() {
    assert_eq!(
        EvalError::UnsupportedIdentifier.to_string(),
        "Identifiers of this kind are currently not supported"
    );
    assert_eq!(
        EvalError::UnsupportedLiteralKind(Literal::Int(1)).to_string(),
        "Literals of this kind are currently not supported"
    );
}
