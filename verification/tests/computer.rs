use calculator::ast::ast::ErrorCode;
use calculator::ast::{from_string, Ast, Literal, Value};
use calculator::computer::{Computer, EvalError, Operation, Term};
use calculator::source_code::Location;

fn number(term: &Term) -> f64 {
    match term {
        Term::Int(i) => f64::from(*i),
        Term::Decimal(text) => text.parse::<f64>().unwrap(),
        Term::Bits(bits) => f64::from_bits(*bits),
        Term::Negate(t) => -number(t),
        Term::Binary(op, l, r) => {
            let (l, r) = (number(l), number(r));
            match op {
                Operation::Add => l + r,
                Operation::Subtract => l - r,
                Operation::Multiply => l * r,
                Operation::Divide => l / r,
                Operation::Remainder => l % r,
            }
        }
    }
}

fn run(computer: &mut Computer, code: &str) -> Result<f64, EvalError> {
    let ast = from_string(code);
    assert!(ast.is_assignable());
    computer.compute(&ast).map(|term| number(&term))
}

fn node(value: Value) -> Ast {
    Ast::from_value(value, Location::new(0, 0, 0), Location::new(0, 0, 0))
}

#[test]
fn sums_are_left_associative() {
    let mut computer = Computer::new();
    assert_eq!(run(&mut computer, "a = 10"), Ok(10.0));
    assert_eq!(run(&mut computer, "b = 3"), Ok(3.0));
    assert_eq!(run(&mut computer, "c = 2"), Ok(2.0));
    assert_eq!(run(&mut computer, "a + b - c"), Ok(11.0));
    assert_eq!(run(&mut computer, "a - b - c"), Ok(5.0));
    assert_eq!(run(&mut computer, "a / c / c"), Ok(2.5));
}

#[test]
fn products_come_before_sums() {
    let mut computer = Computer::new();
    assert_eq!(run(&mut computer, "2 + 3 * 4"), Ok(14.0));
    assert_eq!(run(&mut computer, "(2 + 3) * 4"), Ok(20.0));
    assert_eq!(run(&mut computer, "7 % 4 + 1"), Ok(4.0));
    assert_eq!(run(&mut computer, "2 * (0) + (1.5) * (0x10)"), Ok(24.0));
}

#[test]
fn literals_have_their_values() {
    let mut computer = Computer::new();
    assert_eq!(run(&mut computer, "0x7f"), Ok(127.0));
    assert_eq!(run(&mut computer, "0100"), Ok(64.0));
    assert_eq!(run(&mut computer, ".45"), Ok(0.45));
    assert_eq!(run(&mut computer, "42."), Ok(42.0));
    assert_eq!(run(&mut computer, "7123.5514"), Ok(7123.5514));
    assert_eq!(run(&mut computer, "2147483647"), Ok(2147483647.0));
}

#[test]
fn signs_apply_to_terms() {
    let mut computer = Computer::new();
    assert_eq!(run(&mut computer, "-5"), Ok(-5.0));
    assert_eq!(run(&mut computer, "+5"), Ok(5.0));
    assert_eq!(run(&mut computer, "-(2 + 3) * 2"), Ok(-10.0));
}

#[test]
fn division_by_zero_is_no_error() {
    let mut computer = Computer::new();
    assert_eq!(run(&mut computer, "1 / 0"), Ok(f64::INFINITY));
    assert!(run(&mut computer, "0 % 0").unwrap().is_nan());
}

#[test]
fn a_large_integer_is_read_but_not_evaluated() {
    let tokens = calculator::tokeniser::from_string("3000000000");
    assert_eq!(tokens[0].value, calculator::tokeniser::TokenValue::IntLiteral(3000000000));
    let mut computer = Computer::new();
    assert_eq!(run(&mut computer, "3000000000"), Err(EvalError::ValueTooLarge(3000000000)));
    assert_eq!(run(&mut computer, "2147483648"), Err(EvalError::ValueTooLarge(2147483648)));
}

#[test]
fn an_assignment_binds_its_name() {
    let mut computer = Computer::new();
    assert_eq!(run(&mut computer, "a = 5"), Ok(5.0));
    assert_eq!(run(&mut computer, "a"), Ok(5.0));
    assert_eq!(run(&mut computer, "a = a + 1"), Ok(6.0));
    assert_eq!(run(&mut computer, "a"), Ok(6.0));
    let listed = computer.iter();
    assert_eq!(listed.len(), 1);
    assert_eq!(listed[0].0, "a");
    assert_eq!(number(&listed[0].1), 6.0);
}

#[test]
fn an_unknown_variable_fails() {
    let mut computer = Computer::new();
    assert_eq!(run(&mut computer, "x"), Err(EvalError::UnknownVariable("x".to_string())));
}

#[test]
fn a_failed_assignment_binds_nothing() {
    let mut computer = Computer::new();
    assert_eq!(run(&mut computer, "a = b + 1"), Err(EvalError::UnknownVariable("b".to_string())));
    assert_eq!(computer.iter().len(), 0);
    assert_eq!(computer.get(&"a".to_string()), None);
}

#[test]
fn every_error_has_its_input() {
    let mut computer = Computer::new();
    assert_eq!(computer.compute(&node(Value::Empty)), Err(EvalError::EmptyValue));
    assert_eq!(
        run(&mut computer, "'c'"),
        Err(EvalError::UnsupportedLiteralKind(Literal::Char('c')))
    );
    assert_eq!(
        run(&mut computer, "\"s\""),
        Err(EvalError::UnsupportedLiteralKind(Literal::String("s".to_string())))
    );
    assert_eq!(run(&mut computer, "(1"), Err(EvalError::SyntaxError(ErrorCode::RparenExpected)));
    assert_eq!(run(&mut computer, "1 +"), Err(EvalError::SyntaxError(ErrorCode::TokenExpected)));
    let unary = node(Value::Unary("!".to_string(), Box::new(node(Value::Literal(Literal::Int(1))))));
    assert_eq!(computer.compute(&unary), Err(EvalError::UnknownOperator("!".to_string())));
    let binary = node(Value::Binary(
        Box::new(node(Value::Literal(Literal::Int(1)))),
        "^".to_string(),
        Box::new(node(Value::Literal(Literal::Int(2)))),
    ));
    assert_eq!(computer.compute(&binary), Err(EvalError::UnknownOperator("^".to_string())));
}

#[test]
fn the_left_operand_fails_first() {
    let mut computer = Computer::new();
    let binary = node(Value::Binary(
        Box::new(node(Value::Identifier("x".to_string()))),
        "^".to_string(),
        Box::new(node(Value::Empty)),
    ));
    assert_eq!(computer.compute(&binary), Err(EvalError::UnknownVariable("x".to_string())));
}

#[test]
fn a_nested_assignment_is_seen_to_its_right() {
    let mut computer = Computer::new();
    let assign = node(Value::Assignment(
        Box::new(node(Value::Identifier("a".to_string()))),
        Box::new(node(Value::Literal(Literal::Int(4)))),
    ));
    let sum = node(Value::Binary(
        Box::new(assign),
        "+".to_string(),
        Box::new(node(Value::Identifier("a".to_string()))),
    ));
    assert!(sum.is_assignable());
    assert_eq!(computer.compute(&sum).map(|t| number(&t)), Ok(8.0));
    assert_eq!(computer.get(&"a".to_string()), Some(Term::Int(4)));
}

#[test]
fn a_tree_with_a_wrong_target_is_not_assignable() {
    let assign = node(Value::Assignment(
        Box::new(node(Value::Literal(Literal::Int(1)))),
        Box::new(node(Value::Literal(Literal::Int(4)))),
    ));
    assert!(!assign.is_assignable());
    let group = node(Value::Expression(Box::new(assign)));
    assert!(!group.is_assignable());
}

#[test]
fn assign_replaces_a_value() {
    let mut computer = Computer::new();
    computer.assign("a".to_string(), Term::Int(1));
    computer.assign("b".to_string(), Term::Int(2));
    computer.assign("a".to_string(), Term::Bits(2.5f64.to_bits()));
    assert_eq!(computer.iter().len(), 2);
    assert_eq!(run(&mut computer, "a * b"), Ok(5.0));
}

#[test]
fn error_messages() {
    assert_eq!(EvalError::EmptyValue.to_string(), "Cannot compute empty value");
    assert_eq!(
        EvalError::UnsupportedLiteralKind(Literal::Char('c')).to_string(),
        "Char literals are currently not supported"
    );
    assert_eq!(
        EvalError::UnsupportedLiteralKind(Literal::String("s".to_string())).to_string(),
        "String literals are currently not supported"
    );
    assert_eq!(EvalError::UnknownVariable("x".to_string()).to_string(), "x: variable not found");
    assert_eq!(EvalError::UnknownOperator("^".to_string()).to_string(), "^: unknown operator");
    assert_eq!(EvalError::ValueTooLarge(3000000000).to_string(), "Error: 3000000000 is too big");
    assert_eq!(EvalError::SyntaxError(ErrorCode::RparenExpected).to_string(), "Expected RPAREN");
}
