use calculator::ast::ast::ErrorCode;
use calculator::ast::{from_string, from_tokens, Ast, Literal, Value};
use calculator::source_code::Location;
use calculator::tokeniser;

fn renders(code: &str, expected: &str) {
    let ast = from_string(code);
    assert_eq!(ast.to_string(), expected);
}

#[test]
fn simple_assignment() {
    renders("a = 42", "a = 42");
}

#[test]
fn identifier() {
    renders("a", "a");
}

#[test]
fn literal() {
    renders("42", "42");
}

#[test]
fn term_in_brackets() {
    renders("(a)", "(a)");
}

#[test]
fn assignment_with_brackets() {
    renders("a=(a)", "a = (a)");
}

#[test]
fn unary() {
    renders("+5", "+5");
}

#[test]
fn assignment_with_unary() {
    renders("a = -a", "a = -a");
}

#[test]
fn nested_unary() {
    renders("-(+a)", "-(+a)");
}

#[test]
fn multiplication() {
    renders("a*b", "a * b");
}

#[test]
fn assigment_with_multiplication() {
    renders("c = a * b", "c = a * b");
}

#[test]
fn multiplication_with_brackets() {
    renders("a * (b * c)", "a * (b * c)");
}

#[test]
fn multiplication_multiple() {
    renders("a * b * c", "a * b * c");
}

#[test]
fn addition() {
    renders("a + b", "a + b");
}

#[test]
fn assigment_with_addition() {
    renders("c = a + b", "c = a + b");
}

#[test]
fn addition_with_multiplication() {
    renders("a + b * c", "a + b * c");
}

#[test]
fn multiplication_with_addition() {
    renders("a * (b + c)", "a * (b + c)");
}

#[test]
fn multiplication_with_integer_addition() {
    renders("2 * (2 + 3)", "2 * (2 + 3)");
}

#[test]
fn addition_multiple() {
    renders("a + b * c + d", "a + b * c + d");
}

#[test]
fn rendering_reparses_to_the_same_shape() {
    for code in [
        "a * b * c",
        "a=(a)",
        "a + b * c + d",
        "-(+a) % 3",
        "x = 2 * (2 + 3) - 1",
        "(0)",
        "x = 2 * (0) - 1.5 / (.5 + 42.)",
        "(0x1f) % 017",
        "a - -b + +c",
        "é1 = -.5",
    ] {
        let first = from_string(code);
        let second = from_string(&first.to_string());
        assert_eq!(first.to_string(), second.to_string());
        assert_eq!(shape(&first), shape(&second));
    }
}

fn shape(ast: &Ast) -> String {
    match &ast.value {
        Value::Empty => "empty".to_string(),
        Value::Literal(l) => format!("lit({})", l.to_string()),
        Value::Identifier(s) => format!("id({})", s),
        Value::Unary(op, e) => format!("unary({},{})", op, shape(e)),
        Value::Binary(l, op, r) => format!("binary({},{},{})", shape(l), op, shape(r)),
        Value::Error(e) => format!("error({})", e.to_string()),
        Value::Expression(e) => format!("group({})", shape(e)),
        Value::Assignment(id, e) => format!("assign({},{})", shape(id), shape(e)),
    }
}

#[test]
fn sums_group_to_the_left() {
    let ast = from_string("a + b - c");
    assert_eq!(shape(&ast), "binary(binary(id(a),+,id(b)),-,id(c))");
}

#[test]
fn products_bind_tighter_than_sums() {
    let ast = from_string("2 + 3 * 4");
    assert_eq!(shape(&ast), "binary(lit(2),+,binary(lit(3),*,lit(4)))");
    let ast = from_string("2 * 3 + 4");
    assert_eq!(shape(&ast), "binary(binary(lit(2),*,lit(3)),+,lit(4))");
}

#[test]
fn a_lone_identifier_is_no_assignment() {
    let ast = from_string("a");
    assert_eq!(ast.value, Value::Identifier("a".to_string()));
    let ast = from_string("a = 5");
    assert_eq!(shape(&ast), "assign(id(a),lit(5))");
    let ast = from_string("a == 5");
    assert_eq!(ast.value, Value::Identifier("a".to_string()));
}

#[test]
fn spans_run_from_first_to_last_token() {
    let ast = from_string("ab = (1 +\n 23)");
    assert_eq!(ast.start, Location::new(0, 0, 0));
    assert_eq!(ast.end, Location::new(14, 1, 4));
    match &ast.value {
        Value::Assignment(id, expr) => {
            assert_eq!(id.start(), Location::new(0, 0, 0));
            assert_eq!(id.end(), Location::new(2, 0, 2));
            assert_eq!(expr.start(), Location::new(5, 0, 5));
            assert_eq!(expr.end(), Location::new(14, 1, 4));
            match &expr.value {
                Value::Expression(inner) => {
                    assert_eq!(inner.start(), Location::new(6, 0, 6));
                    assert_eq!(inner.end(), Location::new(13, 1, 3));
                }
                _ => panic!("a group was expected"),
            }
        }
        _ => panic!("an assignment was expected"),
    }
}

#[test]
fn empty_input_gives_an_empty_error_node() {
    let ast = from_string("");
    assert_eq!(ast.value, Value::Error(ErrorCode::TokenExpected));
    assert_eq!(ast.start, Location::new(0, 0, 0));
    assert_eq!(ast.end, Location::new(0, 0, 0));
    assert_eq!(ast.to_string(), "Expected Token");
}

#[test]
fn a_missing_operand_is_an_error_node() {
    let ast = from_string("a +");
    assert_eq!(shape(&ast), "binary(id(a),+,error(Expected Token))");
    assert_eq!(ast.start, Location::new(0, 0, 0));
    assert_eq!(ast.end, Location::new(3, 0, 3));
}

#[test]
fn an_unexpected_token_is_an_error_node() {
    let ast = from_string("* 2");
    assert_eq!(ast.value, Value::Error(ErrorCode::UnexpectedToken));
    assert_eq!(ast.to_string(), "Unexpected Token");
    assert_eq!(ast.end, Location::new(1, 0, 1));
}

#[test]
fn an_open_group_is_an_error_node() {
    let ast = from_string("(a + b");
    assert_eq!(ast.value, Value::Error(ErrorCode::RparenExpected));
    assert_eq!(ast.to_string(), "Expected RPAREN");
    assert_eq!(ast.start, Location::new(0, 0, 0));
    assert_eq!(ast.end, Location::new(6, 0, 6));
}

#[test]
fn literals_of_every_kind_are_atoms() {
    assert_eq!(from_string("'c'").value, Value::Literal(Literal::Char('c')));
    assert_eq!(from_string("7").value, Value::Literal(Literal::Int(7)));
    assert_eq!(from_string("7.5").value, Value::Literal(Literal::Float("7.5".to_string())));
    assert_eq!(from_string("\"s\"").value, Value::Literal(Literal::String("s".to_string())));
    assert_eq!(from_string("7.5").to_string(), "7.5");
    assert_eq!(from_string("'c'").to_string(), "c");
}

#[test]
fn from_tokens_reads_what_the_tokeniser_gives() {
    let tokens = tokeniser::from_string("a = b % 2");
    let ast = from_tokens(tokens);
    assert_eq!(ast.to_string(), "a = b % 2");
    assert!(ast.is_assignable());
}

#[test]
fn error_descriptions() {
    assert_eq!(ErrorCode::TokenExpected.to_string(), "Expected Token");
    assert_eq!(ErrorCode::UnexpectedToken.to_string(), "Unexpected Token");
    assert_eq!(ErrorCode::RparenExpected.to_string(), "Expected RPAREN");
    assert_eq!(ErrorCode::AtomExpected.to_string(), "Expected Identifier or Literal");
    assert_eq!(ErrorCode::LiteralExpected.to_string(), "Expected Literal");
}
