use calculator::tokeniser::from_string;
use calculator::tokeniser::{ErrorCode, TokenValue};

fn ident(s: &str) -> TokenValue {
    TokenValue::Identifier(s.to_string())
}

fn error(s: &str, code: ErrorCode) -> TokenValue {
    TokenValue::Error(s.to_string(), code)
}

fn operator(s: &str) -> TokenValue {
    TokenValue::Operator(s.to_string())
}

fn string(s: &str) -> TokenValue {
    TokenValue::StringLiteral(s.to_string())
}

fn float(s: &str) -> TokenValue {
    TokenValue::FloatLiteral(s.to_string())
}

#[test]
fn identifier_single() {
    let tokens = from_string("test");
    assert_eq!(tokens[0].value, ident("test"));
}

#[test]
fn identifier_multiple() {
    let tokens = from_string("test success");
    assert_eq!(2, tokens.len());
    assert_eq!(tokens[0].value, ident("test"));
    assert_eq!(tokens[1].value, ident("success"));
}

#[test]
fn identifier_with_error() {
    let tokens = from_string("1test");
    assert_eq!(tokens[0].value, error("1test", ErrorCode::UnexpectedToken));
}

#[test]
fn char_single() {
    let tokens = from_string("'c'");
    assert_eq!(tokens[0].value, TokenValue::CharLiteral('c'));
}

#[test]
fn char_multiple() {
    let tokens = from_string(r"'c' '\n' '\u0041'");
    assert_eq!(3, tokens.len());
    assert_eq!(tokens[0].value, TokenValue::CharLiteral('c'));
    assert_eq!(tokens[1].value, TokenValue::CharLiteral('\n'));
    assert_eq!(tokens[2].value, TokenValue::CharLiteral('A'));
}

#[test]
fn char_with_escape_sequence() {
    let tokens = from_string(r"'\n'");
    assert_eq!(tokens[0].value, TokenValue::CharLiteral('\n'));
}

#[test]
fn char_with_wrong_escape_sequence() {
    let tokens = from_string(r"'\a'");
    assert_eq!(tokens[0].value, error(r"'\a'", ErrorCode::UnknownEscapeSequence));
}

#[test]
fn char_with_unicode_symbol() {
    let tokens = from_string("'試' 'é'");
    assert_eq!(tokens[0].value, TokenValue::CharLiteral('試'));
    assert_eq!(tokens[1].value, TokenValue::CharLiteral('é'));
}

#[test]
fn char_with_unicode_escape_sequence() {
    let tokens = from_string(r"'\u0041'");
    assert_eq!(tokens[0].value, TokenValue::CharLiteral('A'));
}

#[test]
fn bracket_single() {
    let tokens = from_string("(");
    assert_eq!(tokens[0].value, TokenValue::Bracket('('));
}

#[test]
fn bracket_multiple() {
    let tokens = from_string("()");
    assert_eq!(2, tokens.len());
    assert_eq!(tokens[0].value, TokenValue::Bracket('('));
    assert_eq!(tokens[1].value, TokenValue::Bracket(')'));
}

#[test]
fn string_single() {
    let tokens = from_string(r#""test""#);
    assert_eq!(tokens[0].value, string("test"));
}

#[test]
fn string_unfinished_with_eof() {
    let tokens = from_string(r#""test"#);
    assert_eq!(tokens[0].value, error("\"test", ErrorCode::UnterminatedStringLiteral));
}

#[test]
fn string_unfinished_with_newline() {
    let tokens = from_string("\"test\n\"test\"");
    assert_eq!(2, tokens.len());
    assert_eq!(tokens[0].value, error("\"test", ErrorCode::UnterminatedStringLiteral));
    assert_eq!(tokens[1].value, string("test"));
}

#[test]
fn string_multiple() {
    let tokens = from_string(&r#""""test test""""#.replace(' ', "\n"));
    assert_eq!(tokens[0].value, string("test\ntest"));
}

#[test]
fn string_with_escape_sequences() {
    let tokens = from_string(r#""\n\t\u0041""#);
    assert_eq!(tokens[0].value, string("\n\tA"));
}

#[test]
fn int_decimal_zero() {
    let tokens = from_string("0");
    assert_eq!(tokens[0].value, TokenValue::IntLiteral(0));
}

#[test]
fn int_decimal_single() {
    let tokens = from_string("42");
    assert_eq!(tokens[0].value, TokenValue::IntLiteral(42));
}

#[test]
fn int_very_long() {
    let tokens = from_string("340282366920938463463374607431768211455");
    assert_eq!(tokens[0].value, TokenValue::IntLiteral(340282366920938463463374607431768211455));
}

#[test]
fn int_too_long_error() {
    let tokens = from_string("340282366920938463463374607431768211456");
    assert_eq!(
        tokens[0].value,
        error("340282366920938463463374607431768211456", ErrorCode::IntLiteralTooLong)
    );
}

#[test]
fn int_octal() {
    let tokens = from_string("0100");
    assert_eq!(tokens[0].value, TokenValue::IntLiteral(64));
}

#[test]
fn int_hex_zero() {
    let tokens = from_string("0x0");
    assert_eq!(tokens[0].value, TokenValue::IntLiteral(0));
}

#[test]
fn int_hex() {
    let tokens = from_string("0x7f");
    assert_eq!(tokens[0].value, TokenValue::IntLiteral(127));
}

#[test]
fn int_multiple() {
    let tokens = from_string("5 7");
    assert_eq!(tokens[0].value, TokenValue::IntLiteral(5));
    assert_eq!(tokens[1].value, TokenValue::IntLiteral(7));
}

#[test]
fn int_divided_by_operators() {
    let tokens = from_string("5+7");
    assert_eq!(tokens[0].value, TokenValue::IntLiteral(5));
    assert_eq!(tokens[2].value, TokenValue::IntLiteral(7));
}

#[test]
fn float_single() {
    let tokens = from_string("7123.5514");
    assert_eq!(tokens[0].value, float("7123.5514"));
}

#[test]
fn float_without_integer_part() {
    let tokens = from_string(".45");
    assert_eq!(tokens[0].value, float(".45"));
}

#[test]
fn float_without_floating_part() {
    let tokens = from_string("42.");
    assert_eq!(tokens[0].value, float("42."));
}

#[test]
fn operator_dot() {
    let tokens = from_string(".");
    assert_eq!(tokens[0].value, operator("."));
}

#[test]
fn operator_single_char() {
    let tokens = from_string("%");
    assert_eq!(tokens[0].value, operator("%"));
}

#[test]
fn operator_multiple_chars() {
    let tokens = from_string("::");
    assert_eq!(1, tokens.len());
    assert_eq!(tokens[0].value, operator("::"));
}

#[test]
fn operator_multiple() {
    let tokens = from_string("++::--");
    assert_eq!(tokens[0].value, operator("++"));
    assert_eq!(tokens[1].value, operator("::"));
    assert_eq!(tokens[2].value, operator("--"));
}

#[test]
fn combined() {
    let tokens = from_string("++test * (a-b).c");
    assert_eq!(tokens[0].value, operator("++"));
    assert_eq!(tokens[1].value, ident("test"));
    assert_eq!(tokens[2].value, operator("*"));
    assert_eq!(tokens[3].value, TokenValue::Bracket('('));
    assert_eq!(tokens[4].value, ident("a"));
    assert_eq!(tokens[5].value, operator("-"));
    assert_eq!(tokens[6].value, ident("b"));
    assert_eq!(tokens[7].value, TokenValue::Bracket(')'));
    assert_eq!(tokens[8].value, operator("."));
    assert_eq!(tokens[9].value, ident("c"));
}
