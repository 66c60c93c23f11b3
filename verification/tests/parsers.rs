use calculator::tokeniser::check::{
    is_bracket, is_punctuation, is_punctuation_or_whitespace, starts_operator, Catalogue, Operators,
};
use calculator::tokeniser::parsers::{
    decode_chars, decode_symbol_at, is_hex_digit, parse_float, parse_int, parse_string,
    parse_symbol_in_string, read_unsigned, to_digit,
};
use calculator::tokeniser::trie::Trie;
use calculator::tokeniser::{ErrorCode, TokenValue};

#[test]
fn a_plain_symbol_is_itself() {
    assert_eq!(parse_symbol_in_string("abc", 1, true), Ok(('b', 2)));
    assert_eq!(parse_symbol_in_string("aéc", 1, true), Ok(('é', 2)));
    assert_eq!(parse_symbol_in_string("aéc", 2, true), Ok(('c', 3)));
}

#[test]
fn a_symbol_past_the_end_is_broken() {
    assert_eq!(parse_symbol_in_string("abc", 3, true), Err(ErrorCode::BrokenStringLiteral));
    assert_eq!(parse_symbol_in_string("", 0, true), Err(ErrorCode::BrokenStringLiteral));
    assert_eq!(
        parse_symbol_in_string("abc", usize::MAX, true),
        Err(ErrorCode::BrokenStringLiteral)
    );
}

#[test]
fn escapes_name_their_characters() {
    assert_eq!(parse_symbol_in_string(r"\n", 0, true), Ok(('\n', 2)));
    assert_eq!(parse_symbol_in_string(r"\r", 0, true), Ok(('\r', 2)));
    assert_eq!(parse_symbol_in_string(r"\t", 0, true), Ok(('\t', 2)));
    assert_eq!(parse_symbol_in_string(r"\'", 0, true), Ok(('\'', 2)));
    assert_eq!(parse_symbol_in_string(r"\\", 0, true), Ok(('\\', 2)));
    assert_eq!(parse_symbol_in_string(r"x\u0041y", 1, true), Ok(('A', 7)));
    assert_eq!(parse_symbol_in_string(r"\uffff", 0, true), Ok(('\u{ffff}', 6)));
}

#[test]
fn broken_escapes_are_told_apart() {
    assert_eq!(parse_symbol_in_string("\\", 0, true), Err(ErrorCode::UnterminatedCharLiteral));
    assert_eq!(parse_symbol_in_string(r"\a", 0, true), Err(ErrorCode::UnknownEscapeSequence));
    assert_eq!(parse_symbol_in_string(r#"\""#, 0, true), Err(ErrorCode::UnknownEscapeSequence));
    assert_eq!(parse_symbol_in_string(r"\u0041", 0, false), Err(ErrorCode::BrokenUnicodeSequence));
    assert_eq!(parse_symbol_in_string(r"\u004", 0, true), Err(ErrorCode::BrokenUnicodeSequence));
    assert_eq!(parse_symbol_in_string(r"\u00g1", 0, true), Err(ErrorCode::BrokenUnicodeSequence));
    assert_eq!(parse_symbol_in_string(r"\udfff", 0, true), Err(ErrorCode::BrokenUnicodeSequence));
    assert_eq!(parse_symbol_in_string(r"\ud7ff", 0, true), Ok(('\u{d7ff}', 6)));
    assert_eq!(parse_symbol_in_string(r"\ue000", 0, true), Ok(('\u{e000}', 6)));
}

#[test]
fn decode_symbol_at_reads_characters() {
    let chars: Vec<char> = r"a\tb".chars().collect();
    assert_eq!(decode_symbol_at(&chars, 0, true), Ok(('a', 1)));
    assert_eq!(decode_symbol_at(&chars, 1, true), Ok(('\t', 3)));
    assert_eq!(decode_symbol_at(&chars, 3, true), Ok(('b', 4)));
    assert_eq!(decode_symbol_at(&chars, 4, true), Err(ErrorCode::BrokenStringLiteral));
}

#[test]
fn strings_are_decoded_symbol_by_symbol() {
    assert_eq!(parse_string("".to_string()), Ok("".to_string()));
    assert_eq!(parse_string("plain".to_string()), Ok("plain".to_string()));
    assert_eq!(parse_string(r"a\n\tb\u0041\\".to_string()), Ok("a\n\tbA\\".to_string()));
    assert_eq!(parse_string(r"ab\q".to_string()), Err(ErrorCode::UnknownEscapeSequence));
    assert_eq!(parse_string(r"\qab\u1".to_string()), Err(ErrorCode::UnknownEscapeSequence));
    assert_eq!(parse_string(r"ab\u1".to_string()), Err(ErrorCode::BrokenUnicodeSequence));
    assert_eq!(parse_string("ab\\".to_string()), Err(ErrorCode::UnterminatedCharLiteral));
    let chars: Vec<char> = r"x\ny".chars().collect();
    assert_eq!(decode_chars(&chars), Ok("x\ny".to_string()));
}

#[test]
fn digits_have_values_in_their_base() {
    assert_eq!(to_digit('0', 10), Some(0));
    assert_eq!(to_digit('9', 10), Some(9));
    assert_eq!(to_digit('8', 8), None);
    assert_eq!(to_digit('a', 16), Some(10));
    assert_eq!(to_digit('F', 16), Some(15));
    assert_eq!(to_digit('g', 16), None);
    assert_eq!(to_digit('z', 36), Some(35));
    assert_eq!(to_digit('Z', 36), Some(35));
    assert_eq!(to_digit('/', 36), None);
    assert_eq!(to_digit(':', 36), None);
    assert_eq!(to_digit('@', 36), None);
    assert_eq!(to_digit('[', 36), None);
    assert_eq!(to_digit('`', 36), None);
    assert_eq!(to_digit('{', 36), None);
    assert_eq!(to_digit('é', 36), None);
    assert!(is_hex_digit('7') && is_hex_digit('c') && is_hex_digit('D'));
    assert!(!is_hex_digit('x') && !is_hex_digit('.'));
}

#[test]
fn integers_are_read_in_their_base() {
    assert_eq!(parse_int("42".to_string(), 10), TokenValue::IntLiteral(42));
    assert_eq!(parse_int("+42".to_string(), 10), TokenValue::IntLiteral(42));
    assert_eq!(parse_int("0100".to_string(), 8), TokenValue::IntLiteral(64));
    assert_eq!(parse_int("0x7f".to_string(), 16), TokenValue::IntLiteral(127));
    assert_eq!(parse_int("0x0x7F".to_string(), 16), TokenValue::IntLiteral(127));
    assert_eq!(parse_int("7f".to_string(), 16), TokenValue::IntLiteral(127));
    assert_eq!(parse_int("zz".to_string(), 36), TokenValue::IntLiteral(35 * 36 + 35));
    assert_eq!(parse_int("101".to_string(), 2), TokenValue::IntLiteral(5));
    assert_eq!(
        parse_int("340282366920938463463374607431768211455".to_string(), 10),
        TokenValue::IntLiteral(u128::MAX)
    );
}

#[test]
fn integers_of_another_shape_are_errors() {
    for (text, radix) in [
        ("", 10),
        ("+", 10),
        ("-1", 10),
        ("++1", 10),
        ("12a", 10),
        ("8", 8),
        ("0x", 16),
        ("0x7f", 10),
        ("1 ", 10),
        ("340282366920938463463374607431768211456", 10),
        ("3402823669209384634633746074317682114550", 10),
    ] {
        assert_eq!(
            parse_int(text.to_string(), radix),
            TokenValue::Error(text.to_string(), ErrorCode::IntLiteralTooLong)
        );
    }
    let chars: Vec<char> = "x+15".chars().collect();
    assert_eq!(read_unsigned(&chars, 1, 10), Some(15));
    assert_eq!(read_unsigned(&chars, 0, 10), None);
    assert_eq!(read_unsigned(&chars, 4, 10), None);
}

#[test]
fn floats_are_kept_as_numerals() {
    for text in ["7123.5514", ".45", "42.", "0.0", "12"] {
        assert_eq!(parse_float(text.to_string()), TokenValue::FloatLiteral(text.to_string()));
        assert!(text.parse::<f64>().is_ok());
    }
    assert_eq!(".45".parse::<f64>(), Ok(0.45));
    assert_eq!("42.".parse::<f64>(), Ok(42.0));
    for text in ["", ".", "1.2.3", "1e5", "-1.5", "1.5f", "inf"] {
        assert_eq!(
            parse_float(text.to_string()),
            TokenValue::Error(text.to_string(), ErrorCode::FloatLiteralTooLong)
        );
    }
}

#[test]
fn brackets_and_punctuation() {
    for c in ['(', ')', '[', ']', '{', '}'] {
        assert!(is_bracket(c));
        assert!(!is_punctuation(c));
    }
    assert!(!is_bracket('<') && !is_bracket('a'));
    for c in ['=', '!', '<', '>', '+', '-', '*', '/', '%', '&', '|', '^', '~', '?', ':', '.'] {
        assert!(is_punctuation(c));
        assert!(is_punctuation_or_whitespace(c));
    }
    for c in ['a', '1', '_', '@', '#', '$', ',', ';', '\'', '"', '\\'] {
        assert!(!is_punctuation(c));
        assert!(!is_punctuation_or_whitespace(c));
    }
    for c in [' ', '\n', '\t', '\r', '\u{a0}'] {
        assert!(!is_punctuation(c));
        assert!(is_punctuation_or_whitespace(c));
    }
}

#[test]
fn the_catalogue_is_built_once_and_holds_every_operator() {
    let ops = Operators::new();
    assert!(std::ptr::eq(ops.trie(), ops.trie()));
    let catalogue = [
        "=", "==", "!=", "<", "<=", ">", ">=", "+", "-", "*", "/", "%", "++", "--", "+=", "-=",
        "*=", "/=", "%=", "<<", ">>", "&", "|", "^", "~", "&&", "||", "!", "|>", "?", ":", "::",
        "..", ".",
    ];
    for op in catalogue {
        assert!(ops.trie().has(op));
        assert!(Catalogue::new().trie().has(op));
        assert!(Trie::from_op_list().has(op));
    }
    for other in ["", "=>", "===", "**", "...", "a", "<>", "->"] {
        assert!(!ops.trie().has(other));
    }
    assert!(starts_operator(ops.trie(), '|'));
    assert!(!starts_operator(ops.trie(), ','));
}
