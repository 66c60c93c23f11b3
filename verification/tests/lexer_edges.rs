use calculator::source_code::{Location, SourceCode};
use calculator::tokeniser::tokeniser::Tokeniser;
use calculator::tokeniser::{from_source_code, from_string, ErrorCode, Token, TokenValue};

fn values(code: &str) -> Vec<TokenValue> {
    from_string(code).into_iter().map(|t| t.value).collect()
}

fn error(s: &str, code: ErrorCode) -> TokenValue {
    TokenValue::Error(s.to_string(), code)
}

fn operator(s: &str) -> TokenValue {
    TokenValue::Operator(s.to_string())
}

fn ident(s: &str) -> TokenValue {
    TokenValue::Identifier(s.to_string())
}

fn string(s: &str) -> TokenValue {
    TokenValue::StringLiteral(s.to_string())
}

fn float(s: &str) -> TokenValue {
    TokenValue::FloatLiteral(s.to_string())
}

/// The text that the spans of `tokens` and the blanks between them make up.
fn rebuilt(code: &str, tokens: &[Token]) -> String {
    let chars: Vec<char> = code.chars().collect();
    let mut out = String::new();
    let mut at = 0;
    for token in tokens {
        assert!(at <= token.start.position);
        assert!(token.start.position < token.end.position);
        assert!(token.end.position <= chars.len());
        for c in &chars[at..token.start.position] {
            assert!(c.is_whitespace());
            out.push(*c);
        }
        for c in &chars[token.start.position..token.end.position] {
            out.push(*c);
        }
        at = token.end.position;
    }
    for c in &chars[at..] {
        assert!(c.is_whitespace());
        out.push(*c);
    }
    out
}

#[test]
fn spans_and_blanks_make_up_the_text() {
    for code in [
        "",
        "   ",
        "a = (b + 12) * 0x1f\n  'c' \"str\" .5 1test @@ ::",
        "\"open\n'x\n\"\"\"three\nlines\"\"\" tail",
        ".5a 0) 0x 08 1.2.3 ''' \\ \"\"\"\"",
        "試 = 'é' + \"ü\"",
    ] {
        let tokens = from_string(code);
        assert_eq!(rebuilt(code, &tokens), code);
    }
}

#[test]
fn every_token_carries_its_locations() {
    let code = "ab\n  cd = 1";
    let sc = SourceCode::new(code.to_string());
    let tokens = from_source_code(&sc);
    assert_eq!(tokens.len(), 4);
    assert_eq!(tokens[0].start, Location::new(0, 0, 0));
    assert_eq!(tokens[0].end, Location::new(2, 0, 2));
    assert_eq!(tokens[1].start, Location::new(5, 1, 2));
    assert_eq!(tokens[1].end, Location::new(7, 1, 4));
    assert_eq!(tokens[3].start, Location::new(10, 1, 7));
    assert_eq!(tokens[3].end, Location::new(11, 1, 8));
    for token in &tokens {
        assert_eq!(Some(token.start), sc.to_location(token.start.position));
        assert_eq!(Some(token.end), sc.to_location(token.end.position));
    }
}

#[test]
fn the_tokeniser_reads_to_the_end() {
    let sc = SourceCode::new("a b".to_string());
    let mut tokeniser = Tokeniser::new(&sc);
    let tokens = tokeniser.parse();
    assert_eq!(tokens.len(), 2);
    assert_eq!(tokeniser.parse().len(), 0);
}

#[test]
fn an_error_keeps_its_lexeme() {
    assert_eq!(values("1test"), vec![error("1test", ErrorCode::UnexpectedToken)]);
    assert_eq!(values("@#x y"), vec![error("@#x", ErrorCode::UnexpectedToken), ident("y")]);
    assert_eq!(values("@+"), vec![error("@", ErrorCode::UnexpectedToken), operator("+")]);
}

#[test]
fn a_failed_number_is_read_again_as_one_error() {
    assert_eq!(values(".5a"), vec![error(".5a", ErrorCode::UnexpectedToken)]);
    assert_eq!(values("0a"), vec![error("0a", ErrorCode::UnexpectedToken)]);
    assert_eq!(values("0x1g)"), vec![error("0x1g)", ErrorCode::UnexpectedToken)]);
    assert_eq!(values("0x)"), vec![error("0x)", ErrorCode::UnexpectedToken)]);
    assert_eq!(values("08"), vec![error("08", ErrorCode::UnexpectedToken)]);
    assert_eq!(values("0x"), vec![error("0x", ErrorCode::UnexpectedToken)]);
    assert_eq!(values("0xg"), vec![error("0xg", ErrorCode::UnexpectedToken)]);
    assert_eq!(values("0x01"), vec![error("0x01", ErrorCode::UnexpectedToken)]);
    assert_eq!(values("1.5a)"), vec![
        error("1", ErrorCode::UnexpectedToken),
        error(".5a)", ErrorCode::UnexpectedToken),
    ]);
    assert_eq!(values("12a+1"), vec![
        error("12a", ErrorCode::UnexpectedToken),
        operator("+"),
        TokenValue::IntLiteral(1),
    ]);
}

#[test]
fn a_zero_in_brackets_is_a_zero() {
    assert_eq!(values("(0)"), vec![
        TokenValue::Bracket('('),
        TokenValue::IntLiteral(0),
        TokenValue::Bracket(')'),
    ]);
    let tokens = from_string("(0)");
    assert_eq!(tokens.len(), 3);
    assert_eq!(tokens[1].start.position, 1);
    assert_eq!(tokens[1].end.position, 2);
}

#[test]
fn every_whole_number_ends_before_a_bracket() {
    for (code, number) in [
        ("(07)", TokenValue::IntLiteral(7)),
        ("(1.5)", float("1.5")),
        ("(42.)", float("42.")),
        ("(.5)", float(".5")),
        ("(0x1f)", TokenValue::IntLiteral(31)),
        ("(0x0)", TokenValue::IntLiteral(0)),
        ("(12)", TokenValue::IntLiteral(12)),
        ("[0]", TokenValue::IntLiteral(0)),
        ("{0.5}", float("0.5")),
    ] {
        let found = values(code);
        assert_eq!(found.len(), 3);
        assert!(matches!(found[0], TokenValue::Bracket(_)));
        assert_eq!(found[1], number);
        assert!(matches!(found[2], TokenValue::Bracket(_)));
    }
    assert_eq!(values("0["), vec![TokenValue::IntLiteral(0), TokenValue::Bracket('[')]);
    assert_eq!(values("2*(0)"), vec![
        TokenValue::IntLiteral(2),
        operator("*"),
        TokenValue::Bracket('('),
        TokenValue::IntLiteral(0),
        TokenValue::Bracket(')'),
    ]);
}

#[test]
fn numbers_end_before_blanks_operators_and_brackets() {
    assert_eq!(values("12)"), vec![TokenValue::IntLiteral(12), TokenValue::Bracket(')')]);
    assert_eq!(values("0+1"), vec![
        TokenValue::IntLiteral(0),
        operator("+"),
        TokenValue::IntLiteral(1),
    ]);
    assert_eq!(values("0x1F*2"), vec![
        TokenValue::IntLiteral(31),
        operator("*"),
        TokenValue::IntLiteral(2),
    ]);
    assert_eq!(values("017 1.5"), vec![TokenValue::IntLiteral(15), float("1.5")]);
    assert_eq!(values("0.5"), vec![float("0.5")]);
    assert_eq!(values("1.2.3"), vec![float("1.2"), float(".3")]);
    assert_eq!(values("1.."), vec![float("1."), operator(".")]);
    assert_eq!(values(". 5"), vec![operator("."), TokenValue::IntLiteral(5)]);
    assert_eq!(values(".."), vec![operator("."), operator(".")]);
}

#[test]
fn integers_that_do_not_fit_are_errors() {
    let nines = "9".repeat(39);
    assert_eq!(values(&nines), vec![error(&nines, ErrorCode::IntLiteralTooLong)]);
    assert_eq!(
        values("0xffffffffffffffffffffffffffffffff"),
        vec![TokenValue::IntLiteral(u128::MAX)]
    );
    assert_eq!(
        values("0x100000000000000000000000000000000"),
        vec![error("0x100000000000000000000000000000000", ErrorCode::IntLiteralTooLong)]
    );
}

#[test]
fn operators_are_matched_as_long_as_they_go() {
    assert_eq!(values("::"), vec![operator("::")]);
    assert_eq!(values(":::"), vec![operator("::"), operator(":")]);
    assert_eq!(values("<<="), vec![operator("<<"), operator("=")]);
    assert_eq!(values("|>||"), vec![operator("|>"), operator("||")]);
    assert_eq!(values("a*=b"), vec![ident("a"), operator("*="), ident("b")]);
    assert_eq!(values("!~^?"), vec![operator("!"), operator("~"), operator("^"), operator("?")]);
}

#[test]
fn character_literals() {
    assert_eq!(values("''"), vec![error("''", ErrorCode::EmptyCharLiteral)]);
    assert_eq!(values("'ab'"), vec![error("'ab'", ErrorCode::CharLiteralTooLong)]);
    assert_eq!(values(r"'\nx'"), vec![error(r"'\nx'", ErrorCode::CharLiteralTooLong)]);
    assert_eq!(values("'a"), vec![error("'a", ErrorCode::UnterminatedCharLiteral)]);
    assert_eq!(values("'"), vec![error("'", ErrorCode::UnterminatedCharLiteral)]);
    assert_eq!(values("'a\nb"), vec![error("'a", ErrorCode::UnterminatedCharLiteral), ident("b")]);
    assert_eq!(values(r"'\q'"), vec![error(r"'\q'", ErrorCode::UnknownEscapeSequence)]);
    assert_eq!(values(r"'\u12'"), vec![error(r"'\u12'", ErrorCode::BrokenUnicodeSequence)]);
    assert_eq!(values(r"'\u12g4'"), vec![error(r"'\u12g4'", ErrorCode::BrokenUnicodeSequence)]);
    assert_eq!(values(r"'\u+041'"), vec![error(r"'\u+041'", ErrorCode::BrokenUnicodeSequence)]);
    assert_eq!(values(r"'\ud800'"), vec![error(r"'\ud800'", ErrorCode::BrokenUnicodeSequence)]);
    assert_eq!(values(r"'\''"), vec![TokenValue::CharLiteral('\'')]);
    assert_eq!(values(r"'\\'"), vec![TokenValue::CharLiteral('\\')]);
    assert_eq!(values(r"'\t' '\r'"), vec![
        TokenValue::CharLiteral('\t'),
        TokenValue::CharLiteral('\r'),
    ]);
    assert_eq!(values(r"'é'"), vec![TokenValue::CharLiteral('é')]);
    assert_eq!(values("' '"), vec![TokenValue::CharLiteral(' ')]);
}

#[test]
fn string_literals() {
    assert_eq!(values("\"\""), vec![string("")]);
    assert_eq!(values("\"\" x"), vec![string(""), ident("x")]);
    assert_eq!(values("\"a b\" x"), vec![string("a b"), ident("x")]);
    assert_eq!(values("\"a\"\n"), vec![string("a")]);
    assert_eq!(values("\"a\"+\"b\""), vec![string("a"), operator("+"), string("b")]);
    assert_eq!(values("\"\"\"a\nb\"\"\" x"), vec![string("a\nb"), ident("x")]);
    assert_eq!(values("\"\"\"a\"b\"\"c\"\"\""), vec![string("a\"b\"\"c")]);
    assert_eq!(values("\"\"\"\"\"\""), vec![string("")]);
    assert_eq!(
        values("\"\"\"a\"\"\"\""),
        vec![error("\"\"\"a\"\"\"\"", ErrorCode::BrokenStringLiteral)]
    );
    assert_eq!(
        values("\"\"\"a\nb"),
        vec![error("\"\"\"a\nb", ErrorCode::UnterminatedStringLiteral)]
    );
    assert_eq!(values("\""), vec![error("\"", ErrorCode::UnterminatedStringLiteral)]);
    assert_eq!(
        values("\"test\nx"),
        vec![error("\"test", ErrorCode::UnterminatedStringLiteral), ident("x")]
    );
    assert_eq!(values(r#""\q""#), vec![error(r#""\q""#, ErrorCode::UnknownEscapeSequence)]);
    assert_eq!(values(r#""\u12""#), vec![error(r#""\u12""#, ErrorCode::BrokenUnicodeSequence)]);
    assert_eq!(values(r#""a\""#), vec![error(r#""a\""#, ErrorCode::UnterminatedCharLiteral)]);
    assert_eq!(values(r#""it\'s""#), vec![string("it's")]);
}

#[test]
fn identifiers_hold_letters_digits_and_underscores() {
    assert_eq!(values("a_1 b2_"), vec![ident("a_1"), ident("b2_")]);
    assert_eq!(values("é1"), vec![ident("é1")]);
    assert_eq!(values("_a"), vec![error("_a", ErrorCode::UnexpectedToken)]);
    assert_eq!(values("ab(c)"), vec![
        ident("ab"),
        TokenValue::Bracket('('),
        ident("c"),
        TokenValue::Bracket(')'),
    ]);
}

#[test]
fn brackets_of_every_kind() {
    assert_eq!(values("([{}])"), vec![
        TokenValue::Bracket('('),
        TokenValue::Bracket('['),
        TokenValue::Bracket('{'),
        TokenValue::Bracket('}'),
        TokenValue::Bracket(']'),
        TokenValue::Bracket(')'),
    ]);
}

#[test]
fn token_values_render_as_their_text() {
    let tokens = from_string("a 12 1.5 'c' \"s t\" += ( 1x");
    let texts: Vec<String> = tokens.iter().map(|t| t.to_string()).collect();
    assert_eq!(texts, vec!["a", "12", "1.5", "c", "s t", "+=", "(", "1x"]);
    assert!(tokens[0].is_identifier());
    assert!(!tokens[0].is_literal());
    assert!(tokens[1].is_literal() && tokens[2].is_literal());
    assert!(tokens[3].is_literal() && tokens[4].is_literal());
    assert!(!tokens[5].is_literal() && !tokens[5].is_identifier());
    let copy = tokens[4].duplicate();
    assert_eq!(copy.value, tokens[4].value);
    assert_eq!(copy.start, tokens[4].start);
    assert_eq!(Token::new(copy.value.duplicate(), copy.start, copy.end).end, tokens[4].end);
}

#[test]
fn generated_texts_are_divided_and_read() {
    let alphabet: Vec<char> = "ab1 0x7.'\"\\\n+-*/%=()[]{}<>!&|^~?:_@#é試u9f\t".chars().collect();
    let mut state: u64 = 0x2545f4914f6cdd1d;
    for round in 0..2000 {
        let mut code = String::new();
        let len = round % 17;
        for _ in 0..len {
            state ^= state << 13;
            state ^= state >> 7;
            state ^= state << 17;
            code.push(alphabet[(state % alphabet.len() as u64) as usize]);
        }
        let tokens = from_string(&code);
        assert_eq!(rebuilt(&code, &tokens), code);
        let ast = calculator::ast::from_string(&code);
        assert!(ast.is_assignable());
        assert!(ast.start.position <= ast.end.position);
        let mut computer = calculator::computer::Computer::new();
        let _ = computer.compute(&ast);
        let _ = ast.to_string();
    }
}

#[test]
fn whitespace_is_passed_over_and_nothing_else() {
    let listed = |c: char| {
        matches!(
            c as u32,
            0x09..=0x0d
                | 0x20
                | 0x85
                | 0xa0
                | 0x1680
                | 0x2000..=0x200a
                | 0x2028
                | 0x2029
                | 0x202f
                | 0x205f
                | 0x3000
        )
    };
    let mut count = 0;
    for c in (0..=0x10ffffu32).filter_map(char::from_u32) {
        assert_eq!(c.is_whitespace(), listed(c));
        if listed(c) {
            count += 1;
            assert!(from_string(&c.to_string()).is_empty());
            assert!(calculator::tokeniser::check::is_punctuation_or_whitespace(c));
        }
    }
    assert_eq!(count, 25);
    for c in (0..0x3100u32).filter_map(char::from_u32) {
        assert_eq!(from_string(&c.to_string()).is_empty(), listed(c));
    }
}

#[test]
fn ascii_letters_begin_identifiers_and_digits_continue_them() {
    for c in (0..=0x7fu32).filter_map(char::from_u32) {
        assert_eq!(c.is_alphabetic(), c.is_ascii_alphabetic());
        assert_eq!(c.is_numeric(), c.is_ascii_digit());
        let alone = values(&c.to_string());
        assert_eq!(alone == vec![ident(&c.to_string())], c.is_ascii_alphabetic());
        let after = format!("a{}", c);
        assert_eq!(
            values(&after) == vec![ident(&after)],
            c.is_ascii_alphabetic() || c.is_ascii_digit() || c == '_'
        );
    }
}

#[test]
fn there_are_no_more_tokens_than_characters_that_are_not_whitespace() {
    for code in ["", " \t\n", "a+b", " a  +\n b ", "((0))", "\"a b\" 'c'", "@@ .5a 0x"] {
        let tokens = from_string(code);
        let solid = code.chars().filter(|c| !c.is_whitespace()).count();
        assert!(tokens.len() <= solid);
    }
    assert_eq!(from_string("a+b").len(), 3);
}

#[test]
fn each_scan_reads_one_token_and_moves_on() {
    let sc = SourceCode::new("::+ab(0x1f)'c'\"s\"@1".to_string());
    let mut tokeniser = Tokeniser::new(&sc);
    assert_eq!(tokeniser.position(), 0);
    assert_eq!(tokeniser.consume_operator().value, operator("::"));
    assert_eq!(tokeniser.position(), 2);
    assert_eq!(tokeniser.consume_operator().value, operator("+"));
    assert_eq!(tokeniser.position(), 3);
    assert_eq!(tokeniser.consume_identifier().value, ident("ab"));
    assert_eq!(tokeniser.position(), 5);
    assert_eq!(tokeniser.consume_bracket().value, TokenValue::Bracket('('));
    assert_eq!(tokeniser.position(), 6);
    assert_eq!(tokeniser.consume_number_or_dot().value, TokenValue::IntLiteral(31));
    assert_eq!(tokeniser.position(), 10);
    assert_eq!(tokeniser.consume_bracket().value, TokenValue::Bracket(')'));
    assert_eq!(tokeniser.consume_char_literal().value, TokenValue::CharLiteral('c'));
    assert_eq!(tokeniser.position(), 14);
    assert_eq!(tokeniser.consume_string_literal().value, string("s"));
    assert_eq!(tokeniser.position(), 17);
    let rest = tokeniser.restore();
    assert_eq!(rest.value, error("@1", ErrorCode::UnexpectedToken));
    assert_eq!(rest.start.position, 17);
    assert_eq!(rest.end.position, 19);
    assert_eq!(tokeniser.position(), 19);
}

#[test]
fn an_operator_scan_takes_the_longest_match() {
    for (code, lexeme) in [("::", "::"), (":::", "::"), ("<<=", "<<"), ("|>|", "|>"), ("=+", "=")] {
        let sc = SourceCode::new(code.to_string());
        let mut tokeniser = Tokeniser::new(&sc);
        let token = tokeniser.consume_operator();
        assert_eq!(token.value, operator(lexeme));
        assert_eq!(tokeniser.position(), lexeme.len());
        assert_eq!(token.end.position, lexeme.len());
    }
}
