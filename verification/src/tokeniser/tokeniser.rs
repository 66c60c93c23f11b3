use super::check::{is_bracket, punctuation, starts_operator, Operators};
use super::parsers::{decode_chars, decode_symbol_at, is_hex_digit, parse_float, parse_int};
use super::scan::{
    char_close, ends_number, ident_end, leading_quotes, lemma_longest_match, lemma_operator_end,
    lemma_token_count, lemma_total_coverage, longest_match, num_run, num_step, operator_end,
    partitions, plain_close, recovery_end, scan_bracket, scan_char, scan_identifier,
    scan_number, scan_operator, scan_recovery, scan_string, scan_token, solid_count,
    stops_recovery, string_value, token_at, tokens_from, trailing_quotes, triple_at,
    triple_close, unquoted, word_prefix, NumState, NumStep, Scanned,
};
use super::token::{token_views, ErrorCode, Token, TokenValue, TokenView};
use super::trie::{op_catalog, Trie};
use crate::source_code::{location_of, SourceCode};
use crate::text::{alphabetic, string_of};
use vstd::prelude::*;

verus! {

/// A cursor over a source text that reads one token at a time.
pub struct Tokeniser<'a> {
    source_code: &'a SourceCode,
    ops: Operators,
    position: usize,
    current_token_start: usize,
}

impl<'a> Tokeniser<'a> {
    /// The text being read.
    pub closed spec fn text(&self) -> Seq<char> {
        self.source_code@
    }

    /// The offset of the next character to read.
    pub closed spec fn cursor(&self) -> int {
        self.position as int
    }

    /// The cursor lies within the text.
    pub closed spec fn wf(&self) -> bool {
        self.current_token_start <= self.position <= self.source_code@.len() <= usize::MAX
    }

    /// `self` is what `before` becomes by reading `scanned` as the token `t`:
    /// the text is the same, the cursor has moved forward to the end of the
    /// scan, and the token holds the value read and the span it was read
    /// from.
    pub open spec fn follows(&self, before: &Tokeniser<'a>, t: Token, scanned: Scanned) -> bool {
        &&& self.wf()
        &&& self.text() == before.text()
        &&& before.cursor() < self.cursor()
        &&& self.cursor() == scanned.end
        &&& t@ == token_at(before.text(), before.cursor(), scanned)
    }

    /// A tokeniser at the start of `source_code`.
    pub fn new(source_code: &'a SourceCode) -> (t: Tokeniser<'a>)
        ensures
            t.wf(),
            t.text() == source_code@,
            t.cursor() == 0,
    {
        let chars = source_code.chars();
        Tokeniser { source_code, ops: Operators::new(), position: 0, current_token_start: 0 }
    }

    /// The offset of the next character to read.
    pub fn position(&self) -> (p: usize)
        ensures
            p == self.cursor(),
    {
        self.position
    }

    fn start_token(&mut self)
        requires
            old(self).wf(),
        ensures
            final(self).wf(),
            final(self).source_code == old(self).source_code,
            final(self).position == old(self).position,
            final(self).current_token_start == old(self).position,
            final(self).text() == old(self).text(),
    {
        self.current_token_start = self.position;
    }

    /// The characters of the text.
    fn chars(&self) -> (v: &'a Vec<char>)
        ensures
            v@ == self.text(),
            v.len() == self.text().len(),
    {
        self.source_code.chars()
    }

    fn get_char(&self, position: usize) -> (r: Option<char>)
        ensures
            r == if position < self.text().len() {
                Some(self.text()[position as int])
            } else {
                None
            },
    {
        let chars = self.chars();
        if position < chars.len() {
            Some(chars[position])
        } else {
            None
        }
    }

    /// The text of the token being read.
    fn lexeme(&self) -> (s: String)
        requires
            self.wf(),
        ensures
            s@ == self.text().subrange(self.current_token_start as int, self.position as int),
    {
        string_of(self.chars(), self.current_token_start, self.position)
    }

    /// The characters of the token being read.
    fn lexeme_chars(&self) -> (v: Vec<char>)
        requires
            self.wf(),
        ensures
            v@ == self.text().subrange(self.current_token_start as int, self.position as int),
    {
        let chars = self.chars();
        let mut v: Vec<char> = Vec::new();
        let mut i: usize = self.current_token_start;
        while i < self.position
            invariant
                self.current_token_start <= i <= self.position <= chars.len(),
                chars@ == self.text(),
                v@ == chars@.subrange(self.current_token_start as int, i as int),
            decreases self.position - i,
        {
            v.push(chars[i]);
            i += 1;
        }
        v
    }

    /// The token with `value` whose span runs from the start of the token
    /// being read to the cursor.
    fn commit_token(&self, value: TokenValue) -> (t: Token)
        requires
            self.wf(),
        ensures
            t.value == value,
            t.start == location_of(self.text(), self.current_token_start as int),
            t.end == location_of(self.text(), self.position as int),
    {
        let start = self.source_code.to_location(self.current_token_start).unwrap();
        let end = self.source_code.to_location(self.position).unwrap();
        Token::new(value, start, end)
    }

    fn is_punctuation(&self, c: char) -> (b: bool)
        requires
            self.wf(),
        ensures
            b == punctuation(c),
    {
        starts_operator(self.ops.trie(), c)
    }

    fn is_punctuation_or_whitespace(&self, c: char) -> (b: bool)
        requires
            self.wf(),
        ensures
            b == stops_recovery(c),
    {
        c.is_whitespace() || self.is_punctuation(c)
    }

    /// Reads an identifier: the run of letters, digits and underscores that
    /// begins at the cursor, which stands on a letter.
    pub fn consume_identifier(&mut self) -> (t: Token)
        requires
            old(self).wf(),
            old(self).cursor() < old(self).text().len(),
            alphabetic(old(self).text()[old(self).cursor()]),
        ensures
            final(self).follows(
                old(self),
                t,
                scan_identifier(old(self).text(), old(self).cursor()),
            ),
    {
        self.start_token();
        let chars = self.chars();
        let start = self.position;
        let mut pos = start;
        while pos < chars.len() && (chars[pos].is_alphanumeric() || chars[pos] == '_')
            invariant
                start <= pos <= chars.len(),
                ident_end(chars@, start as int) == ident_end(chars@, pos as int),
            decreases chars.len() - pos,
        {
            pos += 1;
        }
        self.position = pos;
        let name = self.lexeme();
        self.commit_token(TokenValue::Identifier(name))
    }

    /// Reads the character at the cursor and what follows it up to
    /// whitespace or the start of an operator as one unexpected token.
    pub fn restore(&mut self) -> (t: Token)
        requires
            old(self).wf(),
            old(self).cursor() < old(self).text().len(),
        ensures
            final(self).follows(old(self), t, scan_recovery(old(self).text(), old(self).cursor())),
    {
        self.start_token();
        let chars = self.chars();
        let start = self.position;
        let mut pos = start + 1;
        while pos < chars.len() && !self.is_punctuation_or_whitespace(chars[pos])
            invariant
                self.wf(),
                start < pos <= chars.len(),
                recovery_end(chars@, start + 1) == recovery_end(chars@, pos as int),
            decreases chars.len() - pos,
        {
            pos += 1;
        }
        self.position = pos;
        let text = self.lexeme();
        self.commit_token(TokenValue::Error(text, ErrorCode::UnexpectedToken))
    }

    /// Reads the character at the cursor as a bracket.
    pub fn consume_bracket(&mut self) -> (t: Token)
        requires
            old(self).wf(),
            old(self).cursor() < old(self).text().len(),
        ensures
            final(self).follows(old(self), t, scan_bracket(old(self).text(), old(self).cursor())),
    {
        self.start_token();
        let c = self.chars()[self.position];
        self.position += 1;
        let value = if is_bracket(c) {
            TokenValue::Bracket(c)
        } else {
            TokenValue::Error(self.lexeme(), ErrorCode::UnexpectedToken)
        };
        self.commit_token(value)
    }

    /// Reads the longest match of an operator at the cursor, which stands
    /// where an operator can begin: an operator token when what was read is
    /// in the catalogue, an unexpected token otherwise.
    pub fn consume_operator(&mut self) -> (t: Token)
        requires
            old(self).wf(),
            old(self).cursor() < old(self).text().len(),
            punctuation(old(self).text()[old(self).cursor()]),
        ensures
            final(self).follows(old(self), t, scan_operator(old(self).text(), old(self).cursor())),
            longest_match(old(self).text(), old(self).cursor(), final(self).cursor()),
    {
        proof {
            lemma_longest_match(old(self).text(), old(self).cursor());
        }
        self.start_token();
        let chars = self.chars();
        let start = self.position;
        let mut pos = start;
        let mut trie: &Trie = self.ops.trie();
        loop
            invariant
                start <= pos <= chars.len(),
                trie.wf(),
                forall|w: Seq<char>|
                    trie@.contains_key(w) <==> op_catalog().contains(
                        chars@.subrange(start as int, pos as int) + w,
                    ),
                operator_end(chars@, start as int, start as int) == operator_end(
                    chars@,
                    start as int,
                    pos as int,
                ),
            ensures
                start <= pos <= chars.len(),
                pos == operator_end(chars@, start as int, start as int),
                trie@.contains_key(Seq::<char>::empty()) <==> op_catalog().contains(
                    chars@.subrange(start as int, pos as int),
                ),
            decreases chars.len() - pos,
        {
            let ghost read = chars@.subrange(start as int, pos as int);
            assert(read + Seq::<char>::empty() == read);
            if pos >= chars.len() {
                break ;
            }
            let c = chars[pos];
            let ghost grown = chars@.subrange(start as int, pos + 1);
            proof {
                assert(grown == read.push(c));
                if trie.starts(c) {
                    let w = choose|w: Seq<char>| #[trigger]
                        trie@.contains_key(w) && w.len() > 0 && w[0] == c;
                    assert(grown.is_prefix_of(read + w)) by {
                        assert(grown =~= (read + w).subrange(0, grown.len() as int));
                    }
                    assert(word_prefix(grown));
                }
                if word_prefix(grown) {
                    let x = choose|x: Seq<char>| #[trigger]
                        op_catalog().contains(x) && grown.is_prefix_of(x);
                    let w = x.skip(read.len() as int);
                    assert(x =~= read + w) by {
                        assert(grown == x.subrange(0, grown.len() as int));
                        assert forall|i: int| 0 <= i < read.len() implies x[i] == read[i] by {
                            assert(x.subrange(0, grown.len() as int)[i] == grown[i]);
                        }
                    }
                    assert(w[0] == c) by {
                        assert(x.subrange(0, grown.len() as int)[read.len() as int] == grown[read.len() as int]);
                    }
                    assert(trie@.contains_key(w));
                    assert(trie.starts(c));
                }
            }
            match trie.get(c) {
                Some(next) => {
                    proof {
                        assert forall|w: Seq<char>|
                            next@.contains_key(w) <==> op_catalog().contains(grown + w) by {
                            assert(read + (seq![c] + w) == grown + w);
                        }
                    }
                    trie = next;
                    pos += 1;
                },
                None => {
                    break ;
                },
            }
        }
        let complete = trie.is_leaf();
        self.position = pos;
        assert(pos > start) by {
            let c = chars@[start as int];
            let w = choose|w: Seq<char>| #[trigger] op_catalog().contains(w) && w.len() > 0 && w[0] == c;
            assert(chars@.subrange(start as int, start + 1) =~= w.subrange(0, 1));
            assert(word_prefix(chars@.subrange(start as int, start + 1)));
            lemma_operator_end(chars@, start as int, start + 1);
        }
        let text = self.lexeme();
        let value = if complete {
            TokenValue::Operator(text)
        } else {
            TokenValue::Error(text, ErrorCode::UnexpectedToken)
        };
        self.commit_token(value)
    }

    /// Reads the character literal that opens at the cursor.
    pub fn consume_char_literal(&mut self) -> (t: Token)
        requires
            old(self).wf(),
            old(self).cursor() < old(self).text().len(),
        ensures
            final(self).follows(old(self), t, scan_char(old(self).text(), old(self).cursor())),
    {
        self.start_token();
        let chars = self.chars();
        let start = self.position;
        let mut pos = start + 1;
        let mut closed = false;
        let mut escape = false;
        loop
            invariant_except_break
                !closed,
                char_close(chars@, start + 1, false) == char_close(chars@, pos as int, escape),
            invariant
                start < pos <= chars.len(),
            ensures
                start < pos <= chars.len(),
                char_close(chars@, start + 1, false) == (pos as int, closed),
            decreases chars.len() - pos,
        {
            if pos >= chars.len() {
                break ;
            }
            let c = chars[pos];
            if c == '\n' {
                break ;
            } else if c == '\'' && !escape {
                closed = true;
                pos += 1;
                break ;
            } else if c == '\\' {
                escape = !escape;
            } else {
                escape = false;
            }
            pos += 1;
        }
        self.position = pos;
        if !closed {
            let text = self.lexeme();
            return self.commit_token(TokenValue::Error(text, ErrorCode::UnterminatedCharLiteral));
        }
        let lexeme = self.lexeme_chars();
        let len = lexeme.len();
        let value = if len == 2 {
            TokenValue::Error(self.lexeme(), ErrorCode::EmptyCharLiteral)
        } else if len == 3 {
            TokenValue::CharLiteral(lexeme[1])
        } else {
            match decode_symbol_at(&lexeme, 1, true) {
                Err(e) => TokenValue::Error(self.lexeme(), e),
                Ok((c, next)) => {
                    if next + 1 < len {
                        TokenValue::Error(self.lexeme(), ErrorCode::CharLiteralTooLong)
                    } else {
                        TokenValue::CharLiteral(c)
                    }
                },
            }
        };
        self.commit_token(value)
    }

    /// The value of the closed string literal that the cursor has just passed.
    fn string_token_value(&self) -> (v: TokenValue)
        requires
            self.wf(),
        ensures
            v@ == string_value(
                self.text().subrange(self.current_token_start as int, self.position as int),
            ),
    {
        let lexeme = self.lexeme_chars();
        let content = strip_quotes(&lexeme);
        match decode_chars(&content) {
            Ok(s) => TokenValue::StringLiteral(s),
            Err(e) => TokenValue::Error(self.lexeme(), e),
        }
    }

    /// Reads the string literal that opens at the cursor.
    pub fn consume_string_literal(&mut self) -> (t: Token)
        requires
            old(self).wf(),
            old(self).cursor() < old(self).text().len(),
        ensures
            final(self).follows(old(self), t, scan_string(old(self).text(), old(self).cursor())),
    {
        self.start_token();
        let chars = self.chars();
        let len = chars.len();
        let start = self.position;
        if chars[start] != '"' {
            self.position = start + 1;
            let text = self.lexeme();
            return self.commit_token(TokenValue::Error(text, ErrorCode::BrokenStringLiteral));
        }
        if len - start >= 2 && chars[start + 1] == '"' {
            if len - start >= 3 && chars[start + 2] == '"' {
                // three quotes opened the literal: look for three in a row
                let mut pos = start + 3;
                let mut run: usize = 0;
                while pos < len && run < 3
                    invariant
                        len == chars.len(),
                        start + 3 <= pos <= len,
                        run <= 3,
                        start + 3 + run <= pos,
                        forall|k: int| pos - run <= k < pos ==> chars@[k] == '"',
                        triple_close(chars@, start + 3) == triple_close(chars@, pos - run),
                    decreases len - pos,
                {
                    if chars[pos] == '"' {
                        run += 1;
                    } else {
                        proof {
                            let p = pos as int;
                            assert(!triple_at(chars@, p));
                            assert(!triple_at(chars@, p - 1));
                            assert(!triple_at(chars@, p - 2));
                            if run >= 1 {
                                assert(triple_close(chars@, p - 1) == triple_close(chars@, p));
                            }
                            if run >= 2 {
                                assert(triple_close(chars@, p - 2) == triple_close(chars@, p - 1));
                            }
                        }
                        run = 0;
                    }
                    pos += 1;
                }
                if run < 3 {
                    proof {
                        lemma_triple_tail(chars@, pos - run);
                    }
                    self.position = pos;
                    let text = self.lexeme();
                    return self.commit_token(
                        TokenValue::Error(text, ErrorCode::UnterminatedStringLiteral),
                    );
                }
                assert(triple_at(chars@, pos - 3));
                if pos < len && chars[pos] == '"' {
                    self.position = pos + 1;
                    let text = self.lexeme();
                    return self.commit_token(TokenValue::Error(text, ErrorCode::BrokenStringLiteral));
                }
                self.position = pos;
            } else {
                self.position = start + 2;
            }
        } else {
            let mut pos = start + 1;
            let mut closed = false;
            loop
                invariant_except_break
                    !closed,
                    plain_close(chars@, start + 1) == plain_close(chars@, pos as int),
                invariant
                    len == chars.len(),
                    start < pos <= len,
                ensures
                    start < pos <= len,
                    plain_close(chars@, start + 1) == (pos as int, closed),
                decreases len - pos,
            {
                if pos >= len {
                    break ;
                }
                let c = chars[pos];
                if c == '\n' {
                    break ;
                }
                pos += 1;
                if c == '"' {
                    closed = true;
                    break ;
                }
            }
            self.position = pos;
            if !closed {
                let text = self.lexeme();
                return self.commit_token(
                    TokenValue::Error(text, ErrorCode::UnterminatedStringLiteral),
                );
            }
        }
        let value = self.string_token_value();
        self.commit_token(value)
    }

    /// Whether a number may end before `c`.
    fn ends_number(&self, c: char) -> (b: bool)
        requires
            self.wf(),
        ensures
            b == ends_number(c),
    {
        is_bracket(c) || self.is_punctuation_or_whitespace(c)
    }

    /// The move of the number scan on `c` in `state`.
    fn number_step(&self, state: NumState, c: char) -> (r: NumStep)
        requires
            self.wf(),
        ensures
            r == num_step(state, c),
    {
        match state {
            NumState::Begin => {
                if c == '0' {
                    NumStep::Next(NumState::Zero)
                } else if '1' <= c && c <= '9' {
                    NumStep::Next(NumState::Decimal)
                } else if c == '.' {
                    NumStep::Next(NumState::Dot)
                } else {
                    NumStep::Fail
                }
            },
            NumState::Zero => {
                if '0' <= c && c <= '7' {
                    NumStep::Next(NumState::Octal)
                } else if c == '.' {
                    NumStep::Next(NumState::Float)
                } else if c == 'x' {
                    NumStep::Next(NumState::HexPrefix)
                } else if self.ends_number(c) {
                    NumStep::Stop
                } else {
                    NumStep::Fail
                }
            },
            NumState::Decimal => {
                if '0' <= c && c <= '9' {
                    NumStep::Next(NumState::Decimal)
                } else if c == '.' {
                    NumStep::Next(NumState::Float)
                } else if self.ends_number(c) {
                    NumStep::Stop
                } else {
                    NumStep::Fail
                }
            },
            NumState::Dot => {
                if '0' <= c && c <= '9' {
                    NumStep::Next(NumState::Float)
                } else {
                    NumStep::Stop
                }
            },
            NumState::Octal => {
                if '0' <= c && c <= '7' {
                    NumStep::Next(NumState::Octal)
                } else if self.ends_number(c) {
                    NumStep::Stop
                } else {
                    NumStep::Fail
                }
            },
            NumState::Float => {
                if '0' <= c && c <= '9' {
                    NumStep::Next(NumState::Float)
                } else if self.ends_number(c) {
                    NumStep::Stop
                } else {
                    NumStep::Fail
                }
            },
            NumState::HexPrefix => {
                if c == '0' {
                    NumStep::Next(NumState::HexZero)
                } else if is_hex_digit(c) {
                    NumStep::Next(NumState::Hex)
                } else {
                    NumStep::Fail
                }
            },
            NumState::HexZero => {
                if self.ends_number(c) {
                    NumStep::Stop
                } else {
                    NumStep::Fail
                }
            },
            NumState::Hex => {
                if is_hex_digit(c) {
                    NumStep::Next(NumState::Hex)
                } else if self.ends_number(c) {
                    NumStep::Stop
                } else {
                    NumStep::Fail
                }
            },
        }
    }

    /// Reads a number, or the operator `.`, at the cursor. Where the
    /// characters there are no number, they are read as one unexpected
    /// token.
    pub fn consume_number_or_dot(&mut self) -> (t: Token)
        requires
            old(self).wf(),
            old(self).cursor() < old(self).text().len(),
        ensures
            final(self).follows(old(self), t, scan_number(old(self).text(), old(self).cursor())),
    {
        self.start_token();
        let chars = self.chars();
        let start = self.position;
        let mut pos = start;
        let mut state = NumState::Begin;
        let mut error = false;
        loop
            invariant_except_break
                !error,
                pos == start <==> state == NumState::Begin,
                num_run(chars@, start as int, NumState::Begin) == num_run(chars@, pos as int, state),
            invariant
                self.wf(),
                start <= pos <= chars.len(),
                start < chars.len(),
            ensures
                start <= pos <= chars.len(),
                !error ==> pos > start,
                num_run(chars@, start as int, NumState::Begin) == (
                    pos as int,
                    if error {
                        None
                    } else {
                        Some(state)
                    },
                ),
            decreases chars.len() - pos,
        {
            if pos >= chars.len() {
                break ;
            }
            match self.number_step(state, chars[pos]) {
                NumStep::Next(next) => {
                    state = next;
                    pos += 1;
                },
                NumStep::Stop => {
                    break ;
                },
                NumStep::Fail => {
                    error = true;
                    break ;
                },
            }
        }
        if error {
            return self.restore();
        }
        self.position = pos;
        let value = match state {
            NumState::Zero | NumState::HexZero => TokenValue::IntLiteral(0),
            NumState::Decimal => parse_int(self.lexeme(), 10),
            NumState::Dot => TokenValue::Operator(".".to_owned()),
            NumState::Octal => parse_int(self.lexeme(), 8),
            NumState::Float => parse_float(self.lexeme()),
            NumState::Hex => parse_int(self.lexeme(), 16),
            NumState::Begin | NumState::HexPrefix => TokenValue::Error(
                self.lexeme(),
                ErrorCode::UnexpectedToken,
            ),
        };
        self.commit_token(value)
    }

    /// Reads the rest of the text into tokens. Read from the start, they
    /// divide the text, and there are no more of them than characters that
    /// are not whitespace.
    pub fn parse(&mut self) -> (tokens: Vec<Token>)
        requires
            old(self).wf(),
        ensures
            final(self).wf(),
            final(self).text() == old(self).text(),
            final(self).cursor() == old(self).text().len(),
            token_views(tokens@) == tokens_from(old(self).text(), old(self).cursor(), Seq::empty()),
            old(self).cursor() == 0 ==> partitions(
                old(self).text(),
                token_views(tokens@),
                old(self).text().len() as int,
            ) && tokens.len() <= solid_count(old(self).text(), old(self).text().len() as int),
    {
        proof {
            lemma_total_coverage(self.text());
            lemma_token_count(self.text());
        }
        let mut tokens: Vec<Token> = Vec::new();
        assert(token_views(tokens@) == Seq::<TokenView>::empty());
        loop
            invariant
                self.wf(),
                self.text() == old(self).text(),
                tokens_from(old(self).text(), old(self).cursor(), Seq::empty()) == tokens_from(
                    self.text(),
                    self.position as int,
                    token_views(tokens@),
                ),
            ensures
                self.wf(),
                self.text() == old(self).text(),
                self.position == self.text().len(),
                token_views(tokens@) == tokens_from(
                    old(self).text(),
                    old(self).cursor(),
                    Seq::empty(),
                ),
            decreases self.text().len() - self.position,
        {
            let c = match self.get_char(self.position) {
                Some(c) => c,
                None => {
                    break ;
                },
            };
            let ghost before = token_views(tokens@);
            proof {
                reveal(scan_token);
            }
            if c.is_whitespace() || c == '\n' {
                self.position += 1;
                continue ;
            }
            let to_push = if c.is_alphabetic() {
                self.consume_identifier()
            } else if c == '\'' {
                self.consume_char_literal()
            } else if c == '"' {
                self.consume_string_literal()
            } else if is_bracket(c) {
                self.consume_bracket()
            } else if c == '.' || is_hex_digit(c) {
                self.consume_number_or_dot()
            } else if self.is_punctuation(c) {
                self.consume_operator()
            } else {
                self.restore()
            };
            tokens.push(to_push);
            assert(token_views(tokens@) == before.push(to_push@));
        }
        tokens
    }
}

/// `lexeme` without the quotes at its two ends.
fn strip_quotes(lexeme: &Vec<char>) -> (v: Vec<char>)
    ensures
        v@ == unquoted(lexeme@),
{
    let len = lexeme.len();
    let mut from: usize = 0;
    while from < len && lexeme[from] == '"'
        invariant
            from <= len == lexeme.len(),
            leading_quotes(lexeme@, 0) == from + leading_quotes(lexeme@, from as int),
        decreases len - from,
    {
        from += 1;
    }
    let mut v: Vec<char> = Vec::new();
    if from == len {
        return v;
    }
    let mut to = len;
    while to > from && lexeme[to - 1] == '"'
        invariant
            from < to <= len == lexeme.len(),
            lexeme@[from as int] != '"',
            trailing_quotes(lexeme@, len as int) == (len - to) + trailing_quotes(lexeme@, to as int),
        decreases to,
    {
        to -= 1;
    }
    let mut i = from;
    while i < to
        invariant
            from <= i <= to <= lexeme.len(),
            v@ == lexeme@.subrange(from as int, i as int),
        decreases to - i,
    {
        v.push(lexeme[i]);
        i += 1;
    }
    v
}

/// Fewer than three characters hold no three quotes: a triple-quoted body
/// that short runs unclosed to the end of the text.
proof fn lemma_triple_tail(text: Seq<char>, i: int)
    requires
        0 <= i <= text.len(),
        text.len() - i < 3,
    ensures
        triple_close(text, i) == (text.len() as int, false),
    decreases text.len() - i,
{
    if i < text.len() {
        lemma_triple_tail(text, i + 1);
    }
}

} // verus!
