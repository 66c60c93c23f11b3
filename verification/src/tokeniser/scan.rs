//! What each kind of scan reads from a text: the definitions that the
//! tokeniser is verified against.
use super::check::{bracket_char, punctuation};
use super::parsers::{
    decode_string, decode_symbol, digit_count, float_token, int_token, is_digit, is_numeral,
    point_count,
};
use super::token::{ErrorCode, TokenValueView, TokenView};
use super::trie::op_catalog;
use crate::source_code::location_of;
use crate::text::{alphabetic, numeric, whitespace};
use vstd::prelude::*;

verus! {

/// The outcome of one scan: the value read and the offset where it stops.
pub struct Scanned {
    pub value: TokenValueView,
    pub end: int,
}

/// Whether `c` may stand in an identifier.
pub open spec fn ident_char(c: char) -> bool {
    alphabetic(c) || numeric(c) || c == '_'
}

/// The end of the run of identifier characters that begins at `i`.
pub open spec fn ident_end(text: Seq<char>, i: int) -> int
    decreases text.len() - i,
{
    if 0 <= i < text.len() && ident_char(text[i]) {
        ident_end(text, i + 1)
    } else {
        i
    }
}

/// An identifier: the longest run of identifier characters from `s`.
pub open spec fn scan_identifier(text: Seq<char>, s: int) -> Scanned {
    let e = ident_end(text, s);
    Scanned { value: TokenValueView::Identifier(text.subrange(s, e)), end: e }
}

/// Whether `c` ends a recovery scan.
pub open spec fn stops_recovery(c: char) -> bool {
    whitespace(c) || punctuation(c)
}

/// The first offset from `i` on that holds whitespace or the start of an
/// operator, or the end of the text.
pub open spec fn recovery_end(text: Seq<char>, i: int) -> int
    decreases text.len() - i,
{
    if 0 <= i < text.len() && !stops_recovery(text[i]) {
        recovery_end(text, i + 1)
    } else {
        i
    }
}

/// Recovery: the character at `s` and all that follows it up to whitespace
/// or the start of an operator, as one unexpected token.
pub open spec fn scan_recovery(text: Seq<char>, s: int) -> Scanned {
    let e = recovery_end(text, s + 1);
    Scanned { value: TokenValueView::Error(text.subrange(s, e), ErrorCode::UnexpectedToken), end: e }
}

/// A bracket: the single character at `s`.
pub open spec fn scan_bracket(text: Seq<char>, s: int) -> Scanned {
    Scanned {
        value: if bracket_char(text[s]) {
            TokenValueView::Bracket(text[s])
        } else {
            TokenValueView::Error(text.subrange(s, s + 1), ErrorCode::UnexpectedToken)
        },
        end: s + 1,
    }
}

/// Whether some operator of the catalogue begins with `p`.
pub open spec fn word_prefix(p: Seq<char>) -> bool {
    exists|w: Seq<char>| #[trigger] op_catalog().contains(w) && p.is_prefix_of(w)
}

/// The first offset `e` from `i` on such that `text[s..e + 1]` begins no
/// operator of the catalogue, or the end of the text.
pub open spec fn operator_end(text: Seq<char>, s: int, i: int) -> int
    decreases text.len() - i,
{
    if 0 <= s <= i < text.len() && word_prefix(text.subrange(s, i + 1)) {
        operator_end(text, s, i + 1)
    } else {
        i
    }
}

/// An operator: the longest stretch from `s` that begins an operator of the
/// catalogue. It is an operator token when it is itself in the catalogue.
pub open spec fn scan_operator(text: Seq<char>, s: int) -> Scanned {
    let e = operator_end(text, s, s);
    let lexeme = text.subrange(s, e);
    Scanned {
        value: if op_catalog().contains(lexeme) {
            TokenValueView::Operator(lexeme)
        } else {
            TokenValueView::Error(lexeme, ErrorCode::UnexpectedToken)
        },
        end: e,
    }
}

/// Where the character literal whose body begins at `i` stops, and whether
/// a closing quote was found. A line feed or the end of the text stops it
/// unclosed; `escape` tells whether the character before `i` was an
/// unescaped backslash.
pub open spec fn char_close(text: Seq<char>, i: int, escape: bool) -> (int, bool)
    decreases text.len() - i,
{
    if !(0 <= i < text.len()) {
        (i, false)
    } else if text[i] == '\n' {
        (i, false)
    } else if text[i] == '\'' && !escape {
        (i + 1, true)
    } else if text[i] == '\\' {
        char_close(text, i + 1, !escape)
    } else {
        char_close(text, i + 1, false)
    }
}

/// The value of a closed character literal, quotes included in `lexeme`.
pub open spec fn char_value(lexeme: Seq<char>) -> TokenValueView {
    if lexeme.len() == 2 {
        TokenValueView::Error(lexeme, ErrorCode::EmptyCharLiteral)
    } else if lexeme.len() == 3 {
        TokenValueView::CharLiteral(lexeme[1])
    } else {
        match decode_symbol(lexeme, 1, true) {
            Err(e) => TokenValueView::Error(lexeme, e),
            Ok((c, next)) => if next + 1 < lexeme.len() {
                TokenValueView::Error(lexeme, ErrorCode::CharLiteralTooLong)
            } else {
                TokenValueView::CharLiteral(c)
            },
        }
    }
}

/// A character literal that opens at `s`.
pub open spec fn scan_char(text: Seq<char>, s: int) -> Scanned {
    let (e, closed) = char_close(text, s + 1, false);
    let lexeme = text.subrange(s, e);
    Scanned {
        value: if closed {
            char_value(lexeme)
        } else {
            TokenValueView::Error(lexeme, ErrorCode::UnterminatedCharLiteral)
        },
        end: e,
    }
}

/// Where the one-line string whose body begins at `i` stops, and whether
/// its closing quote was found.
pub open spec fn plain_close(text: Seq<char>, i: int) -> (int, bool)
    decreases text.len() - i,
{
    if !(0 <= i < text.len()) {
        (i, false)
    } else if text[i] == '\n' {
        (i, false)
    } else if text[i] == '"' {
        (i + 1, true)
    } else {
        plain_close(text, i + 1)
    }
}

/// Whether three quotes stand at `i`.
pub open spec fn triple_at(text: Seq<char>, i: int) -> bool {
    0 <= i && i + 2 < text.len() && text[i] == '"' && text[i + 1] == '"' && text[i + 2] == '"'
}

/// Where the triple-quoted string whose body begins at `i` stops: after the
/// first three quotes in a row, or at the end of the text when there are
/// none.
pub open spec fn triple_close(text: Seq<char>, i: int) -> (int, bool)
    decreases text.len() - i,
{
    if !(0 <= i < text.len()) {
        (i, false)
    } else if triple_at(text, i) {
        (i + 3, true)
    } else {
        triple_close(text, i + 1)
    }
}

/// How many quotes `s` has from index `i` on before another character.
pub open spec fn leading_quotes(s: Seq<char>, i: int) -> int
    decreases s.len() - i,
{
    if 0 <= i < s.len() && s[i] == '"' {
        1 + leading_quotes(s, i + 1)
    } else {
        0
    }
}

/// How many quotes `s` has before index `j`, counting back to another
/// character.
pub open spec fn trailing_quotes(s: Seq<char>, j: int) -> int
    decreases j,
{
    if 0 < j <= s.len() && s[j - 1] == '"' {
        1 + trailing_quotes(s, j - 1)
    } else {
        0
    }
}

/// `s` without the quotes at its two ends.
pub open spec fn unquoted(s: Seq<char>) -> Seq<char> {
    let lead = leading_quotes(s, 0);
    if lead == s.len() {
        Seq::empty()
    } else {
        s.subrange(lead, s.len() - trailing_quotes(s, s.len() as int))
    }
}

/// The value of a closed string literal, quotes included in `lexeme`.
pub open spec fn string_value(lexeme: Seq<char>) -> TokenValueView {
    match decode_string(unquoted(lexeme)) {
        Ok(t) => TokenValueView::StringLiteral(t),
        Err(e) => TokenValueView::Error(lexeme, e),
    }
}

/// A string literal that opens at `s`: the empty string `""`, a string on
/// one line, or a triple-quoted string, which may hold line feeds and must
/// not be followed by a fourth quote.
pub open spec fn scan_string(text: Seq<char>, s: int) -> Scanned {
    if text[s] != '"' {
        Scanned {
            value: TokenValueView::Error(text.subrange(s, s + 1), ErrorCode::BrokenStringLiteral),
            end: s + 1,
        }
    } else if s + 1 < text.len() && text[s + 1] == '"' {
        if s + 2 < text.len() && text[s + 2] == '"' {
            let (e, closed) = triple_close(text, s + 3);
            if !closed {
                Scanned {
                    value: TokenValueView::Error(
                        text.subrange(s, e),
                        ErrorCode::UnterminatedStringLiteral,
                    ),
                    end: e,
                }
            } else if e < text.len() && text[e] == '"' {
                Scanned {
                    value: TokenValueView::Error(
                        text.subrange(s, e + 1),
                        ErrorCode::BrokenStringLiteral,
                    ),
                    end: e + 1,
                }
            } else {
                Scanned { value: string_value(text.subrange(s, e)), end: e }
            }
        } else {
            Scanned { value: string_value(text.subrange(s, s + 2)), end: s + 2 }
        }
    } else {
        let (e, closed) = plain_close(text, s + 1);
        Scanned {
            value: if closed {
                string_value(text.subrange(s, e))
            } else {
                TokenValueView::Error(text.subrange(s, e), ErrorCode::UnterminatedStringLiteral)
            },
            end: e,
        }
    }
}

/// The states of the number scan.
#[derive(Debug, Clone, Copy, PartialEq, Eq, Structural)]
pub enum NumState {
    /// Nothing read yet.
    Begin,
    /// A single `0`.
    Zero,
    /// Decimal digits.
    Decimal,
    /// A single `.`.
    Dot,
    /// A `0` and octal digits.
    Octal,
    /// Digits with a point among them.
    Float,
    /// `0x`.
    HexPrefix,
    /// `0x0`.
    HexZero,
    /// `0x` and hexadecimal digits.
    Hex,
}

/// What one character does to the number scan.
pub enum NumStep {
    /// The character is read and the scan goes on in the given state.
    Next(NumState),
    /// The number ends before the character.
    Stop,
    /// The characters read so far are no number.
    Fail,
}

/// Whether a number may end before `c`: `c` is a bracket, whitespace or
/// the start of an operator.
pub open spec fn ends_number(c: char) -> bool {
    bracket_char(c) || stops_recovery(c)
}

/// The move of the number scan on `c` in `state`. A number that is whole
/// (a zero, decimal, octal or hexadecimal digits, a float) ends before a
/// bracket, whitespace or the start of an operator; before any other
/// character that does not continue it, the scan fails.
pub open spec fn num_step(state: NumState, c: char) -> NumStep {
    match state {
        NumState::Begin => if c == '0' {
            NumStep::Next(NumState::Zero)
        } else if '1' <= c <= '9' {
            NumStep::Next(NumState::Decimal)
        } else if c == '.' {
            NumStep::Next(NumState::Dot)
        } else {
            NumStep::Fail
        },
        NumState::Zero => if '0' <= c <= '7' {
            NumStep::Next(NumState::Octal)
        } else if c == '.' {
            NumStep::Next(NumState::Float)
        } else if c == 'x' {
            NumStep::Next(NumState::HexPrefix)
        } else if ends_number(c) {
            NumStep::Stop
        } else {
            NumStep::Fail
        },
        NumState::Decimal => if '0' <= c <= '9' {
            NumStep::Next(NumState::Decimal)
        } else if c == '.' {
            NumStep::Next(NumState::Float)
        } else if ends_number(c) {
            NumStep::Stop
        } else {
            NumStep::Fail
        },
        NumState::Dot => if '0' <= c <= '9' {
            NumStep::Next(NumState::Float)
        } else {
            NumStep::Stop
        },
        NumState::Octal => if '0' <= c <= '7' {
            NumStep::Next(NumState::Octal)
        } else if ends_number(c) {
            NumStep::Stop
        } else {
            NumStep::Fail
        },
        NumState::Float => if '0' <= c <= '9' {
            NumStep::Next(NumState::Float)
        } else if ends_number(c) {
            NumStep::Stop
        } else {
            NumStep::Fail
        },
        NumState::HexPrefix => if c == '0' {
            NumStep::Next(NumState::HexZero)
        } else if is_digit(c, 16) {
            NumStep::Next(NumState::Hex)
        } else {
            NumStep::Fail
        },
        NumState::HexZero => if ends_number(c) {
            NumStep::Stop
        } else {
            NumStep::Fail
        },
        NumState::Hex => if is_digit(c, 16) {
            NumStep::Next(NumState::Hex)
        } else if ends_number(c) {
            NumStep::Stop
        } else {
            NumStep::Fail
        },
    }
}

/// The number scan from offset `i` in `state`: where it stops and in which
/// state, or `None` for the state when it fails.
pub open spec fn num_run(text: Seq<char>, i: int, state: NumState) -> (int, Option<NumState>)
    decreases text.len() - i,
{
    if !(0 <= i < text.len()) {
        (i, Some(state))
    } else {
        match num_step(state, text[i]) {
            NumStep::Next(next) => num_run(text, i + 1, next),
            NumStep::Stop => (i, Some(state)),
            NumStep::Fail => (i, None),
        }
    }
}

/// The value of the lexeme that the number scan read when it stopped in
/// `state`.
pub open spec fn number_value(state: NumState, lexeme: Seq<char>) -> TokenValueView {
    match state {
        NumState::Zero | NumState::HexZero => TokenValueView::IntLiteral(0),
        NumState::Decimal => int_token(lexeme, 10),
        NumState::Dot => TokenValueView::Operator("."@),
        NumState::Octal => int_token(lexeme, 8),
        NumState::Float => float_token(lexeme),
        NumState::Hex => int_token(lexeme, 16),
        NumState::Begin | NumState::HexPrefix => TokenValueView::Error(
            lexeme,
            ErrorCode::UnexpectedToken,
        ),
    }
}

/// A number, or the operator `.`, that begins at `s`. Where the scan
/// fails, the recovery scan reads from `s` instead.
pub open spec fn scan_number(text: Seq<char>, s: int) -> Scanned {
    match num_run(text, s, NumState::Begin) {
        (e, Some(state)) => Scanned { value: number_value(state, text.subrange(s, e)), end: e },
        (_, None) => scan_recovery(text, s),
    }
}

/// Whether the tokeniser passes over `c`: it is whitespace. No token
/// begins on such a character.
pub open spec fn skipped(c: char) -> bool {
    whitespace(c) || c == '\n'
}

/// The scan that the character at `s` selects.
#[verifier::opaque]
pub open spec fn scan_token(text: Seq<char>, s: int) -> Scanned {
    let c = text[s];
    if alphabetic(c) {
        scan_identifier(text, s)
    } else if c == '\'' {
        scan_char(text, s)
    } else if c == '"' {
        scan_string(text, s)
    } else if bracket_char(c) {
        scan_bracket(text, s)
    } else if c == '.' || is_digit(c, 16) {
        scan_number(text, s)
    } else if punctuation(c) {
        scan_operator(text, s)
    } else {
        scan_recovery(text, s)
    }
}

/// The token for what was scanned from `s`.
pub open spec fn token_at(text: Seq<char>, s: int, scanned: Scanned) -> TokenView {
    TokenView {
        value: scanned.value,
        start: location_of(text, s),
        end: location_of(text, scanned.end),
    }
}

/// `acc` followed by the tokens of `text` from offset `pos` on. Every
/// scan ends after it begins and within the text (`lemma_scan_progress`),
/// so the one case that stops early never arises.
pub open spec fn tokens_from(text: Seq<char>, pos: int, acc: Seq<TokenView>) -> Seq<TokenView>
    decreases text.len() - pos,
{
    if !(0 <= pos < text.len()) {
        acc
    } else if skipped(text[pos]) {
        tokens_from(text, pos + 1, acc)
    } else {
        let scanned = scan_token(text, pos);
        if !(pos < scanned.end <= text.len()) {
            acc
        } else {
            tokens_from(text, scanned.end, acc.push(token_at(text, pos, scanned)))
        }
    }
}

/// The tokens of `text`.
pub open spec fn tokens_of(text: Seq<char>) -> Seq<TokenView> {
    tokens_from(text, 0, Seq::empty())
}

/// A run of identifier characters ends at or after its start, within the text.
pub proof fn lemma_ident_end(text: Seq<char>, i: int)
    requires
        0 <= i <= text.len(),
    ensures
        i <= ident_end(text, i) <= text.len(),
    decreases text.len() - i,
{
    if i < text.len() && ident_char(text[i]) {
        lemma_ident_end(text, i + 1);
    }
}

/// A recovery scan ends at or after its start, within the text.
pub proof fn lemma_recovery_end(text: Seq<char>, i: int)
    requires
        0 <= i <= text.len(),
    ensures
        i <= recovery_end(text, i) <= text.len(),
    decreases text.len() - i,
{
    if i < text.len() && !stops_recovery(text[i]) {
        lemma_recovery_end(text, i + 1);
    }
}

/// An operator scan ends at or after the offset it is asked from, within
/// the text.
pub proof fn lemma_operator_end(text: Seq<char>, s: int, i: int)
    requires
        0 <= s <= i <= text.len(),
    ensures
        i <= operator_end(text, s, i) <= text.len(),
    decreases text.len() - i,
{
    if i < text.len() && word_prefix(text.subrange(s, i + 1)) {
        lemma_operator_end(text, s, i + 1);
    }
}

/// The body of a character literal ends at or after its start, within the
/// text.
pub proof fn lemma_char_close(text: Seq<char>, i: int, escape: bool)
    requires
        0 <= i <= text.len(),
    ensures
        i <= char_close(text, i, escape).0 <= text.len(),
    decreases text.len() - i,
{
    if i < text.len() && text[i] != '\n' && !(text[i] == '\'' && !escape) {
        if text[i] == '\\' {
            lemma_char_close(text, i + 1, !escape);
        } else {
            lemma_char_close(text, i + 1, false);
        }
    }
}

/// The body of a one-line string ends at or after its start, within the text.
pub proof fn lemma_plain_close(text: Seq<char>, i: int)
    requires
        0 <= i <= text.len(),
    ensures
        i <= plain_close(text, i).0 <= text.len(),
    decreases text.len() - i,
{
    if i < text.len() && text[i] != '\n' && text[i] != '"' {
        lemma_plain_close(text, i + 1);
    }
}

/// The body of a triple-quoted string ends at or after its start, within
/// the text; unclosed, it ends with the text.
pub proof fn lemma_triple_close(text: Seq<char>, i: int)
    requires
        0 <= i <= text.len(),
    ensures
        i <= triple_close(text, i).0 <= text.len(),
        !triple_close(text, i).1 ==> triple_close(text, i).0 == text.len(),
    decreases text.len() - i,
{
    if i < text.len() && !triple_at(text, i) {
        lemma_triple_close(text, i + 1);
    }
}

/// A number scan ends at or after its start, within the text.
pub proof fn lemma_num_run(text: Seq<char>, i: int, state: NumState)
    requires
        0 <= i <= text.len(),
    ensures
        i <= num_run(text, i, state).0 <= text.len(),
    decreases text.len() - i,
{
    if i < text.len() {
        match num_step(state, text[i]) {
            NumStep::Next(next) => lemma_num_run(text, i + 1, next),
            _ => {},
        }
    }
}

/// An identifier scan that begins on an identifier character moves forward.
pub proof fn lemma_identifier_progress(text: Seq<char>, s: int)
    requires
        0 <= s < text.len(),
        ident_char(text[s]),
    ensures
        s < scan_identifier(text, s).end <= text.len(),
{
    lemma_ident_end(text, s + 1);
}

/// A character literal scan moves forward.
pub proof fn lemma_char_progress(text: Seq<char>, s: int)
    requires
        0 <= s < text.len(),
    ensures
        s < scan_char(text, s).end <= text.len(),
{
    lemma_char_close(text, s + 1, false);
}

/// A string literal scan moves forward.
pub proof fn lemma_string_progress(text: Seq<char>, s: int)
    requires
        0 <= s < text.len(),
    ensures
        s < scan_string(text, s).end <= text.len(),
{
    if text[s] == '"' {
        if s + 1 < text.len() && text[s + 1] == '"' {
            if s + 2 < text.len() && text[s + 2] == '"' {
                lemma_triple_close(text, s + 3);
            }
        } else {
            lemma_plain_close(text, s + 1);
        }
    }
}

/// A recovery scan moves forward.
pub proof fn lemma_recovery_progress(text: Seq<char>, s: int)
    requires
        0 <= s < text.len(),
    ensures
        s < scan_recovery(text, s).end <= text.len(),
{
    lemma_recovery_end(text, s + 1);
}

/// A number scan moves forward.
pub proof fn lemma_number_progress(text: Seq<char>, s: int)
    requires
        0 <= s < text.len(),
    ensures
        s < scan_number(text, s).end <= text.len(),
{
    match num_step(NumState::Begin, text[s]) {
        NumStep::Next(next) => {
            lemma_num_run(text, s + 1, next);
            if num_run(text, s + 1, next).1 is None {
                lemma_recovery_end(text, s + 1);
            }
        },
        _ => lemma_recovery_end(text, s + 1),
    }
}

/// An operator scan that begins where an operator can begin moves forward.
pub proof fn lemma_operator_progress(text: Seq<char>, s: int)
    requires
        0 <= s < text.len(),
        punctuation(text[s]),
    ensures
        s < scan_operator(text, s).end <= text.len(),
{
    let c = text[s];
    let w = choose|w: Seq<char>| #[trigger] op_catalog().contains(w) && w.len() > 0 && w[0] == c;
    assert(text.subrange(s, s + 1) =~= w.subrange(0, 1));
    assert(word_prefix(text.subrange(s, s + 1)));
    lemma_operator_end(text, s, s + 1);
}

/// What the number scan has read when it is in `state`, as far as the
/// count of points and digits goes.
pub open spec fn number_shape(state: NumState, lexeme: Seq<char>) -> bool {
    match state {
        NumState::Begin => lexeme.len() == 0,
        NumState::Zero => lexeme.len() == 1 && point_count(lexeme) == 0 && digit_count(lexeme) == 1,
        NumState::Decimal => lexeme.len() >= 1 && point_count(lexeme) == 0 && digit_count(lexeme)
            == lexeme.len(),
        NumState::Dot => lexeme.len() == 1 && point_count(lexeme) == 1 && digit_count(lexeme) == 0,
        NumState::Float => point_count(lexeme) == 1 && digit_count(lexeme) >= 1 && digit_count(
            lexeme,
        ) + 1 == lexeme.len(),
        _ => true,
    }
}

/// Whether the number scan can still come to read a float from `state`.
pub open spec fn before_float(state: NumState) -> bool {
    state == NumState::Begin || state == NumState::Zero || state == NumState::Decimal || state
        == NumState::Dot || state == NumState::Float
}

proof fn lemma_float_run(text: Seq<char>, s: int, i: int, state: NumState)
    requires
        0 <= s <= i <= text.len(),
        before_float(state) ==> number_shape(state, text.subrange(s, i)),
    ensures
        num_run(text, i, state).1 == Some(NumState::Float) ==> is_numeral(
            text.subrange(s, num_run(text, i, state).0),
        ),
    decreases text.len() - i,
{
    if i < text.len() {
        let lexeme = text.subrange(s, i);
        let grown = text.subrange(s, i + 1);
        assert(grown.drop_last() == lexeme);
        assert(grown.last() == text[i]);
        assert(lexeme.len() == 0 ==> point_count(lexeme) == 0 && digit_count(lexeme) == 0);
        assert(point_count(grown) == point_count(lexeme) + if text[i] == '.' {
            1nat
        } else {
            0nat
        });
        assert(digit_count(grown) == digit_count(lexeme) + if is_digit(text[i], 10) {
            1nat
        } else {
            0nat
        });
        match num_step(state, text[i]) {
            NumStep::Next(next) => {
                lemma_float_run(text, s, i + 1, next);
            },
            _ => {},
        }
    }
}

/// A float that the number scan reads is a decimal numeral: the scan
/// never yields a float literal that is too long.
pub proof fn lemma_scanned_float(text: Seq<char>, s: int)
    requires
        0 <= s < text.len(),
        num_run(text, s, NumState::Begin).1 == Some(NumState::Float),
    ensures
        scan_number(text, s).value == TokenValueView::FloatLiteral(
            text.subrange(s, scan_number(text, s).end),
        ),
{
    assert(text.subrange(s, s).len() == 0);
    lemma_float_run(text, s, s, NumState::Begin);
}

/// Whether `text[s..e]` is the longest match of an operator at `s`: each
/// of its prefixes begins an operator of the catalogue, one more character
/// would begin none, and no entry of the catalogue that stands at `s` is
/// longer.
pub open spec fn longest_match(text: Seq<char>, s: int, e: int) -> bool {
    &&& s <= e <= text.len()
    &&& forall|k: int| s < k <= e ==> word_prefix(#[trigger] text.subrange(s, k))
    &&& e < text.len() ==> !word_prefix(text.subrange(s, e + 1))
    &&& forall|w: Seq<char>|
        op_catalog().contains(w) && #[trigger] w.is_prefix_of(text.skip(s)) ==> w.len() <= e - s
}

/// Longest match: what an operator scan reads is the longest match at
/// its start.
pub proof fn lemma_longest_match(text: Seq<char>, s: int)
    requires
        0 <= s < text.len(),
    ensures
        longest_match(text, s, scan_operator(text, s).end),
{
    lemma_operator_stops(text, s, s);
    let e = operator_end(text, s, s);
    assert forall|w: Seq<char>|
        op_catalog().contains(w) && #[trigger] w.is_prefix_of(text.skip(s)) implies w.len() <= e
        - s by {
        if w.len() > e - s {
            let grown = text.subrange(s, e + 1);
            assert(w == text.skip(s).subrange(0, w.len() as int));
            assert(grown =~= w.subrange(0, e + 1 - s));
            assert(grown.is_prefix_of(w));
            assert(word_prefix(grown));
        }
    }
}

proof fn lemma_operator_stops(text: Seq<char>, s: int, i: int)
    requires
        0 <= s <= i <= text.len(),
        forall|k: int| s < k <= i ==> word_prefix(#[trigger] text.subrange(s, k)),
    ensures
        ({
            let e = operator_end(text, s, i);
            &&& i <= e <= text.len()
            &&& forall|k: int| s < k <= e ==> word_prefix(#[trigger] text.subrange(s, k))
            &&& e < text.len() ==> !word_prefix(text.subrange(s, e + 1))
        }),
    decreases text.len() - i,
{
    if i < text.len() && word_prefix(text.subrange(s, i + 1)) {
        lemma_operator_stops(text, s, i + 1);
    }
}

/// Every scan moves forward: the scan that the character at `s` selects
/// ends after `s` and within the text.
pub proof fn lemma_scan_progress(text: Seq<char>, s: int)
    requires
        0 <= s < text.len(),
    ensures
        s < scan_token(text, s).end <= text.len(),
{
    reveal(scan_token);
    let c = text[s];
    if alphabetic(c) {
        lemma_identifier_progress(text, s);
    } else if c == '\'' {
        lemma_char_progress(text, s);
    } else if c == '"' {
        lemma_string_progress(text, s);
    } else if bracket_char(c) {
    } else if c == '.' || is_digit(c, 16) {
        lemma_number_progress(text, s);
    } else if punctuation(c) {
        lemma_operator_progress(text, s);
    } else {
        lemma_recovery_progress(text, s);
    }
}

/// Whether `value`, read from `lexeme`, keeps the lexeme where it holds
/// one: an error its raw text, an identifier its name, an operator its
/// symbol.
pub open spec fn keeps_lexeme(value: TokenValueView, lexeme: Seq<char>) -> bool {
    match value {
        TokenValueView::Error(text, _) => text == lexeme,
        TokenValueView::Identifier(text) => text == lexeme,
        TokenValueView::Operator(text) => text == lexeme,
        _ => true,
    }
}

proof fn lemma_number_lexeme(text: Seq<char>, s: int, i: int, state: NumState)
    requires
        0 <= s <= i <= text.len(),
        state == NumState::Begin <==> i == s,
        state == NumState::Dot ==> i == s + 1 && text[s] == '.',
    ensures
        num_run(text, i, state).1 == Some(NumState::Dot) ==> num_run(text, i, state).0 == s + 1
            && text[s] == '.',
    decreases text.len() - i,
{
    if i < text.len() {
        match num_step(state, text[i]) {
            NumStep::Next(next) => {
                lemma_number_lexeme(text, s, i + 1, next);
            },
            _ => {},
        }
    }
}

/// Whatever a scan reads, its value keeps the text it was read from where
/// it holds a text of that kind.
pub proof fn lemma_scan_keeps_lexeme(text: Seq<char>, s: int)
    requires
        0 <= s < text.len(),
    ensures
        keeps_lexeme(scan_token(text, s).value, text.subrange(s, scan_token(text, s).end)),
{
    reveal(scan_token);
    let c = text[s];
    if alphabetic(c) {
    } else if c == '\'' {
    } else if c == '"' {
    } else if bracket_char(c) {
    } else if c == '.' || is_digit(c, 16) {
        lemma_number_lexeme(text, s, s, NumState::Begin);
        reveal_strlit(".");
        let run = num_run(text, s, NumState::Begin);
        if run.1 == Some(NumState::Dot) {
            assert(text.subrange(s, s + 1) =~= "."@);
        }
    } else if punctuation(c) {
    } else {
    }
}

/// Whether offset `p` lies in the span of one of `tokens`.
pub open spec fn covered(tokens: Seq<TokenView>, p: int) -> bool {
    exists|i: int|
        0 <= i < tokens.len() && (#[trigger] tokens[i]).start.position <= p
            < tokens[i].end.position
}

/// `tokens` divide `text[..upto]`: each span is not empty and ends by
/// `upto`, the spans follow one another without overlap, every character
/// outside them is whitespace, each span's ends are the locations of their
/// offsets, and each token that holds its lexeme holds the text of its
/// span.
pub open spec fn partitions(text: Seq<char>, tokens: Seq<TokenView>, upto: int) -> bool {
    &&& forall|i: int|
        0 <= i < tokens.len() ==> (#[trigger] tokens[i]).start.position < tokens[i].end.position
            <= upto
    &&& forall|i: int, j: int|
        0 <= i < j < tokens.len() ==> (#[trigger] tokens[i]).end.position <= (
        #[trigger] tokens[j]).start.position
    &&& forall|p: int| 0 <= p < upto && !covered(tokens, p) ==> skipped(#[trigger] text[p])
    &&& forall|i: int|
        0 <= i < tokens.len() ==> (#[trigger] tokens[i]).start == location_of(
            text,
            tokens[i].start.position as int,
        ) && tokens[i].end == location_of(text, tokens[i].end.position as int)
    &&& forall|i: int|
        0 <= i < tokens.len() ==> keeps_lexeme(
            (#[trigger] tokens[i]).value,
            text.subrange(tokens[i].start.position as int, tokens[i].end.position as int),
        )
}

proof fn lemma_tokens_partition(text: Seq<char>, pos: int, acc: Seq<TokenView>)
    requires
        text.len() <= usize::MAX,
        0 <= pos <= text.len(),
        partitions(text, acc, pos),
    ensures
        partitions(text, tokens_from(text, pos, acc), text.len() as int),
    decreases text.len() - pos,
{
    if pos < text.len() {
        if skipped(text[pos]) {
            lemma_tokens_partition(text, pos + 1, acc);
        } else {
            let scanned = scan_token(text, pos);
            lemma_scan_progress(text, pos);
            lemma_scan_keeps_lexeme(text, pos);
            let t = token_at(text, pos, scanned);
            let grown = acc.push(t);
            assert forall|p: int| 0 <= p < scanned.end && !covered(grown, p) implies skipped(
                #[trigger] text[p],
            ) by {
                if p < pos {
                    if covered(acc, p) {
                        let i = choose|i: int|
                            0 <= i < acc.len() && (#[trigger] acc[i]).start.position <= p
                                < acc[i].end.position;
                        assert(grown[i] == acc[i]);
                        assert(covered(grown, p));
                    }
                } else {
                    assert(grown[acc.len() as int] == t);
                    assert(covered(grown, p));
                }
            }
            assert(partitions(text, grown, scanned.end));
            lemma_tokens_partition(text, scanned.end, grown);
        }
    }
}

/// The tokens of a text divide it: their spans are in order and do not
/// overlap, none is empty, and every character that lies in no span is
/// whitespace. So the spans and the blanks between them make up the text.
pub proof fn lemma_total_coverage(text: Seq<char>)
    requires
        text.len() <= usize::MAX,
    ensures
        partitions(text, tokens_of(text), text.len() as int),
{
    lemma_tokens_partition(text, 0, Seq::empty());
}

/// How many of the characters `text[..upto]` are not whitespace.
pub open spec fn solid_count(text: Seq<char>, upto: int) -> nat
    decreases upto,
{
    if upto <= 0 {
        0
    } else if skipped(text[upto - 1]) {
        solid_count(text, upto - 1)
    } else {
        solid_count(text, upto - 1) + 1
    }
}

proof fn lemma_solid_count_grows(text: Seq<char>, from: int, to: int)
    requires
        0 <= from <= to,
    ensures
        solid_count(text, from) <= solid_count(text, to),
    decreases to - from,
{
    if from < to {
        lemma_solid_count_grows(text, from, to - 1);
    }
}

proof fn lemma_tokens_count(text: Seq<char>, pos: int, acc: Seq<TokenView>)
    requires
        0 <= pos <= text.len(),
        acc.len() <= solid_count(text, pos),
    ensures
        tokens_from(text, pos, acc).len() <= solid_count(text, text.len() as int),
    decreases text.len() - pos,
{
    if pos < text.len() {
        if skipped(text[pos]) {
            lemma_tokens_count(text, pos + 1, acc);
        } else {
            let scanned = scan_token(text, pos);
            lemma_scan_progress(text, pos);
            lemma_solid_count_grows(text, pos + 1, scanned.end);
            lemma_tokens_count(text, scanned.end, acc.push(token_at(text, pos, scanned)));
        }
    }
}

/// A text has no more tokens than characters that are not whitespace:
/// each token begins on such a character, and no two on the same.
pub proof fn lemma_token_count(text: Seq<char>)
    ensures
        tokens_of(text).len() <= solid_count(text, text.len() as int),
{
    lemma_tokens_count(text, 0, Seq::empty());
}

} // verus!
