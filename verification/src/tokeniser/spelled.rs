//! What the tokeniser reads where a text holds a given name, number,
//! operator or bracket: the steps from which the tokens of a rendered
//! tree follow.
use super::check::{bracket_char, lemma_punctuation, punctuation};
use super::parsers::{digit_value, digits_value, is_digit, unsigned_value};
use super::scan::{
    ends_number, ident_char, ident_end, lemma_scan_progress, lemma_scanned_float, num_run,
    num_step, number_value, operator_end, scan_number, scan_token, skipped, token_at,
    tokens_from, tokens_of, word_prefix, NumState, NumStep, Scanned,
};
use super::token::{TokenValueView, TokenView};
use super::trie::op_catalog;
use crate::text::{alphabetic, ascii_digit, decimal, digit_char};
use vstd::prelude::*;

verus! {

/// Whether `c` is one of `+ - * / % =`.
pub open spec fn arithmetic_char(c: char) -> bool {
    c == '+' || c == '-' || c == '*' || c == '/' || c == '%' || c == '='
}

/// Whether a token that does not go on ends before offset `q` of `text`:
/// the text ends there, or a space or a closing bracket stands there.
pub open spec fn ends_at(text: Seq<char>, q: int) -> bool {
    q == text.len() || (0 <= q < text.len() && (text[q] == ' ' || text[q] == ')'))
}

/// Whether `name` can be read as an identifier: it begins with a letter
/// that is no whitespace and holds letters, digits and underscores.
pub open spec fn valid_name(name: Seq<char>) -> bool {
    &&& name.len() > 0
    &&& alphabetic(name[0])
    &&& !skipped(name[0])
    &&& forall|i: int| 0 <= i < name.len() ==> ident_char(#[trigger] name[i])
}

/// Whether the number scan reads `s`, alone, to its end and is then in
/// `state`.
pub open spec fn runs_as(s: Seq<char>, state: NumState) -> bool {
    s.len() > 0 && num_run(s, 0, NumState::Begin) == (s.len() as int, Some(state))
}

/// The tokeniser passes over a character that is whitespace.
pub proof fn lemma_skip(text: Seq<char>, q: int, acc: Seq<TokenView>)
    requires
        0 <= q < text.len(),
        skipped(text[q]),
    ensures
        tokens_from(text, q, acc) == tokens_from(text, q + 1, acc),
{
}

/// Where a token begins, the tokeniser reads what the scan there reads and
/// goes on after it.
pub proof fn lemma_step(text: Seq<char>, q: int, acc: Seq<TokenView>)
    requires
        0 <= q < text.len(),
        !skipped(text[q]),
    ensures
        tokens_from(text, q, acc) == tokens_from(
            text,
            scan_token(text, q).end,
            acc.push(token_at(text, q, scan_token(text, q))),
        ),
{
    lemma_scan_progress(text, q);
}

/// A bracket is read as a bracket.
pub proof fn lemma_bracket_scan(text: Seq<char>, q: int)
    requires
        0 <= q < text.len(),
        bracket_char(text[q]),
    ensures
        !skipped(text[q]),
        scan_token(text, q) == (Scanned { value: TokenValueView::Bracket(text[q]), end: q + 1 }),
{
    reveal(scan_token);
}

/// Each operator of arithmetic, and `=`, is in the catalogue.
pub proof fn lemma_arithmetic_operator(c: char)
    requires
        arithmetic_char(c),
    ensures
        op_catalog().contains(seq![c]),
        word_prefix(seq![c]),
{
    reveal_strlit("=");
    reveal_strlit("+");
    reveal_strlit("-");
    reveal_strlit("*");
    reveal_strlit("/");
    reveal_strlit("%");
    let one = seq![c];
    let index: int = if c == '=' {
        0
    } else if c == '+' {
        7
    } else if c == '-' {
        8
    } else if c == '*' {
        9
    } else if c == '/' {
        10
    } else {
        11
    };
    assert(op_catalog()[index] =~= one);
    assert(op_catalog().contains(one));
    assert(one.is_prefix_of(one));
}

/// Whether the word `w` begins with `c` and then `d`.
spec fn extends(w: Seq<char>, c: char, d: char) -> bool {
    w.len() >= 2 && w[0] == c && w[1] == d
}

/// With a character after it that is none of `=`, `+` and `-`, an
/// operator of arithmetic, or `=`, begins no longer operator.
pub proof fn lemma_arithmetic_operators(c: char, d: char)
    requires
        arithmetic_char(c),
        d != '=' && d != '+' && d != '-',
    ensures
        !word_prefix(seq![c, d]),
{
    assert(!extends(op_catalog()[0], c, d)) by {
        reveal_strlit("=");
    }
    assert(!extends(op_catalog()[1], c, d)) by {
        reveal_strlit("==");
    }
    assert(!extends(op_catalog()[2], c, d)) by {
        reveal_strlit("!=");
    }
    assert(!extends(op_catalog()[3], c, d)) by {
        reveal_strlit(">");
    }
    assert(!extends(op_catalog()[4], c, d)) by {
        reveal_strlit("<");
    }
    assert(!extends(op_catalog()[5], c, d)) by {
        reveal_strlit(">=");
    }
    assert(!extends(op_catalog()[6], c, d)) by {
        reveal_strlit("<=");
    }
    assert(!extends(op_catalog()[7], c, d)) by {
        reveal_strlit("+");
    }
    assert(!extends(op_catalog()[8], c, d)) by {
        reveal_strlit("-");
    }
    assert(!extends(op_catalog()[9], c, d)) by {
        reveal_strlit("*");
    }
    assert(!extends(op_catalog()[10], c, d)) by {
        reveal_strlit("/");
    }
    assert(!extends(op_catalog()[11], c, d)) by {
        reveal_strlit("%");
    }
    assert(!extends(op_catalog()[12], c, d)) by {
        reveal_strlit("++");
    }
    assert(!extends(op_catalog()[13], c, d)) by {
        reveal_strlit("--");
    }
    assert(!extends(op_catalog()[14], c, d)) by {
        reveal_strlit("+=");
    }
    assert(!extends(op_catalog()[15], c, d)) by {
        reveal_strlit("-=");
    }
    assert(!extends(op_catalog()[16], c, d)) by {
        reveal_strlit("*=");
    }
    assert(!extends(op_catalog()[17], c, d)) by {
        reveal_strlit("/=");
    }
    assert(!extends(op_catalog()[18], c, d)) by {
        reveal_strlit("%=");
    }
    assert(!extends(op_catalog()[19], c, d)) by {
        reveal_strlit("<<");
    }
    assert(!extends(op_catalog()[20], c, d)) by {
        reveal_strlit(">>");
    }
    assert(!extends(op_catalog()[21], c, d)) by {
        reveal_strlit("&");
    }
    assert(!extends(op_catalog()[22], c, d)) by {
        reveal_strlit("|");
    }
    assert(!extends(op_catalog()[23], c, d)) by {
        reveal_strlit("^");
    }
    assert(!extends(op_catalog()[24], c, d)) by {
        reveal_strlit("~");
    }
    assert(!extends(op_catalog()[25], c, d)) by {
        reveal_strlit("&&");
    }
    assert(!extends(op_catalog()[26], c, d)) by {
        reveal_strlit("||");
    }
    assert(!extends(op_catalog()[27], c, d)) by {
        reveal_strlit("!");
    }
    assert(!extends(op_catalog()[28], c, d)) by {
        reveal_strlit("|>");
    }
    assert(!extends(op_catalog()[29], c, d)) by {
        reveal_strlit("?");
    }
    assert(!extends(op_catalog()[30], c, d)) by {
        reveal_strlit(":");
    }
    assert(!extends(op_catalog()[31], c, d)) by {
        reveal_strlit("::");
    }
    assert(!extends(op_catalog()[32], c, d)) by {
        reveal_strlit("..");
    }
    assert(!extends(op_catalog()[33], c, d)) by {
        reveal_strlit(".");
    }
    if word_prefix(seq![c, d]) {
        let two = seq![c, d];
        let w = choose|w: Seq<char>| #[trigger] op_catalog().contains(w) && two.is_prefix_of(w);
        let i = choose|i: int| 0 <= i < op_catalog().len() && op_catalog()[i] == w;
        assert(0 <= i < 34);
        assert(w.subrange(0, 2)[0] == two[0]);
        assert(w.subrange(0, 2)[1] == two[1]);
        assert(extends(op_catalog()[i], c, d));
        assert(false);
    }
}

/// An operator of arithmetic, or `=`, is read as that operator where what
/// follows it does not make it longer.
pub proof fn lemma_operator_scan(text: Seq<char>, q: int)
    requires
        0 <= q < text.len(),
        arithmetic_char(text[q]),
        q + 1 < text.len() ==> text[q + 1] != '=' && text[q + 1] != '+' && text[q + 1] != '-',
    ensures
        !skipped(text[q]),
        scan_token(text, q) == (Scanned {
            value: TokenValueView::Operator(seq![text[q]]),
            end: q + 1,
        }),
{
    reveal(scan_token);
    let c = text[q];
    lemma_punctuation(c);
    assert(text.subrange(q, q + 1) =~= seq![c]);
    lemma_arithmetic_operator(c);
    if q + 1 < text.len() {
        lemma_arithmetic_operators(c, text[q + 1]);
        assert(text.subrange(q, q + 2) =~= seq![c, text[q + 1]]);
    }
    assert(operator_end(text, q, q) == operator_end(text, q, q + 1));
}

proof fn lemma_name_run(text: Seq<char>, q: int, name: Seq<char>, k: int)
    requires
        0 <= q,
        0 <= k <= name.len(),
        q + name.len() <= text.len(),
        text.subrange(q, q + name.len()) == name,
        forall|i: int| 0 <= i < name.len() ==> ident_char(#[trigger] name[i]),
        q + name.len() < text.len() ==> !ident_char(text[q + name.len()]),
    ensures
        ident_end(text, q + k) == q + name.len(),
    decreases name.len() - k,
{
    if k < name.len() {
        assert(text[q + k] == text.subrange(q, q + name.len())[k]);
        lemma_name_run(text, q, name, k + 1);
    }
}

/// A name is read as an identifier where no letter, digit or underscore
/// follows it.
pub proof fn lemma_identifier_scan(text: Seq<char>, q: int, name: Seq<char>)
    requires
        0 <= q,
        q + name.len() <= text.len(),
        text.subrange(q, q + name.len()) == name,
        valid_name(name),
        q + name.len() < text.len() ==> !ident_char(text[q + name.len()]),
    ensures
        !skipped(text[q]),
        scan_token(text, q) == (Scanned {
            value: TokenValueView::Identifier(name),
            end: q + name.len(),
        }),
{
    reveal(scan_token);
    assert(text[q] == text.subrange(q, q + name.len())[0]);
    lemma_name_run(text, q, name, 0);
}

proof fn lemma_number_run(text: Seq<char>, q: int, s: Seq<char>, k: int, state: NumState)
    requires
        0 <= q,
        0 <= k <= s.len(),
        q + s.len() <= text.len(),
        text.subrange(q, q + s.len()) == s,
        num_run(s, k, state).0 == s.len(),
        num_run(s, k, state).1 is Some,
    ensures
        num_run(text, q + k, state) == num_run(text, q + s.len(), num_run(s, k, state).1->0),
    decreases s.len() - k,
{
    if k < s.len() {
        assert(text[q + k] == text.subrange(q, q + s.len())[k]);
        match num_step(state, s[k]) {
            NumStep::Next(next) => {
                lemma_number_run(text, q, s, k + 1, next);
            },
            _ => {},
        }
    }
}

/// A numeral that the number scan reads whole as a zero, as decimal
/// digits or as a float is read so where a text holds it and a space, a
/// closing bracket or the end of the text follows.
pub proof fn lemma_number_scan(text: Seq<char>, q: int, s: Seq<char>, state: NumState)
    requires
        0 <= q,
        q + s.len() <= text.len(),
        text.subrange(q, q + s.len()) == s,
        runs_as(s, state),
        state == NumState::Zero || state == NumState::Decimal || state == NumState::Float,
        ends_at(text, q + s.len()),
    ensures
        !skipped(text[q]),
        scan_token(text, q) == (Scanned { value: number_value(state, s), end: q + s.len() }),
{
    reveal(scan_token);
    assert(text[q] == text.subrange(q, q + s.len())[0]);
    lemma_number_run(text, q, s, 0, NumState::Begin);
    let c = text[q];
    assert(num_step(NumState::Begin, c) is Next);
    let e = q + s.len();
    if e < text.len() {
        lemma_punctuation(text[e]);
        assert(ends_number(text[e]));
    }
    assert(num_run(text, e, state) == (e, Some(state)));
}

/// The decimal digits of a number are digits, the first of them no zero
/// unless the number is zero, and they spell the number.
pub proof fn lemma_decimal(n: nat)
    ensures
        decimal(n).len() >= 1,
        forall|i: int| 0 <= i < decimal(n).len() ==> ascii_digit(#[trigger] decimal(n)[i]),
        n > 0 ==> decimal(n)[0] != '0',
        n == 0 ==> decimal(n) == seq!['0'],
        digits_value(decimal(n), 10) == Some(n),
    decreases n,
{
    let d = (n % 10) as int;
    assert(is_digit(digit_char(d), 10) && digit_value(digit_char(d)) == Some(d));
    if n < 10 {
        let s = decimal(n);
        assert(s.drop_last() =~= Seq::<char>::empty());
        assert(digits_value(s.drop_last(), 10) == Some(0nat));
    } else {
        lemma_decimal(n / 10);
        let s = decimal(n);
        assert(s.drop_last() =~= decimal(n / 10));
        assert(s[0] == decimal(n / 10)[0]);
        assert forall|i: int| 0 <= i < s.len() implies ascii_digit(#[trigger] s[i]) by {
            if i < s.len() - 1 {
                assert(s[i] == decimal(n / 10)[i]);
            }
        }
    }
}

proof fn lemma_digits_run(s: Seq<char>, k: int)
    requires
        1 <= k <= s.len(),
        forall|i: int| 0 <= i < s.len() ==> ascii_digit(#[trigger] s[i]),
    ensures
        num_run(s, k, NumState::Decimal) == (s.len() as int, Some(NumState::Decimal)),
    decreases s.len() - k,
{
    if k < s.len() {
        assert(ascii_digit(s[k]));
        lemma_digits_run(s, k + 1);
    }
}

/// The decimal digits of a number are read whole by the number scan, as a
/// zero or as decimal digits, and as that number.
pub proof fn lemma_decimal_runs(i: u128)
    ensures
        runs_as(
            decimal(i as nat),
            if i == 0 {
                NumState::Zero
            } else {
                NumState::Decimal
            },
        ),
        number_value(
            if i == 0 {
                NumState::Zero
            } else {
                NumState::Decimal
            },
            decimal(i as nat),
        ) == TokenValueView::IntLiteral(i),
{
    let s = decimal(i as nat);
    lemma_decimal(i as nat);
    assert(ascii_digit(s[0]));
    if i == 0 {
        reveal_with_fuel(num_run, 3);
    } else {
        lemma_digits_run(s, 1);
        assert(num_step(NumState::Begin, s[0]) == NumStep::Next(NumState::Decimal));
        assert(s[0] != '+');
        assert(unsigned_value(s, 10) == Some(i));
    }
}

/// Whether `value` can be read back from its text: an identifier is a
/// valid name, a float a numeral that the number scan reads whole.
pub open spec fn sound_value(value: TokenValueView) -> bool {
    match value {
        TokenValueView::Identifier(name) => valid_name(name),
        TokenValueView::FloatLiteral(s) => runs_as(s, NumState::Float),
        _ => true,
    }
}

/// Whether every one of `tokens` can be read back from its text.
pub open spec fn sound_tokens(tokens: Seq<TokenView>) -> bool {
    forall|i: int| 0 <= i < tokens.len() ==> sound_value((#[trigger] tokens[i]).value)
}

proof fn lemma_ident_chars(text: Seq<char>, q: int, i: int)
    requires
        0 <= q <= i < ident_end(text, q),
    ensures
        ident_char(text[i]),
        ident_end(text, q) <= text.len(),
    decreases text.len() - q,
{
    if 0 <= q < text.len() && ident_char(text[q]) {
        if i > q {
            lemma_ident_chars(text, q + 1, i);
        } else {
            super::scan::lemma_ident_end(text, q + 1);
        }
    }
}

proof fn lemma_lexeme_run(text: Seq<char>, q: int, k: int, state: NumState, e: int)
    requires
        0 <= q <= q + k <= e <= text.len(),
        num_run(text, q + k, state).0 == e,
        num_run(text, q + k, state).1 is Some,
    ensures
        num_run(text.subrange(q, e), k, state) == (e - q, num_run(text, q + k, state).1),
    decreases e - (q + k),
{
    let lexeme = text.subrange(q, e);
    if q + k < e {
        assert(lexeme[k] == text[q + k]);
        match num_step(state, text[q + k]) {
            NumStep::Next(next) => {
                lemma_lexeme_run(text, q, k + 1, next, e);
            },
            _ => {},
        }
    } else if e < text.len() {
        match num_step(state, text[e]) {
            NumStep::Next(next) => {
                super::scan::lemma_num_run(text, e + 1, next);
            },
            _ => {},
        }
    }
}

/// An identifier that a scan reads is a valid name.
proof fn lemma_sound_identifier(text: Seq<char>, q: int)
    requires
        0 <= q < text.len(),
        !skipped(text[q]),
        alphabetic(text[q]),
    ensures
        sound_value(super::scan::scan_identifier(text, q).value),
{
    let e = ident_end(text, q);
    let name = text.subrange(q, e);
    super::scan::lemma_ident_end(text, q + 1);
    assert forall|i: int| 0 <= i < name.len() implies ident_char(#[trigger] name[i]) by {
        lemma_ident_chars(text, q, q + i);
    }
    assert(name[0] == text[q]);
}

/// A float that the number scan reads is a numeral that it reads whole.
proof fn lemma_sound_number(text: Seq<char>, q: int)
    requires
        0 <= q < text.len(),
    ensures
        sound_value(scan_number(text, q).value),
{
    let run = num_run(text, q, NumState::Begin);
    super::scan::lemma_num_run(text, q, NumState::Begin);
    match run.1 {
        Some(state) => {
            lemma_lexeme_run(text, q, 0, NumState::Begin, run.0);
            if state == NumState::Float {
                lemma_scanned_float(text, q);
                assert(num_step(NumState::Begin, text[q]) is Next);
                super::scan::lemma_number_progress(text, q);
            }
        },
        None => {},
    }
}

/// Whatever a scan reads can be read back from its text.
pub proof fn lemma_sound_scan(text: Seq<char>, q: int)
    requires
        0 <= q < text.len(),
        !skipped(text[q]),
    ensures
        sound_value(scan_token(text, q).value),
{
    reveal(scan_token);
    let c = text[q];
    if alphabetic(c) {
        lemma_sound_identifier(text, q);
    } else if c == '\'' {
    } else if c == '"' {
    } else if bracket_char(c) {
    } else if c == '.' || is_digit(c, 16) {
        lemma_sound_number(text, q);
    } else if punctuation(c) {
    } else {
    }
}

proof fn lemma_sound_from(text: Seq<char>, pos: int, acc: Seq<TokenView>)
    requires
        0 <= pos <= text.len(),
        sound_tokens(acc),
    ensures
        sound_tokens(tokens_from(text, pos, acc)),
    decreases text.len() - pos,
{
    if pos < text.len() {
        if skipped(text[pos]) {
            lemma_sound_from(text, pos + 1, acc);
        } else {
            let scanned = scan_token(text, pos);
            lemma_scan_progress(text, pos);
            lemma_sound_scan(text, pos);
            let grown = acc.push(token_at(text, pos, scanned));
            assert forall|i: int| 0 <= i < grown.len() implies sound_value(
                (#[trigger] grown[i]).value,
            ) by {
                if i < acc.len() {
                    assert(grown[i] == acc[i]);
                }
            }
            lemma_sound_from(text, scanned.end, grown);
        }
    }
}

/// Every identifier among the tokens of a text is a valid name, and every
/// float a numeral that the number scan reads whole.
pub proof fn lemma_sound_tokens(text: Seq<char>)
    ensures
        sound_tokens(tokens_of(text)),
{
    lemma_sound_from(text, 0, Seq::empty());
}

} // verus!
