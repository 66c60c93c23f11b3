//! Rendering a tree and reading the text again: for the trees that the
//! grammar yields from names and numbers, the text is cut into the tokens
//! that spell the tree, and those are read as the tree.
use super::ast::{AstView, ValueView};
use super::grammar::{
    assignment_at, binary_node, bracket_at, factor_operator_at, lemma_operator_texts,
    parse_addition, parse_addition_rest, parse_atom, parse_expression, parse_multiplication,
    parse_multiplication_rest, parse_term, parse_tokens, parse_unary, sign_at, Parsed,
};
use super::literal::LiteralView;
use super::unparse::{
    factor_text, lemma_levels, lemma_read_back, literal_token, product_tree, sign_text,
    statement_tree, strip, sum_tree, term_tree, unary_tree, unparse, values,
};
use crate::text::{ascii_digit, decimal};
use crate::tokeniser::scan::{
    lemma_scanned_float, num_step, number_value, token_at, tokens_from, tokens_of, NumState,
    Scanned,
};
use crate::tokeniser::spelled::{
    ends_at, lemma_bracket_scan, lemma_decimal, lemma_decimal_runs, lemma_identifier_scan,
    lemma_number_scan, lemma_operator_scan, lemma_skip, lemma_sound_tokens, lemma_step, runs_as,
    sound_tokens, sound_value, valid_name,
};
use crate::tokeniser::token::{TokenValueView, TokenView};
use vstd::prelude::*;

verus! {

/// Whether `a` is an identifier, a literal or a group: what a sign can
/// stand before.
pub open spec fn starts_term(a: AstView) -> bool {
    a.value is Identifier || a.value is Literal || a.value is Expression
}

/// Whether the tokeniser can read `a` back from its rendering: its names
/// are names, its literals are integers and floats that the number scan
/// reads whole, its operators are those of arithmetic, and its signs stand
/// before terms.
pub open spec fn lexable(a: AstView) -> bool
    decreases a,
{
    match a.value {
        ValueView::Identifier(name) => valid_name(name),
        ValueView::Literal(l) => match l {
            LiteralView::Int(_) => true,
            LiteralView::Float(s) => runs_as(s, NumState::Float),
            _ => false,
        },
        ValueView::Unary(op, e) => sign_text(op) && starts_term(*e) && lexable(*e),
        ValueView::Binary(l, op, r) => (sign_text(op) || factor_text(op)) && lexable(*l)
            && lexable(*r),
        ValueView::Expression(e) => lexable(*e),
        ValueView::Assignment(id, e) => id.value is Identifier && lexable(*id) && lexable(*e),
        _ => false,
    }
}

/// The token with `value` that spans `text[from..to]`.
pub open spec fn token_of(text: Seq<char>, from: int, value: TokenValueView, to: int) -> TokenView {
    token_at(text, from, Scanned { value, end: to })
}

/// The tokens of the rendering of `a` where it stands at offset `p` of
/// `text`.
pub open spec fn lexed(text: Seq<char>, p: int, a: AstView) -> Seq<TokenView>
    decreases a,
{
    match a.value {
        ValueView::Identifier(name) => seq![
            token_of(text, p, TokenValueView::Identifier(name), p + a.rendered().len()),
        ],
        ValueView::Literal(l) => seq![
            token_of(text, p, literal_token(l), p + a.rendered().len()),
        ],
        ValueView::Unary(op, e) => seq![token_of(text, p, TokenValueView::Operator(op), p + 1)]
            + lexed(text, p + 1, *e),
        ValueView::Binary(l, op, r) => {
            let q = p + l.rendered().len();
            lexed(text, p, *l) + seq![
                token_of(text, q + 1, TokenValueView::Operator(op), q + 2),
            ] + lexed(text, q + 3, *r)
        },
        ValueView::Expression(e) => {
            let q = p + 1 + e.rendered().len();
            seq![token_of(text, p, TokenValueView::Bracket('('), p + 1)] + lexed(text, p + 1, *e)
                + seq![token_of(text, q, TokenValueView::Bracket(')'), q + 1)]
        },
        ValueView::Assignment(id, e) => {
            let q = p + id.rendered().len();
            lexed(text, p, *id) + seq![
                token_of(text, q + 1, TokenValueView::Operator("="@), q + 2),
            ] + lexed(text, q + 3, *e)
        },
        _ => Seq::empty(),
    }
}

proof fn lemma_values_add(x: Seq<TokenView>, y: Seq<TokenView>)
    ensures
        values(x + y) == values(x) + values(y),
{
    assert(values(x + y) =~= values(x) + values(y));
}

/// The tokens of a rendering are the tokens that spell the tree.
proof fn lemma_lexed_values(text: Seq<char>, p: int, a: AstView)
    ensures
        values(lexed(text, p, a)) == unparse(a),
    decreases a,
{
    match a.value {
        ValueView::Identifier(name) => {
            assert(values(lexed(text, p, a)) =~= unparse(a));
        },
        ValueView::Literal(l) => {
            assert(values(lexed(text, p, a)) =~= unparse(a));
        },
        ValueView::Unary(op, e) => {
            let head = seq![token_of(text, p, TokenValueView::Operator(op), p + 1)];
            lemma_lexed_values(text, p + 1, *e);
            lemma_values_add(head, lexed(text, p + 1, *e));
            assert(values(head) =~= seq![TokenValueView::Operator(op)]);
        },
        ValueView::Binary(l, op, r) => {
            let q = p + l.rendered().len();
            let mid = seq![token_of(text, q + 1, TokenValueView::Operator(op), q + 2)];
            lemma_lexed_values(text, p, *l);
            lemma_lexed_values(text, q + 3, *r);
            lemma_values_add(lexed(text, p, *l), mid);
            lemma_values_add(lexed(text, p, *l) + mid, lexed(text, q + 3, *r));
            assert(values(mid) =~= seq![TokenValueView::Operator(op)]);
        },
        ValueView::Expression(e) => {
            let q = p + 1 + e.rendered().len();
            let open = seq![token_of(text, p, TokenValueView::Bracket('('), p + 1)];
            let close = seq![token_of(text, q, TokenValueView::Bracket(')'), q + 1)];
            lemma_lexed_values(text, p + 1, *e);
            lemma_values_add(open, lexed(text, p + 1, *e));
            lemma_values_add(open + lexed(text, p + 1, *e), close);
            assert(values(open) =~= seq![TokenValueView::Bracket('(')]);
            assert(values(close) =~= seq![TokenValueView::Bracket(')')]);
        },
        ValueView::Assignment(id, e) => {
            let q = p + id.rendered().len();
            let mid = seq![token_of(text, q + 1, TokenValueView::Operator("="@), q + 2)];
            lemma_lexed_values(text, p, *id);
            lemma_lexed_values(text, q + 3, *e);
            lemma_values_add(lexed(text, p, *id), mid);
            lemma_values_add(lexed(text, p, *id) + mid, lexed(text, q + 3, *e));
            assert(values(mid) =~= seq![TokenValueView::Operator("="@)]);
        },
        _ => {
            assert(values(lexed(text, p, a)) =~= unparse(a));
        },
    }
}

/// A part of a text that holds `whole` holds each part of `whole`.
proof fn lemma_part(text: Seq<char>, p: int, whole: Seq<char>, offset: int, part: Seq<char>)
    requires
        0 <= p,
        p + whole.len() <= text.len(),
        text.subrange(p, p + whole.len()) == whole,
        0 <= offset,
        offset + part.len() <= whole.len(),
        whole.subrange(offset, offset + part.len()) == part,
    ensures
        text.subrange(p + offset, p + offset + part.len()) == part,
{
    assert(text.subrange(p + offset, p + offset + part.len()) =~= text.subrange(
        p,
        p + whole.len(),
    ).subrange(offset, offset + part.len()));
}

proof fn lemma_char_at(text: Seq<char>, p: int, whole: Seq<char>, k: int)
    requires
        0 <= p,
        p + whole.len() <= text.len(),
        text.subrange(p, p + whole.len()) == whole,
        0 <= k < whole.len(),
    ensures
        text[p + k] == whole[k],
{
    assert(text.subrange(p, p + whole.len())[k] == text[p + k]);
}

/// The rendering of a term begins with a letter, a digit, a point or an
/// opening bracket: with nothing that makes a sign before it longer.
proof fn lemma_first_char(a: AstView)
    requires
        lexable(a),
        starts_term(a),
    ensures
        a.rendered().len() >= 1,
        a.rendered()[0] != '=' && a.rendered()[0] != '+' && a.rendered()[0] != '-',
{
    match a.value {
        ValueView::Literal(l) => {
            match l {
                LiteralView::Int(i) => {
                    lemma_decimal(i as nat);
                    assert(ascii_digit(decimal(i as nat)[0]));
                },
                LiteralView::Float(s) => {
                    assert(num_step(NumState::Begin, s[0]) is Next);
                },
                _ => {},
            }
        },
        ValueView::Expression(e) => {
            reveal_strlit("(");
            reveal_strlit(")");
            assert(a.rendered()[0] == '(');
        },
        _ => {},
    }
}

/// Whether `text` holds the rendering of `a` at offset `p`, and a space,
/// a closing bracket or the end of the text follows.
pub open spec fn holds(text: Seq<char>, p: int, a: AstView) -> bool {
    &&& 0 <= p
    &&& p + a.rendered().len() <= text.len()
    &&& text.subrange(p, p + a.rendered().len()) == a.rendered()
    &&& ends_at(text, p + a.rendered().len())
}

/// Whether the tokeniser, at offset `p`, reads the rendering of `a` as
/// the tokens of `a` and goes on after it.
pub open spec fn read_on(text: Seq<char>, p: int, a: AstView, acc: Seq<TokenView>) -> bool {
    &&& a.rendered().len() >= 1
    &&& tokens_from(text, p, acc) == tokens_from(
        text,
        p + a.rendered().len(),
        acc + lexed(text, p, a),
    )
}

proof fn lemma_lex_name(text: Seq<char>, p: int, a: AstView, acc: Seq<TokenView>)
    requires
        lexable(a),
        holds(text, p, a),
        a.value is Identifier,
    ensures
        read_on(text, p, a, acc),
{
    let name = a.value->Identifier_0;
    lemma_identifier_scan(text, p, name);
    lemma_step(text, p, acc);
    assert(acc.push(lexed(text, p, a)[0]) =~= acc + lexed(text, p, a));
}

proof fn lemma_lex_number(text: Seq<char>, p: int, a: AstView, acc: Seq<TokenView>)
    requires
        lexable(a),
        holds(text, p, a),
        a.value is Literal,
    ensures
        read_on(text, p, a, acc),
{
    let whole = a.rendered();
    match a.value->Literal_0 {
        LiteralView::Int(i) => {
            lemma_decimal_runs(i);
            let state = if i == 0 {
                NumState::Zero
            } else {
                NumState::Decimal
            };
            lemma_number_scan(text, p, whole, state);
        },
        LiteralView::Float(s) => {
            lemma_number_scan(text, p, s, NumState::Float);
            lemma_scanned_float(s, 0);
            assert(s.subrange(0, s.len() as int) =~= s);
            assert(number_value(NumState::Float, s) == TokenValueView::FloatLiteral(s));
        },
        _ => {},
    }
    lemma_step(text, p, acc);
    assert(acc.push(lexed(text, p, a)[0]) =~= acc + lexed(text, p, a));
}

proof fn lemma_lex_signed(text: Seq<char>, p: int, a: AstView, acc: Seq<TokenView>)
    requires
        lexable(a),
        holds(text, p, a),
        a.value is Unary,
    ensures
        read_on(text, p, a, acc),
    decreases a, 0int,
{
    let whole = a.rendered();
    let op = a.value->Unary_0;
    let e = *a.value->Unary_1;
    let inner = e.rendered();
    lemma_operator_texts();
    lemma_first_char(e);
    assert(whole =~= op + inner);
    assert(op.len() == 1);
    assert(whole.subrange(1, 1 + inner.len() as int) =~= inner);
    lemma_part(text, p, whole, 1, inner);
    lemma_char_at(text, p, whole, 0);
    lemma_char_at(text, p, whole, 1);
    assert(whole[1] == inner[0]);
    lemma_operator_scan(text, p);
    lemma_step(text, p, acc);
    let head = token_of(text, p, TokenValueView::Operator(op), p + 1);
    assert(seq![text[p]] =~= op);
    lemma_lex_tree(text, p + 1, e, acc.push(head));
    assert(acc.push(head) + lexed(text, p + 1, e) =~= acc + lexed(text, p, a));
}

/// The step over ` op ` between two renderings, where `op` is one
/// character of arithmetic or `=`.
proof fn lemma_lex_between(text: Seq<char>, q: int, op: Seq<char>, acc: Seq<TokenView>)
    requires
        0 <= q,
        q + 3 < text.len(),
        text[q] == ' ',
        op.len() == 1,
        text[q + 1] == op[0],
        op[0] == '+' || op[0] == '-' || op[0] == '*' || op[0] == '/' || op[0] == '%' || op[0]
            == '=',
        text[q + 2] == ' ',
    ensures
        tokens_from(text, q, acc) == tokens_from(
            text,
            q + 3,
            acc.push(token_of(text, q + 1, TokenValueView::Operator(op), q + 2)),
        ),
{
    lemma_skip(text, q, acc);
    lemma_operator_scan(text, q + 1);
    lemma_step(text, q + 1, acc);
    assert(seq![text[q + 1]] =~= op);
    let mid = token_of(text, q + 1, TokenValueView::Operator(op), q + 2);
    lemma_skip(text, q + 2, acc.push(mid));
}

proof fn lemma_lex_joined(
    text: Seq<char>,
    p: int,
    a: AstView,
    l: AstView,
    op: Seq<char>,
    r: AstView,
    acc: Seq<TokenView>,
)
    requires
        lexable(a),
        holds(text, p, a),
        a.value == ValueView::Binary(Box::new(l), op, Box::new(r)) || (a.value
            == ValueView::Assignment(Box::new(l), Box::new(r)) && op == "="@),
    ensures
        read_on(text, p, a, acc),
    decreases a, 0int,
{
    let whole = a.rendered();
    let left = l.rendered();
    let right = r.rendered();
    let nl = left.len() as int;
    let q = p + nl;
    reveal_strlit(" ");
    reveal_strlit(" = ");
    lemma_operator_texts();
    assert(op.len() == 1);
    assert(whole =~= left + seq![' '] + op + seq![' '] + right);
    assert(whole.subrange(0, nl) =~= left);
    assert(whole.subrange(nl + 3, nl + 3 + right.len()) =~= right);
    lemma_part(text, p, whole, 0, left);
    lemma_part(text, p, whole, nl + 3, right);
    lemma_char_at(text, p, whole, nl);
    lemma_char_at(text, p, whole, nl + 1);
    lemma_char_at(text, p, whole, nl + 2);
    lemma_lex_tree(text, p, l, acc);
    let first = acc + lexed(text, p, l);
    lemma_lex_tree(text, q + 3, r, first.push(
        token_of(text, q + 1, TokenValueView::Operator(op), q + 2),
    ));
    lemma_lex_between(text, q, op, first);
    let mid = token_of(text, q + 1, TokenValueView::Operator(op), q + 2);
    assert(first.push(mid) + lexed(text, q + 3, r) =~= acc + lexed(text, p, a));
}

proof fn lemma_lex_group(text: Seq<char>, p: int, a: AstView, acc: Seq<TokenView>)
    requires
        lexable(a),
        holds(text, p, a),
        a.value is Expression,
    ensures
        read_on(text, p, a, acc),
    decreases a, 0int,
{
    let whole = a.rendered();
    let n = whole.len() as int;
    let e = *a.value->Expression_0;
    let inner = e.rendered();
    let q = p + 1 + inner.len();
    reveal_strlit("(");
    reveal_strlit(")");
    assert(whole =~= seq!['('] + inner + seq![')']);
    assert(whole.subrange(1, 1 + inner.len() as int) =~= inner);
    lemma_part(text, p, whole, 1, inner);
    lemma_char_at(text, p, whole, 0);
    lemma_char_at(text, p, whole, n - 1);
    lemma_bracket_scan(text, p);
    lemma_step(text, p, acc);
    let open = token_of(text, p, TokenValueView::Bracket('('), p + 1);
    lemma_lex_tree(text, p + 1, e, acc.push(open));
    let second = acc.push(open) + lexed(text, p + 1, e);
    lemma_bracket_scan(text, q);
    lemma_step(text, q, second);
    let close = token_of(text, q, TokenValueView::Bracket(')'), q + 1);
    assert(second.push(close) =~= acc + lexed(text, p, a));
}

/// Where a text holds the rendering of a tree, and a space, a closing
/// bracket or the end of the text follows, the tokeniser reads the
/// rendering as the tokens of the tree and goes on after it.
proof fn lemma_lex_tree(text: Seq<char>, p: int, a: AstView, acc: Seq<TokenView>)
    requires
        lexable(a),
        holds(text, p, a),
    ensures
        read_on(text, p, a, acc),
    decreases a, 1int,
{
    match a.value {
        ValueView::Identifier(name) => lemma_lex_name(text, p, a, acc),
        ValueView::Literal(l) => lemma_lex_number(text, p, a, acc),
        ValueView::Unary(op, e) => lemma_lex_signed(text, p, a, acc),
        ValueView::Binary(l, op, r) => lemma_lex_joined(text, p, a, *l, op, *r, acc),
        ValueView::Expression(e) => lemma_lex_group(text, p, a, acc),
        ValueView::Assignment(id, e) => lemma_lex_joined(text, p, a, *id, "="@, *e, acc),
        _ => {},
    }
}

/// Spans do not show in a rendering: trees that are the same, spans
/// aside, render the same.
pub proof fn lemma_rendered_strip(a: AstView)
    ensures
        strip(a).rendered() == a.rendered(),
    decreases a,
{
    match a.value {
        ValueView::Unary(op, e) => {
            lemma_rendered_strip(*e);
        },
        ValueView::Binary(l, op, r) => {
            lemma_rendered_strip(*l);
            lemma_rendered_strip(*r);
        },
        ValueView::Expression(e) => {
            lemma_rendered_strip(*e);
        },
        ValueView::Assignment(id, e) => {
            lemma_rendered_strip(*id);
            lemma_rendered_strip(*e);
        },
        _ => {},
    }
}

/// The tokens of a tree's rendering are the tokens that spell the tree.
pub proof fn lemma_tokens_of_rendering(a: AstView)
    requires
        lexable(a),
    ensures
        values(tokens_of(a.rendered())) == unparse(a),
{
    let text = a.rendered();
    assert(text.subrange(0, text.len() as int) =~= text);
    lemma_lex_tree(text, 0, a, Seq::empty());
    lemma_lexed_values(text, 0, a);
    assert(Seq::<TokenView>::empty() + lexed(text, 0, a) =~= lexed(text, 0, a));
}

/// Whether `a` holds no error, no empty node and no literal but integers
/// and floats.
pub open spec fn clean(a: AstView) -> bool
    decreases a,
{
    match a.value {
        ValueView::Identifier(_) => true,
        ValueView::Literal(l) => l is Int || l is Float,
        ValueView::Unary(_, e) => clean(*e),
        ValueView::Binary(l, _, r) => clean(*l) && clean(*r),
        ValueView::Expression(e) => clean(*e),
        ValueView::Assignment(id, e) => clean(*id) && clean(*e),
        _ => false,
    }
}

proof fn lemma_clean_atom(tokens: Seq<TokenView>, pos: int)
    requires
        sound_tokens(tokens),
    ensures
        clean(parse_atom(tokens, pos).node) ==> term_tree(parse_atom(tokens, pos).node)
            && lexable(parse_atom(tokens, pos).node),
{
    if 0 <= pos < tokens.len() {
        assert(sound_value(tokens[pos].value));
    }
}

proof fn lemma_clean_term(tokens: Seq<TokenView>, pos: int)
    requires
        sound_tokens(tokens),
    ensures
        clean(parse_term(tokens, pos).node) ==> term_tree(parse_term(tokens, pos).node)
            && lexable(parse_term(tokens, pos).node),
    decreases tokens.len() - pos, 2int,
{
    if bracket_at(tokens, pos, '(') {
        lemma_clean_expression(tokens, pos + 1);
    } else {
        lemma_clean_atom(tokens, pos);
    }
}

proof fn lemma_clean_unary(tokens: Seq<TokenView>, pos: int)
    requires
        sound_tokens(tokens),
    ensures
        clean(parse_unary(tokens, pos).node) ==> unary_tree(parse_unary(tokens, pos).node)
            && lexable(parse_unary(tokens, pos).node),
    decreases tokens.len() - pos, 3int,
{
    if sign_at(tokens, pos) {
        lemma_clean_term(tokens, pos + 1);
        lemma_levels(parse_term(tokens, pos + 1).node);
    } else {
        lemma_clean_term(tokens, pos);
        lemma_levels(parse_term(tokens, pos).node);
    }
}

proof fn lemma_clean_product_rest(tokens: Seq<TokenView>, left: Parsed)
    requires
        sound_tokens(tokens),
        clean(left.node) ==> product_tree(left.node) && lexable(left.node),
    ensures
        clean(parse_multiplication_rest(tokens, left).node) ==> product_tree(
            parse_multiplication_rest(tokens, left).node,
        ) && lexable(parse_multiplication_rest(tokens, left).node),
    decreases tokens.len() - left.next, 0int,
{
    if factor_operator_at(tokens, left.next) {
        lemma_clean_unary(tokens, left.next + 1);
        let right = parse_unary(tokens, left.next + 1);
        if left.next < right.next <= tokens.len() {
            lemma_clean_product_rest(
                tokens,
                Parsed {
                    node: binary_node(tokens, left.node, left.next, right.node),
                    next: right.next,
                },
            );
        }
    }
}

proof fn lemma_clean_product(tokens: Seq<TokenView>, pos: int)
    requires
        sound_tokens(tokens),
    ensures
        clean(parse_multiplication(tokens, pos).node) ==> product_tree(
            parse_multiplication(tokens, pos).node,
        ) && lexable(parse_multiplication(tokens, pos).node),
    decreases tokens.len() - pos, 4int,
{
    lemma_clean_unary(tokens, pos);
    let left = parse_unary(tokens, pos);
    lemma_levels(left.node);
    if pos <= left.next <= tokens.len() {
        lemma_clean_product_rest(tokens, left);
    }
}

proof fn lemma_clean_sum_rest(tokens: Seq<TokenView>, left: Parsed)
    requires
        sound_tokens(tokens),
        clean(left.node) ==> sum_tree(left.node) && lexable(left.node),
    ensures
        clean(parse_addition_rest(tokens, left).node) ==> sum_tree(
            parse_addition_rest(tokens, left).node,
        ) && lexable(parse_addition_rest(tokens, left).node),
    decreases tokens.len() - left.next, 1int,
{
    if sign_at(tokens, left.next) {
        lemma_clean_product(tokens, left.next + 1);
        let right = parse_multiplication(tokens, left.next + 1);
        if left.next < right.next <= tokens.len() {
            lemma_clean_sum_rest(
                tokens,
                Parsed {
                    node: binary_node(tokens, left.node, left.next, right.node),
                    next: right.next,
                },
            );
        }
    }
}

proof fn lemma_clean_sum(tokens: Seq<TokenView>, pos: int)
    requires
        sound_tokens(tokens),
    ensures
        clean(parse_addition(tokens, pos).node) ==> sum_tree(parse_addition(tokens, pos).node)
            && lexable(parse_addition(tokens, pos).node),
    decreases tokens.len() - pos, 5int,
{
    lemma_clean_product(tokens, pos);
    let left = parse_multiplication(tokens, pos);
    lemma_levels(left.node);
    if pos <= left.next <= tokens.len() {
        lemma_clean_sum_rest(tokens, left);
    }
}

proof fn lemma_clean_expression(tokens: Seq<TokenView>, pos: int)
    requires
        sound_tokens(tokens),
    ensures
        clean(parse_expression(tokens, pos).node) ==> sum_tree(parse_expression(tokens, pos).node)
            && lexable(parse_expression(tokens, pos).node),
    decreases tokens.len() - pos, 6int,
{
    lemma_clean_sum(tokens, pos);
}

/// A tree that is read without an error from tokens that can be read back
/// is a statement that the tokeniser can read back from its rendering.
pub proof fn lemma_clean_statement(tokens: Seq<TokenView>)
    requires
        sound_tokens(tokens),
        clean(parse_tokens(tokens)),
    ensures
        statement_tree(parse_tokens(tokens)),
        lexable(parse_tokens(tokens)),
{
    let node = parse_tokens(tokens);
    if assignment_at(tokens, 0) {
        lemma_clean_expression(tokens, 2);
        assert(sound_value(tokens[0].value));
        let expr = parse_expression(tokens, 2).node;
        assert(node.value is Assignment);
        assert(*node.value->Assignment_1 == expr);
        assert(clean(expr));
        let id = *node.value->Assignment_0;
        assert(id.value is Identifier);
        assert(lexable(id));
    } else {
        lemma_clean_expression(tokens, 0);
        assert(node == parse_expression(tokens, 0).node);
        lemma_levels(node);
        if node.value is Assignment {
            assert(!term_tree(node));
            assert(!unary_tree(node));
        }
    }
}

/// Round trip: the rendering of a statement of names, integers and floats
/// is read back as the same statement, spans aside, and that statement
/// renders as the same text.
pub proof fn lemma_round_trip(a: AstView)
    requires
        statement_tree(a),
        lexable(a),
    ensures
        strip(parse_tokens(tokens_of(a.rendered()))) == strip(a),
        parse_tokens(tokens_of(a.rendered())).rendered() == a.rendered(),
{
    lemma_tokens_of_rendering(a);
    lemma_read_back(tokens_of(a.rendered()), a);
    lemma_rendered_strip(a);
    lemma_rendered_strip(parse_tokens(tokens_of(a.rendered())));
}

/// Round trip from the source: where a text of names, integers and floats
/// is read without an error, rendering the tree and reading the rendering
/// gives the same tree, spans aside, and the same rendering again.
pub proof fn lemma_source_round_trip(text: Seq<char>)
    requires
        clean(parse_tokens(tokens_of(text))),
    ensures
        ({
            let a = parse_tokens(tokens_of(text));
            let b = parse_tokens(tokens_of(a.rendered()));
            strip(b) == strip(a) && b.rendered() == a.rendered()
        }),
{
    lemma_sound_tokens(text);
    lemma_clean_statement(tokens_of(text));
    lemma_round_trip(parse_tokens(tokens_of(text)));
}

} // verus!
