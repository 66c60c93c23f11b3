//! The trees that the grammar yields for well-formed input, the tokens
//! that spell such a tree, and the law that reading those tokens gives the
//! tree back.
use super::ast::{text_of, AstView, ValueView};
use super::grammar::{
    assignment_at, binary_node, factor_operator_at, lemma_multiplication, lemma_operator_texts,
    lemma_unary, origin, parse_addition_rest, parse_expression, parse_multiplication,
    parse_multiplication_rest, parse_statement, parse_term, parse_tokens, parse_unary, sign_at,
    Parsed,
};
use super::literal::LiteralView;
use crate::tokeniser::token::{TokenValueView, TokenView};
use vstd::prelude::*;

verus! {

/// Whether `op` spells a sign: `+` or `-`.
pub open spec fn sign_text(op: Seq<char>) -> bool {
    op == "+"@ || op == "-"@
}

/// Whether `op` spells `*`, `/` or `%`.
pub open spec fn factor_text(op: Seq<char>) -> bool {
    op == "*"@ || op == "/"@ || op == "%"@
}

/// Whether `a` is a term: an identifier, a literal, or a sum in round
/// brackets.
pub open spec fn term_tree(a: AstView) -> bool
    decreases a, 0int,
{
    match a.value {
        ValueView::Identifier(_) => true,
        ValueView::Literal(_) => true,
        ValueView::Expression(e) => sum_tree(*e),
        _ => false,
    }
}

/// Whether `a` is a term, with a sign before it or without.
pub open spec fn unary_tree(a: AstView) -> bool
    decreases a, 1int,
{
    match a.value {
        ValueView::Unary(op, e) => sign_text(op) && term_tree(*e),
        _ => term_tree(a),
    }
}

/// Whether `a` is a product: signed terms joined by `*`, `/` or `%`, each
/// operator with all that stands before it as its left side.
pub open spec fn product_tree(a: AstView) -> bool
    decreases a, 2int,
{
    match a.value {
        ValueView::Binary(l, op, r) => factor_text(op) && product_tree(*l) && unary_tree(*r),
        _ => unary_tree(a),
    }
}

/// Whether `a` is a sum: products joined by `+` or `-`, each operator with
/// all that stands before it as its left side.
pub open spec fn sum_tree(a: AstView) -> bool
    decreases a, 3int,
{
    match a.value {
        ValueView::Binary(l, op, r) => if sign_text(op) {
            sum_tree(*l) && product_tree(*r)
        } else {
            product_tree(a)
        },
        _ => product_tree(a),
    }
}

/// Whether `a` is a statement: a sum, or the assignment of a sum to an
/// identifier.
pub open spec fn statement_tree(a: AstView) -> bool {
    match a.value {
        ValueView::Assignment(id, e) => id.value is Identifier && sum_tree(*e),
        _ => sum_tree(a),
    }
}

/// The token that holds the literal `l`.
pub open spec fn literal_token(l: LiteralView) -> TokenValueView {
    match l {
        LiteralView::Char(c) => TokenValueView::CharLiteral(c),
        LiteralView::Int(i) => TokenValueView::IntLiteral(i),
        LiteralView::Float(s) => TokenValueView::FloatLiteral(s),
        LiteralView::String(s) => TokenValueView::StringLiteral(s),
    }
}

/// The tokens that spell `a`, in order.
pub open spec fn unparse(a: AstView) -> Seq<TokenValueView>
    decreases a,
{
    match a.value {
        ValueView::Identifier(name) => seq![TokenValueView::Identifier(name)],
        ValueView::Literal(l) => seq![literal_token(l)],
        ValueView::Unary(op, e) => seq![TokenValueView::Operator(op)] + unparse(*e),
        ValueView::Binary(l, op, r) => unparse(*l) + seq![TokenValueView::Operator(op)] + unparse(
            *r,
        ),
        ValueView::Expression(e) => seq![TokenValueView::Bracket('(')] + unparse(*e)
            + seq![TokenValueView::Bracket(')')],
        ValueView::Assignment(id, e) => unparse(*id) + seq![TokenValueView::Operator("="@)]
            + unparse(*e),
        _ => Seq::empty(),
    }
}

/// `a` without its spans: every node of it stands at the origin.
pub open spec fn strip(a: AstView) -> AstView
    decreases a, 1int,
{
    AstView { value: strip_value(a.value), start: origin(), end: origin() }
}

/// `v` with every node below it stripped of its span.
pub open spec fn strip_value(v: ValueView) -> ValueView
    decreases v, 0int,
{
    match v {
        ValueView::Unary(op, e) => ValueView::Unary(op, Box::new(strip(*e))),
        ValueView::Binary(l, op, r) => ValueView::Binary(
            Box::new(strip(*l)),
            op,
            Box::new(strip(*r)),
        ),
        ValueView::Expression(e) => ValueView::Expression(Box::new(strip(*e))),
        ValueView::Assignment(id, e) => ValueView::Assignment(
            Box::new(strip(*id)),
            Box::new(strip(*e)),
        ),
        _ => v,
    }
}

/// The values of `tokens`, in order.
pub open spec fn values(tokens: Seq<TokenView>) -> Seq<TokenValueView> {
    tokens.map_values(|t: TokenView| t.value)
}

/// Whether the tokens from `pos` on spell `a`.
pub open spec fn spelled(tokens: Seq<TokenView>, pos: int, a: AstView) -> bool {
    &&& 0 <= pos
    &&& pos + unparse(a).len() <= tokens.len()
    &&& values(tokens).subrange(pos, pos + unparse(a).len() as int) == unparse(a)
}

/// Whether `parsed` is `a`, spans aside, and ends at `next`.
pub open spec fn reads(parsed: Parsed, a: AstView, next: int) -> bool {
    parsed.next == next && strip(parsed.node) == strip(a)
}

proof fn lemma_spelled_at(tokens: Seq<TokenView>, pos: int, a: AstView, k: int)
    requires
        spelled(tokens, pos, a),
        0 <= k < unparse(a).len(),
    ensures
        tokens[pos + k].value == unparse(a)[k],
{
    assert(values(tokens).subrange(pos, pos + unparse(a).len())[k] == values(tokens)[pos + k]);
}

proof fn lemma_spelled_part(
    tokens: Seq<TokenView>,
    pos: int,
    a: AstView,
    part: AstView,
    offset: int,
)
    requires
        spelled(tokens, pos, a),
        0 <= offset,
        offset + unparse(part).len() <= unparse(a).len(),
        unparse(a).subrange(offset, offset + unparse(part).len()) == unparse(part),
    ensures
        spelled(tokens, pos + offset, part),
{
    let n = unparse(part).len() as int;
    assert(values(tokens).subrange(pos + offset, pos + offset + n) =~= values(tokens).subrange(
        pos,
        pos + unparse(a).len(),
    ).subrange(offset, offset + n));
}

/// A term's first token is no operator.
proof fn lemma_term_head(a: AstView)
    requires
        term_tree(a),
    ensures
        unparse(a).len() >= 1,
        !(unparse(a)[0] is Operator),
    decreases a,
{
}

proof fn lemma_rest_of_product(tokens: Seq<TokenView>, p: Parsed, q: Parsed)
    requires
        p.next == q.next,
        strip(p.node) == strip(q.node),
    ensures
        parse_multiplication_rest(tokens, p).next == parse_multiplication_rest(tokens, q).next,
        strip(parse_multiplication_rest(tokens, p).node) == strip(
            parse_multiplication_rest(tokens, q).node,
        ),
    decreases tokens.len() - p.next,
{
    if factor_operator_at(tokens, p.next) {
        let right = parse_unary(tokens, p.next + 1);
        if p.next < right.next <= tokens.len() {
            lemma_rest_of_product(
                tokens,
                Parsed { node: binary_node(tokens, p.node, p.next, right.node), next: right.next },
                Parsed { node: binary_node(tokens, q.node, q.next, right.node), next: right.next },
            );
        }
    }
}

proof fn lemma_rest_of_sum(tokens: Seq<TokenView>, p: Parsed, q: Parsed)
    requires
        p.next == q.next,
        strip(p.node) == strip(q.node),
    ensures
        parse_addition_rest(tokens, p).next == parse_addition_rest(tokens, q).next,
        strip(parse_addition_rest(tokens, p).node) == strip(parse_addition_rest(tokens, q).node),
    decreases tokens.len() - p.next,
{
    if sign_at(tokens, p.next) {
        let right = parse_multiplication(tokens, p.next + 1);
        if p.next < right.next <= tokens.len() {
            lemma_rest_of_sum(
                tokens,
                Parsed { node: binary_node(tokens, p.node, p.next, right.node), next: right.next },
                Parsed { node: binary_node(tokens, q.node, q.next, right.node), next: right.next },
            );
        }
    }
}

/// Reading a term's tokens gives the term.
proof fn lemma_read_term(tokens: Seq<TokenView>, pos: int, a: AstView)
    requires
        term_tree(a),
        spelled(tokens, pos, a),
    ensures
        reads(parse_term(tokens, pos), a, pos + unparse(a).len()),
    decreases a, 0int,
{
    lemma_spelled_at(tokens, pos, a, 0);
    match a.value {
        ValueView::Expression(e) => {
            let n = unparse(*e).len() as int;
            lemma_spelled_at(tokens, pos, a, n + 1);
            assert(unparse(a).subrange(1, 1 + n) =~= unparse(*e));
            lemma_spelled_part(tokens, pos, a, *e, 1);
            lemma_operator_texts();
            lemma_read_sum(tokens, pos + 1, *e);
        },
        _ => {},
    }
}

/// Reading a signed term's tokens gives the signed term.
proof fn lemma_read_unary(tokens: Seq<TokenView>, pos: int, a: AstView)
    requires
        unary_tree(a),
        spelled(tokens, pos, a),
    ensures
        reads(parse_unary(tokens, pos), a, pos + unparse(a).len()),
    decreases a, 1int,
{
    match a.value {
        ValueView::Unary(op, e) => {
            lemma_spelled_at(tokens, pos, a, 0);
            assert(unparse(a).subrange(1, 1 + unparse(*e).len() as int) =~= unparse(*e));
            lemma_spelled_part(tokens, pos, a, *e, 1);
            lemma_read_term(tokens, pos + 1, *e);
        },
        _ => {
            lemma_term_head(a);
            lemma_spelled_at(tokens, pos, a, 0);
            lemma_read_term(tokens, pos, a);
        },
    }
}

/// What follows the first operand of a product's tokens is read as the
/// rest of the product.
proof fn lemma_read_product_rest(tokens: Seq<TokenView>, pos: int, a: AstView)
    requires
        product_tree(a),
        spelled(tokens, pos, a),
    ensures
        ({
            let whole = parse_multiplication_rest(tokens, parse_unary(tokens, pos));
            let after = parse_multiplication_rest(
                tokens,
                Parsed { node: a, next: pos + unparse(a).len() },
            );
            whole.next == after.next && strip(whole.node) == strip(after.node)
        }),
    decreases a, 2int,
{
    let end = pos + unparse(a).len();
    match a.value {
        ValueView::Binary(l, op, r) => {
            let nl = unparse(*l).len() as int;
            let nr = unparse(*r).len() as int;
            assert(unparse(a).subrange(0, nl) =~= unparse(*l));
            assert(unparse(a).subrange(nl + 1, nl + 1 + nr) =~= unparse(*r));
            lemma_spelled_part(tokens, pos, a, *l, 0);
            lemma_spelled_part(tokens, pos, a, *r, nl + 1);
            lemma_spelled_at(tokens, pos, a, nl);
            lemma_read_product_rest(tokens, pos, *l);
            lemma_read_unary(tokens, pos + nl + 1, *r);
            let left = Parsed { node: *l, next: pos + nl };
            let right = parse_unary(tokens, pos + nl + 1);
            assert(factor_operator_at(tokens, pos + nl));
            lemma_rest_of_product(
                tokens,
                Parsed { node: binary_node(tokens, *l, pos + nl, right.node), next: end },
                Parsed { node: a, next: end },
            );
        },
        _ => {
            lemma_read_unary(tokens, pos, a);
            lemma_rest_of_product(tokens, parse_unary(tokens, pos), Parsed { node: a, next: end });
        },
    }
}

/// Reading a product's tokens gives the product, where no `*`, `/` or `%`
/// follows them.
proof fn lemma_read_product(tokens: Seq<TokenView>, pos: int, a: AstView)
    requires
        product_tree(a),
        spelled(tokens, pos, a),
        !factor_operator_at(tokens, pos + unparse(a).len()),
    ensures
        reads(parse_multiplication(tokens, pos), a, pos + unparse(a).len()),
    decreases a, 3int,
{
    lemma_read_product_rest(tokens, pos, a);
    lemma_unary(tokens, pos);
}

/// What follows the first operand of a sum's tokens is read as the rest
/// of the sum.
proof fn lemma_read_sum_rest(tokens: Seq<TokenView>, pos: int, a: AstView)
    requires
        sum_tree(a),
        spelled(tokens, pos, a),
        !factor_operator_at(tokens, pos + unparse(a).len()),
    ensures
        ({
            let whole = parse_addition_rest(tokens, parse_multiplication(tokens, pos));
            let after = parse_addition_rest(
                tokens,
                Parsed { node: a, next: pos + unparse(a).len() },
            );
            whole.next == after.next && strip(whole.node) == strip(after.node)
        }),
    decreases a, 4int,
{
    let end = pos + unparse(a).len();
    lemma_operator_texts();
    match a.value {
        ValueView::Binary(l, op, r) => {
            if sign_text(op) {
                let nl = unparse(*l).len() as int;
                let nr = unparse(*r).len() as int;
                assert(unparse(a).subrange(0, nl) =~= unparse(*l));
                assert(unparse(a).subrange(nl + 1, nl + 1 + nr) =~= unparse(*r));
                lemma_spelled_part(tokens, pos, a, *l, 0);
                lemma_spelled_part(tokens, pos, a, *r, nl + 1);
                lemma_spelled_at(tokens, pos, a, nl);
                assert(sign_at(tokens, pos + nl));
                assert(!factor_operator_at(tokens, pos + nl));
                lemma_read_sum_rest(tokens, pos, *l);
                lemma_read_product(tokens, pos + nl + 1, *r);
                let right = parse_multiplication(tokens, pos + nl + 1);
                lemma_rest_of_sum(
                    tokens,
                    Parsed { node: binary_node(tokens, *l, pos + nl, right.node), next: end },
                    Parsed { node: a, next: end },
                );
            } else {
                lemma_read_product(tokens, pos, a);
                lemma_rest_of_sum(
                    tokens,
                    parse_multiplication(tokens, pos),
                    Parsed { node: a, next: end },
                );
            }
        },
        _ => {
            lemma_read_product(tokens, pos, a);
            lemma_rest_of_sum(
                tokens,
                parse_multiplication(tokens, pos),
                Parsed { node: a, next: end },
            );
        },
    }
}

/// Reading a sum's tokens gives the sum, where no operator of arithmetic
/// follows them.
proof fn lemma_read_sum(tokens: Seq<TokenView>, pos: int, a: AstView)
    requires
        sum_tree(a),
        spelled(tokens, pos, a),
        !factor_operator_at(tokens, pos + unparse(a).len()),
        !sign_at(tokens, pos + unparse(a).len()),
    ensures
        reads(parse_expression(tokens, pos), a, pos + unparse(a).len()),
    decreases a, 5int,
{
    lemma_read_sum_rest(tokens, pos, a);
    lemma_multiplication(tokens, pos);
}

/// Each kind of tree is of every kind above it: a term is a signed term,
/// a signed term a product, a product a sum; and what is no operation is
/// of the kind below.
pub proof fn lemma_levels(a: AstView)
    ensures
        term_tree(a) ==> unary_tree(a),
        unary_tree(a) ==> product_tree(a),
        product_tree(a) ==> sum_tree(a),
        sum_tree(a) ==> (a.value is Binary || unary_tree(a)),
        product_tree(a) ==> (a.value is Binary || unary_tree(a)),
        unary_tree(a) ==> (a.value is Unary || term_tree(a)),
{
    lemma_operator_texts();
    if sum_tree(a) && !(a.value is Binary) {
        assert(product_tree(a));
    }
}

/// In a sum that begins with an identifier and goes on, an operator of
/// arithmetic comes second.
proof fn lemma_second_token(a: AstView)
    requires
        sum_tree(a),
        unparse(a).len() >= 2,
        unparse(a)[0] is Identifier,
    ensures
        unparse(a)[1] matches TokenValueView::Operator(op) && (sign_text(op) || factor_text(op)),
    decreases a,
{
    lemma_levels(a);
    match a.value {
        ValueView::Binary(l, op, r) => {
            lemma_levels(*l);
            assert(sum_tree(*l)) by {
                if !sign_text(op) {
                    assert(product_tree(a));
                }
            }
            lemma_head_exists(*l);
            let head = unparse(*l);
            assert(unparse(a) =~= head + seq![TokenValueView::Operator(op)] + unparse(*r));
            assert(unparse(a)[0] == head[0]);
            if head.len() >= 2 {
                assert(unparse(a)[1] == head[1]);
                lemma_second_token(*l);
            } else {
                assert(unparse(a)[1] == TokenValueView::Operator(op));
                if !sign_text(op) {
                    assert(product_tree(a));
                }
            }
        },
        _ => {
            assert(unary_tree(a));
            assert(a.value is Unary || term_tree(a));
        },
    }
}

/// A sum is spelled with at least one token.
proof fn lemma_head_exists(a: AstView)
    requires
        sum_tree(a),
    ensures
        unparse(a).len() >= 1,
    decreases a,
{
    lemma_levels(a);
    match a.value {
        ValueView::Binary(l, op, r) => {},
        _ => {
            assert(unary_tree(a));
            assert(a.value is Unary || term_tree(a));
        },
    }
}

/// Reading the tokens that spell a statement gives the statement back,
/// spans aside, and leaves no token unread.
pub proof fn lemma_read_back(tokens: Seq<TokenView>, a: AstView)
    requires
        statement_tree(a),
        values(tokens) == unparse(a),
    ensures
        strip(parse_tokens(tokens)) == strip(a),
        parse_statement(tokens, 0).next == tokens.len(),
{
    lemma_operator_texts();
    assert(values(tokens).subrange(0, tokens.len() as int) =~= values(tokens));
    match a.value {
        ValueView::Assignment(id, e) => {
            let n = unparse(*e).len() as int;
            assert(unparse(*id) =~= seq![TokenValueView::Identifier(id.value->Identifier_0)]);
            assert(unparse(a).len() == n + 2);
            assert(unparse(a).subrange(2, 2 + n) =~= unparse(*e));
            lemma_spelled_at(tokens, 0, a, 0);
            lemma_spelled_at(tokens, 0, a, 1);
            lemma_spelled_part(tokens, 0, a, *e, 2);
            lemma_read_sum(tokens, 2, *e);
            assert(assignment_at(tokens, 0));
            let name = id.value->Identifier_0;
            assert(unparse(a)[0] == TokenValueView::Identifier(name));
            assert(tokens[0].value == TokenValueView::Identifier(name));
            let target = AstView {
                value: ValueView::Identifier(text_of(tokens[0].value)),
                start: tokens[0].start,
                end: tokens[0].end,
            };
            assert(strip(target) == strip(*id));
            let expr = parse_expression(tokens, 2);
            assert(strip(expr.node) == strip(*e));
            assert(strip_value(a.value) == ValueView::Assignment(
                Box::new(strip(*id)),
                Box::new(strip(*e)),
            ));
            assert(strip_value(parse_statement(tokens, 0).node.value) == ValueView::Assignment(
                Box::new(strip(target)),
                Box::new(strip(expr.node)),
            ));
        },
        _ => {
            lemma_head_exists(a);
            if assignment_at(tokens, 0) {
                lemma_spelled_at(tokens, 0, a, 0);
                lemma_spelled_at(tokens, 0, a, 1);
                lemma_second_token(a);
            }
            lemma_read_sum(tokens, 0, a);
        },
    }
}

} // verus!
