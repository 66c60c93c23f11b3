//! The grammar, as functions from a token sequence and a position to the
//! node read and the position after it:
//!
//! ```text
//! Statement      ::= Identifier "=" Expression | Expression
//! Expression     ::= Multiplication (("+" | "-") Multiplication)*
//! Multiplication ::= Unary (("*" | "/" | "%") Unary)*
//! Unary          ::= ("+" | "-") Term | Term
//! Term           ::= "(" Expression ")" | Atom
//! Atom           ::= Identifier | Literal
//! ```
use super::ast::{
    assignable, lemma_plain_assignable, literal_of, plain, text_of, AstView, ErrorCode, ValueView,
};
use crate::source_code::Location;
use crate::tokeniser::token::{TokenValueView, TokenView};
use vstd::prelude::*;

verus! {

/// A node and the position of the first token after it.
pub struct Parsed {
    pub node: AstView,
    pub next: int,
}

/// The location of an empty input.
pub open spec fn origin() -> Location {
    Location { position: 0, line: 0, offset: 0 }
}

/// Where the tokens before `pos` end.
pub open spec fn reached(tokens: Seq<TokenView>, pos: int) -> Location {
    if 0 < pos <= tokens.len() {
        tokens[pos - 1].end
    } else {
        origin()
    }
}

/// Whether the token at `pos` is the bracket `c`.
pub open spec fn bracket_at(tokens: Seq<TokenView>, pos: int, c: char) -> bool {
    0 <= pos < tokens.len() && tokens[pos].value == TokenValueView::Bracket(c)
}

/// Whether the token at `pos` is the operator spelled `op`.
pub open spec fn operator_at(tokens: Seq<TokenView>, pos: int, op: Seq<char>) -> bool {
    0 <= pos < tokens.len() && tokens[pos].value == TokenValueView::Operator(op)
}

/// Whether the token at `pos` is a sign: `+` or `-`.
pub open spec fn sign_at(tokens: Seq<TokenView>, pos: int) -> bool {
    operator_at(tokens, pos, "+"@) || operator_at(tokens, pos, "-"@)
}

/// Whether the token at `pos` is `*`, `/` or `%`.
pub open spec fn factor_operator_at(tokens: Seq<TokenView>, pos: int) -> bool {
    operator_at(tokens, pos, "*"@) || operator_at(tokens, pos, "/"@) || operator_at(
        tokens,
        pos,
        "%"@,
    )
}

/// The node with `value` that runs from `start` to where the tokens before
/// `next` end.
pub open spec fn node_upto(tokens: Seq<TokenView>, value: ValueView, start: Location, next: int) -> AstView {
    AstView { value, start, end: reached(tokens, next) }
}

/// The binary node of `left`, the operator at `at` and `right`.
pub open spec fn binary_node(tokens: Seq<TokenView>, left: AstView, at: int, right: AstView) -> AstView {
    AstView {
        value: ValueView::Binary(Box::new(left), text_of(tokens[at].value), Box::new(right)),
        start: left.start,
        end: right.end,
    }
}

/// An atom: the identifier or literal at `pos`. Any other token is read
/// as an error node; where no token is left, the error node is empty and
/// stands where the tokens end.
pub open spec fn parse_atom(tokens: Seq<TokenView>, pos: int) -> Parsed {
    if 0 <= pos < tokens.len() {
        let t = tokens[pos];
        let value = if t.is_identifier() {
            ValueView::Identifier(text_of(t.value))
        } else if t.is_literal() {
            ValueView::Literal(literal_of(t.value))
        } else {
            ValueView::Error(ErrorCode::UnexpectedToken)
        };
        Parsed { node: AstView { value, start: t.start, end: t.end }, next: pos + 1 }
    } else {
        Parsed {
            node: node_upto(
                tokens,
                ValueView::Error(ErrorCode::TokenExpected),
                reached(tokens, pos),
                pos,
            ),
            next: pos,
        }
    }
}

/// A term: an expression in round brackets, or an atom. A group that is
/// not closed is read as an error node over what was read of it.
pub open spec fn parse_term(tokens: Seq<TokenView>, pos: int) -> Parsed
    decreases tokens.len() - pos, 2int,
{
    if bracket_at(tokens, pos, '(') {
        let inner = parse_expression(tokens, pos + 1);
        if bracket_at(tokens, inner.next, ')') {
            Parsed {
                node: node_upto(
                    tokens,
                    ValueView::Expression(Box::new(inner.node)),
                    tokens[pos].start,
                    inner.next + 1,
                ),
                next: inner.next + 1,
            }
        } else {
            Parsed {
                node: node_upto(
                    tokens,
                    ValueView::Error(ErrorCode::RparenExpected),
                    tokens[pos].start,
                    inner.next,
                ),
                next: inner.next,
            }
        }
    } else {
        parse_atom(tokens, pos)
    }
}

/// A term with an optional sign before it.
pub open spec fn parse_unary(tokens: Seq<TokenView>, pos: int) -> Parsed
    decreases tokens.len() - pos, 3int,
{
    if sign_at(tokens, pos) {
        let operand = parse_term(tokens, pos + 1);
        Parsed {
            node: node_upto(
                tokens,
                ValueView::Unary(text_of(tokens[pos].value), Box::new(operand.node)),
                tokens[pos].start,
                operand.next,
            ),
            next: operand.next,
        }
    } else {
        parse_term(tokens, pos)
    }
}

/// What follows the operand `left` of a product: while `*`, `/` or `%`
/// comes next, one more operand, folded onto the left. An operand always
/// ends after the operator before it (`lemma_unary`), so the case that
/// stops early never arises.
pub open spec fn parse_multiplication_rest(tokens: Seq<TokenView>, left: Parsed) -> Parsed
    decreases tokens.len() - left.next, 0int,
{
    if factor_operator_at(tokens, left.next) {
        let right = parse_unary(tokens, left.next + 1);
        if left.next < right.next <= tokens.len() {
            parse_multiplication_rest(
                tokens,
                Parsed {
                    node: binary_node(tokens, left.node, left.next, right.node),
                    next: right.next,
                },
            )
        } else {
            left
        }
    } else {
        left
    }
}

/// A product: signed terms joined by `*`, `/` or `%`, grouped to the left.
pub open spec fn parse_multiplication(tokens: Seq<TokenView>, pos: int) -> Parsed
    decreases tokens.len() - pos, 4int,
{
    let left = parse_unary(tokens, pos);
    if pos <= left.next <= tokens.len() {
        parse_multiplication_rest(tokens, left)
    } else {
        left
    }
}

/// What follows the operand `left` of a sum: while `+` or `-` comes next,
/// one more product, folded onto the left. An operand always ends after
/// the operator before it (`lemma_multiplication`), so the case that stops
/// early never arises.
pub open spec fn parse_addition_rest(tokens: Seq<TokenView>, left: Parsed) -> Parsed
    decreases tokens.len() - left.next, 1int,
{
    if sign_at(tokens, left.next) {
        let right = parse_multiplication(tokens, left.next + 1);
        if left.next < right.next <= tokens.len() {
            parse_addition_rest(
                tokens,
                Parsed {
                    node: binary_node(tokens, left.node, left.next, right.node),
                    next: right.next,
                },
            )
        } else {
            left
        }
    } else {
        left
    }
}

/// A sum: products joined by `+` or `-`, grouped to the left.
pub open spec fn parse_addition(tokens: Seq<TokenView>, pos: int) -> Parsed
    decreases tokens.len() - pos, 5int,
{
    let left = parse_multiplication(tokens, pos);
    if pos <= left.next <= tokens.len() {
        parse_addition_rest(tokens, left)
    } else {
        left
    }
}

/// An expression: a sum.
pub open spec fn parse_expression(tokens: Seq<TokenView>, pos: int) -> Parsed
    decreases tokens.len() - pos, 6int,
{
    parse_addition(tokens, pos)
}

/// Whether an identifier and then `=` stand at `pos`.
pub open spec fn assignment_at(tokens: Seq<TokenView>, pos: int) -> bool {
    0 <= pos < tokens.len() && tokens[pos].is_identifier() && operator_at(tokens, pos + 1, "="@)
}

/// A statement: an assignment where an identifier and `=` come first, an
/// expression otherwise.
pub open spec fn parse_statement(tokens: Seq<TokenView>, pos: int) -> Parsed {
    if assignment_at(tokens, pos) {
        let id = AstView {
            value: ValueView::Identifier(text_of(tokens[pos].value)),
            start: tokens[pos].start,
            end: tokens[pos].end,
        };
        let expr = parse_expression(tokens, pos + 2);
        Parsed {
            node: node_upto(
                tokens,
                ValueView::Assignment(Box::new(id), Box::new(expr.node)),
                tokens[pos].start,
                expr.next,
            ),
            next: expr.next,
        }
    } else {
        parse_expression(tokens, pos)
    }
}

/// The syntax tree of `tokens`.
pub open spec fn parse_tokens(tokens: Seq<TokenView>) -> AstView {
    parse_statement(tokens, 0).node
}

/// Where a node that is read from `pos` on begins: at the token there,
/// or, when none is left, where the tokens end.
pub open spec fn begins(tokens: Seq<TokenView>, pos: int) -> Location {
    if 0 <= pos < tokens.len() {
        tokens[pos].start
    } else {
        reached(tokens, pos)
    }
}

/// Whether `parsed` was read from `pos` on: it ends between `pos` and the
/// end of the tokens, and after `pos` where a token is left there; its
/// node spans from the first to the last token read and holds no
/// assignment.
pub open spec fn read_from(tokens: Seq<TokenView>, pos: int, parsed: Parsed) -> bool {
    &&& pos <= parsed.next <= tokens.len()
    &&& pos < tokens.len() ==> pos < parsed.next
    &&& plain(parsed.node)
    &&& parsed.node.start == begins(tokens, pos)
    &&& parsed.node.end == reached(tokens, parsed.next)
}

/// Whether `left` can be the first operand of what is read from `pos` on.
pub open spec fn read_so_far(tokens: Seq<TokenView>, pos: int, left: Parsed) -> bool {
    read_from(tokens, pos, left) && pos < left.next
}

/// An atom is read from where it begins.
pub proof fn lemma_atom(tokens: Seq<TokenView>, pos: int)
    requires
        0 <= pos <= tokens.len(),
    ensures
        read_from(tokens, pos, parse_atom(tokens, pos)),
{
}

/// A term is read from where it begins.
pub proof fn lemma_term(tokens: Seq<TokenView>, pos: int)
    requires
        0 <= pos <= tokens.len(),
    ensures
        read_from(tokens, pos, parse_term(tokens, pos)),
    decreases tokens.len() - pos, 2int,
{
    if bracket_at(tokens, pos, '(') {
        lemma_expression(tokens, pos + 1);
    } else {
        lemma_atom(tokens, pos);
    }
}

/// A signed term is read from where it begins.
pub proof fn lemma_unary(tokens: Seq<TokenView>, pos: int)
    requires
        0 <= pos <= tokens.len(),
    ensures
        read_from(tokens, pos, parse_unary(tokens, pos)),
    decreases tokens.len() - pos, 3int,
{
    if sign_at(tokens, pos) {
        lemma_term(tokens, pos + 1);
    } else {
        lemma_term(tokens, pos);
    }
}

/// The rest of a product, with its first operand, is read from where
/// that operand began.
pub proof fn lemma_multiplication_rest(tokens: Seq<TokenView>, pos: int, left: Parsed)
    requires
        0 <= pos,
        read_so_far(tokens, pos, left),
    ensures
        read_so_far(tokens, pos, parse_multiplication_rest(tokens, left)),
    decreases tokens.len() - left.next, 0int,
{
    if factor_operator_at(tokens, left.next) {
        lemma_unary(tokens, left.next + 1);
        let right = parse_unary(tokens, left.next + 1);
        lemma_multiplication_rest(
            tokens,
            pos,
            Parsed { node: binary_node(tokens, left.node, left.next, right.node), next: right.next },
        );
    }
}

/// A product is read from where it begins.
pub proof fn lemma_multiplication(tokens: Seq<TokenView>, pos: int)
    requires
        0 <= pos <= tokens.len(),
    ensures
        read_from(tokens, pos, parse_multiplication(tokens, pos)),
    decreases tokens.len() - pos, 4int,
{
    lemma_unary(tokens, pos);
    if pos < parse_unary(tokens, pos).next {
        lemma_multiplication_rest(tokens, pos, parse_unary(tokens, pos));
    }
}

/// The rest of a sum, with its first operand, is read from where that
/// operand began.
pub proof fn lemma_addition_rest(tokens: Seq<TokenView>, pos: int, left: Parsed)
    requires
        0 <= pos,
        read_so_far(tokens, pos, left),
    ensures
        read_so_far(tokens, pos, parse_addition_rest(tokens, left)),
    decreases tokens.len() - left.next, 1int,
{
    if sign_at(tokens, left.next) {
        lemma_multiplication(tokens, left.next + 1);
        let right = parse_multiplication(tokens, left.next + 1);
        lemma_addition_rest(
            tokens,
            pos,
            Parsed { node: binary_node(tokens, left.node, left.next, right.node), next: right.next },
        );
    }
}

/// A sum is read from where it begins.
pub proof fn lemma_addition(tokens: Seq<TokenView>, pos: int)
    requires
        0 <= pos <= tokens.len(),
    ensures
        read_from(tokens, pos, parse_addition(tokens, pos)),
    decreases tokens.len() - pos, 5int,
{
    lemma_multiplication(tokens, pos);
    if pos < parse_multiplication(tokens, pos).next {
        lemma_addition_rest(tokens, pos, parse_multiplication(tokens, pos));
    }
}

/// An expression is read from where it begins: it ends within the tokens,
/// after its first token if it has one, spans what it read and holds no
/// assignment.
pub proof fn lemma_expression(tokens: Seq<TokenView>, pos: int)
    requires
        0 <= pos <= tokens.len(),
    ensures
        read_from(tokens, pos, parse_expression(tokens, pos)),
    decreases tokens.len() - pos, 6int,
{
    lemma_addition(tokens, pos);
}

/// Whatever the tokens, the tree read from them spans from the first
/// token to the last one read, and it can be evaluated: its only
/// assignment, if it has one, is the root, and has an identifier on its
/// left.
pub proof fn lemma_parsed_assignable(tokens: Seq<TokenView>)
    ensures
        assignable(parse_tokens(tokens)),
        0 <= parse_statement(tokens, 0).next <= tokens.len(),
        parse_tokens(tokens).start == begins(tokens, 0),
        parse_tokens(tokens).end == reached(tokens, parse_statement(tokens, 0).next),
        tokens.len() > 0 ==> parse_statement(tokens, 0).next > 0,
{
    if assignment_at(tokens, 0) {
        lemma_expression(tokens, 2);
        lemma_plain_assignable(parse_expression(tokens, 2).node);
    } else {
        lemma_expression(tokens, 0);
        lemma_plain_assignable(parse_expression(tokens, 0).node);
    }
}

/// Whether `t` can stand as an atom: an identifier or a literal.
pub open spec fn atom_token(t: TokenView) -> bool {
    t.is_identifier() || t.is_literal()
}

/// Whether `t` is a sign: the operator `+` or `-`.
pub open spec fn sign_token(t: TokenView) -> bool {
    t.value == TokenValueView::Operator("+"@) || t.value == TokenValueView::Operator("-"@)
}

/// Whether `t` is the operator `*`, `/` or `%`.
pub open spec fn factor_token(t: TokenView) -> bool {
    t.value == TokenValueView::Operator("*"@) || t.value == TokenValueView::Operator("/"@)
        || t.value == TokenValueView::Operator("%"@)
}

/// The node of the atom `t`.
pub open spec fn leaf(t: TokenView) -> AstView {
    AstView {
        value: if t.is_identifier() {
            ValueView::Identifier(text_of(t.value))
        } else {
            ValueView::Literal(literal_of(t.value))
        },
        start: t.start,
        end: t.end,
    }
}

/// The node of `left` and `right` joined by the operator `op`.
pub open spec fn joined(left: AstView, op: TokenView, right: AstView) -> AstView {
    AstView {
        value: ValueView::Binary(Box::new(left), text_of(op.value), Box::new(right)),
        start: left.start,
        end: right.end,
    }
}

/// The five operators of arithmetic and `=` are spelled differently, and
/// each with one character.
pub proof fn lemma_operator_texts()
    ensures
        "="@ != "+"@,
        "="@ != "-"@,
        "="@ != "*"@,
        "="@ != "/"@,
        "="@ != "%"@,
        "+"@ != "*"@,
        "+"@ != "/"@,
        "+"@ != "%"@,
        "-"@ != "*"@,
        "-"@ != "/"@,
        "-"@ != "%"@,
        "+"@ != "-"@,
        "="@ == seq!['='],
        "+"@ == seq!['+'],
        "-"@ == seq!['-'],
        "*"@ == seq!['*'],
        "/"@ == seq!['/'],
        "%"@ == seq!['%'],
{
    reveal_strlit("=");
    reveal_strlit("+");
    reveal_strlit("-");
    reveal_strlit("*");
    reveal_strlit("/");
    reveal_strlit("%");
    assert("="@[0] == '=');
    assert("+"@[0] == '+');
    assert("-"@[0] == '-');
    assert("*"@[0] == '*');
    assert("/"@[0] == '/');
    assert("%"@[0] == '%');
    assert("="@ =~= seq!['=']);
    assert("+"@ =~= seq!['+']);
    assert("-"@ =~= seq!['-']);
    assert("*"@ =~= seq!['*']);
    assert("/"@ =~= seq!['/']);
    assert("%"@ =~= seq!['%']);
}

/// Left associativity: of three atoms joined by two operators of one
/// layer, the first two are joined first.
pub proof fn lemma_left_associative(
    a: TokenView,
    first: TokenView,
    b: TokenView,
    second: TokenView,
    c: TokenView,
)
    requires
        atom_token(a),
        atom_token(b),
        atom_token(c),
        (sign_token(first) && sign_token(second)) || (factor_token(first) && factor_token(second)),
    ensures
        parse_tokens(seq![a, first, b, second, c]) == joined(
            joined(leaf(a), first, leaf(b)),
            second,
            leaf(c),
        ),
{
    let tokens = seq![a, first, b, second, c];
    lemma_operator_texts();
    reveal_with_fuel(parse_multiplication_rest, 3);
    reveal_with_fuel(parse_addition_rest, 3);
    assert(!assignment_at(tokens, 0));
    assert(parse_unary(tokens, 0) == Parsed { node: leaf(a), next: 1 });
    assert(parse_unary(tokens, 2) == Parsed { node: leaf(b), next: 3 });
    assert(parse_unary(tokens, 4) == Parsed { node: leaf(c), next: 5 });
    if sign_token(first) {
        assert(parse_multiplication(tokens, 0) == Parsed { node: leaf(a), next: 1 });
        assert(parse_multiplication(tokens, 2) == Parsed { node: leaf(b), next: 3 });
        assert(parse_multiplication(tokens, 4) == Parsed { node: leaf(c), next: 5 });
    }
}

/// Precedence: a product to the right of a sum's operator is joined
/// before the sum.
pub proof fn lemma_product_first(
    a: TokenView,
    sign: TokenView,
    b: TokenView,
    factor: TokenView,
    c: TokenView,
)
    requires
        atom_token(a),
        atom_token(b),
        atom_token(c),
        sign_token(sign),
        factor_token(factor),
    ensures
        parse_tokens(seq![a, sign, b, factor, c]) == joined(
            leaf(a),
            sign,
            joined(leaf(b), factor, leaf(c)),
        ),
        parse_tokens(seq![a, factor, b, sign, c]) == joined(
            joined(leaf(a), factor, leaf(b)),
            sign,
            leaf(c),
        ),
{
    lemma_operator_texts();
    reveal_with_fuel(parse_multiplication_rest, 3);
    reveal_with_fuel(parse_addition_rest, 3);
    {
        let tokens = seq![a, sign, b, factor, c];
        assert(!assignment_at(tokens, 0));
        assert(parse_unary(tokens, 0) == Parsed { node: leaf(a), next: 1 });
        assert(parse_unary(tokens, 2) == Parsed { node: leaf(b), next: 3 });
        assert(parse_unary(tokens, 4) == Parsed { node: leaf(c), next: 5 });
        assert(parse_multiplication(tokens, 0) == Parsed { node: leaf(a), next: 1 });
        assert(parse_multiplication(tokens, 2) == Parsed {
            node: joined(leaf(b), factor, leaf(c)),
            next: 5,
        });
    }
    {
        let tokens = seq![a, factor, b, sign, c];
        assert(!assignment_at(tokens, 0));
        assert(parse_unary(tokens, 0) == Parsed { node: leaf(a), next: 1 });
        assert(parse_unary(tokens, 2) == Parsed { node: leaf(b), next: 3 });
        assert(parse_unary(tokens, 4) == Parsed { node: leaf(c), next: 5 });
        assert(parse_multiplication(tokens, 0) == Parsed {
            node: joined(leaf(a), factor, leaf(b)),
            next: 3,
        });
        assert(parse_multiplication(tokens, 4) == Parsed { node: leaf(c), next: 5 });
    }
}

/// A lone identifier is read as an identifier, not as an assignment; an
/// identifier followed by `=` opens an assignment to that identifier.
pub proof fn lemma_assignment_or_identifier(tokens: Seq<TokenView>)
    requires
        tokens.len() >= 1,
        tokens[0].is_identifier(),
    ensures
        tokens.len() == 1 ==> parse_tokens(tokens) == leaf(tokens[0]),
        operator_at(tokens, 1, "="@) ==> parse_tokens(tokens).value == ValueView::Assignment(
            Box::new(leaf(tokens[0])),
            Box::new(parse_expression(tokens, 2).node),
        ),
        !operator_at(tokens, 1, "="@) ==> parse_tokens(tokens) == parse_expression(tokens, 0).node,
{
    lemma_operator_texts();
    if tokens.len() == 1 {
        assert(parse_unary(tokens, 0) == Parsed { node: leaf(tokens[0]), next: 1 });
    }
}

} // verus!
