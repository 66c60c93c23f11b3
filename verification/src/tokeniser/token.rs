use crate::source_code::Location;
use crate::text::{decimal, decimal_text};
use vstd::prelude::*;

verus! {

/// What can be wrong with a lexeme.
#[derive(Debug, Clone, Copy, PartialEq, Eq, Structural)]
pub enum ErrorCode {
    UnterminatedCharLiteral,
    EmptyCharLiteral,
    CharLiteralTooLong,
    BrokenUnicodeSequence,
    UnknownEscapeSequence,
    UnexpectedToken,
    BrokenStringLiteral,
    UnterminatedStringLiteral,
    IntLiteralTooLong,
    FloatLiteralTooLong,
}

/// What a token stands for. A float literal is kept as its decimal text:
/// digits, a point, digits, with at least one digit in all.
#[derive(Debug, PartialEq, Clone)]
pub enum TokenValue {
    CharLiteral(char),
    StringLiteral(String),
    IntLiteral(u128),
    FloatLiteral(String),
    Identifier(String),
    Operator(String),
    Bracket(char),
    Error(String, ErrorCode),
}

/// A token value with its texts as character sequences.
pub enum TokenValueView {
    CharLiteral(char),
    StringLiteral(Seq<char>),
    IntLiteral(u128),
    FloatLiteral(Seq<char>),
    Identifier(Seq<char>),
    Operator(Seq<char>),
    Bracket(char),
    Error(Seq<char>, ErrorCode),
}

impl View for TokenValue {
    type V = TokenValueView;

    open spec fn view(&self) -> TokenValueView {
        match self {
            TokenValue::CharLiteral(c) => TokenValueView::CharLiteral(*c),
            TokenValue::StringLiteral(s) => TokenValueView::StringLiteral(s@),
            TokenValue::IntLiteral(i) => TokenValueView::IntLiteral(*i),
            TokenValue::FloatLiteral(s) => TokenValueView::FloatLiteral(s@),
            TokenValue::Identifier(s) => TokenValueView::Identifier(s@),
            TokenValue::Operator(s) => TokenValueView::Operator(s@),
            TokenValue::Bracket(c) => TokenValueView::Bracket(*c),
            TokenValue::Error(s, e) => TokenValueView::Error(s@, *e),
        }
    }
}

impl TokenValueView {
    /// The text that stands for this value: a literal's content, a name, an
    /// operator, a bracket, or the lexeme of an error.
    pub open spec fn rendered(self) -> Seq<char> {
        match self {
            TokenValueView::CharLiteral(c) => seq![c],
            TokenValueView::StringLiteral(s) => s,
            TokenValueView::IntLiteral(i) => decimal(i as nat),
            TokenValueView::FloatLiteral(s) => s,
            TokenValueView::Identifier(s) => s,
            TokenValueView::Operator(s) => s,
            TokenValueView::Bracket(c) => seq![c],
            TokenValueView::Error(s, _) => s,
        }
    }
}

impl TokenValue {
    /// This value as text.
    pub fn to_string(&self) -> (s: String)
        ensures
            s@ == self@.rendered(),
    {
        match self {
            TokenValue::CharLiteral(c) => {
                let mut s = String::new();
                s.push(*c);
                assert(s@ =~= seq![*c]);
                s
            },
            TokenValue::StringLiteral(s) => s.clone(),
            TokenValue::IntLiteral(i) => decimal_text(*i),
            TokenValue::FloatLiteral(s) => s.clone(),
            TokenValue::Identifier(s) => s.clone(),
            TokenValue::Operator(s) => s.clone(),
            TokenValue::Bracket(c) => {
                let mut s = String::new();
                s.push(*c);
                assert(s@ =~= seq![*c]);
                s
            },
            TokenValue::Error(s, _) => s.clone(),
        }
    }

    /// A copy of this value.
    pub fn duplicate(&self) -> (v: TokenValue)
        ensures
            v == *self,
    {
        match self {
            TokenValue::CharLiteral(c) => TokenValue::CharLiteral(*c),
            TokenValue::StringLiteral(s) => TokenValue::StringLiteral(s.clone()),
            TokenValue::IntLiteral(i) => TokenValue::IntLiteral(*i),
            TokenValue::FloatLiteral(s) => TokenValue::FloatLiteral(s.clone()),
            TokenValue::Identifier(s) => TokenValue::Identifier(s.clone()),
            TokenValue::Operator(s) => TokenValue::Operator(s.clone()),
            TokenValue::Bracket(c) => TokenValue::Bracket(*c),
            TokenValue::Error(s, e) => TokenValue::Error(s.clone(), *e),
        }
    }
}

/// A token: its value and the span of source text it was read from.
#[derive(Debug, Clone)]
pub struct Token {
    pub value: TokenValue,
    pub start: Location,
    pub end: Location,
}

/// A token with its texts as character sequences.
pub struct TokenView {
    pub value: TokenValueView,
    pub start: Location,
    pub end: Location,
}

impl View for Token {
    type V = TokenView;

    open spec fn view(&self) -> TokenView {
        TokenView { value: self.value@, start: self.start, end: self.end }
    }
}

impl TokenView {
    /// Whether this token is an identifier.
    pub open spec fn is_identifier(self) -> bool {
        self.value is Identifier
    }

    /// Whether this token is a literal of any kind.
    pub open spec fn is_literal(self) -> bool {
        self.value is CharLiteral || self.value is StringLiteral || self.value is IntLiteral
            || self.value is FloatLiteral
    }
}

impl Token {
    /// The token with `value` that spans from `start` to `end`.
    pub fn new(value: TokenValue, start: Location, end: Location) -> (t: Token)
        ensures
            t == (Token { value, start, end }),
    {
        Token { value, start, end }
    }

    /// Whether this token is an identifier.
    pub fn is_identifier(&self) -> (b: bool)
        ensures
            b == self@.is_identifier(),
    {
        match self.value {
            TokenValue::Identifier(_) => true,
            _ => false,
        }
    }

    /// Whether this token is a literal of any kind.
    pub fn is_literal(&self) -> (b: bool)
        ensures
            b == self@.is_literal(),
    {
        match self.value {
            TokenValue::CharLiteral(_)
            | TokenValue::StringLiteral(_)
            | TokenValue::IntLiteral(_)
            | TokenValue::FloatLiteral(_) => true,
            _ => false,
        }
    }

    /// This token's value as text.
    pub fn to_string(&self) -> (s: String)
        ensures
            s@ == self@.value.rendered(),
    {
        self.value.to_string()
    }

    /// A copy of this token.
    pub fn duplicate(&self) -> (t: Token)
        ensures
            t == *self,
    {
        Token { value: self.value.duplicate(), start: self.start, end: self.end }
    }
}

/// The views of a sequence of tokens, in order.
pub open spec fn token_views(tokens: Seq<Token>) -> Seq<TokenView> {
    tokens.map_values(|t: Token| t@)
}

} // verus!
