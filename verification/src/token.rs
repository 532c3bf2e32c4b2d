use vstd::prelude::*;
use crate::token_type::TokenType;

verus! {

/// A value of the language, and the payload of a token.
///
/// A number is held as the 64 bits of its IEEE 754 binary64 form. A callable
/// or an instance is held as its index in the interpreter's tables, so two
/// copies of one value name the same shared state.
#[derive(Debug)]
pub enum Literal {
    BoolLiteral(bool),
    CallableLiteral(usize),
    F64(u64),
    IdentifierLiteral(String),
    InstanceLiteral(usize),
    /// The digits of a number as written in the source.
    NumberLiteral(String),
    StringLiteral(String),
    Nil,
}

/// What a `Literal` stands for.
pub enum LiteralView {
    BoolLiteral(bool),
    CallableLiteral(usize),
    F64(u64),
    IdentifierLiteral(Seq<char>),
    InstanceLiteral(usize),
    NumberLiteral(Seq<char>),
    StringLiteral(Seq<char>),
    Nil,
}

impl View for Literal {
    type V = LiteralView;

    open spec fn view(&self) -> LiteralView {
        match self {
            Literal::BoolLiteral(b) => LiteralView::BoolLiteral(*b),
            Literal::CallableLiteral(c) => LiteralView::CallableLiteral(*c),
            Literal::F64(bits) => LiteralView::F64(*bits),
            Literal::IdentifierLiteral(s) => LiteralView::IdentifierLiteral(s@),
            Literal::InstanceLiteral(i) => LiteralView::InstanceLiteral(*i),
            Literal::NumberLiteral(s) => LiteralView::NumberLiteral(s@),
            Literal::StringLiteral(s) => LiteralView::StringLiteral(s@),
            Literal::Nil => LiteralView::Nil,
        }
    }
}

impl Clone for Literal {
    fn clone(&self) -> (r: Self)
        ensures
            r == *self,
    {
        match self {
            Literal::BoolLiteral(b) => Literal::BoolLiteral(*b),
            Literal::CallableLiteral(c) => Literal::CallableLiteral(*c),
            Literal::F64(bits) => Literal::F64(*bits),
            Literal::IdentifierLiteral(s) => Literal::IdentifierLiteral(s.clone()),
            Literal::InstanceLiteral(i) => Literal::InstanceLiteral(*i),
            Literal::NumberLiteral(s) => Literal::NumberLiteral(s.clone()),
            Literal::StringLiteral(s) => Literal::StringLiteral(s.clone()),
            Literal::Nil => Literal::Nil,
        }
    }
}

/// A token: its kind, the exact text it was read from, its payload and the
/// line it stands on.
#[derive(Debug)]
pub struct Token {
    pub typ: TokenType,
    pub lexeme: String,
    pub literal: Literal,
    pub line: usize,
}

/// What a `Token` stands for.
pub struct TokenView {
    pub typ: TokenType,
    pub lexeme: Seq<char>,
    pub literal: LiteralView,
    pub line: usize,
}

impl View for Token {
    type V = TokenView;

    open spec fn view(&self) -> TokenView {
        TokenView { typ: self.typ, lexeme: self.lexeme@, literal: self.literal@, line: self.line }
    }
}

impl Clone for Token {
    fn clone(&self) -> (r: Self)
        ensures
            r == *self,
    {
        Token {
            typ: self.typ,
            lexeme: self.lexeme.clone(),
            literal: self.literal.clone(),
            line: self.line,
        }
    }
}

/// The views of a sequence of tokens, one for one.
pub open spec fn tokens_view(tokens: Seq<Token>) -> Seq<TokenView> {
    Seq::new(tokens.len(), |i: int| tokens[i]@)
}

} // verus!
