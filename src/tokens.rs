use vstd::prelude::*;

use crate::span::Span;

verus! {

/// One lexical unit: its kind, with its text where it has one, and where it stands.
#[derive(Debug)]
pub struct Token {
    pub token_type: TokenType,
    pub span: Span,
}

/// The kinds of token that the lexer produces.
#[derive(Debug)]
pub enum TokenType {
    Identifier { content: String },
    StringValue { content: String },
    Comment { content: String },
    Number { content: String },
    ImportKeyword,
    FnKeyword,
    StructKeyword,
    IfKeyword,
    ElseKeyword,
    WhileKeyword,
    LoopKeyword,
    BreakKeyword,
    InterfaceKeyword,
    ForEachKeyword,
    CKeyword,
    OpenParen,
    CloseParen,
    OpenBracket,
    CloseBracket,
    OpenBrace,
    CloseBrace,
    Comma,
    Colon,
    DoubleColon,
    Semicolon,
    Dot,
    DoubleDot,
    Arrow,
    Tilde,
    Grave,
    Plus,
    Minus,
    Star,
    Slash,
    Percent,
    Exclamation,
    At,
    Hash,
    Dollar,
    Caret,
    Ampersand,
    QuestionMark,
    VerticalLine,
    Backslash,
    LessThan,
    GreaterThan,
    LessThanOrEqual,
    GreaterThanOrEqual,
    Equal,
    NotEqual,
    DoubleEqual,
    NewLine,
}

impl TokenType {
    /// A copy of this token kind.
    pub fn duplicate(&self) -> (r: TokenType)
        ensures
            r == *self,
    {
        match self {
            TokenType::Identifier { content } => TokenType::Identifier { content: content.clone() },
            TokenType::StringValue { content } => TokenType::StringValue { content: content.clone() },
            TokenType::Comment { content } => TokenType::Comment { content: content.clone() },
            TokenType::Number { content } => TokenType::Number { content: content.clone() },
            TokenType::ImportKeyword => TokenType::ImportKeyword,
            TokenType::FnKeyword => TokenType::FnKeyword,
            TokenType::StructKeyword => TokenType::StructKeyword,
            TokenType::IfKeyword => TokenType::IfKeyword,
            TokenType::ElseKeyword => TokenType::ElseKeyword,
            TokenType::WhileKeyword => TokenType::WhileKeyword,
            TokenType::LoopKeyword => TokenType::LoopKeyword,
            TokenType::BreakKeyword => TokenType::BreakKeyword,
            TokenType::InterfaceKeyword => TokenType::InterfaceKeyword,
            TokenType::ForEachKeyword => TokenType::ForEachKeyword,
            TokenType::CKeyword => TokenType::CKeyword,
            TokenType::OpenParen => TokenType::OpenParen,
            TokenType::CloseParen => TokenType::CloseParen,
            TokenType::OpenBracket => TokenType::OpenBracket,
            TokenType::CloseBracket => TokenType::CloseBracket,
            TokenType::OpenBrace => TokenType::OpenBrace,
            TokenType::CloseBrace => TokenType::CloseBrace,
            TokenType::Comma => TokenType::Comma,
            TokenType::Colon => TokenType::Colon,
            TokenType::DoubleColon => TokenType::DoubleColon,
            TokenType::Semicolon => TokenType::Semicolon,
            TokenType::Dot => TokenType::Dot,
            TokenType::DoubleDot => TokenType::DoubleDot,
            TokenType::Arrow => TokenType::Arrow,
            TokenType::Tilde => TokenType::Tilde,
            TokenType::Grave => TokenType::Grave,
            TokenType::Plus => TokenType::Plus,
            TokenType::Minus => TokenType::Minus,
            TokenType::Star => TokenType::Star,
            TokenType::Slash => TokenType::Slash,
            TokenType::Percent => TokenType::Percent,
            TokenType::Exclamation => TokenType::Exclamation,
            TokenType::At => TokenType::At,
            TokenType::Hash => TokenType::Hash,
            TokenType::Dollar => TokenType::Dollar,
            TokenType::Caret => TokenType::Caret,
            TokenType::Ampersand => TokenType::Ampersand,
            TokenType::QuestionMark => TokenType::QuestionMark,
            TokenType::VerticalLine => TokenType::VerticalLine,
            TokenType::Backslash => TokenType::Backslash,
            TokenType::LessThan => TokenType::LessThan,
            TokenType::GreaterThan => TokenType::GreaterThan,
            TokenType::LessThanOrEqual => TokenType::LessThanOrEqual,
            TokenType::GreaterThanOrEqual => TokenType::GreaterThanOrEqual,
            TokenType::Equal => TokenType::Equal,
            TokenType::NotEqual => TokenType::NotEqual,
            TokenType::DoubleEqual => TokenType::DoubleEqual,
            TokenType::NewLine => TokenType::NewLine,
        }
    }
}

impl Token {
    /// A copy of this token.
    pub fn duplicate(&self) -> (r: Token)
        ensures
            r == *self,
    {
        Token { token_type: self.token_type.duplicate(), span: self.span.duplicate() }
    }
}

} // verus!
