//! Token classifications: one variant per lexeme shape the scanner can emit.

use vstd::prelude::*;

use crate::keyword::Keyword;

verus! {

/// The classification of one token. Exactly one kind is assigned per token;
/// the variants are mutually exclusive by construction.
#[derive(Debug, Clone, Copy, PartialEq, Eq, Structural)]
pub enum TokenKind {
    Asterisk,
    Comma,
    Colon,
    Semicolon,
    LeftParenthesis,
    RightParenthesis,
    Percent,
    Period,
    Plus,
    Minus,
    Solidus,
    LessThan,
    GreaterThan,
    Equals,
    Underscore,
    Ampersand,
    QuestionMark,
    Circumflex,
    Tilde,
    VerticalBar,
    Keyword(Keyword),
    Identifier,
    SingleQuotedStringLiteral,
    DoubleQuotedStringLiteral,
    IntegerLiteral,
    DecimalLiteral,
    HexadecimalLiteral,
    ExponentLiteral,
    InlineComment,
}

/// The fixed table of single-character punctuation and operator symbols:
/// which kind, if any, a lone character is tokenized as.
pub open spec fn single_char_kind(c: char) -> Option<TokenKind> {
    if c == '*' {
        Some(TokenKind::Asterisk)
    } else if c == ',' {
        Some(TokenKind::Comma)
    } else if c == ':' {
        Some(TokenKind::Colon)
    } else if c == ';' {
        Some(TokenKind::Semicolon)
    } else if c == '(' {
        Some(TokenKind::LeftParenthesis)
    } else if c == ')' {
        Some(TokenKind::RightParenthesis)
    } else if c == '%' {
        Some(TokenKind::Percent)
    } else if c == '.' {
        Some(TokenKind::Period)
    } else if c == '+' {
        Some(TokenKind::Plus)
    } else if c == '-' {
        Some(TokenKind::Minus)
    } else if c == '/' {
        Some(TokenKind::Solidus)
    } else if c == '<' {
        Some(TokenKind::LessThan)
    } else if c == '>' {
        Some(TokenKind::GreaterThan)
    } else if c == '=' {
        Some(TokenKind::Equals)
    } else if c == '_' {
        Some(TokenKind::Underscore)
    } else if c == '&' {
        Some(TokenKind::Ampersand)
    } else if c == '?' {
        Some(TokenKind::QuestionMark)
    } else if c == '^' {
        Some(TokenKind::Circumflex)
    } else if c == '~' {
        Some(TokenKind::Tilde)
    } else if c == '|' {
        Some(TokenKind::VerticalBar)
    } else {
        None
    }
}

impl TokenKind {
    /// Classifies a lone character against the fixed symbol table.
    pub fn parse_single_character(c: char) -> (r: Option<TokenKind>)
        ensures
            r == single_char_kind(c),
    {
        match c {
            '*' => Some(TokenKind::Asterisk),
            ',' => Some(TokenKind::Comma),
            ':' => Some(TokenKind::Colon),
            ';' => Some(TokenKind::Semicolon),
            '(' => Some(TokenKind::LeftParenthesis),
            ')' => Some(TokenKind::RightParenthesis),
            '%' => Some(TokenKind::Percent),
            '.' => Some(TokenKind::Period),
            '+' => Some(TokenKind::Plus),
            '-' => Some(TokenKind::Minus),
            '/' => Some(TokenKind::Solidus),
            '<' => Some(TokenKind::LessThan),
            '>' => Some(TokenKind::GreaterThan),
            '=' => Some(TokenKind::Equals),
            '_' => Some(TokenKind::Underscore),
            '&' => Some(TokenKind::Ampersand),
            '?' => Some(TokenKind::QuestionMark),
            '^' => Some(TokenKind::Circumflex),
            '~' => Some(TokenKind::Tilde),
            '|' => Some(TokenKind::VerticalBar),
            _ => None,
        }
    }
}

} // verus!
