//! Tokens and their spans: a token is an immutable pair of a byte-offset
//! span into the source buffer and a classification.

use vstd::prelude::*;

use crate::kind::TokenKind;

verus! {

/// A half-open byte-offset range `[start, start + length)` into the source
/// buffer, locating one lexeme.
#[derive(Debug, Clone, Copy, PartialEq, Eq, Structural)]
pub struct Span {
    pub start: usize,
    pub length: usize,
}

impl Span {
    /// The offset one past the last byte of the lexeme.
    pub fn end(&self) -> (r: usize)
        requires
            self.start + self.length <= usize::MAX,
        ensures
            r == self.start + self.length,
    {
        self.start + self.length
    }

    /// The span as a standard half-open index range.
    pub fn range(&self) -> (r: core::ops::Range<usize>)
        requires
            self.start + self.length <= usize::MAX,
        ensures
            r.start == self.start,
            r.end == self.start + self.length,
    {
        self.start..self.end()
    }
}

/// One classified, positioned lexeme of the source text.
#[derive(Debug, Clone, Copy, PartialEq, Eq, Structural)]
pub struct Token {
    pub span: Span,
    pub kind: TokenKind,
}

/// The console escape sequence that opens the highlight for a kind: one
/// fixed marker per classification group.
pub open spec fn highlight_start(kind: TokenKind) -> Seq<char> {
    match kind {
        TokenKind::Keyword(_) => "\u{1b}[1;31m"@,
        TokenKind::Identifier => "\u{1b}[1;34m"@,
        TokenKind::SingleQuotedStringLiteral => "\u{1b}[1;35m"@,
        TokenKind::DoubleQuotedStringLiteral => "\u{1b}[1;35m"@,
        TokenKind::IntegerLiteral => "\u{1b}[1;36m"@,
        TokenKind::DecimalLiteral => "\u{1b}[1;36m"@,
        TokenKind::HexadecimalLiteral => "\u{1b}[1;36m"@,
        TokenKind::ExponentLiteral => "\u{1b}[1;36m"@,
        TokenKind::InlineComment => "\u{1b}[90m"@,
        _ => "\u{1b}[33m"@,
    }
}

/// The console escape sequence that closes any highlight.
pub open spec fn highlight_end() -> Seq<char> {
    "\u{1b}[0m"@
}

impl Token {
    /// The escape sequence to print before this token's lexeme.
    pub fn begin_highlight(&self) -> (r: &'static str)
        ensures
            r@ == highlight_start(self.kind),
    {
        match self.kind {
            TokenKind::Keyword(_) => "\u{1b}[1;31m",
            TokenKind::Identifier => "\u{1b}[1;34m",
            TokenKind::SingleQuotedStringLiteral => "\u{1b}[1;35m",
            TokenKind::DoubleQuotedStringLiteral => "\u{1b}[1;35m",
            TokenKind::IntegerLiteral => "\u{1b}[1;36m",
            TokenKind::DecimalLiteral => "\u{1b}[1;36m",
            TokenKind::HexadecimalLiteral => "\u{1b}[1;36m",
            TokenKind::ExponentLiteral => "\u{1b}[1;36m",
            TokenKind::InlineComment => "\u{1b}[90m",
            _ => "\u{1b}[33m",
        }
    }

    /// The escape sequence to print after this token's lexeme.
    pub fn end_highlight(&self) -> (r: &'static str)
        ensures
            r@ == highlight_end(),
    {
        "\u{1b}[0m"
    }
}

} // verus!
