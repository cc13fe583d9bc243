//! The scanner: a forward-only cursor over a byte buffer that classifies
//! one lexeme per step.
//!
//! The whole scan is modelled by spec functions over the buffer's byte
//! sequence: `skip_ws_end` places the start of the next lexeme,
//! `token_at` gives its kind and end offset, and `token_result` /
//! `next_offset` package the two into the value `next_token` returns and
//! the cursor position it leaves behind.

use vstd::prelude::*;

use crate::keyword::keyword_of;
use crate::keyword::Keyword;
use crate::kind::single_char_kind;
use crate::kind::TokenKind;
use crate::token::Span;
use crate::token::Token;

verus! {

broadcast use vstd::slice::group_slice_axioms;

// ---------------------------------------------------------------------
// Byte classes
// ---------------------------------------------------------------------

/// Whitespace skipped between tokens: space, tab, line feed, carriage
/// return.
pub open spec fn is_ws(b: u8) -> bool {
    b as char == ' ' || b as char == '\t' || b as char == '\n' || b as char == '\r'
}

/// A line terminator, which ends an inline comment.
pub open spec fn is_line_break(b: u8) -> bool {
    b as char == '\r' || b as char == '\n'
}

pub open spec fn is_digit(b: u8) -> bool {
    '0' <= b as char && b as char <= '9'
}

pub open spec fn is_hex_digit(b: u8) -> bool {
    is_digit(b) || ('a' <= b as char && b as char <= 'f') || ('A' <= b as char && b as char <= 'F')
}

pub open spec fn is_alpha(b: u8) -> bool {
    ('a' <= b as char && b as char <= 'z') || ('A' <= b as char && b as char <= 'Z')
}

/// A byte that may continue an identifier: letter, digit or underscore.
pub open spec fn is_ident_byte(b: u8) -> bool {
    is_alpha(b) || is_digit(b) || b as char == '_'
}

/// An exponent marker inside a numeric literal.
pub open spec fn is_exp_byte(b: u8) -> bool {
    b as char == 'e' || b as char == 'E'
}

/// A byte that may continue a numeric literal: digit, decimal point or
/// exponent marker. The run is matched greedily with no well-formedness
/// check.
pub open spec fn is_num_byte(b: u8) -> bool {
    is_digit(b) || b as char == '.' || is_exp_byte(b)
}

/// ASCII uppercasing of one byte; every other byte is unchanged.
pub open spec fn upper(b: u8) -> u8 {
    if 'a' <= b as char && b as char <= 'z' {
        (b - 32) as u8
    } else {
        b
    }
}

/// ASCII uppercasing of a whole lexeme.
pub open spec fn upper_seq(s: Seq<u8>) -> Seq<u8> {
    s.map_values(|b: u8| upper(b))
}

// ---------------------------------------------------------------------
// Run ends: where each lexeme shape stops
// ---------------------------------------------------------------------

/// The first offset at or after `i` holding a non-whitespace byte, or the
/// end of the buffer.
pub open spec fn skip_ws_end(src: Seq<u8>, i: int) -> int
    decreases src.len() - i,
{
    if i < src.len() && 0 <= i && is_ws(src[i]) {
        skip_ws_end(src, i + 1)
    } else {
        i
    }
}

/// The first offset at or after `i` holding a line break, or the end of
/// the buffer: where an inline comment's span stops.
pub open spec fn line_end(src: Seq<u8>, i: int) -> int
    decreases src.len() - i,
{
    if i < src.len() && 0 <= i && !is_line_break(src[i]) {
        line_end(src, i + 1)
    } else {
        i
    }
}

/// One past the first occurrence of the quote byte `q` at or after `i`,
/// or the end of the buffer when the literal is unterminated.
pub open spec fn quote_end(src: Seq<u8>, i: int, q: u8) -> int
    decreases src.len() - i,
{
    if i < src.len() && 0 <= i {
        if src[i] == q {
            i + 1
        } else {
            quote_end(src, i + 1, q)
        }
    } else {
        i
    }
}

/// The end of the maximal run of numeric-literal bytes starting at `i`.
pub open spec fn num_end(src: Seq<u8>, i: int) -> int
    decreases src.len() - i,
{
    if i < src.len() && 0 <= i && is_num_byte(src[i]) {
        num_end(src, i + 1)
    } else {
        i
    }
}

/// The end of the maximal run of hexadecimal digits starting at `i`.
pub open spec fn hex_end(src: Seq<u8>, i: int) -> int
    decreases src.len() - i,
{
    if i < src.len() && 0 <= i && is_hex_digit(src[i]) {
        hex_end(src, i + 1)
    } else {
        i
    }
}

/// The end of the maximal run of identifier bytes starting at `i`.
pub open spec fn ident_end(src: Seq<u8>, i: int) -> int
    decreases src.len() - i,
{
    if i < src.len() && 0 <= i && is_ident_byte(src[i]) {
        ident_end(src, i + 1)
    } else {
        i
    }
}

// ---------------------------------------------------------------------
// Lexeme starts and kinds
// ---------------------------------------------------------------------

/// Two hyphens begin an inline comment.
pub open spec fn comment_starts(src: Seq<u8>, i: int) -> bool {
    0 <= i && i + 1 < src.len() && src[i] as char == '-' && src[i + 1] as char == '-'
}

/// `0x` begins a hexadecimal literal.
pub open spec fn hex_starts(src: Seq<u8>, i: int) -> bool {
    0 <= i && i + 1 < src.len() && src[i] as char == '0' && src[i + 1] as char == 'x'
}

/// A digit begins a plain numeric literal.
pub open spec fn digit_starts(src: Seq<u8>, i: int) -> bool {
    0 <= i && i < src.len() && is_digit(src[i])
}

/// The kind of a numeric run `[i, end)`: the exponent marker outranks the
/// decimal point, which outranks plain digits.
pub open spec fn num_kind(src: Seq<u8>, i: int, end: int) -> TokenKind {
    if exists|j: int| i <= j < end && is_exp_byte(src[j]) {
        TokenKind::ExponentLiteral
    } else if exists|j: int| i <= j < end && src[j] as char == '.' {
        TokenKind::DecimalLiteral
    } else {
        TokenKind::IntegerLiteral
    }
}

/// The kind of an identifier-shaped lexeme: a keyword when its uppercased
/// bytes are in the keyword table, an identifier otherwise.
pub open spec fn ident_kind(lexeme: Seq<u8>) -> TokenKind {
    match keyword_of(upper_seq(lexeme)) {
        Some(kw) => TokenKind::Keyword(kw),
        None => TokenKind::Identifier,
    }
}

/// The token that starts exactly at offset `i`, as its kind and end
/// offset, or `None` when no lexeme shape matches there. The branches are
/// tried in the scanner's fixed precedence order: inline comment, numeric
/// literal, single-character symbol, string literal, identifier or
/// keyword.
pub open spec fn token_at(src: Seq<u8>, i: int) -> Option<(TokenKind, int)> {
    if comment_starts(src, i) {
        Some((TokenKind::InlineComment, line_end(src, i + 2)))
    } else if hex_starts(src, i) {
        Some((TokenKind::HexadecimalLiteral, hex_end(src, i + 2)))
    } else if digit_starts(src, i) {
        Some((num_kind(src, i, num_end(src, i)), num_end(src, i)))
    } else if 0 <= i && i < src.len() && single_char_kind(src[i] as char) is Some {
        Some((single_char_kind(src[i] as char).unwrap(), i + 1))
    } else if 0 <= i && i < src.len() && src[i] as char == '\'' {
        Some((TokenKind::SingleQuotedStringLiteral, quote_end(src, i + 1, src[i])))
    } else if 0 <= i && i < src.len() && src[i] as char == '"' {
        Some((TokenKind::DoubleQuotedStringLiteral, quote_end(src, i + 1, src[i])))
    } else if 0 <= i && i < src.len() && is_alpha(src[i]) {
        Some((ident_kind(src.subrange(i, ident_end(src, i))), ident_end(src, i)))
    } else {
        None
    }
}

/// What `next_token` returns when the cursor stands at `off`: the token
/// starting at the first non-whitespace offset, or `None` when only
/// whitespace remains or no lexeme shape matches.
pub open spec fn token_result(src: Seq<u8>, off: int) -> Option<Token> {
    let i = skip_ws_end(src, off);
    match token_at(src, i) {
        Some((kind, end)) => Some(
            (Token { span: (Span { start: i as usize, length: (end - i) as usize }), kind }),
        ),
        None => None,
    }
}

/// Where `next_token` leaves the cursor when it stood at `off`: one past
/// the emitted token, or at the first non-whitespace offset when nothing
/// was emitted.
pub open spec fn next_offset(src: Seq<u8>, off: int) -> int {
    let i = skip_ws_end(src, off);
    match token_at(src, i) {
        Some((kind, end)) => end,
        None => i,
    }
}

// ---------------------------------------------------------------------
// Bounds of the run ends
// ---------------------------------------------------------------------

/// `skip_ws_end` never moves backward, never passes the end of the
/// buffer, skips only whitespace, and stops on a non-whitespace byte.
pub proof fn lemma_skip_ws_end(src: Seq<u8>, i: int)
    requires
        0 <= i <= src.len(),
    ensures
        i <= skip_ws_end(src, i) <= src.len(),
        forall|j: int| i <= j < skip_ws_end(src, i) ==> is_ws(src[j]),
        skip_ws_end(src, i) == src.len() || !is_ws(src[skip_ws_end(src, i)]),
    decreases src.len() - i,
{
    if i < src.len() && is_ws(src[i]) {
        lemma_skip_ws_end(src, i + 1);
    }
}

/// `line_end` stays within `[i, len]`, passes no line break, and stops on
/// one or at the end of the buffer.
pub proof fn lemma_line_end(src: Seq<u8>, i: int)
    requires
        0 <= i <= src.len(),
    ensures
        i <= line_end(src, i) <= src.len(),
        forall|j: int| i <= j < line_end(src, i) ==> !is_line_break(src[j]),
        line_end(src, i) == src.len() || is_line_break(src[line_end(src, i)]),
    decreases src.len() - i,
{
    if i < src.len() && !is_line_break(src[i]) {
        lemma_line_end(src, i + 1);
    }
}

/// `quote_end` stays within `[i, len]`, passes no occurrence of the quote
/// byte, and stops one past the first occurrence or at the end of the
/// buffer.
pub proof fn lemma_quote_end(src: Seq<u8>, i: int, q: u8)
    requires
        0 <= i <= src.len(),
    ensures
        i <= quote_end(src, i, q) <= src.len(),
        forall|j: int| i <= j < quote_end(src, i, q) - 1 ==> src[j] != q,
        (quote_end(src, i, q) > i && src[quote_end(src, i, q) - 1] == q) || (quote_end(src, i, q)
            == src.len() && (forall|j: int| i <= j < src.len() ==> src[j] != q)),
    decreases src.len() - i,
{
    if i < src.len() && src[i] != q {
        lemma_quote_end(src, i + 1, q);
    }
}

/// `num_end` stays within `[i, len]`, covers only numeric-literal bytes,
/// and stops on a byte that cannot continue the literal.
pub proof fn lemma_num_end(src: Seq<u8>, i: int)
    requires
        0 <= i <= src.len(),
    ensures
        i <= num_end(src, i) <= src.len(),
        forall|j: int| i <= j < num_end(src, i) ==> is_num_byte(src[j]),
        num_end(src, i) == src.len() || !is_num_byte(src[num_end(src, i)]),
    decreases src.len() - i,
{
    if i < src.len() && is_num_byte(src[i]) {
        lemma_num_end(src, i + 1);
    }
}

/// `hex_end` stays within `[i, len]`, covers only hexadecimal digits, and
/// stops on a byte that is none.
pub proof fn lemma_hex_end(src: Seq<u8>, i: int)
    requires
        0 <= i <= src.len(),
    ensures
        i <= hex_end(src, i) <= src.len(),
        forall|j: int| i <= j < hex_end(src, i) ==> is_hex_digit(src[j]),
        hex_end(src, i) == src.len() || !is_hex_digit(src[hex_end(src, i)]),
    decreases src.len() - i,
{
    if i < src.len() && is_hex_digit(src[i]) {
        lemma_hex_end(src, i + 1);
    }
}

/// `ident_end` stays within `[i, len]`, covers only identifier bytes, and
/// stops on a byte that cannot continue an identifier.
pub proof fn lemma_ident_end(src: Seq<u8>, i: int)
    requires
        0 <= i <= src.len(),
    ensures
        i <= ident_end(src, i) <= src.len(),
        forall|j: int| i <= j < ident_end(src, i) ==> is_ident_byte(src[j]),
        ident_end(src, i) == src.len() || !is_ident_byte(src[ident_end(src, i)]),
    decreases src.len() - i,
{
    if i < src.len() && is_ident_byte(src[i]) {
        lemma_ident_end(src, i + 1);
    }
}

/// Every emitted token is non-empty and ends within the buffer: the
/// cursor strictly advances past each token and never leaves the buffer.
pub proof fn lemma_token_at_bounds(src: Seq<u8>, i: int)
    requires
        0 <= i <= src.len(),
        token_at(src, i) is Some,
    ensures
        i < token_at(src, i).unwrap().1 <= src.len(),
{
    if comment_starts(src, i) {
        lemma_line_end(src, i + 2);
    } else if hex_starts(src, i) {
        lemma_hex_end(src, i + 2);
    } else if digit_starts(src, i) {
        lemma_num_end(src, i);
        assert(is_num_byte(src[i]));
    } else if i < src.len() && single_char_kind(src[i] as char) is Some {
    } else if i < src.len() && (src[i] as char == '\'' || src[i] as char == '"') {
        lemma_quote_end(src, i + 1, src[i]);
    } else {
        lemma_ident_end(src, i);
        assert(is_ident_byte(src[i]));
    }
}

// ---------------------------------------------------------------------
// The scanner
// ---------------------------------------------------------------------

/// A forward-only cursor over a borrowed source buffer. Each call of
/// `next_token` classifies the lexeme at the cursor and advances past it;
/// the cursor never moves backward.
pub struct Lexer<'a> {
    source: &'a [u8],
    offset: usize,
}

impl<'a> Lexer<'a> {
    /// The bytes of the source buffer.
    pub closed spec fn src(self) -> Seq<u8> {
        self.source@
    }

    /// The cursor: the byte offset scanning resumes from.
    pub closed spec fn pos(self) -> int {
        self.offset as int
    }

    /// The cursor stays within the buffer.
    pub open spec fn wf(self) -> bool {
        self.pos() <= self.src().len()
    }

    /// A fresh scanner positioned at the start of the buffer.
    pub fn new(source: &'a [u8]) -> (r: Lexer<'a>)
        ensures
            r.src() == source@,
            r.pos() == 0,
            r.wf(),
    {
        Lexer { source, offset: 0 }
    }

    /// The byte under the cursor, or `None` at the end of the buffer.
    fn peek(&self) -> (r: Option<u8>)
        requires
            self.wf(),
        ensures
            self.pos() < self.src().len() ==> r == Some(self.src()[self.pos()]),
            self.pos() == self.src().len() ==> r is None,
    {
        if self.offset < self.source.len() {
            Some(self.source[self.offset])
        } else {
            None
        }
    }

    /// The byte `ahead` positions past the cursor, or `None` when that
    /// offset is outside the buffer.
    fn peek_ahead(&self, ahead: usize) -> (r: Option<u8>)
        requires
            self.wf(),
            self.pos() + ahead <= usize::MAX,
        ensures
            self.pos() + ahead < self.src().len() ==> r == Some(self.src()[self.pos() + ahead]),
            self.pos() + ahead >= self.src().len() ==> r is None,
    {
        if self.offset + ahead < self.source.len() {
            Some(self.source[self.offset + ahead])
        } else {
            None
        }
    }

    /// Moves the cursor one byte forward.
    fn advance(&mut self)
        requires
            old(self).wf(),
            old(self).pos() < old(self).src().len(),
        ensures
            final(self).src() == old(self).src(),
            final(self).pos() == old(self).pos() + 1,
            final(self).wf(),
    {
        let n: usize = self.source.len();
        assert(self.offset < n);
        self.offset = self.offset + 1;
    }

    /// Advances the cursor past every consecutive whitespace byte without
    /// emitting anything.
    fn skip_whitespace(&mut self)
        requires
            old(self).wf(),
        ensures
            final(self).src() == old(self).src(),
            final(self).pos() == skip_ws_end(old(self).src(), old(self).pos()),
            final(self).wf(),
    {
        #[verifier::loop_isolation(false)]
        while self.offset < self.source.len() && byte_is_ws(self.source[self.offset])
            invariant
                self.wf(),
                self.src() == old(self).src(),
                skip_ws_end(self.src(), self.pos()) == skip_ws_end(
                    old(self).src(),
                    old(self).pos(),
                ),
            decreases self.src().len() - self.pos(),
        {
            self.advance();
        }
    }

    /// Emits an inline comment when two hyphens stand at the cursor: the
    /// token runs from the hyphens to just before the next line break or
    /// to the end of the buffer.
    #[verifier::loop_isolation(false)]
    fn lex_inline_comment(&mut self) -> (r: Option<Token>)
        requires
            old(self).wf(),
        ensures
            final(self).src() == old(self).src(),
            final(self).wf(),
            comment_starts(old(self).src(), old(self).pos()) ==> {
                let e = line_end(old(self).src(), old(self).pos() + 2);
                &&& r == Some(
                    (Token {
                        span: (Span {
                            start: old(self).pos() as usize,
                            length: (e - old(self).pos()) as usize,
                        }),
                        kind: TokenKind::InlineComment,
                    }),
                )
                &&& final(self).pos() == e
            },
            !comment_starts(old(self).src(), old(self).pos()) ==> r is None && final(self).pos()
                == old(self).pos(),
    {
        let initial_offset = self.offset;
        let c0 = match self.peek() {
            Some(b) => b,
            None => {
                return None;
            },
        };
        let n: usize = self.source.len();
        assert(self.offset < n);
        let c1 = match self.peek_ahead(1) {
            Some(b) => b,
            None => {
                return None;
            },
        };
        if !(c0 as char == '-' && c1 as char == '-') {
            return None;
        }
        self.advance();
        self.advance();
        proof {
            lemma_line_end(self.src(), self.pos());
        }
        while self.offset < self.source.len() && !byte_is_line_break(self.source[self.offset])
            invariant
                self.wf(),
                self.src() == old(self).src(),
                initial_offset + 2 <= self.pos(),
                line_end(self.src(), self.pos()) == line_end(
                    self.src(),
                    initial_offset as int + 2,
                ),
            decreases self.src().len() - self.pos(),
        {
            self.advance();
        }
        Some(
            Token {
                kind: TokenKind::InlineComment,
                span: Span { start: initial_offset, length: self.offset - initial_offset },
            },
        )
    }

    /// Emits the token for one punctuation or operator symbol when the
    /// byte at the cursor is in the fixed single-character table.
    fn lex_single_character_token(&mut self) -> (r: Option<Token>)
        requires
            old(self).wf(),
        ensures
            final(self).src() == old(self).src(),
            final(self).wf(),
            (old(self).pos() < old(self).src().len() && single_char_kind(
                old(self).src()[old(self).pos()] as char,
            ) is Some) ==> {
                &&& r == Some(
                    (Token {
                        span: (Span { start: old(self).pos() as usize, length: 1 }),
                        kind: single_char_kind(old(self).src()[old(self).pos()] as char).unwrap(),
                    }),
                )
                &&& final(self).pos() == old(self).pos() + 1
            },
            !(old(self).pos() < old(self).src().len() && single_char_kind(
                old(self).src()[old(self).pos()] as char,
            ) is Some) ==> r is None && final(self).pos() == old(self).pos(),
    {
        let initial_offset = self.offset;
        let c0 = match self.peek() {
            Some(b) => b,
            None => {
                return None;
            },
        };
        match TokenKind::parse_single_character(c0 as char) {
            Some(kind) => {
                self.advance();
                Some(
                    Token {
                        kind,
                        span: Span {
                            start: initial_offset,
                            length: self.offset - initial_offset,
                        },
                    },
                )
            },
            None => None,
        }
    }

    /// Emits a string literal when a quote stands at the cursor: the token
    /// includes both quotes, or runs to the end of the buffer when the
    /// literal is unterminated.
    #[verifier::loop_isolation(false)]
    fn lex_string_literal(&mut self) -> (r: Option<Token>)
        requires
            old(self).wf(),
        ensures
            final(self).src() == old(self).src(),
            final(self).wf(),
            (old(self).pos() < old(self).src().len() && (old(self).src()[old(self).pos()] as char
                == '\'' || old(self).src()[old(self).pos()] as char == '"')) ==> {
                let q = old(self).src()[old(self).pos()];
                let e = quote_end(old(self).src(), old(self).pos() + 1, q);
                &&& r == Some(
                    (Token {
                        span: (Span {
                            start: old(self).pos() as usize,
                            length: (e - old(self).pos()) as usize,
                        }),
                        kind: if q as char == '\'' {
                            TokenKind::SingleQuotedStringLiteral
                        } else {
                            TokenKind::DoubleQuotedStringLiteral
                        },
                    }),
                )
                &&& final(self).pos() == e
            },
            !(old(self).pos() < old(self).src().len() && (old(self).src()[old(self).pos()] as char
                == '\'' || old(self).src()[old(self).pos()] as char == '"')) ==> r is None
                && final(self).pos() == old(self).pos(),
    {
        let initial_offset = self.offset;
        let c0 = match self.peek() {
            Some(b) => b,
            None => {
                return None;
            },
        };
        let kind = if c0 as char == '"' {
            TokenKind::DoubleQuotedStringLiteral
        } else if c0 as char == '\'' {
            TokenKind::SingleQuotedStringLiteral
        } else {
            return None;
        };
        self.advance();
        while self.offset < self.source.len() && self.source[self.offset] != c0
            invariant
                self.wf(),
                self.src() == old(self).src(),
                initial_offset + 1 <= self.pos(),
                quote_end(self.src(), self.pos(), c0) == quote_end(
                    self.src(),
                    initial_offset as int + 1,
                    c0,
                ),
            decreases self.src().len() - self.pos(),
        {
            self.advance();
        }
        if self.offset < self.source.len() {
            self.advance();
        }
        Some(
            Token {
                kind,
                span: Span { start: initial_offset, length: self.offset - initial_offset },
            },
        )
    }

    /// Emits a hexadecimal literal when `0x` stands at the cursor: the
    /// token covers the marker and the maximal run of hexadecimal digits
    /// after it.
    #[verifier::loop_isolation(false)]
    fn lex_hexadecimal_literal(&mut self) -> (r: Option<Token>)
        requires
            old(self).wf(),
        ensures
            final(self).src() == old(self).src(),
            final(self).wf(),
            hex_starts(old(self).src(), old(self).pos()) ==> {
                let e = hex_end(old(self).src(), old(self).pos() + 2);
                &&& r == Some(
                    (Token {
                        span: (Span {
                            start: old(self).pos() as usize,
                            length: (e - old(self).pos()) as usize,
                        }),
                        kind: TokenKind::HexadecimalLiteral,
                    }),
                )
                &&& final(self).pos() == e
            },
            !hex_starts(old(self).src(), old(self).pos()) ==> r is None && final(self).pos()
                == old(self).pos(),
    {
        let initial_offset = self.offset;
        let c0 = match self.peek() {
            Some(b) => b,
            None => {
                return None;
            },
        };
        let n: usize = self.source.len();
        assert(self.offset < n);
        let c1 = match self.peek_ahead(1) {
            Some(b) => b,
            None => {
                return None;
            },
        };
        if !(c0 as char == '0' && c1 as char == 'x') {
            return None;
        }
        self.advance();
        self.advance();
        while self.offset < self.source.len() && byte_is_hex_digit(self.source[self.offset])
            invariant
                self.wf(),
                self.src() == old(self).src(),
                initial_offset + 2 <= self.pos(),
                hex_end(self.src(), self.pos()) == hex_end(self.src(), initial_offset as int + 2),
            decreases self.src().len() - self.pos(),
        {
            self.advance();
        }
        Some(
            Token {
                kind: TokenKind::HexadecimalLiteral,
                span: Span { start: initial_offset, length: self.offset - initial_offset },
            },
        )
    }

    /// Emits a numeric literal when a digit stands at the cursor (or a
    /// hexadecimal literal when `0x` does). The token covers the maximal
    /// run of digits, decimal points and exponent markers; the exponent
    /// marker outranks the decimal point when choosing the kind, and the
    /// shape is matched greedily with no well-formedness check.
    #[verifier::loop_isolation(false)]
    fn lex_numeric_literal(&mut self) -> (r: Option<Token>)
        requires
            old(self).wf(),
        ensures
            final(self).src() == old(self).src(),
            final(self).wf(),
            hex_starts(old(self).src(), old(self).pos()) ==> {
                let e = hex_end(old(self).src(), old(self).pos() + 2);
                &&& r == Some(
                    (Token {
                        span: (Span {
                            start: old(self).pos() as usize,
                            length: (e - old(self).pos()) as usize,
                        }),
                        kind: TokenKind::HexadecimalLiteral,
                    }),
                )
                &&& final(self).pos() == e
            },
            (!hex_starts(old(self).src(), old(self).pos()) && digit_starts(
                old(self).src(),
                old(self).pos(),
            )) ==> {
                let e = num_end(old(self).src(), old(self).pos());
                &&& r == Some(
                    (Token {
                        span: (Span {
                            start: old(self).pos() as usize,
                            length: (e - old(self).pos()) as usize,
                        }),
                        kind: num_kind(old(self).src(), old(self).pos(), e),
                    }),
                )
                &&& final(self).pos() == e
            },
            (!hex_starts(old(self).src(), old(self).pos()) && !digit_starts(
                old(self).src(),
                old(self).pos(),
            )) ==> r is None && final(self).pos() == old(self).pos(),
    {
        let initial_offset = self.offset;
        let c0 = match self.peek() {
            Some(b) => b,
            None => {
                return None;
            },
        };
        let n: usize = self.source.len();
        assert(self.offset < n);
        if c0 as char == '0' && self.offset + 1 < n && self.source[self.offset + 1] as char
            == 'x' {
            return self.lex_hexadecimal_literal();
        }
        if !byte_is_digit(c0) {
            return None;
        }
        let mut seen_dot = false;
        let mut seen_exp = false;
        while self.offset < self.source.len() && byte_is_num(self.source[self.offset])
            invariant
                self.wf(),
                self.src() == old(self).src(),
                initial_offset <= self.pos(),
                num_end(self.src(), self.pos()) == num_end(self.src(), initial_offset as int),
                seen_exp == exists|j: int|
                    initial_offset <= j < self.pos() && is_exp_byte(#[trigger] self.src()[j]),
                seen_dot == exists|j: int|
                    initial_offset <= j < self.pos() && (#[trigger] self.src()[j]) as char == '.',
            decreases self.src().len() - self.pos(),
        {
            let b = self.source[self.offset];
            if b as char == '.' {
                seen_dot = true;
            } else if b as char == 'e' || b as char == 'E' {
                seen_exp = true;
            }
            self.advance();
        }
        let kind = if seen_exp {
            TokenKind::ExponentLiteral
        } else if seen_dot {
            TokenKind::DecimalLiteral
        } else {
            TokenKind::IntegerLiteral
        };
        Some(
            Token {
                kind,
                span: Span { start: initial_offset, length: self.offset - initial_offset },
            },
        )
    }

    /// Emits an identifier or keyword when a letter stands at the cursor:
    /// the token covers the maximal run of letters, digits and
    /// underscores, and is a keyword exactly when its uppercased bytes
    /// are in the keyword table.
    #[verifier::loop_isolation(false)]
    fn lex_identifier_or_keyword(&mut self) -> (r: Option<Token>)
        requires
            old(self).wf(),
        ensures
            final(self).src() == old(self).src(),
            final(self).wf(),
            (old(self).pos() < old(self).src().len() && is_alpha(
                old(self).src()[old(self).pos()],
            )) ==> {
                let e = ident_end(old(self).src(), old(self).pos());
                &&& r == Some(
                    (Token {
                        span: (Span {
                            start: old(self).pos() as usize,
                            length: (e - old(self).pos()) as usize,
                        }),
                        kind: ident_kind(old(self).src().subrange(old(self).pos(), e)),
                    }),
                )
                &&& final(self).pos() == e
            },
            !(old(self).pos() < old(self).src().len() && is_alpha(
                old(self).src()[old(self).pos()],
            )) ==> r is None && final(self).pos() == old(self).pos(),
    {
        let initial_offset = self.offset;
        let c0 = match self.peek() {
            Some(b) => b,
            None => {
                return None;
            },
        };
        if !((c0 as char >= 'a' && c0 as char <= 'z') || (c0 as char >= 'A' && c0 as char
            <= 'Z')) {
            return None;
        }
        while self.offset < self.source.len() && byte_is_ident(self.source[self.offset])
            invariant
                self.wf(),
                self.src() == old(self).src(),
                initial_offset <= self.pos(),
                ident_end(self.src(), self.pos()) == ident_end(self.src(), initial_offset as int),
            decreases self.src().len() - self.pos(),
        {
            self.advance();
        }
        let mut upper_word: Vec<u8> = Vec::new();
        let mut k = initial_offset;
        while k < self.offset
            invariant
                self.wf(),
                self.src() == old(self).src(),
                initial_offset <= k <= self.pos(),
                upper_word@ == upper_seq(self.src().subrange(initial_offset as int, k as int)),
            decreases self.pos() - k,
        {
            let b = byte_upper(self.source[k]);
            upper_word.push(b);
            proof {
                assert(self.src().subrange(initial_offset as int, k + 1) =~= self.src().subrange(
                    initial_offset as int,
                    k as int,
                ).push(self.src()[k as int]));
                assert(upper_word@ =~= upper_seq(
                    self.src().subrange(initial_offset as int, k + 1),
                ));
            }
            k = k + 1;
        }
        let kind = match Keyword::parse(upper_word.as_slice()) {
            Some(kw) => TokenKind::Keyword(kw),
            None => TokenKind::Identifier,
        };
        Some(
            Token {
                kind,
                span: Span { start: initial_offset, length: self.offset - initial_offset },
            },
        )
    }

    /// Returns the next token, advancing the cursor past it; returns
    /// `None` exactly when no token can start at the remaining input:
    /// only whitespace or nothing remains, or the byte after the
    /// whitespace matches no lexeme shape. The cursor never moves
    /// backward.
    pub fn next_token(&mut self) -> (r: Option<Token>)
        requires
            old(self).wf(),
        ensures
            final(self).src() == old(self).src(),
            final(self).wf(),
            r == token_result(old(self).src(), old(self).pos()),
            final(self).pos() == next_offset(old(self).src(), old(self).pos()),
            old(self).pos() <= final(self).pos(),
    {
        proof {
            lemma_skip_ws_end(self.src(), self.pos());
            let i = skip_ws_end(self.src(), self.pos());
            if token_at(self.src(), i) is Some {
                lemma_token_at_bounds(self.src(), i);
            }
        }
        self.skip_whitespace();
        if let Some(token) = self.lex_inline_comment() {
            return Some(token);
        }
        if let Some(token) = self.lex_numeric_literal() {
            return Some(token);
        }
        if let Some(token) = self.lex_single_character_token() {
            return Some(token);
        }
        if let Some(token) = self.lex_string_literal() {
            return Some(token);
        }
        if let Some(token) = self.lex_identifier_or_keyword() {
            return Some(token);
        }
        None
    }

    /// Computes the same result as `next_token` but restores the cursor
    /// to its position before the call: a one-token lookahead.
    pub fn peek_next(&mut self) -> (r: Option<Token>)
        requires
            old(self).wf(),
        ensures
            final(self).src() == old(self).src(),
            final(self).pos() == old(self).pos(),
            final(self).wf(),
            r == token_result(old(self).src(), old(self).pos()),
    {
        let old_offset = self.offset;
        let next_token = self.next_token();
        self.offset = old_offset;
        next_token
    }
}

/// Whether a byte is whitespace skipped between tokens.
fn byte_is_ws(b: u8) -> (r: bool)
    ensures
        r == is_ws(b),
{
    b as char == ' ' || b as char == '\t' || b as char == '\n' || b as char == '\r'
}

/// Whether a byte is a line terminator.
fn byte_is_line_break(b: u8) -> (r: bool)
    ensures
        r == is_line_break(b),
{
    b as char == '\r' || b as char == '\n'
}

/// Whether a byte is an ASCII decimal digit.
fn byte_is_digit(b: u8) -> (r: bool)
    ensures
        r == is_digit(b),
{
    b as char >= '0' && b as char <= '9'
}

/// Whether a byte is an ASCII hexadecimal digit.
fn byte_is_hex_digit(b: u8) -> (r: bool)
    ensures
        r == is_hex_digit(b),
{
    byte_is_digit(b) || (b as char >= 'a' && b as char <= 'f') || (b as char >= 'A' && b as char
        <= 'F')
}

/// Whether a byte may continue a numeric literal.
fn byte_is_num(b: u8) -> (r: bool)
    ensures
        r == is_num_byte(b),
{
    byte_is_digit(b) || b as char == '.' || b as char == 'e' || b as char == 'E'
}

/// Whether a byte may continue an identifier.
fn byte_is_ident(b: u8) -> (r: bool)
    ensures
        r == is_ident_byte(b),
{
    byte_is_digit(b) || (b as char >= 'a' && b as char <= 'z') || (b as char >= 'A' && b as char
        <= 'Z') || b as char == '_'
}

/// ASCII uppercasing of one byte.
fn byte_upper(b: u8) -> (r: u8)
    ensures
        r == upper(b),
{
    if b as char >= 'a' && b as char <= 'z' {
        b - 32
    } else {
        b
    }
}

// ---------------------------------------------------------------------
// Laws of the scanner
// ---------------------------------------------------------------------

/// On input that holds only whitespace, the very first `next_token` call
/// returns `None`, from any starting offset.
pub proof fn lemma_whitespace_only_yields_none(src: Seq<u8>, off: int)
    requires
        0 <= off <= src.len(),
        forall|j: int| 0 <= j < src.len() ==> is_ws(#[trigger] src[j]),
    ensures
        token_result(src, off) is None,
{
    lemma_skip_ws_end(src, off);
}

/// A maximal identifier run is emitted as exactly one token: scanning at
/// a letter yields a token whose span covers the whole run of letters,
/// digits and underscores, stopping only where no identifier byte
/// follows. No keyword boundary ever splits the run.
pub proof fn lemma_identifier_run_single_token(src: Seq<u8>, i: int)
    requires
        0 <= i < src.len(),
        is_alpha(src[i]),
    ensures
        token_at(src, i) == Some(
            ((ident_kind(src.subrange(i, ident_end(src, i)))), ident_end(src, i)),
        ),
        i < ident_end(src, i) <= src.len(),
        forall|j: int| i <= j < ident_end(src, i) ==> is_ident_byte(#[trigger] src[j]),
        ident_end(src, i) == src.len() || !is_ident_byte(src[ident_end(src, i)]),
{
    lemma_ident_end(src, i);
}

/// Keyword classification is case-insensitive: two lexemes with the same
/// uppercased bytes are classified alike, keyword or identifier.
pub proof fn lemma_keyword_case_insensitive(a: Seq<u8>, b: Seq<u8>)
    requires
        upper_seq(a) == upper_seq(b),
    ensures
        ident_kind(a) == ident_kind(b),
{
}

/// `quote_end` stops one past the first occurrence of the quote byte.
proof fn lemma_quote_end_finds_first(src: Seq<u8>, i: int, q: u8, close: int)
    requires
        0 <= i <= close < src.len(),
        src[close] == q,
        forall|j: int| i <= j < close ==> src[j] != q,
    ensures
        quote_end(src, i, q) == close + 1,
    decreases close - i,
{
    if src[i] != q {
        lemma_quote_end_finds_first(src, i + 1, q, close);
    }
}

/// A balanced quoted literal is emitted as one token whose span starts
/// at the opening quote and ends one past the closing quote, both quote
/// characters included.
pub proof fn lemma_balanced_quote_span(src: Seq<u8>, i: int, close: int)
    requires
        0 <= i < close < src.len(),
        src[i] as char == '\'' || src[i] as char == '"',
        src[close] == src[i],
        forall|j: int| i < j < close ==> src[j] != src[i],
    ensures
        token_at(src, i) == Some(
            (
                (if src[i] as char == '\'' {
                    TokenKind::SingleQuotedStringLiteral
                } else {
                    TokenKind::DoubleQuotedStringLiteral
                }),
                close + 1,
            ),
        ),
{
    lemma_quote_end_finds_first(src, i + 1, src[i], close);
}

/// An inline comment is emitted as one token that runs from the two
/// hyphens to just before the next line break, or to the end of the
/// buffer when no line break follows.
pub proof fn lemma_inline_comment_span(src: Seq<u8>, i: int)
    requires
        comment_starts(src, i),
    ensures
        token_at(src, i) == Some((TokenKind::InlineComment, line_end(src, i + 2))),
        i + 2 <= line_end(src, i + 2) <= src.len(),
        forall|j: int| i + 2 <= j < line_end(src, i + 2) ==> !is_line_break(#[trigger] src[j]),
        line_end(src, i + 2) == src.len() || is_line_break(src[line_end(src, i + 2)]),
{
    lemma_line_end(src, i + 2);
}

/// The text rebuilt by driving the scanner from offset `off`:
/// the inter-token gap before each emitted token, then the source slice
/// the token's span locates, then the rest of the stream, and after the
/// last token whatever tail the scanner left unconsumed.
pub open spec fn reconstruct(src: Seq<u8>, off: int) -> Seq<u8>
    decreases src.len() - off
        when 0 <= off <= src.len() && src.len() <= usize::MAX
        via reconstruct_decreases
{
    match token_result(src, off) {
        Some(t) => src.subrange(off, t.span.start as int) + src.subrange(
            t.span.start as int,
            t.span.start + t.span.length,
        ) + reconstruct(src, next_offset(src, off)),
        None => src.subrange(off, src.len() as int),
    }
}

#[via_fn]
proof fn reconstruct_decreases(src: Seq<u8>, off: int) {
    lemma_skip_ws_end(src, off);
    let i = skip_ws_end(src, off);
    if token_at(src, i) is Some {
        lemma_token_at_bounds(src, i);
    }
}

/// Round trip: concatenating, in order, the source slices located by the
/// spans of every successive `next_token` result, together with the
/// inter-token gaps, reproduces the scanned part of the source exactly.
pub proof fn lemma_reconstruct_tail(src: Seq<u8>, off: int)
    requires
        0 <= off <= src.len(),
        src.len() <= usize::MAX,
    ensures
        reconstruct(src, off) == src.subrange(off, src.len() as int),
    decreases src.len() - off,
{
    lemma_skip_ws_end(src, off);
    let i = skip_ws_end(src, off);
    match token_at(src, i) {
        Some((kind, end)) => {
            lemma_token_at_bounds(src, i);
            lemma_reconstruct_tail(src, end);
            assert(src.subrange(off, i) + src.subrange(i, end) + src.subrange(
                end,
                src.len() as int,
            ) =~= src.subrange(off, src.len() as int));
        },
        None => {},
    }
}

/// Round trip over the whole buffer: driving the scanner from the start
/// and splicing gaps and token slices back together reproduces the
/// source text exactly.
pub proof fn lemma_round_trip(src: Seq<u8>)
    requires
        src.len() <= usize::MAX,
    ensures
        reconstruct(src, 0) == src,
{
    lemma_reconstruct_tail(src, 0);
    assert(src.subrange(0, src.len() as int) =~= src);
}

} // verus!
