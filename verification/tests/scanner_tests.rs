use sql_lexer::keyword::Keyword;
use sql_lexer::kind::TokenKind;
use sql_lexer::token::{Span, Token};
use sql_lexer::tokenizer::Lexer;

fn tokens_of(source: &[u8]) -> Vec<Token> {
    let mut lexer = Lexer::new(source);
    let mut out = Vec::new();
    while let Some(token) = lexer.next_token() {
        out.push(token);
    }
    out
}

fn kinds_of(source: &[u8]) -> Vec<TokenKind> {
    tokens_of(source).iter().map(|t| t.kind).collect()
}

#[test]
fn empty_input_yields_none() {
    let mut lexer = Lexer::new(b"");
    assert_eq!(lexer.next_token(), None);
}

#[test]
fn whitespace_only_yields_none_on_first_call() {
    for source in [&b"   "[..], b"\t", b"\r\n", b" \t \n \r ", b"\n\n\n"] {
        let mut lexer = Lexer::new(source);
        assert_eq!(lexer.next_token(), None);
    }
}

#[test]
fn select_statement_kinds_and_spans() {
    let tokens = tokens_of(b"SELECT id, name FROM users;");
    let expected = [
        (TokenKind::Keyword(Keyword::Select), 0, 6),
        (TokenKind::Identifier, 7, 2),
        (TokenKind::Comma, 9, 1),
        (TokenKind::Identifier, 11, 4),
        (TokenKind::Keyword(Keyword::From), 16, 4),
        (TokenKind::Identifier, 21, 5),
        (TokenKind::Semicolon, 26, 1),
    ];
    assert_eq!(tokens.len(), expected.len());
    for (token, (kind, start, length)) in tokens.iter().zip(expected.iter()) {
        assert_eq!(token.kind, *kind);
        assert_eq!(token.span.start, *start);
        assert_eq!(token.span.length, *length);
    }
}

#[test]
fn hexadecimal_literal_spans_whole_lexeme() {
    let tokens = tokens_of(b"0x1A3");
    assert_eq!(tokens.len(), 1);
    assert_eq!(tokens[0].kind, TokenKind::HexadecimalLiteral);
    assert_eq!(tokens[0].span, Span { start: 0, length: 5 });
}

#[test]
fn exponent_marker_outranks_decimal_point() {
    let tokens = tokens_of(b"12.5e10");
    assert_eq!(tokens.len(), 1);
    assert_eq!(tokens[0].kind, TokenKind::ExponentLiteral);
    assert_eq!(tokens[0].span, Span { start: 0, length: 7 });

    // The exponent marker wins in either order of appearance.
    let tokens = tokens_of(b"12e5.3");
    assert_eq!(tokens.len(), 1);
    assert_eq!(tokens[0].kind, TokenKind::ExponentLiteral);
    assert_eq!(tokens[0].span, Span { start: 0, length: 6 });
}

#[test]
fn integer_and_decimal_literals() {
    assert_eq!(kinds_of(b"123"), vec![TokenKind::IntegerLiteral]);
    assert_eq!(kinds_of(b"12.5"), vec![TokenKind::DecimalLiteral]);
    assert_eq!(kinds_of(b"12e5"), vec![TokenKind::ExponentLiteral]);
    assert_eq!(kinds_of(b"0"), vec![TokenKind::IntegerLiteral]);
}

#[test]
fn hexadecimal_needs_lowercase_marker() {
    // An uppercase X is no hexadecimal marker: the zero is an integer
    // literal and X1 an identifier.
    let tokens = tokens_of(b"0X1");
    assert_eq!(tokens.len(), 2);
    assert_eq!(tokens[0].kind, TokenKind::IntegerLiteral);
    assert_eq!(tokens[0].span, Span { start: 0, length: 1 });
    assert_eq!(tokens[1].kind, TokenKind::Identifier);
    assert_eq!(tokens[1].span, Span { start: 1, length: 2 });
}

#[test]
fn hexadecimal_marker_alone_is_a_token() {
    let tokens = tokens_of(b"0x");
    assert_eq!(tokens.len(), 1);
    assert_eq!(tokens[0].kind, TokenKind::HexadecimalLiteral);
    assert_eq!(tokens[0].span, Span { start: 0, length: 2 });
}

#[test]
fn hexadecimal_run_is_maximal() {
    let tokens = tokens_of(b"0x1A3zz");
    assert_eq!(tokens.len(), 2);
    assert_eq!(tokens[0].kind, TokenKind::HexadecimalLiteral);
    assert_eq!(tokens[0].span, Span { start: 0, length: 5 });
    assert_eq!(tokens[1].kind, TokenKind::Identifier);
    assert_eq!(tokens[1].span, Span { start: 5, length: 2 });
}

#[test]
fn keyword_match_is_case_insensitive() {
    for source in [&b"select"[..], b"Select", b"SELECT", b"sElEcT"] {
        let tokens = tokens_of(source);
        assert_eq!(tokens.len(), 1);
        assert_eq!(tokens[0].kind, TokenKind::Keyword(Keyword::Select));
        assert_eq!(tokens[0].span, Span { start: 0, length: 6 });
    }
    for source in [&b"from"[..], b"FROM", b"FrOm"] {
        assert_eq!(kinds_of(source), vec![TokenKind::Keyword(Keyword::From)]);
    }
}

#[test]
fn keyword_match_is_exact() {
    // A keyword followed by more identifier characters is one
    // identifier, never a keyword plus residue.
    let tokens = tokens_of(b"selected");
    assert_eq!(tokens.len(), 1);
    assert_eq!(tokens[0].kind, TokenKind::Identifier);
    assert_eq!(tokens[0].span, Span { start: 0, length: 8 });

    let tokens = tokens_of(b"SELECTX");
    assert_eq!(tokens.len(), 1);
    assert_eq!(tokens[0].kind, TokenKind::Identifier);
    assert_eq!(tokens[0].span, Span { start: 0, length: 7 });
}

#[test]
fn every_keyword_is_recognized() {
    let cases = [
        (&b"SELECT"[..], Keyword::Select),
        (b"FROM", Keyword::From),
        (b"CREATE", Keyword::Create),
        (b"TABLE", Keyword::Table),
        (b"INT", Keyword::Int),
        (b"PRIMARY", Keyword::Primary),
        (b"KEY", Keyword::Key),
        (b"VARCHAR", Keyword::Varchar),
        (b"DATE", Keyword::Date),
        (b"DECIMAL", Keyword::Decimal),
        (b"INSERT", Keyword::Insert),
        (b"INTO", Keyword::Into),
        (b"VALUE", Keyword::Value),
        (b"VALUES", Keyword::Values),
    ];
    for (source, keyword) in cases {
        assert_eq!(kinds_of(source), vec![TokenKind::Keyword(keyword)]);
    }
}

#[test]
fn identifier_run_covers_underscores_and_digits() {
    let tokens = tokens_of(b"user_id2 ");
    assert_eq!(tokens.len(), 1);
    assert_eq!(tokens[0].kind, TokenKind::Identifier);
    assert_eq!(tokens[0].span, Span { start: 0, length: 8 });
}

#[test]
fn single_quoted_literal_includes_both_quotes() {
    let tokens = tokens_of(b"'abc'");
    assert_eq!(tokens.len(), 1);
    assert_eq!(tokens[0].kind, TokenKind::SingleQuotedStringLiteral);
    assert_eq!(tokens[0].span, Span { start: 0, length: 5 });
}

#[test]
fn double_quoted_literal_includes_both_quotes() {
    let tokens = tokens_of(b"x \"abc\" y");
    assert_eq!(tokens.len(), 3);
    assert_eq!(tokens[1].kind, TokenKind::DoubleQuotedStringLiteral);
    assert_eq!(tokens[1].span, Span { start: 2, length: 5 });
}

#[test]
fn unterminated_literal_runs_to_end_of_input() {
    let tokens = tokens_of(b"'abc");
    assert_eq!(tokens.len(), 1);
    assert_eq!(tokens[0].kind, TokenKind::SingleQuotedStringLiteral);
    assert_eq!(tokens[0].span, Span { start: 0, length: 4 });
}

#[test]
fn empty_quoted_literal() {
    let tokens = tokens_of(b"''");
    assert_eq!(tokens.len(), 1);
    assert_eq!(tokens[0].kind, TokenKind::SingleQuotedStringLiteral);
    assert_eq!(tokens[0].span, Span { start: 0, length: 2 });
}

#[test]
fn inline_comment_ends_before_line_break() {
    let source = b"-- rest of line\nSELECT";
    let mut lexer = Lexer::new(source);
    let first = lexer.next_token().unwrap();
    assert_eq!(first.kind, TokenKind::InlineComment);
    assert_eq!(first.span, Span { start: 0, length: 15 });
    // The second call proceeds past the line break.
    let second = lexer.next_token().unwrap();
    assert_eq!(second.kind, TokenKind::Keyword(Keyword::Select));
    assert_eq!(second.span, Span { start: 16, length: 6 });
    assert_eq!(lexer.next_token(), None);
}

#[test]
fn inline_comment_ends_before_carriage_return() {
    let tokens = tokens_of(b"--x\r\n;");
    assert_eq!(tokens.len(), 2);
    assert_eq!(tokens[0].kind, TokenKind::InlineComment);
    assert_eq!(tokens[0].span, Span { start: 0, length: 3 });
    assert_eq!(tokens[1].kind, TokenKind::Semicolon);
}

#[test]
fn inline_comment_at_end_of_input() {
    let tokens = tokens_of(b"-- no newline");
    assert_eq!(tokens.len(), 1);
    assert_eq!(tokens[0].kind, TokenKind::InlineComment);
    assert_eq!(tokens[0].span, Span { start: 0, length: 13 });
}

#[test]
fn two_hyphens_are_never_two_minus_tokens() {
    let tokens = tokens_of(b"a--b");
    assert_eq!(tokens.len(), 2);
    assert_eq!(tokens[0].kind, TokenKind::Identifier);
    assert_eq!(tokens[1].kind, TokenKind::InlineComment);
    assert_eq!(tokens[1].span, Span { start: 1, length: 3 });
}

#[test]
fn lone_hyphen_is_a_minus_token() {
    let tokens = tokens_of(b"- 1");
    assert_eq!(tokens.len(), 2);
    assert_eq!(tokens[0].kind, TokenKind::Minus);
    assert_eq!(tokens[1].kind, TokenKind::IntegerLiteral);
}

#[test]
fn single_character_tokens() {
    let kinds = kinds_of(b"*,:;()%.+-/<>=_&?^~|");
    assert_eq!(
        kinds,
        vec![
            TokenKind::Asterisk,
            TokenKind::Comma,
            TokenKind::Colon,
            TokenKind::Semicolon,
            TokenKind::LeftParenthesis,
            TokenKind::RightParenthesis,
            TokenKind::Percent,
            TokenKind::Period,
            TokenKind::Plus,
            TokenKind::Minus,
            TokenKind::Solidus,
            TokenKind::LessThan,
            TokenKind::GreaterThan,
            TokenKind::Equals,
            TokenKind::Underscore,
            TokenKind::Ampersand,
            TokenKind::QuestionMark,
            TokenKind::Circumflex,
            TokenKind::Tilde,
            TokenKind::VerticalBar,
        ]
    );
}

#[test]
fn parse_single_character_table() {
    assert_eq!(TokenKind::parse_single_character('*'), Some(TokenKind::Asterisk));
    assert_eq!(TokenKind::parse_single_character(';'), Some(TokenKind::Semicolon));
    assert_eq!(TokenKind::parse_single_character('('), Some(TokenKind::LeftParenthesis));
    assert_eq!(TokenKind::parse_single_character('a'), None);
    assert_eq!(TokenKind::parse_single_character('7'), None);
    assert_eq!(TokenKind::parse_single_character('@'), None);
}

#[test]
fn leading_dot_is_a_period_token() {
    let tokens = tokens_of(b".5");
    assert_eq!(tokens.len(), 2);
    assert_eq!(tokens[0].kind, TokenKind::Period);
    assert_eq!(tokens[1].kind, TokenKind::IntegerLiteral);
}

#[test]
fn unrecognized_character_stops_tokenization() {
    let mut lexer = Lexer::new(b"@foo");
    assert_eq!(lexer.next_token(), None);
    let mut lexer = Lexer::new(b"  @");
    assert_eq!(lexer.next_token(), None);
}

#[test]
fn peek_next_does_not_advance() {
    let mut lexer = Lexer::new(b"SELECT 1");
    let peeked = lexer.peek_next();
    let taken = lexer.next_token();
    assert_eq!(peeked, taken);
    assert_eq!(taken.unwrap().kind, TokenKind::Keyword(Keyword::Select));
    let second = lexer.next_token().unwrap();
    assert_eq!(second.kind, TokenKind::IntegerLiteral);
    assert_eq!(second.span, Span { start: 7, length: 1 });
    assert_eq!(lexer.next_token(), None);
}

#[test]
fn round_trip_rebuilds_the_source() {
    let source: &[u8] = b"  CREATE TABLE t (id INT, name VARCHAR); -- done\nINSERT INTO t VALUES (1, 'x');  ";
    let mut rebuilt: Vec<u8> = Vec::new();
    let mut lexer = Lexer::new(source);
    let mut position = 0usize;
    while let Some(token) = lexer.next_token() {
        rebuilt.extend_from_slice(&source[position..token.span.start]);
        rebuilt.extend_from_slice(&source[token.span.range()]);
        position = token.span.end();
    }
    rebuilt.extend_from_slice(&source[position..]);
    assert_eq!(rebuilt, source);
}

#[test]
fn span_end_and_range() {
    let span = Span { start: 3, length: 4 };
    assert_eq!(span.end(), 7);
    assert_eq!(span.range(), 3..7);
}

#[test]
fn highlight_markers_by_kind() {
    let token = |kind| Token { span: Span { start: 0, length: 1 }, kind };
    assert_eq!(token(TokenKind::Keyword(Keyword::Select)).begin_highlight(), "\x1b[1;31m");
    assert_eq!(token(TokenKind::Identifier).begin_highlight(), "\x1b[1;34m");
    assert_eq!(token(TokenKind::SingleQuotedStringLiteral).begin_highlight(), "\x1b[1;35m");
    assert_eq!(token(TokenKind::IntegerLiteral).begin_highlight(), "\x1b[1;36m");
    assert_eq!(token(TokenKind::InlineComment).begin_highlight(), "\x1b[90m");
    assert_eq!(token(TokenKind::Comma).begin_highlight(), "\x1b[33m");
    assert_eq!(token(TokenKind::Comma).end_highlight(), "\x1b[0m");
}

#[test]
fn keyword_parse_requires_uppercase_input() {
    assert_eq!(Keyword::parse(b"SELECT"), Some(Keyword::Select));
    assert_eq!(Keyword::parse(b"select"), None);
    assert_eq!(Keyword::parse(b"SELEC"), None);
    assert_eq!(Keyword::parse(b"SELECTS"), None);
    assert_eq!(Keyword::parse(b""), None);
}

#[test]
fn numbers_inside_statements() {
    let kinds = kinds_of(b"INSERT INTO t VALUES (42, 3.14, 6e23, 0xFF);");
    assert_eq!(
        kinds,
        vec![
            TokenKind::Keyword(Keyword::Insert),
            TokenKind::Keyword(Keyword::Into),
            TokenKind::Identifier,
            TokenKind::Keyword(Keyword::Values),
            TokenKind::LeftParenthesis,
            TokenKind::IntegerLiteral,
            TokenKind::Comma,
            TokenKind::DecimalLiteral,
            TokenKind::Comma,
            TokenKind::ExponentLiteral,
            TokenKind::Comma,
            TokenKind::HexadecimalLiteral,
            TokenKind::RightParenthesis,
            TokenKind::Semicolon,
        ]
    );
}

#[test]
fn cursor_is_resumable_between_calls() {
    let mut lexer = Lexer::new(b"a b");
    let first = lexer.next_token().unwrap();
    assert_eq!(first.span, Span { start: 0, length: 1 });
    let second = lexer.next_token().unwrap();
    assert_eq!(second.span, Span { start: 2, length: 1 });
    assert_eq!(lexer.next_token(), None);
}
