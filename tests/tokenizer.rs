use stackscript::error::CompileError;
use stackscript::tokenizer::{tokenize, Span, Spanned, Token, TokenKind};

fn spanned_message(err: CompileError) -> (String, Span) {
    match err {
        CompileError::Spanned(message, span) => (message, span),
        CompileError::General(message) => panic!("expected a located error, got {}", message),
    }
}

#[test]
fn whitespace_only_source_has_no_tokens() {
    for source in ["", " ", "\t", "\n", "\r\n", "  \t \n\r  "] {
        let tokens = tokenize(source).unwrap();
        assert!(tokens.is_empty(), "{:?}", source);
    }
}

#[test]
fn number_literal_spans_whole_input() {
    let tokens = tokenize("123").unwrap();
    assert_eq!(tokens.len(), 1);
    assert!(matches!(tokens[0].value, Token::NumberLiteral(123)));
    assert_eq!(tokens[0].span, Span(0, 3));
}

#[test]
fn number_followed_by_letters_is_invalid() {
    let (message, span) = spanned_message(tokenize("12x").unwrap_err());
    assert_eq!(message, "invalid number literal");
    assert_eq!(span, Span(0, 3));
}

#[test]
fn number_too_large_is_invalid() {
    let tokens = tokenize("9223372036854775807").unwrap();
    assert!(matches!(tokens[0].value, Token::NumberLiteral(i64::MAX)));
    let (message, span) = spanned_message(tokenize("1 9223372036854775808").unwrap_err());
    assert_eq!(message, "invalid number literal");
    assert_eq!(span, Span(2, 21));
}

#[test]
fn string_literal_spans_both_quotes() {
    let tokens = tokenize("\"abc\"").unwrap();
    assert_eq!(tokens.len(), 1);
    match &tokens[0].value {
        Token::StringLiteral(s) => assert_eq!(s, "abc"),
        other => panic!("unexpected token {:?}", other),
    }
    assert_eq!(tokens[0].span, Span(0, 5));
}

#[test]
fn single_quoted_string_may_hold_double_quote() {
    let tokens = tokenize("'a \"b' x").unwrap();
    assert_eq!(tokens.len(), 2);
    match &tokens[0].value {
        Token::StringLiteral(s) => assert_eq!(s, "a \"b"),
        other => panic!("unexpected token {:?}", other),
    }
    assert_eq!(tokens[0].span, Span(0, 6));
}

#[test]
fn unterminated_string_fails() {
    let (message, span) = spanned_message(tokenize("\"abc").unwrap_err());
    assert_eq!(message, "found end of file while parsing string");
    assert_eq!(span, Span(0, 4));
}

#[test]
fn backslash_without_name_fails() {
    let (message, span) = spanned_message(tokenize("\\ main").unwrap_err());
    assert_eq!(message, "function name is required");
    assert_eq!(span, Span(0, 1));
}

#[test]
fn declaration_and_body_tokens() {
    let tokens = tokenize("\\main { 1 \"s\" + }").unwrap();
    let kinds: Vec<TokenKind> = tokens.iter().map(|t| t.value.kind()).collect();
    assert_eq!(
        kinds,
        vec![
            TokenKind::FuncDeclName,
            TokenKind::OpenCurly,
            TokenKind::NumberLiteral,
            TokenKind::StringLiteral,
            TokenKind::FuncName,
            TokenKind::CloseCurly,
        ]
    );
    match &tokens[0].value {
        Token::FuncDeclName(name) => assert_eq!(name, "main"),
        other => panic!("unexpected token {:?}", other),
    }
    assert_eq!(tokens[0].span, Span(0, 5));
    assert_eq!(tokens[1].span, Span(6, 7));
    assert_eq!(tokens[5].span, Span(16, 17));
    match &tokens[4].value {
        Token::FuncName(name) => assert_eq!(name, "+"),
        other => panic!("unexpected token {:?}", other),
    }
}

#[test]
fn token_kinds_describe_themselves() {
    assert_eq!(TokenKind::NumberLiteral.describe(), "number");
    assert_eq!(TokenKind::OpenCurly.describe(), "{");
    assert_eq!(Token::Eof.describe(), "<eof>");
    assert_eq!(TokenKind::from(&Token::CloseCurly), TokenKind::CloseCurly);
}

#[test]
fn span_union_and_length() {
    let u = Span::unioned(Span(4, 6), Span(1, 3));
    assert_eq!(u, Span(1, 6));
    assert_eq!(u.len(), 5);
    let e: Spanned<u8> = Spanned::empty(7);
    assert_eq!(e.span, Span(0, 0));
    assert_eq!(Spanned::new(3u8, Span(2, 4)).span.len(), 2);
}

#[test]
fn spans_are_byte_offsets() {
    let tokens = tokenize("é 12 'ü'").unwrap();
    assert_eq!(tokens.len(), 3);
    assert_eq!(tokens[0].span, Span(0, 2));
    assert!(matches!(tokens[1].value, Token::NumberLiteral(12)));
    assert_eq!(tokens[1].span, Span(3, 5));
    assert_eq!(tokens[2].span, Span(6, 10));
}
