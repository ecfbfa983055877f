use stackscript::error::CompileError;
use stackscript::parser::{Parser, Program, Statement};
use stackscript::tokenizer::{tokenize, Span};

fn parse_source(source: &str) -> Result<Program, CompileError> {
    let tokens = tokenize(source).unwrap();
    let mut parser = Parser::new(&tokens[..]);
    parser.parse()
}

fn spanned_message(err: CompileError) -> (String, Span) {
    match err {
        CompileError::Spanned(message, span) => (message, span),
        CompileError::General(message) => panic!("expected a located error, got {}", message),
    }
}

#[test]
fn empty_declaration_round_trip() {
    for name in ["name", "f", "main", "a{b", "ünï"] {
        let source = format!("\\{} {{ }}", name);
        let program = parse_source(&source).unwrap();
        assert!(program.has_func(name));
        let func = program.get_func(name).unwrap();
        assert!(func.value.statements().is_empty());
        assert_eq!(func.span, Span(0, source.len()));
        assert!(!program.has_func("other"));
    }
}

#[test]
fn main_with_four_statements() {
    let program = parse_source("\\main { 1 2 + . }").unwrap();
    let main = program.get_func("main").unwrap();
    let statements = main.value.statements();
    assert_eq!(statements.len(), 4);
    assert!(matches!(statements[0].value, Statement::PushNumber(1)));
    assert!(matches!(statements[1].value, Statement::PushNumber(2)));
    assert!(matches!(&statements[2].value, Statement::CallFunc(n) if n == "+"));
    assert!(matches!(&statements[3].value, Statement::CallFunc(n) if n == "."));
    assert_eq!(statements[2].span, Span(12, 13));
    assert_eq!(main.span, Span(0, 17));
}

#[test]
fn string_statement() {
    let program = parse_source("\\p { 'hi' }").unwrap();
    let statements = program.get_func("p").unwrap().value.statements();
    assert!(matches!(&statements[0].value, Statement::PushString(s) if s == "hi"));
}

#[test]
fn later_declaration_replaces_earlier() {
    let program = parse_source("\\f { 1 } \\g { } \\f { 2 3 }").unwrap();
    let f = program.get_func("f").unwrap();
    assert_eq!(f.value.statements().len(), 2);
    assert_eq!(f.span, Span(16, 26));
    assert!(program.has_func("g"));
}

#[test]
fn source_without_declarations_parses_empty() {
    let program = parse_source("  ").unwrap();
    assert!(!program.has_func("main"));
}

#[test]
fn top_level_statement_is_rejected() {
    let (message, span) = spanned_message(parse_source("1").unwrap_err());
    assert_eq!(message, "expected func decl name, but found number");
    assert_eq!(span, Span(0, 1));
}

#[test]
fn missing_open_brace_is_rejected() {
    let (message, span) = spanned_message(parse_source("\\main 1 }").unwrap_err());
    assert_eq!(message, "expected {, but found number");
    assert_eq!(span, Span(6, 7));
}

#[test]
fn unclosed_body_reports_eof() {
    let (message, span) = spanned_message(parse_source("\\main { 1").unwrap_err());
    assert_eq!(
        message,
        "expected a statement, but found <eof>. a statement is a literal or a function call"
    );
    assert_eq!(span, Span(0, 0));
}

#[test]
fn nested_declaration_is_not_a_statement() {
    let (message, span) = spanned_message(parse_source("\\main { \\f }").unwrap_err());
    assert_eq!(
        message,
        "expected a statement, but found func decl name. a statement is a literal or a function call"
    );
    assert_eq!(span, Span(8, 10));
}

#[test]
fn underflowing_body_still_parses() {
    let program = parse_source("\\f { + }").unwrap();
    assert_eq!(program.get_func("f").unwrap().value.statements().len(), 1);
}
