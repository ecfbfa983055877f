use stackscript::error::CompileError;
use stackscript::tokenizer::Span;

#[test]
fn message_of_each_kind() {
    let general = CompileError::General("g".to_string());
    let spanned = CompileError::Spanned("s".to_string(), Span(0, 1));
    assert_eq!(general.message(), "g");
    assert_eq!(spanned.message(), "s");
    assert!(general.excerpt("abc").is_none());
}

#[test]
fn excerpt_on_first_line() {
    let err = CompileError::Spanned("bad".to_string(), Span(2, 5));
    let x = err.excerpt("1 12x 3").unwrap();
    assert_eq!(x.line_number, 0);
    assert_eq!(x.line, "1 12x 3");
    assert_eq!(x.padding, 4 + 2);
    assert_eq!(x.underline, 3);
}

#[test]
fn excerpt_on_later_line() {
    let source = "a\r\nb\n\n\n\n\n\n\n\n\nxx yy\nzz";
    let start = source.chars().position(|c| c == 'y').unwrap();
    let err = CompileError::Spanned("bad".to_string(), Span(start, start));
    let x = err.excerpt(source).unwrap();
    assert_eq!(x.line_number, 10);
    assert_eq!(x.line, "xx yy");
    assert_eq!(x.padding, 5 + 3);
    assert_eq!(x.underline, 1);
    let first = CompileError::Spanned("bad".to_string(), Span(0, 1)).excerpt(source).unwrap();
    assert_eq!(first.line, "a");
}

#[test]
fn excerpt_anchors_at_byte_offset() {
    let source = "é 12x";
    let err = CompileError::Spanned("bad".to_string(), Span(3, 6));
    let x = err.excerpt(source).unwrap();
    assert_eq!(x.line_number, 0);
    assert_eq!(x.line, "é 12x");
    assert_eq!(x.padding, 4 + 2);
    assert_eq!(x.underline, 3);
}
