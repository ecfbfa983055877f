use stackscript::codegen::Codegen;
use stackscript::error::CompileError;
use stackscript::parser::{Parser, Program};
use stackscript::runtime::{Runtime, Value};
use stackscript::stack::Stack;
use stackscript::tokenizer::{tokenize, Span};

fn parse_source(source: &str) -> Program {
    let tokens = tokenize(source).unwrap();
    let mut parser = Parser::new(&tokens[..]);
    parser.parse().unwrap()
}

fn evaluate(source: &str) -> (Result<(), CompileError>, Vec<String>) {
    let mut runtime = Runtime::new(parse_source(source));
    let result = runtime.run("main");
    (result, runtime.output().clone())
}

fn spanned_message(err: CompileError) -> (String, Span) {
    match err {
        CompileError::Spanned(message, span) => (message, span),
        CompileError::General(message) => panic!("expected a located error, got {}", message),
    }
}

#[test]
fn adds_and_prints() {
    let (result, output) = evaluate("\\main { 1 2 + . }");
    assert!(result.is_ok());
    assert_eq!(output, vec!["3".to_string()]);
}

#[test]
fn arithmetic_operand_order() {
    let (result, output) = evaluate("\\main { 7 2 - . 7 2 / . 6 7 * . 0 5 - 2 / . }");
    assert!(result.is_ok());
    assert_eq!(output, vec!["5", "3", "42", "-2"]);
}

#[test]
fn division_by_zero_is_a_diagnostic() {
    let (result, output) = evaluate("\\main { 5 1 0 / . }");
    let (message, span) = spanned_message(result.unwrap_err());
    assert_eq!(message, "division by zero");
    assert_eq!(span, Span(14, 15));
    assert!(output.is_empty());
}

#[test]
fn failed_division_leaves_the_stack_untouched() {
    let mut runtime = Runtime::new(parse_source("\\main { 5 1 0 / . }"));
    assert!(runtime.run("main").is_err());
    assert_eq!(runtime.stack().len(), 3);
    assert!(matches!(runtime.stack().peek(), Value::Number(0)));
    let mut typed = Runtime::new(parse_source("\\main { 5 'a' 1 + }"));
    assert!(typed.run("main").is_err());
    assert_eq!(typed.stack().len(), 3);
    assert!(matches!(typed.stack().peek(), Value::Number(1)));
}

#[test]
fn overflow_is_a_diagnostic() {
    let (result, _) = evaluate("\\main { 9223372036854775807 1 + }");
    let (message, _) = spanned_message(result.unwrap_err());
    assert_eq!(message, "arithmetic overflow");
}

#[test]
fn missing_main_is_general_error() {
    let mut runtime = Runtime::new(parse_source("\\other { 1 . }"));
    match runtime.run("main").unwrap_err() {
        CompileError::General(message) => {
            assert_eq!(message, "main entry point is not found, try adding \\main {}")
        }
        CompileError::Spanned(message, _) => panic!("unexpected located error {}", message),
    }
    assert!(runtime.output().is_empty());
    assert_eq!(runtime.stack().len(), 0);
}

#[test]
fn underflow_fails_at_evaluation() {
    let (result, _) = evaluate("\\main { f } \\f { + }");
    let (message, span) = spanned_message(result.unwrap_err());
    assert_eq!(message, "stack underflow");
    assert_eq!(span, Span(17, 18));
}

#[test]
fn print_on_empty_stack_underflows() {
    let (result, output) = evaluate("\\main { 1 . . }");
    let (message, _) = spanned_message(result.unwrap_err());
    assert_eq!(message, "stack underflow");
    assert_eq!(output, vec!["1"]);
}

#[test]
fn strings_print_raw_and_are_not_numbers() {
    let (result, output) = evaluate("\\main { 'hello world' . \"a\" 1 + }");
    assert_eq!(output, vec!["hello world"]);
    let (message, span) = spanned_message(result.unwrap_err());
    assert_eq!(message, "arithmetic operands must be numbers");
    assert_eq!(span, Span(30, 31));
}

#[test]
fn unknown_function_is_a_diagnostic() {
    let (result, _) = evaluate("\\main { 1 dup }");
    let (message, span) = spanned_message(result.unwrap_err());
    assert_eq!(message, "unknown function dup");
    assert_eq!(span, Span(10, 13));
}

#[test]
fn procedures_share_the_stack() {
    let (result, output) = evaluate("\\double { 2 * } \\main { 5 double double . }");
    assert!(result.is_ok());
    assert_eq!(output, vec!["20"]);
}

#[test]
fn user_procedure_shadows_builtin() {
    let (result, output) = evaluate("\\+ { 'plus' . } \\main { + 1 . }");
    assert!(result.is_ok());
    assert_eq!(output, vec!["plus", "1"]);
}

#[test]
fn unbounded_recursion_is_a_diagnostic() {
    let (result, _) = evaluate("\\main { main }");
    let (message, _) = spanned_message(result.unwrap_err());
    assert_eq!(message, "call depth limit exceeded");
}

#[test]
fn values_have_text() {
    assert_eq!(Value::Number(-42).to_text(), "-42");
    assert_eq!(Value::Number(0).to_text(), "0");
    assert_eq!(Value::String("x y".to_string()).to_text(), "x y");
}

#[test]
fn run_leaves_results_on_stack() {
    let mut runtime = Runtime::new(parse_source("\\main { 1 2 3 + }"));
    runtime.insert_builtins();
    runtime.run("main").unwrap();
    let stack: &Stack<Value> = runtime.stack();
    assert_eq!(stack.len(), 2);
    assert!(matches!(stack.peek(), Value::Number(5)));
}

#[test]
fn codegen_requires_main() {
    let with_main = parse_source("\\main { }");
    assert_eq!(Codegen::new(&with_main).gen().unwrap(), "");
    let without = parse_source("\\f { }");
    match Codegen::new(&without).gen().unwrap_err() {
        CompileError::General(message) => {
            assert_eq!(message, "main entry point is not found, try adding \\main {}")
        }
        CompileError::Spanned(message, _) => panic!("unexpected located error {}", message),
    }
}
