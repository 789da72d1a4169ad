use lox::assembler;
use lox::codegen;
use lox::frontend::{Diagnostic, Error as FrontendError, ToDiagnostic};
use lox::lexer::{Error as LexError, Span};
use lox::parse::compiler_error::Error as CompileError;
use lox::parse::{Error as ParseError, ParseGenerateError};

#[test]
fn diagnostic_constructors() {
    let d = Diagnostic::from_message("oops".to_string());
    assert_eq!(d.message, "oops");
    assert!(d.labels.is_empty());
    let s = Span { start: 3, end: 5 };
    let d = Diagnostic::from_span("here".to_string(), s);
    assert_eq!(d.labels.len(), 1);
    assert_eq!(d.labels[0].span, s);
    assert!(d.labels[0].message.is_none());
    assert_eq!(Span::trivial(), Span { start: 0, end: 0 });
}

#[test]
fn lex_errors_describe_themselves() {
    assert_eq!(LexError::UnterminatedEscape("ab".to_string()).message(), "Unterminated escape character: 'ab");
    assert_eq!(LexError::UnterminatedRegex("x".to_string()).message(), "Unterminated regex: 'x");
    assert_eq!(LexError::MalformattedRange("q".to_string()).message(), "Malformatted range: 'q");
    assert_eq!(LexError::UnorderedRange('z', 'a').message(), "Unordered range: 'z'-'a'");
    assert_eq!(
        LexError::NoMatchingToken(lox::lexer::Span { start: 7, end: 12 }).message(),
        "At pos 7..12, no matching token"
    );
    let d = LexError::UnorderedRange('z', 'a').to_diagnostic();
    assert_eq!(d.message, "Unordered range: 'z'-'a'");
    assert!(d.labels.is_empty());
    let s = Span { start: 1, end: 2 };
    let d = LexError::NoMatchingToken(s).to_diagnostic();
    assert_eq!(d.message, "No matching token");
    assert_eq!(d.labels[0].span, s);
}

#[test]
fn parse_errors_point_at_spans() {
    let s = Span { start: 4, end: 9 };
    assert_eq!(ParseError::ExpectedToken(s).to_diagnostic().message, "Expected token");
    assert_eq!(ParseError::UnexpectedToken(s).to_diagnostic().message, "Unexpected token");
    assert_eq!(ParseError::ExcessProgram(s).to_diagnostic().message, "Unexpected excess characters");
    assert_eq!(ParseError::ExcessProgram(s).to_diagnostic().labels[0].span, s);
    let d = ParseError::IncompleteProgram.to_diagnostic();
    assert_eq!(d.message, "Incomplete program");
    assert!(d.labels.is_empty());
    let d = FrontendError::Parse(ParseError::IncompleteProgram).to_diagnostic();
    assert_eq!(d.message, "Incomplete program");
    let d = FrontendError::Lex(LexError::NoMatchingToken(s)).to_diagnostic();
    assert_eq!(d.message, "No matching token");
}

#[test]
fn assembler_errors_through_codegen() {
    assert_eq!(assembler::Error::IndexOutOfRange(300).message(), "Index out of range: '300");
    assert_eq!(assembler::Error::NakedBreak.message(), "Naked break");
    let e: codegen::Error = assembler::Error::IndexOutOfRange(0).into();
    assert_eq!(e, codegen::Error::AssemblerError(assembler::Error::IndexOutOfRange(0)));
    assert_eq!(e.to_diagnostic().message, "Index out of range: '0");
}

#[test]
fn generator_errors() {
    let c = CompileError::UnboundRule("Expr".to_string());
    assert_eq!(c.message(), "Referenced rule Expr does not exist");
    let d = ParseGenerateError::Compile(c).to_diagnostic();
    assert_eq!(d.message, "Referenced rule Expr does not exist");
    let d = ParseGenerateError::Parse(ParseError::IncompleteProgram).to_diagnostic();
    assert_eq!(d.message, "Incomplete program");
    let io = std::io::Error::new(std::io::ErrorKind::Other, "disk gone");
    let d = ParseGenerateError::IoError(io).to_diagnostic();
    assert_eq!(d.message, "disk gone");
    assert!(d.labels.is_empty());
}
