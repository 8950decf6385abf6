use aurora::compile::{compile, explain_with};
use aurora::grammar::Expected;
use aurora::parser::{parse_source, ParseError};
use aurora::lexer::{LexicalError, Tok};

#[test]
fn compiles_assignments() {
    let out = compile("x = 1\nx = 2").unwrap();
    assert_eq!(
        out,
        "#include <AuroraRuntime.h>\nint main() {auto x = 1.00000000;x = 2.00000000;}"
    );
}

#[test]
fn block_declarations_do_not_leak() {
    let out = compile("if true { x = 1 } end\nx = 2").unwrap();
    assert_eq!(
        out,
        "#include <AuroraRuntime.h>\nint main() {if (AuroraObject(true)) {auto x = 1.00000000;}auto x = 2.00000000;}"
    );
}

#[test]
fn reports_first_failure_only() {
    let err = parse_source("x = )\ny = )").unwrap_err();
    assert_eq!(
        err,
        ParseError::UnrecognizedToken { token: (4, Tok::RParen, 5), expected: Expected::Expression }
    );
    let text = explain_with("x = )\ny = )", &err, "Syntax Error: ");
    println!("{}", text);
    assert_eq!(
        text,
        "Syntax Error: line 1, col 5: Unexpected token RParen, expected [\"number\", \"boolean\", \"string\", \"identifier\", \"(\", \"{\", \"-\", \"not\"]\nx = )\u{2936}\n    ^\n"
    );
}

#[test]
fn lexical_failure_surfaces_through_parser() {
    let err = parse_source("x = \"abc").unwrap_err();
    assert_eq!(err, ParseError::Lexical { error: LexicalError::UnterminatedString(4) });
}

#[test]
fn call_with_too_many_arguments_is_caught_when_the_program_runs() {
    // the callee compares the count it is handed with its two parameters,
    // and the caller hands over the count of its three arguments
    let out = compile("fn add(a, b) { return a + b } end\nx = add(1, 2, 3)").unwrap();
    assert!(out.contains("if (_FN_ARG_COUNT != 2) error(\"incorrect number of args\"); "));
    assert!(out.contains(
        "auto x = add(3, std::move((AuroraObject[3]){AuroraObject(1.00000000), AuroraObject(2.00000000), AuroraObject(3.00000000)}), true);"
    ));
}
