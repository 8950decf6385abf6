use aurora::compile::{compile, explain, explain_with};
use aurora::err::{Diagnostic, ErrKind, Pos};
use aurora::parser::parse_source;
use aurora::report::{caret_line, get_line, mark_breaks, report_with, usize_to_line_col};

#[test]
fn offset_at_the_start_of_a_line_is_column_one() {
    let code = "ab\ncd\nef";
    assert_eq!(usize_to_line_col(code, 0), (1, 1));
    assert_eq!(usize_to_line_col(code, 3), (2, 1));
    assert_eq!(usize_to_line_col(code, 6), (3, 1));
}

#[test]
fn offset_inside_a_line_counts_the_characters_before_it() {
    let code = "ab\ncdef\ng";
    assert_eq!(usize_to_line_col(code, 1), (1, 2));
    assert_eq!(usize_to_line_col(code, 2), (1, 3));
    assert_eq!(usize_to_line_col(code, 5), (2, 3));
    assert_eq!(usize_to_line_col(code, 8), (3, 1));
}

#[test]
fn carriage_returns_take_no_column() {
    let code = "ab\r\ncd\r\nef";
    assert_eq!(usize_to_line_col(code, 3), (1, 3));
    assert_eq!(usize_to_line_col(code, 4), (2, 1));
    assert_eq!(usize_to_line_col(code, 9), (3, 2));
    assert_eq!(usize_to_line_col("a\rb", 3), (1, 3));
}

#[test]
fn offsets_are_bytes_and_columns_are_characters() {
    // the first line holds two characters of two bytes each
    let code = "\u{e9}\u{e9}\nx = )";
    assert_eq!(usize_to_line_col(code, 2), (1, 2));
    assert_eq!(usize_to_line_col(code, 4), (1, 3));
    assert_eq!(usize_to_line_col(code, 5), (2, 1));
    assert_eq!(usize_to_line_col(code, 9), (2, 5));
    // an offset inside a character counts as that of the next one
    assert_eq!(usize_to_line_col(code, 1), (1, 2));
}

#[test]
fn offset_past_the_end_counts_as_the_end() {
    assert_eq!(usize_to_line_col("ab", 2), (1, 3));
    assert_eq!(usize_to_line_col("ab", 100), (1, 3));
    assert_eq!(usize_to_line_col("", 0), (1, 1));
    assert_eq!(usize_to_line_col("a\n", 2), (2, 1));
}

#[test]
fn lines_are_found_by_number() {
    let code = "first\nsecond\r\nthird";
    assert_eq!(get_line(code, 1), "first");
    assert_eq!(get_line(code, 2), "second");
    assert_eq!(get_line(code, 3), "third");
    assert_eq!(get_line(code, 4), "");
    assert_eq!(get_line("", 1), "");
    assert_eq!(get_line("a\n", 2), "");
    assert_eq!(get_line("a\n\nb", 2), "");
    assert_eq!(get_line("a\n\nb", 3), "b");
    // a carriage return goes only together with the line break after it
    assert_eq!(get_line("a\r", 1), "a\r");
    assert_eq!(get_line("a\rb\n", 1), "a\rb");
}

#[test]
fn line_breaks_are_made_visible() {
    assert_eq!(mark_breaks("a\nb\n"), "a\u{2936}\nb\u{2936}\n");
    assert_eq!(mark_breaks("ab"), "ab");
    assert_eq!(mark_breaks(""), "");
    assert_eq!(get_line(&mark_breaks("a\r\nb"), 1), "a\r\u{2936}");
}

#[test]
fn caret_stands_under_its_column() {
    assert_eq!(caret_line(1), "^");
    assert_eq!(caret_line(5), "    ^");
}

#[test]
fn position_is_shown_as_line_and_column() {
    assert_eq!(Pos::new(3, 14).text(), "line 3, col 14");
    assert_eq!(Pos::new(3, 14), Pos { line: 3, col: 14 });
}

#[test]
fn labels_name_the_kind() {
    assert_eq!(ErrKind::Syntax.label(), "Syntax Error: ");
    assert_eq!(ErrKind::Semantics.label(), "Error: ");
    assert_eq!(ErrKind::Internal.label(), "Internal error: ");
}

#[test]
fn header_joins_label_position_and_message() {
    let d = Diagnostic::new(ErrKind::Syntax, Pos::new(1, 5), "Invalid token".to_string());
    assert_eq!(d.header_with("Syntax Error: "), "Syntax Error: line 1, col 5: Invalid token");
    assert_eq!(Diagnostic::syntax(Pos::new(1, 5), "m".to_string()).kind, ErrKind::Syntax);
    assert_eq!(Diagnostic::semantics(Pos::new(1, 5), "m".to_string()).kind, ErrKind::Semantics);
    assert_eq!(Diagnostic::internal(Pos::new(1, 5), "m".to_string()).kind, ErrKind::Internal);
}

#[test]
fn header_is_coloured_where_colours_are_in_use() {
    colored::control::set_override(true);
    let d = Diagnostic::syntax(Pos::new(2, 1), "Invalid token".to_string());
    assert_eq!(d.header(), "\u{1b}[91mSyntax Error: \u{1b}[0mline 2, col 1: Invalid token");
    let d = Diagnostic::semantics(Pos::new(2, 1), "m".to_string());
    assert_eq!(d.header(), "\u{1b}[91mError: \u{1b}[0mline 2, col 1: m");
    let d = Diagnostic::internal(Pos::new(2, 1), "m".to_string());
    assert_eq!(d.header(), "\u{1b}[31mInternal error: \u{1b}[0mline 2, col 1: m");
    colored::control::set_override(false);
    let d = Diagnostic::syntax(Pos::new(2, 1), "Invalid token".to_string());
    assert_eq!(d.header(), "Syntax Error: line 2, col 1: Invalid token");
    let d = Diagnostic::internal(Pos::new(2, 1), "m".to_string());
    assert_eq!(d.header(), "Internal error: line 2, col 1: m");
    colored::control::unset_override();
}

#[test]
fn report_has_header_source_line_and_caret() {
    let code = "x = 1\ny = (2\nz = 3";
    let text = report_with(code, 12, "Unexpected token".to_string(), "Syntax Error: ");
    assert_eq!(
        text,
        "Syntax Error: line 2, col 7: Unexpected token\ny = (2\u{2936}\n      ^\n"
    );
    let text = report_with(code, 14, "m".to_string(), "E: ");
    assert_eq!(text, "E: line 3, col 2: m\nz = 3\n ^\n");
}

#[test]
fn failure_is_explained_at_its_place() {
    let code = "x = 1\nif x {\n  y = )\n} end";
    let error = parse_source(code).unwrap_err();
    assert_eq!(
        explain_with(code, &error, "Syntax Error: "),
        "Syntax Error: line 3, col 7: Unexpected token RParen, expected [\"number\", \"boolean\", \"string\", \"identifier\", \"(\", \"{\", \"-\", \"not\"]\n  y = )\u{2936}\n      ^\n"
    );
    colored::control::set_override(false);
    assert_eq!(explain(code, &error), explain_with(code, &error, "Syntax Error: "));
    colored::control::set_override(true);
    assert_eq!(
        explain(code, &error),
        explain_with(code, &error, "\u{1b}[91mSyntax Error: \u{1b}[0m")
    );
    colored::control::unset_override();
}

#[test]
fn nothing_is_generated_where_parsing_fails() {
    assert!(compile("x = 1\ny = )").is_err());
    assert_eq!(
        compile("x = 1\ny = )").unwrap_err(),
        parse_source("x = 1\ny = )").unwrap_err()
    );
}

#[test]
fn compiles_a_whole_program() {
    let code = "fn add(a, b) {\n  return a + b\n} end\nxs = {1, 2}\nxs:0 = add(xs:0, 41)\nprint(xs)";
    let out = compile(code).unwrap();
    assert!(out.starts_with("#include <AuroraRuntime.h>\nint main() {auto _CAPTURE_add = "));
    assert!(out.contains("if (_FN_ARG_COUNT != 2) error(\"incorrect number of args\"); "));
    assert!(out.ends_with(
        "auto xs = AuroraObject({ AuroraObject(1.00000000), AuroraObject(2.00000000) });\
xs.set(AuroraObject(0.00000000), add(2, std::move((AuroraObject[2]){xs[0.00000000], AuroraObject(41.00000000)}), true));\
print(1, std::move((AuroraObject[1]){xs}), false);}"
    ));
}
