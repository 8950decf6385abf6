use aurora::ast::{AssignOp, BinOp, Expr, Stmt, UnaryOp};
use aurora::lexer::{LexicalError, Tok};
use aurora::grammar::Expected;
use aurora::parser::{parse, parse_source, ParseError};

fn num(digits: &str) -> Box<Expr> {
    Box::new(Expr::Number(digits.to_string()))
}

fn var(name: &str) -> Box<Expr> {
    Box::new(Expr::Variable(name.to_string()))
}

fn bin(l: Box<Expr>, op: BinOp, r: Box<Expr>) -> Box<Expr> {
    Box::new(Expr::BinOp(l, op, r))
}

fn assign(name: &str, value: Box<Expr>) -> Box<Stmt> {
    Box::new(Stmt::Assign(name.to_string(), AssignOp::Assign, value))
}

fn value_of(source: &str) -> Box<Expr> {
    let mut program = parse_source(source).unwrap();
    assert_eq!(program.len(), 1);
    match *program.remove(0) {
        Stmt::Assign(_, _, value) => value,
        other => panic!("not an assignment: {:?}", other),
    }
}

#[test]
fn product_binds_tighter_than_sum() {
    assert_eq!(
        value_of("x = 1 + 2 * 3"),
        bin(num("1"), BinOp::Add, bin(num("2"), BinOp::Mul, num("3")))
    );
    assert_eq!(
        value_of("x = 1 * 2 + 3"),
        bin(bin(num("1"), BinOp::Mul, num("2")), BinOp::Add, num("3"))
    );
}

#[test]
fn operators_of_one_level_group_from_the_left() {
    assert_eq!(
        value_of("x = 1 - 2 - 3"),
        bin(bin(num("1"), BinOp::Sub, num("2")), BinOp::Sub, num("3"))
    );
    assert_eq!(
        value_of("x = 8 / 4 % 3 * 2"),
        bin(
            bin(bin(num("8"), BinOp::Div, num("4")), BinOp::Mod, num("3")),
            BinOp::Mul,
            num("2")
        )
    );
}

#[test]
fn precedence_ladder_from_or_down_to_product() {
    // a or b and c == d < e + f * g
    let expected = bin(
        var("a"),
        BinOp::Or,
        bin(
            var("b"),
            BinOp::And,
            bin(
                var("c"),
                BinOp::Eq,
                bin(
                    var("d"),
                    BinOp::Less,
                    bin(var("e"), BinOp::Add, bin(var("f"), BinOp::Mul, var("g"))),
                ),
            ),
        ),
    );
    assert_eq!(value_of("x = a or b and c == d < e + f * g"), expected);
    // and the other way round
    let expected = bin(
        bin(
            bin(
                bin(bin(var("a"), BinOp::Mul, var("b")), BinOp::Add, var("c")),
                BinOp::GreaterEq,
                var("d"),
            ),
            BinOp::NotEq,
            var("e"),
        ),
        BinOp::And,
        var("f"),
    );
    assert_eq!(value_of("x = a * b + c >= d != e and f"), expected);
}

#[test]
fn relational_and_equality_operators() {
    assert_eq!(value_of("x = a <= b"), bin(var("a"), BinOp::LessEq, var("b")));
    assert_eq!(value_of("x = a > b"), bin(var("a"), BinOp::Greater, var("b")));
    assert_eq!(value_of("x = a != b"), bin(var("a"), BinOp::NotEq, var("b")));
}

#[test]
fn unary_binds_tighter_than_binary() {
    assert_eq!(
        value_of("x = -a * b"),
        bin(Box::new(Expr::UnaryOp(UnaryOp::Neg, var("a"))), BinOp::Mul, var("b"))
    );
    assert_eq!(
        value_of("x = not a and b"),
        bin(Box::new(Expr::UnaryOp(UnaryOp::Not, var("a"))), BinOp::And, var("b"))
    );
    assert_eq!(
        value_of("x = - - 1"),
        Box::new(Expr::UnaryOp(
            UnaryOp::Neg,
            Box::new(Expr::UnaryOp(UnaryOp::Neg, num("1")))
        ))
    );
}

#[test]
fn parentheses_group() {
    assert_eq!(
        value_of("x = (1 + 2) * 3"),
        bin(bin(num("1"), BinOp::Add, num("2")), BinOp::Mul, num("3"))
    );
}

#[test]
fn primaries() {
    assert_eq!(value_of("x = 007"), num("007"));
    assert_eq!(value_of("x = true"), Box::new(Expr::Boolean(true)));
    assert_eq!(value_of("x = \"hi\""), Box::new(Expr::String("hi".to_string())));
    assert_eq!(value_of("x = y"), var("y"));
    assert_eq!(value_of("x = {}"), Box::new(Expr::List(vec![])));
    assert_eq!(
        value_of("x = {1, y}"),
        Box::new(Expr::List(vec![num("1"), var("y")]))
    );
}

#[test]
fn calls_and_indexings_chain() {
    assert_eq!(
        value_of("x = f(a):0"),
        Box::new(Expr::Index(Box::new(Expr::Call(var("f"), vec![var("a")])), num("0")))
    );
    assert_eq!(
        value_of("x = m:0:1"),
        Box::new(Expr::Index(Box::new(Expr::Index(var("m"), num("0"))), num("1")))
    );
    assert_eq!(
        value_of("x = f()(1, 2)"),
        Box::new(Expr::Call(
            Box::new(Expr::Call(var("f"), vec![])),
            vec![num("1"), num("2")]
        ))
    );
    assert_eq!(
        value_of("x = -f(a)"),
        Box::new(Expr::UnaryOp(
            UnaryOp::Neg,
            Box::new(Expr::Call(var("f"), vec![var("a")]))
        ))
    );
}

#[test]
fn assignment_operators() {
    let cases = vec![
        ("x = 1", AssignOp::Assign),
        ("x += 1", AssignOp::PlusAssign),
        ("x -= 1", AssignOp::MinusAssign),
        ("x *= 1", AssignOp::StarAssign),
        ("x /= 1", AssignOp::SlashAssign),
        ("x %= 1", AssignOp::ModAssign),
    ];
    for (source, op) in cases {
        assert_eq!(
            parse_source(source).unwrap(),
            vec![Box::new(Stmt::Assign("x".to_string(), op, num("1")))]
        );
    }
}

#[test]
fn statements_are_separated_by_line_breaks() {
    assert_eq!(
        parse_source("x = 1\ny = 2").unwrap(),
        vec![assign("x", num("1")), assign("y", num("2"))]
    );
    assert_eq!(
        parse_source("x = 1\n\n\ny = 2").unwrap(),
        vec![assign("x", num("1")), assign("y", num("2"))]
    );
}

#[test]
fn missing_statements_are_empty_statements() {
    assert_eq!(parse_source("").unwrap(), vec![Box::new(Stmt::Empty)]);
    assert_eq!(
        parse_source("x = 1\n").unwrap(),
        vec![assign("x", num("1")), Box::new(Stmt::Empty)]
    );
    assert_eq!(
        parse_source("while c {\n} end").unwrap(),
        vec![Box::new(Stmt::While(
            var("c"),
            vec![Box::new(Stmt::Empty), Box::new(Stmt::Empty)]
        ))]
    );
}

#[test]
fn conditional_with_and_without_else() {
    assert_eq!(
        parse_source("if true { x = 1 } end").unwrap(),
        vec![Box::new(Stmt::If(
            Box::new(Expr::Boolean(true)),
            vec![assign("x", num("1"))],
            vec![]
        ))]
    );
    assert_eq!(
        parse_source("if a < b {\n  x = 1\n} else {\n  x = 2\n} end").unwrap(),
        vec![Box::new(Stmt::If(
            bin(var("a"), BinOp::Less, var("b")),
            vec![Box::new(Stmt::Empty), assign("x", num("1")), Box::new(Stmt::Empty)],
            vec![Box::new(Stmt::Empty), assign("x", num("2")), Box::new(Stmt::Empty)]
        ))]
    );
}

#[test]
fn loops() {
    assert_eq!(
        parse_source("while x { break } end").unwrap(),
        vec![Box::new(Stmt::While(var("x"), vec![Box::new(Stmt::Break)]))]
    );
    assert_eq!(
        parse_source("for v xs { continue } end").unwrap(),
        vec![Box::new(Stmt::For(
            "v".to_string(),
            var("xs"),
            vec![Box::new(Stmt::Continue)]
        ))]
    );
    assert_eq!(
        parse_source("for v {1, 2} { f(v) } end").unwrap(),
        vec![Box::new(Stmt::For(
            "v".to_string(),
            Box::new(Expr::List(vec![num("1"), num("2")])),
            vec![Box::new(Stmt::Call("f".to_string(), vec![var("v")]))]
        ))]
    );
}

#[test]
fn functions_and_subroutines() {
    assert_eq!(
        parse_source("fn add(a, b) { return a + b } end").unwrap(),
        vec![Box::new(Stmt::Func(
            "add".to_string(),
            vec!["a".to_string(), "b".to_string()],
            vec![Box::new(Stmt::Return(bin(var("a"), BinOp::Add, var("b"))))]
        ))]
    );
    assert_eq!(
        parse_source("sub hello() { print(\"hi\") } end").unwrap(),
        vec![Box::new(Stmt::Sub(
            "hello".to_string(),
            vec![],
            vec![Box::new(Stmt::Call(
                "print".to_string(),
                vec![Box::new(Expr::String("hi".to_string()))]
            ))]
        ))]
    );
}

#[test]
fn call_and_indexed_assignment_statements() {
    assert_eq!(
        parse_source("f()").unwrap(),
        vec![Box::new(Stmt::Call("f".to_string(), vec![]))]
    );
    assert_eq!(
        parse_source("xs:0 = 5").unwrap(),
        vec![Box::new(Stmt::AssignIndex("xs".to_string(), num("0"), num("5")))]
    );
    assert_eq!(
        parse_source("xs:(i + 1) = y").unwrap(),
        vec![Box::new(Stmt::AssignIndex(
            "xs".to_string(),
            bin(var("i"), BinOp::Add, num("1")),
            var("y")
        ))]
    );
}

#[test]
fn unexpected_token_is_reported_with_what_was_expected() {
    assert_eq!(
        parse_source("x = )").unwrap_err(),
        ParseError::UnrecognizedToken { token: (4, Tok::RParen, 5), expected: Expected::Expression }
    );
    assert_eq!(
        parse_source("x y").unwrap_err(),
        ParseError::UnrecognizedToken {
            token: (2, Tok::Identifier("y".to_string()), 3),
            expected: Expected::Operation
        }
    );
    assert_eq!(
        parse_source("f(a b)").unwrap_err(),
        ParseError::UnrecognizedToken {
            token: (4, Tok::Identifier("b".to_string()), 5),
            expected: Expected::ArgumentEnd
        }
    );
    assert_eq!(
        parse_source("x = {1 2}").unwrap_err(),
        ParseError::UnrecognizedToken {
            token: (7, Tok::Number("2".to_string()), 8),
            expected: Expected::ItemEnd
        }
    );
    assert_eq!(
        parse_source("x = (1 + 2 }").unwrap_err(),
        ParseError::UnrecognizedToken { token: (11, Tok::RBrace, 12), expected: Expected::RParen }
    );
    assert_eq!(
        parse_source("while x break").unwrap_err(),
        ParseError::UnrecognizedToken { token: (8, Tok::Break, 13), expected: Expected::LBrace }
    );
    assert_eq!(
        parse_source("while x { break ) } end").unwrap_err(),
        ParseError::UnrecognizedToken { token: (16, Tok::RParen, 17), expected: Expected::BlockEnd }
    );
    assert_eq!(
        parse_source("while x { break }\nx = 1").unwrap_err(),
        ParseError::UnrecognizedToken { token: (17, Tok::Newline, 18), expected: Expected::End }
    );
    assert_eq!(
        parse_source("fn (a) { } end").unwrap_err(),
        ParseError::UnrecognizedToken { token: (3, Tok::LParen, 4), expected: Expected::Identifier }
    );
    assert_eq!(
        parse_source("fn f a) { } end").unwrap_err(),
        ParseError::UnrecognizedToken {
            token: (5, Tok::Identifier("a".to_string()), 6),
            expected: Expected::LParen
        }
    );
    assert_eq!(
        parse_source("xs:0 + 5").unwrap_err(),
        ParseError::UnrecognizedToken { token: (5, Tok::Plus, 6), expected: Expected::Assign }
    );
    assert_eq!(
        parse_source("for 1 xs { } end").unwrap_err(),
        ParseError::UnrecognizedToken {
            token: (4, Tok::Number("1".to_string()), 5),
            expected: Expected::Identifier
        }
    );
}

#[test]
fn unexpected_end_is_reported_at_the_end_of_the_last_token() {
    assert_eq!(
        parse_source("x = ").unwrap_err(),
        ParseError::UnexpectedEndOfInput { location: 3, expected: Expected::Expression }
    );
    assert_eq!(
        parse_source("if x { y = 1 }").unwrap_err(),
        ParseError::UnexpectedEndOfInput { location: 14, expected: Expected::ElseOrEnd }
    );
    assert_eq!(
        parse_source("if x { y = 1 } else { y = 2 }").unwrap_err(),
        ParseError::UnexpectedEndOfInput { location: 29, expected: Expected::End }
    );
    assert_eq!(
        parse_source("fn f(").unwrap_err(),
        ParseError::UnexpectedEndOfInput { location: 5, expected: Expected::Parameter }
    );
    assert_eq!(
        parse_source("fn f(a,").unwrap_err(),
        ParseError::UnexpectedEndOfInput { location: 7, expected: Expected::Identifier }
    );
    assert_eq!(
        parse_source("f(1,").unwrap_err(),
        ParseError::UnexpectedEndOfInput { location: 4, expected: Expected::Expression }
    );
    assert_eq!(
        parse(&vec![(0, Tok::Return, 6)], None).unwrap_err(),
        ParseError::UnexpectedEndOfInput { location: 6, expected: Expected::Expression }
    );
}

#[test]
fn leftover_token_is_reported_as_extra() {
    assert_eq!(
        parse_source("x = 1 )").unwrap_err(),
        ParseError::ExtraTrailingToken { token: (6, Tok::RParen, 7) }
    );
    assert_eq!(
        parse_source("end").unwrap_err(),
        ParseError::ExtraTrailingToken { token: (0, Tok::End, 3) }
    );
    assert_eq!(
        parse_source("x = 1 -> 2").unwrap_err(),
        ParseError::ExtraTrailingToken { token: (6, Tok::Arrow, 8) }
    );
}

#[test]
fn lexical_failure_is_reported_when_the_parser_comes_to_it() {
    assert_eq!(
        parse_source("x = \"abc").unwrap_err(),
        ParseError::Lexical { error: LexicalError::UnterminatedString(4) }
    );
    assert_eq!(
        parse_source("x = 1 `").unwrap_err(),
        ParseError::Lexical { error: LexicalError::UnrecognizedToken(6) }
    );
    assert_eq!(
        parse_source("x = 1\n!").unwrap_err(),
        ParseError::Lexical { error: LexicalError::UnrecognizedToken(6) }
    );
}

#[test]
fn only_the_first_failure_is_reported() {
    // two failures of the grammar
    assert_eq!(
        parse_source("x = )\ny = )").unwrap_err(),
        parse_source("x = )").unwrap_err()
    );
    // a failure of the grammar before one of the lexer
    assert_eq!(
        parse_source("x = ) `").unwrap_err(),
        ParseError::UnrecognizedToken { token: (4, Tok::RParen, 5), expected: Expected::Expression }
    );
    // a failure of the lexer before one of the grammar
    assert_eq!(
        parse_source("x = ` )").unwrap_err(),
        ParseError::Lexical { error: LexicalError::UnrecognizedToken(4) }
    );
}

#[test]
fn messages_name_the_token_and_the_expectation() {
    assert_eq!(
        parse_source("x = )").unwrap_err().message(),
        "Unexpected token RParen, expected [\"number\", \"boolean\", \"string\", \"identifier\", \"(\", \"{\", \"-\", \"not\"]"
    );
    assert_eq!(
        parse_source("x = ").unwrap_err().message(),
        "Unexpected end of file, expected [\"number\", \"boolean\", \"string\", \"identifier\", \"(\", \"{\", \"-\", \"not\"]"
    );
    assert_eq!(
        parse_source("x = 1 y").unwrap_err().message(),
        "Unexpected token Identifier(\"y\")"
    );
    assert_eq!(parse_source("`").unwrap_err().message(), "Unrecognized token");
    assert_eq!(parse_source("\"a").unwrap_err().message(), "Unterminated string");
    assert_eq!(ParseError::InvalidToken { location: 3 }.message(), "Invalid token");
    assert_eq!(ParseError::InvalidToken { location: 3 }.offset(), 3);
    assert_eq!(parse_source("x = 1 y").unwrap_err().offset(), 6);
    assert_eq!(parse_source("x = ").unwrap_err().offset(), 3);
    assert_eq!(parse_source("ab \"a").unwrap_err().offset(), 3);
    assert_eq!(Expected::BlockEnd.symbols(), "[\"newline\", \"}\"]");
    assert_eq!(Expected::Operation.symbols(), "[\"=\", \"+=\", \"-=\", \"*=\", \"/=\", \"%=\", \"(\", \":\"]");
}
