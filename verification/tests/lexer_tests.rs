use aurora::lexer::{tokenize, Lexer, LexicalError, Tok};

fn lex_all(input: &str) -> Vec<Result<(usize, Tok, usize), LexicalError>> {
    let mut lexer = Lexer::new(input);
    let mut out = Vec::new();
    while let Some(item) = lexer.next() {
        out.push(item);
    }
    out
}

fn ident(name: &str) -> Tok {
    Tok::Identifier(name.to_string())
}

fn number(digits: &str) -> Tok {
    Tok::Number(digits.to_string())
}

#[test]
fn two_character_operators_are_single_tokens() {
    let cases = vec![
        ("+=", Tok::PlusAssign),
        ("-=", Tok::MinusAssign),
        ("->", Tok::Arrow),
        ("*=", Tok::StarAssign),
        ("/=", Tok::SlashAssign),
        ("%=", Tok::ModAssign),
        ("<=", Tok::LessEq),
        (">=", Tok::GreaterEq),
        ("==", Tok::Eq),
        ("!=", Tok::NotEq),
    ];
    for (text, tok) in cases {
        assert_eq!(lex_all(text), vec![Ok((0, tok, 2))]);
    }
}

#[test]
fn single_character_operators_and_punctuation() {
    let cases = vec![
        ("+", Tok::Plus),
        ("-", Tok::Minus),
        ("*", Tok::Star),
        ("/", Tok::Slash),
        ("%", Tok::Mod),
        ("<", Tok::Less),
        (">", Tok::Greater),
        ("=", Tok::Assign),
        ("(", Tok::LParen),
        (")", Tok::RParen),
        ("{", Tok::LBrace),
        ("}", Tok::RBrace),
        (",", Tok::Comma),
        (":", Tok::Colon),
    ];
    for (text, tok) in cases {
        assert_eq!(lex_all(text), vec![Ok((0, tok, 1))]);
    }
}

#[test]
fn operator_falls_back_to_one_character() {
    assert_eq!(
        lex_all("+-"),
        vec![Ok((0, Tok::Plus, 1)), Ok((1, Tok::Minus, 2))]
    );
    assert_eq!(
        lex_all("= ="),
        vec![Ok((0, Tok::Assign, 1)), Ok((2, Tok::Assign, 3))]
    );
    assert_eq!(
        lex_all("<=="),
        vec![Ok((0, Tok::LessEq, 2)), Ok((2, Tok::Assign, 3))]
    );
    assert_eq!(
        lex_all("a+=1"),
        vec![
            Ok((0, ident("a"), 1)),
            Ok((1, Tok::PlusAssign, 3)),
            Ok((3, number("1"), 4)),
        ]
    );
}

#[test]
fn keyword_text_lexes_as_keyword() {
    let cases = vec![
        ("if", Tok::If),
        ("else", Tok::Else),
        ("while", Tok::While),
        ("for", Tok::For),
        ("fn", Tok::Fn),
        ("sub", Tok::Sub),
        ("return", Tok::Return),
        ("break", Tok::Break),
        ("continue", Tok::Continue),
        ("end", Tok::End),
        ("true", Tok::Boolean(true)),
        ("false", Tok::Boolean(false)),
        ("and", Tok::And),
        ("or", Tok::Or),
        ("not", Tok::Not),
    ];
    for (text, tok) in cases {
        assert_eq!(lex_all(text), vec![Ok((0, tok, text.len()))]);
    }
}

#[test]
fn words_that_only_resemble_keywords_are_identifiers() {
    assert_eq!(lex_all("truer"), vec![Ok((0, ident("truer"), 5))]);
    assert_eq!(lex_all("If"), vec![Ok((0, ident("If"), 2))]);
    assert_eq!(lex_all("_end"), vec![Ok((0, ident("_end"), 4))]);
    assert_eq!(lex_all("end_"), vec![Ok((0, ident("end_"), 4))]);
    assert_eq!(lex_all("x1"), vec![Ok((0, ident("x1"), 2))]);
}

#[test]
fn identifiers_may_hold_letters_beyond_ascii() {
    // two bytes for the first letter: the span is in bytes
    assert_eq!(lex_all("\u{e9}t\u{e9} x"), vec![
        Ok((0, ident("\u{e9}t\u{e9}"), 5)),
        Ok((6, ident("x"), 7)),
    ]);
}

#[test]
fn unterminated_string_fails_at_the_opening_quote() {
    assert_eq!(
        lex_all("\"abc"),
        vec![Err(LexicalError::UnterminatedString(0))]
    );
    assert_eq!(
        lex_all("x = \"abc\nmore"),
        vec![
            Ok((0, ident("x"), 1)),
            Ok((2, Tok::Assign, 3)),
            Err(LexicalError::UnterminatedString(4)),
        ]
    );
}

#[test]
fn unrecognized_character_fails_at_its_offset() {
    assert_eq!(lex_all("`"), vec![Err(LexicalError::UnrecognizedToken(0))]);
    assert_eq!(lex_all("!"), vec![Err(LexicalError::UnrecognizedToken(0))]);
    let items = lex_all("a ! b");
    assert_eq!(items[0], Ok((0, ident("a"), 1)));
    assert_eq!(items[1], Err(LexicalError::UnrecognizedToken(2)));
    let items = lex_all("ab [");
    assert_eq!(items[1], Err(LexicalError::UnrecognizedToken(3)));
}

#[test]
fn lexer_goes_on_after_a_failure() {
    // the lexer itself yields what follows; only the parser stops
    assert_eq!(
        lex_all("! x"),
        vec![
            Err(LexicalError::UnrecognizedToken(0)),
            Ok((2, ident("x"), 3)),
        ]
    );
}

#[test]
fn string_literal_keeps_its_text_verbatim() {
    assert_eq!(
        lex_all("\"a\\nb\""),
        vec![Ok((0, Tok::String("a\\nb".to_string()), 6))]
    );
    assert_eq!(
        lex_all("\"\""),
        vec![Ok((0, Tok::String(String::new()), 2))]
    );
    // three bytes for the sign inside: the span is in bytes
    assert_eq!(
        lex_all("\"\u{20ac}\" x"),
        vec![
            Ok((0, Tok::String("\u{20ac}".to_string()), 5)),
            Ok((6, ident("x"), 7)),
        ]
    );
}

#[test]
fn numbers_are_runs_of_digits() {
    assert_eq!(lex_all("42"), vec![Ok((0, number("42"), 2))]);
    assert_eq!(lex_all("007"), vec![Ok((0, number("007"), 3))]);
    assert_eq!(
        lex_all("1x"),
        vec![Ok((0, number("1"), 1)), Ok((1, ident("x"), 2))]
    );
    assert_eq!(
        lex_all("-5"),
        vec![Ok((0, Tok::Minus, 1)), Ok((1, number("5"), 2))]
    );
}

#[test]
fn blanks_are_skipped() {
    assert_eq!(lex_all(""), vec![]);
    assert_eq!(lex_all(" \t\r "), vec![]);
    assert_eq!(
        lex_all("  a\t b\r"),
        vec![Ok((2, ident("a"), 3)), Ok((5, ident("b"), 6))]
    );
}

#[test]
fn line_breaks_collapse_into_one_separator() {
    assert_eq!(
        lex_all("a\n\n\nb"),
        vec![
            Ok((0, ident("a"), 1)),
            Ok((1, Tok::Newline, 2)),
            Ok((4, ident("b"), 5)),
        ]
    );
    assert_eq!(
        lex_all("a\r\n\r\nb"),
        vec![
            Ok((0, ident("a"), 1)),
            Ok((2, Tok::Newline, 3)),
            Ok((5, ident("b"), 6)),
        ]
    );
    assert_eq!(
        lex_all("a\n"),
        vec![Ok((0, ident("a"), 1)), Ok((1, Tok::Newline, 2))]
    );
}

#[test]
fn leading_line_break_is_dropped() {
    assert_eq!(lex_all("\n"), vec![]);
    assert_eq!(lex_all("\n\n\na"), vec![Ok((3, ident("a"), 4))]);
    // a line break that is not the very first character is a separator
    assert_eq!(
        lex_all(" \na"),
        vec![Ok((1, Tok::Newline, 2)), Ok((2, ident("a"), 3))]
    );
}

#[test]
fn lexing_is_deterministic() {
    let text = "fn f(a, b) {\n  return a + b * 2\n} end\nx = f(1, 2)";
    assert_eq!(lex_all(text), lex_all(text));
    assert_eq!(lex_all(text).len(), 27);
}

#[test]
fn tokenize_stops_at_the_first_failure() {
    let (tokens, end) = tokenize("a = ` b ! c");
    assert_eq!(tokens, vec![(0, ident("a"), 1), (2, Tok::Assign, 3)]);
    assert_eq!(end, Some(LexicalError::UnrecognizedToken(4)));
    let (tokens, end) = tokenize("a = 1");
    assert_eq!(tokens.len(), 3);
    assert_eq!(end, None);
}

#[test]
fn tokens_are_described_by_kind_and_text() {
    assert_eq!(Tok::Plus.describe(), "Plus");
    assert_eq!(Tok::Newline.describe(), "Newline");
    assert_eq!(number("42").describe(), "Number(42)");
    assert_eq!(Tok::Boolean(false).describe(), "Boolean(false)");
    assert_eq!(Tok::String("a b".to_string()).describe(), "String(\"a b\")");
    assert_eq!(ident("x").describe(), "Identifier(\"x\")");
    assert_eq!(ident("x").duplicate(), ident("x"));
}
