//! What holds of the lexer: longest match for operators, keywords before
//! identifiers, where the two failures arise, and that everything it yields
//! lies at characters of the text.

use crate::lexer::{
    followed_by, in_run, is_blank, is_word_start, keyword, lemma_offset_step, lemma_run_end_bounds,
    lemma_scan_ahead, lexemes, offset_of, run_end, scan, token_at, word, Found, LexicalError, Run,
    Scan, TokView, TokenView,
};
use crate::text::{is_digit, lemma_ascii_width, utf8_len};
use vstd::prelude::*;

verus! {

/// Lexing ends: every token takes at least one character, so a text yields
/// no more tokens than it has characters.
pub proof fn law_lexing_ends(src: Seq<char>, i: int)
    requires
        0 <= i <= src.len(),
    ensures
        lexemes(src, i).0.len() <= src.len() - i,
    decreases src.len() - i,
{
    lemma_scan_ahead(src, i);
    if scan(src, i).item matches Some(Ok(_)) {
        law_lexing_ends(src, scan(src, i).next);
    }
}

/// The operator that the characters `first` and `second` form together,
/// if they form one.
pub open spec fn pair(first: char, second: char) -> Option<TokView> {
    if first == '-' && second == '>' {
        Some(TokView::Arrow)
    } else if second != '=' {
        None
    } else if first == '+' {
        Some(TokView::PlusAssign)
    } else if first == '-' {
        Some(TokView::MinusAssign)
    } else if first == '*' {
        Some(TokView::StarAssign)
    } else if first == '/' {
        Some(TokView::SlashAssign)
    } else if first == '%' {
        Some(TokView::ModAssign)
    } else if first == '<' {
        Some(TokView::LessEq)
    } else if first == '>' {
        Some(TokView::GreaterEq)
    } else if first == '=' {
        Some(TokView::Eq)
    } else if first == '!' {
        Some(TokView::NotEq)
    } else {
        None
    }
}

/// Longest match: wherever two characters that form an operator stand at
/// the start of a token, the lexer yields that one operator, spanning two
/// bytes, and goes on behind both; it never yields the first character as
/// a token of its own.
pub proof fn law_two_characters_one_token(src: Seq<char>, i: int)
    requires
        0 <= i,
        i + 1 < src.len(),
        pair(src[i], src[i + 1]) is Some,
    ensures
        scan(src, i) == (Scan {
            item: Some(
                Ok((offset_of(src, i), pair(src[i], src[i + 1])->Some_0, offset_of(src, i) + 2)),
            ),
            next: i + 2,
        }),
{
    lemma_offset_step(src, i);
    lemma_offset_step(src, i + 1);
    lemma_ascii_width(src[i]);
    lemma_ascii_width(src[i + 1]);
}

/// Keywords win over identifiers: the token read for a word is its keyword
/// whenever the word is spelled like one, and so an identifier token never
/// holds the text of a keyword.
pub proof fn law_keyword_precedence(src: Seq<char>, i: int)
    requires
        0 <= i < src.len(),
    ensures
        forall|text: Seq<char>|
            token_at(src, i).found == Found::Token(TokView::Identifier(text)) ==> keyword(text)
                is None,
        forall|text: Seq<char>| keyword(text) is Some ==> word(text) == keyword(text)->Some_0,
{
}

/// No identifier among the tokens of a text is spelled like a keyword.
pub proof fn law_no_keyword_is_an_identifier(src: Seq<char>, i: int, k: int)
    requires
        0 <= k < lexemes(src, i).0.len(),
    ensures
        lexemes(src, i).0[k].1 matches TokView::Identifier(text) ==> keyword(text) is None,
    decreases src.len() - i,
{
    lemma_scan_ahead(src, i);
    lemma_scan_token(src, i);
    match scan(src, i).item {
        Some(Ok(token)) => {
            let rest = lexemes(src, scan(src, i).next);
            if k == 0 {
                assert(lexemes(src, i).0[0] == token);
            } else {
                assert(lexemes(src, i).0[k] == rest.0[k - 1]);
                law_no_keyword_is_an_identifier(src, scan(src, i).next, k - 1);
            }
        },
        _ => {},
    }
}

/// A token that a step yields is a separator or the token found at some
/// position of the text.
proof fn lemma_scan_token(src: Seq<char>, i: int)
    ensures
        scan(src, i).item matches Some(Ok(token)) ==> token.1 == TokView::Newline || exists|
            j: int,
        |
            0 <= j < src.len() && #[trigger] token_at(src, j).found == Found::Token(token.1),
    decreases src.len() - i,
{
    if 0 <= i < src.len() {
        if is_blank(src[i]) {
            lemma_scan_token(src, i + 1);
        } else if src[i] == '\n' {
            if i == 0 {
                lemma_run_end_bounds(src, i + 1, Run::Breaks);
                lemma_scan_token(src, run_end(src, i + 1, Run::Breaks));
            }
        } else {
            if let Some(Ok(token)) = scan(src, i).item {
                assert(token_at(src, i).found == Found::Token(token.1));
            }
        }
    }
}

/// A run of kind `run` that holds nothing but its own characters up to the
/// end of the text ends there.
pub proof fn lemma_run_to_the_end(src: Seq<char>, i: int, run: Run)
    requires
        0 <= i <= src.len(),
        forall|k: int| i <= k < src.len() ==> in_run(run, #[trigger] src[k]),
    ensures
        run_end(src, i, run) == src.len(),
    decreases src.len() - i,
{
    if i < src.len() {
        lemma_run_to_the_end(src, i + 1, run);
    }
}

/// A string literal that is not closed before the text ends fails as
/// unterminated, at the offset of the quote that opens it.
pub proof fn law_unterminated_string(src: Seq<char>, i: int)
    requires
        0 <= i < src.len(),
        src[i] == '"',
        forall|k: int| i < k < src.len() ==> #[trigger] src[k] != '"',
        utf8_len(src) <= usize::MAX,
    ensures
        scan(src, i).item == Some(
            Err::<TokenView, LexicalError>(
                LexicalError::UnterminatedString(offset_of(src, i) as usize),
            ),
        ),
        offset_of(src, i) as usize == offset_of(src, i),
{
    lemma_run_to_the_end(src, i + 1, Run::Quoted);
    lemma_offset_step(src, i);
}

/// Whether `c` starts a token, is blank or breaks the line.
pub open spec fn is_known(c: char) -> bool {
    ||| is_blank(c)
    ||| c == '\n'
    ||| c == '+' || c == '-' || c == '*' || c == '/' || c == '%'
    ||| c == '<' || c == '>' || c == '=' || c == '!'
    ||| c == '(' || c == ')' || c == '{' || c == '}' || c == ',' || c == ':'
    ||| c == '"'
    ||| is_word_start(c)
    ||| is_digit(c)
}

/// A character that starts no token, and an exclamation mark that is not
/// followed by `=`, fail as unrecognized, at their own offset.
pub proof fn law_unrecognized_character(src: Seq<char>, i: int)
    requires
        0 <= i < src.len(),
        !is_known(src[i]) || (src[i] == '!' && !followed_by(src, i, '=')),
        utf8_len(src) <= usize::MAX,
    ensures
        scan(src, i).item == Some(
            Err::<TokenView, LexicalError>(
                LexicalError::UnrecognizedToken(offset_of(src, i) as usize),
            ),
        ),
        scan(src, i).next == i + 1,
        offset_of(src, i) as usize == offset_of(src, i),
{
    lemma_offset_step(src, i);
}

/// Whether a character of `src` starts at byte offset `offset`, or the text
/// ends there.
pub open spec fn is_boundary(src: Seq<char>, offset: nat) -> bool {
    exists|k: int| 0 <= k <= src.len() && #[trigger] offset_of(src, k) == offset
}

/// The offset of a position of the text is one at which a character starts
/// or the text ends.
pub proof fn lemma_boundary(src: Seq<char>, k: int)
    requires
        0 <= k <= src.len(),
    ensures
        is_boundary(src, offset_of(src, k)),
{
}

/// The offset of a failure of the lexer.
pub open spec fn failure_offset(error: LexicalError) -> nat {
    match error {
        LexicalError::UnrecognizedToken(at) => at as nat,
        LexicalError::UnterminatedString(at) => at as nat,
    }
}

/// What a step yields lies at characters: the span of a token starts and
/// ends where characters start, and so does the offset of a failure.
pub proof fn lemma_scan_boundaries(src: Seq<char>, i: int)
    requires
        utf8_len(src) <= usize::MAX,
    ensures
        match scan(src, i).item {
            Some(Ok(token)) => is_boundary(src, token.0) && is_boundary(src, token.2),
            Some(Err(error)) => is_boundary(src, failure_offset(error)),
            None => true,
        },
    decreases src.len() - i,
{
    if 0 <= i < src.len() {
        lemma_offset_step(src, i);
        if is_blank(src[i]) {
            lemma_scan_boundaries(src, i + 1);
        } else if src[i] == '\n' {
            if i == 0 {
                lemma_run_end_bounds(src, i + 1, Run::Breaks);
                lemma_scan_boundaries(src, run_end(src, i + 1, Run::Breaks));
            } else {
                lemma_ascii_width(src[i]);
                lemma_boundary(src, i);
                lemma_boundary(src, i + 1);
            }
        } else {
            lemma_scan_ahead(src, i);
            lemma_boundary(src, i);
            lemma_boundary(src, scan(src, i).next);
        }
    }
}

/// The tokens of a text and the failure that ends them lie at characters.
pub proof fn lemma_lexemes_boundaries(src: Seq<char>, i: int)
    requires
        utf8_len(src) <= usize::MAX,
    ensures
        forall|k: int|
            0 <= k < lexemes(src, i).0.len() ==> is_boundary(src, (#[trigger] lexemes(src, i).0[k]).0)
                && is_boundary(src, lexemes(src, i).0[k].2),
        lexemes(src, i).1 matches Some(error) ==> is_boundary(src, failure_offset(error)),
    decreases src.len() - i,
{
    lemma_scan_ahead(src, i);
    lemma_scan_boundaries(src, i);
    match scan(src, i).item {
        Some(Ok(token)) => {
            let rest = lexemes(src, scan(src, i).next);
            lemma_lexemes_boundaries(src, scan(src, i).next);
            assert forall|k: int| 0 <= k < lexemes(src, i).0.len() implies is_boundary(
                src,
                (#[trigger] lexemes(src, i).0[k]).0,
            ) && is_boundary(src, lexemes(src, i).0[k].2) by {
                if k > 0 {
                    assert(lexemes(src, i).0[k] == rest.0[k - 1]);
                }
            }
        },
        _ => {},
    }
}

} // verus!
