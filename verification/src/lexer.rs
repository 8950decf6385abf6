//! The lexer: source text to positioned tokens.
//!
//! `scan` defines, for a source text and a character position, what the
//! lexer yields next and where it goes on from; [`Lexer::next`] is proved to
//! compute it. Positions in spans and errors are byte offsets into the UTF-8
//! source text.

use crate::text::{
    chars_of, is_digit, lemma_utf8_len_prefix, lemma_utf8_len_push, utf8_len, width_of,
};
use vstd::prelude::*;
use vstd::string::*;

verus! {

/// A token of the source language. A numeric literal keeps its digits.
#[derive(Debug, PartialEq, Clone)]
pub enum Tok {
    // Keywords
    If,
    Else,
    While,
    For,
    Fn,
    Sub,
    Return,
    Break,
    Continue,
    End,
    // Operators
    Plus,
    Minus,
    Star,
    Slash,
    Mod,
    Less,
    LessEq,
    Greater,
    GreaterEq,
    Eq,
    NotEq,
    And,
    Or,
    Not,
    // Punctuation
    LParen,
    RParen,
    LBrace,
    RBrace,
    Comma,
    Colon,
    Newline,
    Assign,
    PlusAssign,
    MinusAssign,
    StarAssign,
    SlashAssign,
    ModAssign,
    Arrow,
    // Literals
    Number(String),
    Boolean(bool),
    String(String),
    Identifier(String),
    // Special
    Eof,
}

/// The mathematical value of a [`Tok`].
pub ghost enum TokView {
    If,
    Else,
    While,
    For,
    Fn,
    Sub,
    Return,
    Break,
    Continue,
    End,
    Plus,
    Minus,
    Star,
    Slash,
    Mod,
    Less,
    LessEq,
    Greater,
    GreaterEq,
    Eq,
    NotEq,
    And,
    Or,
    Not,
    LParen,
    RParen,
    LBrace,
    RBrace,
    Comma,
    Colon,
    Newline,
    Assign,
    PlusAssign,
    MinusAssign,
    StarAssign,
    SlashAssign,
    ModAssign,
    Arrow,
    Number(Seq<char>),
    Boolean(bool),
    String(Seq<char>),
    Identifier(Seq<char>),
    Eof,
}

impl View for Tok {
    type V = TokView;

    open spec fn view(&self) -> TokView {
        match self {
            Tok::If => TokView::If,
            Tok::Else => TokView::Else,
            Tok::While => TokView::While,
            Tok::For => TokView::For,
            Tok::Fn => TokView::Fn,
            Tok::Sub => TokView::Sub,
            Tok::Return => TokView::Return,
            Tok::Break => TokView::Break,
            Tok::Continue => TokView::Continue,
            Tok::End => TokView::End,
            Tok::Plus => TokView::Plus,
            Tok::Minus => TokView::Minus,
            Tok::Star => TokView::Star,
            Tok::Slash => TokView::Slash,
            Tok::Mod => TokView::Mod,
            Tok::Less => TokView::Less,
            Tok::LessEq => TokView::LessEq,
            Tok::Greater => TokView::Greater,
            Tok::GreaterEq => TokView::GreaterEq,
            Tok::Eq => TokView::Eq,
            Tok::NotEq => TokView::NotEq,
            Tok::And => TokView::And,
            Tok::Or => TokView::Or,
            Tok::Not => TokView::Not,
            Tok::LParen => TokView::LParen,
            Tok::RParen => TokView::RParen,
            Tok::LBrace => TokView::LBrace,
            Tok::RBrace => TokView::RBrace,
            Tok::Comma => TokView::Comma,
            Tok::Colon => TokView::Colon,
            Tok::Newline => TokView::Newline,
            Tok::Assign => TokView::Assign,
            Tok::PlusAssign => TokView::PlusAssign,
            Tok::MinusAssign => TokView::MinusAssign,
            Tok::StarAssign => TokView::StarAssign,
            Tok::SlashAssign => TokView::SlashAssign,
            Tok::ModAssign => TokView::ModAssign,
            Tok::Arrow => TokView::Arrow,
            Tok::Number(digits) => TokView::Number(digits@),
            Tok::Boolean(b) => TokView::Boolean(*b),
            Tok::String(s) => TokView::String(s@),
            Tok::Identifier(name) => TokView::Identifier(name@),
            Tok::Eof => TokView::Eof,
        }
    }
}

/// A failure of the lexer, with the byte offset of the character at which
/// the failed token starts.
#[derive(Debug, PartialEq, Eq, Clone, Copy, Structural)]
pub enum LexicalError {
    UnrecognizedToken(usize),
    UnterminatedString(usize),
}

/// A token with the byte offsets at which it starts and ends.
pub type Token = (usize, Tok, usize);

/// A token with its span, or the failure in its place.
pub type Spanned = Result<Token, LexicalError>;

/// The mathematical value of a [`Token`].
pub type TokenView = (nat, TokView, nat);

/// The view of a token with its span.
pub open spec fn token_view(token: Token) -> TokenView {
    (token.0 as nat, token.1@, token.2 as nat)
}

/// The views of a sequence of tokens with their spans.
pub open spec fn tokens_view(tokens: Seq<Token>) -> Seq<TokenView> {
    Seq::new(tokens.len(), |i: int| token_view(tokens[i]))
}

/// What `char::is_alphabetic` returns for `c`: whether `c` has the Unicode
/// property Alphabetic.
pub uninterp spec fn alphabetic(c: char) -> bool;

/// What `char::is_alphanumeric` returns for `c`: whether `c` is alphabetic
/// or numeric in Unicode.
pub uninterp spec fn alphanumeric(c: char) -> bool;

/// `char::is_alphabetic` looks the character up in the tables of Unicode.
/// All that is claimed here is that its result depends on the character
/// alone; the result goes by the name `alphabetic`.
pub assume_specification[ char::is_alphabetic ](c: char) -> (r: bool)
    ensures
        r == alphabetic(c),
;

/// `char::is_alphanumeric` looks the character up in the tables of Unicode.
/// All that is claimed here is that its result depends on the character
/// alone; the result goes by the name `alphanumeric`.
pub assume_specification[ char::is_alphanumeric ](c: char) -> (r: bool)
    ensures
        r == alphanumeric(c),
;

/// Space, tab and carriage return separate tokens and are skipped.
pub open spec fn is_blank(c: char) -> bool {
    c == ' ' || c == '\t' || c == '\r'
}

/// A character that may start an identifier or keyword.
pub open spec fn is_word_start(c: char) -> bool {
    alphabetic(c) || c == '_'
}

/// A character that may continue an identifier or keyword.
pub open spec fn is_word_part(c: char) -> bool {
    alphanumeric(c) || c == '_'
}

/// The kinds of runs of characters that the lexer reads as a whole.
#[derive(Debug, Clone, Copy, PartialEq, Eq, Structural)]
pub enum Run {
    /// Line breaks and carriage returns after a line break.
    Breaks,
    /// The characters of an identifier or keyword after its first.
    Word,
    /// Decimal digits.
    Digits,
    /// What stands inside a string literal: anything but the quote.
    Quoted,
}

/// Whether `c` belongs to a run of kind `run`.
pub open spec fn in_run(run: Run, c: char) -> bool {
    match run {
        Run::Breaks => c == '\n' || c == '\r',
        Run::Word => is_word_part(c),
        Run::Digits => is_digit(c),
        Run::Quoted => c != '"',
    }
}

/// The position at which the run of kind `run` that starts at `i` ends: the
/// first position from `i` on whose character does not belong to the run, or
/// the end of the text.
pub open spec fn run_end(src: Seq<char>, i: int, run: Run) -> int
    decreases src.len() - i,
{
    if 0 <= i < src.len() && in_run(run, src[i]) {
        run_end(src, i + 1, run)
    } else {
        i
    }
}

/// The byte offset of the character at position `i` of `src`.
pub open spec fn offset_of(src: Seq<char>, i: int) -> nat {
    utf8_len(src.take(i))
}

/// The keyword or boolean literal that is written `text`, if there is one.
pub open spec fn keyword(text: Seq<char>) -> Option<TokView> {
    if text == "if"@ {
        Some(TokView::If)
    } else if text == "else"@ {
        Some(TokView::Else)
    } else if text == "while"@ {
        Some(TokView::While)
    } else if text == "for"@ {
        Some(TokView::For)
    } else if text == "fn"@ {
        Some(TokView::Fn)
    } else if text == "sub"@ {
        Some(TokView::Sub)
    } else if text == "return"@ {
        Some(TokView::Return)
    } else if text == "break"@ {
        Some(TokView::Break)
    } else if text == "continue"@ {
        Some(TokView::Continue)
    } else if text == "end"@ {
        Some(TokView::End)
    } else if text == "true"@ {
        Some(TokView::Boolean(true))
    } else if text == "false"@ {
        Some(TokView::Boolean(false))
    } else if text == "and"@ {
        Some(TokView::And)
    } else if text == "or"@ {
        Some(TokView::Or)
    } else if text == "not"@ {
        Some(TokView::Not)
    } else {
        None
    }
}

/// The token for a word: its keyword if it is one, an identifier otherwise.
pub open spec fn word(text: Seq<char>) -> TokView {
    match keyword(text) {
        Some(tok) => tok,
        None => TokView::Identifier(text),
    }
}

/// Whether the character after position `i` is `c`.
pub open spec fn followed_by(src: Seq<char>, i: int, c: char) -> bool {
    i + 1 < src.len() && src[i + 1] == c
}

/// What the lexer finds at a position: a token or one of the two failures.
pub ghost enum Found {
    Token(TokView),
    Unrecognized,
    Unterminated,
}

/// What the lexer finds at a position and the position after it.
pub ghost struct Reading {
    pub found: Found,
    pub next: int,
}

/// A token of one character.
pub open spec fn single(tok: TokView, i: int) -> Reading {
    Reading { found: Found::Token(tok), next: i + 1 }
}

/// An operator that is followed by `=` or stands alone.
pub open spec fn with_equals(src: Seq<char>, i: int, joined: TokView, alone: TokView) -> Reading {
    if followed_by(src, i, '=') {
        Reading { found: Found::Token(joined), next: i + 2 }
    } else {
        single(alone, i)
    }
}

/// The token that starts at position `i` of `src`, where a character stands
/// that is neither blank nor a line break. An operator takes the character
/// after it along where the two form an operator of their own.
pub open spec fn token_at(src: Seq<char>, i: int) -> Reading {
    let c = src[i];
    if c == '+' {
        with_equals(src, i, TokView::PlusAssign, TokView::Plus)
    } else if c == '-' {
        if followed_by(src, i, '>') {
            Reading { found: Found::Token(TokView::Arrow), next: i + 2 }
        } else {
            with_equals(src, i, TokView::MinusAssign, TokView::Minus)
        }
    } else if c == '*' {
        with_equals(src, i, TokView::StarAssign, TokView::Star)
    } else if c == '/' {
        with_equals(src, i, TokView::SlashAssign, TokView::Slash)
    } else if c == '%' {
        with_equals(src, i, TokView::ModAssign, TokView::Mod)
    } else if c == '<' {
        with_equals(src, i, TokView::LessEq, TokView::Less)
    } else if c == '>' {
        with_equals(src, i, TokView::GreaterEq, TokView::Greater)
    } else if c == '=' {
        with_equals(src, i, TokView::Eq, TokView::Assign)
    } else if c == '!' {
        if followed_by(src, i, '=') {
            Reading { found: Found::Token(TokView::NotEq), next: i + 2 }
        } else {
            Reading { found: Found::Unrecognized, next: i + 1 }
        }
    } else if c == '(' {
        single(TokView::LParen, i)
    } else if c == ')' {
        single(TokView::RParen, i)
    } else if c == '{' {
        single(TokView::LBrace, i)
    } else if c == '}' {
        single(TokView::RBrace, i)
    } else if c == ',' {
        single(TokView::Comma, i)
    } else if c == ':' {
        single(TokView::Colon, i)
    } else if c == '"' {
        let close = run_end(src, i + 1, Run::Quoted);
        if close < src.len() {
            Reading {
                found: Found::Token(TokView::String(src.subrange(i + 1, close))),
                next: close + 1,
            }
        } else {
            Reading { found: Found::Unterminated, next: close }
        }
    } else if is_word_start(c) {
        let end = run_end(src, i + 1, Run::Word);
        Reading { found: Found::Token(word(src.subrange(i, end))), next: end }
    } else if is_digit(c) {
        let end = run_end(src, i + 1, Run::Digits);
        Reading { found: Found::Token(TokView::Number(src.subrange(i, end))), next: end }
    } else {
        Reading { found: Found::Unrecognized, next: i + 1 }
    }
}

/// One step of the lexer: what it yields and the position it goes on from.
pub ghost struct Scan {
    pub item: Option<Result<TokenView, LexicalError>>,
    pub next: int,
}

/// The step that the lexer takes from position `i` of `src`. Blanks are
/// skipped. A run of line breaks yields one separator that spans its first
/// character, unless the run starts the text: then it is skipped. Any
/// other token spans the bytes from its first character to the position
/// that the lexer goes on from, and a failure carries the offset of the
/// character at which the token starts. At the end of the text nothing is
/// yielded.
pub open spec fn scan(src: Seq<char>, i: int) -> Scan
    decreases src.len() - i,
{
    if !(0 <= i < src.len()) {
        Scan { item: None, next: i }
    } else if is_blank(src[i]) {
        scan(src, i + 1)
    } else if src[i] == '\n' {
        let after = run_end(src, i + 1, Run::Breaks);
        if i == 0 {
            proof {
                lemma_run_end_bounds(src, i + 1, Run::Breaks);
            }
            scan(src, after)
        } else {
            Scan {
                item: Some(Ok((offset_of(src, i), TokView::Newline, offset_of(src, i) + 1))),
                next: after,
            }
        }
    } else {
        let reading = token_at(src, i);
        let start = offset_of(src, i);
        Scan {
            item: Some(
                match reading.found {
                    Found::Token(tok) => Ok((start, tok, offset_of(src, reading.next))),
                    Found::Unrecognized => Err(LexicalError::UnrecognizedToken(start as usize)),
                    Found::Unterminated => Err(LexicalError::UnterminatedString(start as usize)),
                },
            ),
            next: reading.next,
        }
    }
}

/// A run ends between its start and the end of the text; all of it belongs
/// to the run, and what follows it does not.
pub proof fn lemma_run_end_bounds(src: Seq<char>, i: int, run: Run)
    requires
        0 <= i <= src.len(),
    ensures
        i <= run_end(src, i, run) <= src.len(),
        forall|k: int| i <= k < run_end(src, i, run) ==> in_run(run, #[trigger] src[k]),
        run_end(src, i, run) < src.len() ==> !in_run(run, src[run_end(src, i, run)]),
    decreases src.len() - i,
{
    if i < src.len() && in_run(run, src[i]) {
        lemma_run_end_bounds(src, i + 1, run);
    }
}

/// The byte offset of the next position is the offset of this one plus the
/// width of the character that stands here, and no offset exceeds the
/// length of the text in bytes.
pub proof fn lemma_offset_step(src: Seq<char>, i: int)
    requires
        0 <= i < src.len(),
    ensures
        offset_of(src, i + 1) == offset_of(src, i) + crate::text::utf8_width(src[i]),
        offset_of(src, i + 1) <= utf8_len(src),
{
    assert(src.take(i + 1) =~= src.take(i).push(src[i]));
    lemma_utf8_len_push(src.take(i), src[i]);
    lemma_utf8_len_prefix(src, i + 1, src.len() as int);
    assert(src.take(src.len() as int) =~= src);
}

/// What an item that the lexer hands out stands for.
pub open spec fn spanned_view(item: Option<Spanned>) -> Option<Result<TokenView, LexicalError>> {
    match item {
        None => None,
        Some(Ok(token)) => Some(Ok(token_view(token))),
        Some(Err(e)) => Some(Err(e)),
    }
}

impl Tok {
    /// A copy of the token.
    pub fn duplicate(&self) -> (out: Tok)
        ensures
            out == *self,
    {
        match self {
            Tok::If => Tok::If,
            Tok::Else => Tok::Else,
            Tok::While => Tok::While,
            Tok::For => Tok::For,
            Tok::Fn => Tok::Fn,
            Tok::Sub => Tok::Sub,
            Tok::Return => Tok::Return,
            Tok::Break => Tok::Break,
            Tok::Continue => Tok::Continue,
            Tok::End => Tok::End,
            Tok::Plus => Tok::Plus,
            Tok::Minus => Tok::Minus,
            Tok::Star => Tok::Star,
            Tok::Slash => Tok::Slash,
            Tok::Mod => Tok::Mod,
            Tok::Less => Tok::Less,
            Tok::LessEq => Tok::LessEq,
            Tok::Greater => Tok::Greater,
            Tok::GreaterEq => Tok::GreaterEq,
            Tok::Eq => Tok::Eq,
            Tok::NotEq => Tok::NotEq,
            Tok::And => Tok::And,
            Tok::Or => Tok::Or,
            Tok::Not => Tok::Not,
            Tok::LParen => Tok::LParen,
            Tok::RParen => Tok::RParen,
            Tok::LBrace => Tok::LBrace,
            Tok::RBrace => Tok::RBrace,
            Tok::Comma => Tok::Comma,
            Tok::Colon => Tok::Colon,
            Tok::Newline => Tok::Newline,
            Tok::Assign => Tok::Assign,
            Tok::PlusAssign => Tok::PlusAssign,
            Tok::MinusAssign => Tok::MinusAssign,
            Tok::StarAssign => Tok::StarAssign,
            Tok::SlashAssign => Tok::SlashAssign,
            Tok::ModAssign => Tok::ModAssign,
            Tok::Arrow => Tok::Arrow,
            Tok::Number(digits) => Tok::Number(digits.clone()),
            Tok::Boolean(b) => Tok::Boolean(*b),
            Tok::String(s) => Tok::String(s.clone()),
            Tok::Identifier(name) => Tok::Identifier(name.clone()),
            Tok::Eof => Tok::Eof,
        }
    }
}

/// Whether `c` belongs to a run of kind `run`.
fn belongs(run: Run, c: char) -> (r: bool)
    ensures
        r == in_run(run, c),
{
    match run {
        Run::Breaks => c == '\n' || c == '\r',
        Run::Word => c.is_alphanumeric() || c == '_',
        Run::Digits => '0' <= c && c <= '9',
        Run::Quoted => c != '"',
    }
}

/// Reads the run of kind `run` that starts at `pos` and returns the position
/// and the byte offset of its end.
fn skip_run(chars: &Vec<char>, pos: usize, offset: usize, run: Run) -> (out: (usize, usize))
    requires
        pos <= chars.len(),
        offset == offset_of(chars@, pos as int),
        utf8_len(chars@) <= usize::MAX,
    ensures
        out.0 == run_end(chars@, pos as int, run),
        out.1 == offset_of(chars@, out.0 as int),
        pos <= out.0 <= chars.len(),
{
    let mut p: usize = pos;
    let mut o: usize = offset;
    while p < chars.len() && belongs(run, chars[p])
        invariant
            pos <= p <= chars.len(),
            o == offset_of(chars@, p as int),
            run_end(chars@, p as int, run) == run_end(chars@, pos as int, run),
            utf8_len(chars@) <= usize::MAX,
        decreases chars.len() - p,
    {
        proof {
            lemma_offset_step(chars@, p as int);
        }
        o = o + width_of(chars[p]);
        p = p + 1;
    }
    (p, o)
}

/// The characters `chars[from..to]` as a string.
fn text_of(chars: &Vec<char>, from: usize, to: usize) -> (out: String)
    requires
        from <= to <= chars.len(),
    ensures
        out@ == chars@.subrange(from as int, to as int),
{
    let mut out = String::new();
    crate::text::push_chars(&mut out, chars, from, to);
    assert(out@ =~= chars@.subrange(from as int, to as int));
    out
}

/// Whether the characters `chars[from..to]` spell `word`.
fn spells(chars: &Vec<char>, from: usize, to: usize, word: &str) -> (r: bool)
    requires
        from <= to <= chars.len(),
    ensures
        r == (chars@.subrange(from as int, to as int) == word@),
{
    let letters = chars_of(word);
    if letters.len() != to - from {
        assert(chars@.subrange(from as int, to as int).len() != word@.len());
        return false;
    }
    let mut k: usize = 0;
    while k < letters.len()
        invariant
            from <= to <= chars.len(),
            letters.len() == to - from,
            letters@ == word@,
            k <= letters.len(),
            forall|j: int| 0 <= j < k ==> chars@[from + j] == letters@[j],
        decreases letters.len() - k,
    {
        if chars[from + k] != letters[k] {
            assert(chars@.subrange(from as int, to as int)[k as int] != letters@[k as int]);
            return false;
        }
        k += 1;
    }
    assert(chars@.subrange(from as int, to as int) =~= letters@);
    true
}

/// The token for the word `chars[from..to]`: its keyword if it is one, an
/// identifier otherwise.
pub fn word_token(chars: &Vec<char>, from: usize, to: usize) -> (tok: Tok)
    requires
        from <= to <= chars.len(),
    ensures
        tok@ == word(chars@.subrange(from as int, to as int)),
{
    if spells(chars, from, to, "if") {
        Tok::If
    } else if spells(chars, from, to, "else") {
        Tok::Else
    } else if spells(chars, from, to, "while") {
        Tok::While
    } else if spells(chars, from, to, "for") {
        Tok::For
    } else if spells(chars, from, to, "fn") {
        Tok::Fn
    } else if spells(chars, from, to, "sub") {
        Tok::Sub
    } else if spells(chars, from, to, "return") {
        Tok::Return
    } else if spells(chars, from, to, "break") {
        Tok::Break
    } else if spells(chars, from, to, "continue") {
        Tok::Continue
    } else if spells(chars, from, to, "end") {
        Tok::End
    } else if spells(chars, from, to, "true") {
        Tok::Boolean(true)
    } else if spells(chars, from, to, "false") {
        Tok::Boolean(false)
    } else if spells(chars, from, to, "and") {
        Tok::And
    } else if spells(chars, from, to, "or") {
        Tok::Or
    } else if spells(chars, from, to, "not") {
        Tok::Not
    } else {
        Tok::Identifier(text_of(chars, from, to))
    }
}

/// What the executable scanner reports of the token at a position: the
/// token or failure, the position after it and that position's byte offset.
struct Step {
    item: Spanned,
    next: usize,
    offset: usize,
}

/// Whether `step`, taken at position `pos` with byte offset `start`, is the
/// step that `reading` describes.
spec fn step_is(step: Step, reading: Reading, src: Seq<char>, start: usize) -> bool {
    &&& step.next == reading.next
    &&& step.next <= src.len()
    &&& step.offset == offset_of(src, reading.next)
    &&& match reading.found {
        Found::Token(tok) => step.item matches Ok((s, t, e)) && s == start && t@ == tok && e
            == step.offset,
        Found::Unrecognized => step.item == Err::<(usize, Tok, usize), LexicalError>(
            LexicalError::UnrecognizedToken(start),
        ),
        Found::Unterminated => step.item == Err::<(usize, Tok, usize), LexicalError>(
            LexicalError::UnterminatedString(start),
        ),
    }
}

/// Reads a token of one character.
fn read_single(chars: &Vec<char>, pos: usize, offset: usize, tok: Tok) -> (step: Step)
    requires
        pos < chars.len(),
        offset == offset_of(chars@, pos as int),
        utf8_len(chars@) <= usize::MAX,
    ensures
        step_is(step, single(tok@, pos as int), chars@, offset),
{
    proof {
        lemma_offset_step(chars@, pos as int);
    }
    let end = offset + width_of(chars[pos]);
    Step { item: Ok((offset, tok, end)), next: pos + 1, offset: end }
}

/// Reads the two characters at `pos` as one token.
fn read_pair(chars: &Vec<char>, pos: usize, offset: usize, tok: Tok) -> (step: Step)
    requires
        pos + 1 < chars.len(),
        offset == offset_of(chars@, pos as int),
        utf8_len(chars@) <= usize::MAX,
    ensures
        step_is(
            step,
            Reading { found: Found::Token(tok@), next: pos + 2 },
            chars@,
            offset,
        ),
{
    proof {
        lemma_offset_step(chars@, pos as int);
        lemma_offset_step(chars@, pos + 1);
    }
    let end = offset + width_of(chars[pos]) + width_of(chars[pos + 1]);
    Step { item: Ok((offset, tok, end)), next: pos + 2, offset: end }
}

/// Whether the character after position `pos` is `c`.
fn next_is(chars: &Vec<char>, pos: usize, c: char) -> (r: bool)
    requires
        pos < chars.len(),
    ensures
        r == followed_by(chars@, pos as int, c),
{
    pos + 1 < chars.len() && chars[pos + 1] == c
}

/// Reads an operator that is followed by `=` or stands alone.
fn read_with_equals(chars: &Vec<char>, pos: usize, offset: usize, joined: Tok, alone: Tok) -> (step:
    Step)
    requires
        pos < chars.len(),
        offset == offset_of(chars@, pos as int),
        utf8_len(chars@) <= usize::MAX,
    ensures
        step_is(step, with_equals(chars@, pos as int, joined@, alone@), chars@, offset),
{
    if next_is(chars, pos, '=') {
        read_pair(chars, pos, offset, joined)
    } else {
        read_single(chars, pos, offset, alone)
    }
}

/// Reports the failure to recognize the character at `pos`.
fn read_unrecognized(chars: &Vec<char>, pos: usize, offset: usize) -> (step: Step)
    requires
        pos < chars.len(),
        offset == offset_of(chars@, pos as int),
        utf8_len(chars@) <= usize::MAX,
    ensures
        step_is(
            step,
            Reading { found: Found::Unrecognized, next: pos + 1 },
            chars@,
            offset,
        ),
{
    proof {
        lemma_offset_step(chars@, pos as int);
    }
    let end = offset + width_of(chars[pos]);
    Step { item: Err(LexicalError::UnrecognizedToken(offset)), next: pos + 1, offset: end }
}

/// Reads the token that starts at `pos`.
fn read_token(chars: &Vec<char>, pos: usize, offset: usize) -> (step: Step)
    requires
        pos < chars.len(),
        offset == offset_of(chars@, pos as int),
        utf8_len(chars@) <= usize::MAX,
    ensures
        step_is(step, token_at(chars@, pos as int), chars@, offset),
{
    let c = chars[pos];
    if c == '+' {
        read_with_equals(chars, pos, offset, Tok::PlusAssign, Tok::Plus)
    } else if c == '-' {
        if next_is(chars, pos, '>') {
            read_pair(chars, pos, offset, Tok::Arrow)
        } else {
            read_with_equals(chars, pos, offset, Tok::MinusAssign, Tok::Minus)
        }
    } else if c == '*' {
        read_with_equals(chars, pos, offset, Tok::StarAssign, Tok::Star)
    } else if c == '/' {
        read_with_equals(chars, pos, offset, Tok::SlashAssign, Tok::Slash)
    } else if c == '%' {
        read_with_equals(chars, pos, offset, Tok::ModAssign, Tok::Mod)
    } else if c == '<' {
        read_with_equals(chars, pos, offset, Tok::LessEq, Tok::Less)
    } else if c == '>' {
        read_with_equals(chars, pos, offset, Tok::GreaterEq, Tok::Greater)
    } else if c == '=' {
        read_with_equals(chars, pos, offset, Tok::Eq, Tok::Assign)
    } else if c == '!' {
        if next_is(chars, pos, '=') {
            read_pair(chars, pos, offset, Tok::NotEq)
        } else {
            read_unrecognized(chars, pos, offset)
        }
    } else if c == '(' {
        read_single(chars, pos, offset, Tok::LParen)
    } else if c == ')' {
        read_single(chars, pos, offset, Tok::RParen)
    } else if c == '{' {
        read_single(chars, pos, offset, Tok::LBrace)
    } else if c == '}' {
        read_single(chars, pos, offset, Tok::RBrace)
    } else if c == ',' {
        read_single(chars, pos, offset, Tok::Comma)
    } else if c == ':' {
        read_single(chars, pos, offset, Tok::Colon)
    } else if c == '"' {
        proof {
            lemma_offset_step(chars@, pos as int);
        }
        let (close, close_offset) = skip_run(chars, pos + 1, offset + width_of(c), Run::Quoted);
        if close < chars.len() {
            proof {
                lemma_offset_step(chars@, close as int);
            }
            let end = close_offset + width_of(chars[close]);
            let content = text_of(chars, pos + 1, close);
            Step { item: Ok((offset, Tok::String(content), end)), next: close + 1, offset: end }
        } else {
            Step {
                item: Err(LexicalError::UnterminatedString(offset)),
                next: close,
                offset: close_offset,
            }
        }
    } else if c.is_alphabetic() || c == '_' {
        proof {
            lemma_offset_step(chars@, pos as int);
        }
        let (end, end_offset) = skip_run(chars, pos + 1, offset + width_of(c), Run::Word);
        let tok = word_token(chars, pos, end);
        Step { item: Ok((offset, tok, end_offset)), next: end, offset: end_offset }
    } else if '0' <= c && c <= '9' {
        proof {
            lemma_offset_step(chars@, pos as int);
        }
        let (end, end_offset) = skip_run(chars, pos + 1, offset + width_of(c), Run::Digits);
        let digits = text_of(chars, pos, end);
        Step { item: Ok((offset, Tok::Number(digits), end_offset)), next: end, offset: end_offset }
    } else {
        read_unrecognized(chars, pos, offset)
    }
}

/// Takes one step of the lexer from position `pos`, whose byte offset is
/// `offset`: returns what is yielded, the position to go on from and that
/// position's byte offset.
fn scan_from(chars: &Vec<char>, pos: usize, offset: usize) -> (out: (Option<Spanned>, usize, usize))
    requires
        pos <= chars.len(),
        offset == offset_of(chars@, pos as int),
        utf8_len(chars@) <= usize::MAX,
    ensures
        spanned_view(out.0) == scan(chars@, pos as int).item,
        out.1 == scan(chars@, pos as int).next,
        out.1 <= chars.len(),
        out.2 == offset_of(chars@, out.1 as int),
{
    let mut p: usize = pos;
    let mut o: usize = offset;
    loop
        invariant
            p <= chars.len(),
            o == offset_of(chars@, p as int),
            scan(chars@, p as int) == scan(chars@, pos as int),
            utf8_len(chars@) <= usize::MAX,
        decreases chars.len() - p,
    {
        if p >= chars.len() {
            return (None, p, o);
        }
        let c = chars[p];
        proof {
            lemma_offset_step(chars@, p as int);
        }
        if c == ' ' || c == '\t' || c == '\r' {
            o = o + width_of(c);
            p = p + 1;
        } else if c == '\n' {
            let (after, after_offset) = skip_run(chars, p + 1, o + width_of(c), Run::Breaks);
            if p == 0 {
                p = after;
                o = after_offset;
            } else {
                return (Some(Ok((o, Tok::Newline, o + 1))), after, after_offset);
            }
        } else {
            let step = read_token(chars, p, o);
            return (Some(step.item), step.next, step.offset);
        }
    }
}

/// A lexer over a source text. It yields the tokens of the text one by one,
/// each with its span, and restarts only from scratch.
pub struct Lexer {
    chars: Vec<char>,
    /// The position of the next character and its byte offset.
    at: (usize, usize),
}

impl Lexer {
    #[verifier::type_invariant]
    spec fn well_formed(self) -> bool {
        &&& self.at.0 <= self.chars.len()
        &&& self.at.1 == offset_of(self.chars@, self.at.0 as int)
        &&& utf8_len(self.chars@) <= usize::MAX
    }

    /// The source text that is lexed.
    pub closed spec fn source(&self) -> Seq<char> {
        self.chars@
    }

    /// The position, in characters, up to which the text has been read.
    pub closed spec fn position(&self) -> int {
        self.at.0 as int
    }

    /// A lexer at the start of `input`.
    pub fn new(input: &str) -> (lexer: Lexer)
        ensures
            lexer.source() == input@,
            lexer.position() == 0,
    {
        let chars = chars_of(input);
        let bytes = input.as_bytes();
        let n = bytes.len();
        assert(utf8_len(chars@) == n);
        assert(chars@.take(0) =~= Seq::<char>::empty());
        Lexer { chars, at: (0, 0) }
    }

    /// Yields the next token with its span, the failure to read one, or
    /// `None` at the end of the text, and moves on.
    pub fn next(&mut self) -> (item: Option<Spanned>)
        ensures
            final(self).source() == old(self).source(),
            spanned_view(item) == scan(old(self).source(), old(self).position()).item,
            final(self).position() == scan(old(self).source(), old(self).position()).next,
    {
        proof {
            use_type_invariant(&*self);
        }
        let (item, next, offset) = scan_from(&self.chars, self.at.0, self.at.1);
        self.at = (next, offset);
        item
    }
}

/// The name under which a token appears in messages: the name of its kind,
/// and for a literal or identifier its text in parentheses, that of strings
/// and identifiers in quotes.
pub open spec fn tok_text(tok: TokView) -> Seq<char> {
    match tok {
        TokView::If => "If"@,
        TokView::Else => "Else"@,
        TokView::While => "While"@,
        TokView::For => "For"@,
        TokView::Fn => "Fn"@,
        TokView::Sub => "Sub"@,
        TokView::Return => "Return"@,
        TokView::Break => "Break"@,
        TokView::Continue => "Continue"@,
        TokView::End => "End"@,
        TokView::Plus => "Plus"@,
        TokView::Minus => "Minus"@,
        TokView::Star => "Star"@,
        TokView::Slash => "Slash"@,
        TokView::Mod => "Mod"@,
        TokView::Less => "Less"@,
        TokView::LessEq => "LessEq"@,
        TokView::Greater => "Greater"@,
        TokView::GreaterEq => "GreaterEq"@,
        TokView::Eq => "Eq"@,
        TokView::NotEq => "NotEq"@,
        TokView::And => "And"@,
        TokView::Or => "Or"@,
        TokView::Not => "Not"@,
        TokView::LParen => "LParen"@,
        TokView::RParen => "RParen"@,
        TokView::LBrace => "LBrace"@,
        TokView::RBrace => "RBrace"@,
        TokView::Comma => "Comma"@,
        TokView::Colon => "Colon"@,
        TokView::Newline => "Newline"@,
        TokView::Assign => "Assign"@,
        TokView::PlusAssign => "PlusAssign"@,
        TokView::MinusAssign => "MinusAssign"@,
        TokView::StarAssign => "StarAssign"@,
        TokView::SlashAssign => "SlashAssign"@,
        TokView::ModAssign => "ModAssign"@,
        TokView::Arrow => "Arrow"@,
        TokView::Number(digits) => "Number("@ + digits + ")"@,
        TokView::Boolean(b) => if b {
            "Boolean(true)"@
        } else {
            "Boolean(false)"@
        },
        TokView::String(s) => "String(\""@ + s + "\")"@,
        TokView::Identifier(name) => "Identifier(\""@ + name + "\")"@,
        TokView::Eof => "Eof"@,
    }
}

impl Tok {
    /// The name under which the token appears in messages.
    pub fn describe(&self) -> (out: String)
        ensures
            out@ == tok_text(self@),
    {
        match self {
            Tok::If => "If".to_owned(),
            Tok::Else => "Else".to_owned(),
            Tok::While => "While".to_owned(),
            Tok::For => "For".to_owned(),
            Tok::Fn => "Fn".to_owned(),
            Tok::Sub => "Sub".to_owned(),
            Tok::Return => "Return".to_owned(),
            Tok::Break => "Break".to_owned(),
            Tok::Continue => "Continue".to_owned(),
            Tok::End => "End".to_owned(),
            Tok::Plus => "Plus".to_owned(),
            Tok::Minus => "Minus".to_owned(),
            Tok::Star => "Star".to_owned(),
            Tok::Slash => "Slash".to_owned(),
            Tok::Mod => "Mod".to_owned(),
            Tok::Less => "Less".to_owned(),
            Tok::LessEq => "LessEq".to_owned(),
            Tok::Greater => "Greater".to_owned(),
            Tok::GreaterEq => "GreaterEq".to_owned(),
            Tok::Eq => "Eq".to_owned(),
            Tok::NotEq => "NotEq".to_owned(),
            Tok::And => "And".to_owned(),
            Tok::Or => "Or".to_owned(),
            Tok::Not => "Not".to_owned(),
            Tok::LParen => "LParen".to_owned(),
            Tok::RParen => "RParen".to_owned(),
            Tok::LBrace => "LBrace".to_owned(),
            Tok::RBrace => "RBrace".to_owned(),
            Tok::Comma => "Comma".to_owned(),
            Tok::Colon => "Colon".to_owned(),
            Tok::Newline => "Newline".to_owned(),
            Tok::Assign => "Assign".to_owned(),
            Tok::PlusAssign => "PlusAssign".to_owned(),
            Tok::MinusAssign => "MinusAssign".to_owned(),
            Tok::StarAssign => "StarAssign".to_owned(),
            Tok::SlashAssign => "SlashAssign".to_owned(),
            Tok::ModAssign => "ModAssign".to_owned(),
            Tok::Arrow => "Arrow".to_owned(),
            Tok::Number(digits) => {
                let mut out = "Number(".to_owned();
                out.append(digits.as_str());
                out.append(")");
                out
            },
            Tok::Boolean(b) => if *b {
                "Boolean(true)".to_owned()
            } else {
                "Boolean(false)".to_owned()
            },
            Tok::String(s) => {
                let mut out = "String(\"".to_owned();
                out.append(s.as_str());
                out.append("\")");
                out
            },
            Tok::Identifier(name) => {
                let mut out = "Identifier(\"".to_owned();
                out.append(name.as_str());
                out.append("\")");
                out
            },
            Tok::Eof => "Eof".to_owned(),
        }
    }
}

/// A step that yields something moves ahead and stays inside the text.
pub proof fn lemma_scan_ahead(src: Seq<char>, i: int)
    ensures
        scan(src, i).item is Some ==> 0 <= i < scan(src, i).next <= src.len(),
        scan(src, i).item is None && 0 <= i <= src.len() ==> i <= scan(src, i).next
            <= src.len(),
    decreases src.len() - i,
{
    if 0 <= i < src.len() {
        if is_blank(src[i]) {
            lemma_scan_ahead(src, i + 1);
        } else if src[i] == '\n' {
            lemma_run_end_bounds(src, i + 1, Run::Breaks);
            if i == 0 {
                lemma_scan_ahead(src, run_end(src, i + 1, Run::Breaks));
            }
        } else {
            lemma_run_end_bounds(src, i + 1, Run::Quoted);
            lemma_run_end_bounds(src, i + 1, Run::Word);
            lemma_run_end_bounds(src, i + 1, Run::Digits);
        }
    }
}

/// The tokens that the lexer yields from position `i` of `src` on, up to
/// the end of the text or to the first failure, and that failure if there
/// is one.
pub open spec fn lexemes(src: Seq<char>, i: int) -> (Seq<TokenView>, Option<LexicalError>)
    decreases src.len() - i,
{
    match scan(src, i).item {
        None => (Seq::empty(), None),
        Some(Err(e)) => (Seq::empty(), Some(e)),
        Some(Ok(token)) => {
            proof {
                lemma_scan_ahead(src, i);
            }
            let rest = lexemes(src, scan(src, i).next);
            (seq![token] + rest.0, rest.1)
        },
    }
}

/// Lexes `input` to its end or to the first failure: returns the tokens
/// read, and the failure if there is one.
pub fn tokenize(input: &str) -> (out: (Vec<Token>, Option<LexicalError>))
    ensures
        tokens_view(out.0@) == lexemes(input@, 0).0,
        out.1 == lexemes(input@, 0).1,
{
    let mut lexer = Lexer::new(input);
    let mut tokens: Vec<Token> = Vec::new();
    assert(tokens_view(tokens@) + lexemes(input@, 0).0 =~= lexemes(input@, 0).0);
    loop
        invariant
            lexer.source() == input@,
            0 <= lexer.position() <= input@.len(),
            lexemes(input@, 0).0 == tokens_view(tokens@) + lexemes(input@, lexer.position()).0,
            lexemes(input@, 0).1 == lexemes(input@, lexer.position()).1,
        decreases input@.len() - lexer.position(),
    {
        let ghost before = lexer.position();
        proof {
            lemma_scan_ahead(input@, before);
        }
        match lexer.next() {
            None => {
                assert(tokens_view(tokens@) + Seq::<TokenView>::empty() =~= tokens_view(tokens@));
                return (tokens, None);
            },
            Some(Err(e)) => {
                assert(tokens_view(tokens@) + Seq::<TokenView>::empty() =~= tokens_view(tokens@));
                return (tokens, Some(e));
            },
            Some(Ok(token)) => {
                let ghost rest = lexemes(input@, lexer.position()).0;
                assert(tokens_view(tokens@.push(token)) + rest =~= tokens_view(tokens@) + (
                seq![token_view(token)] + rest));
                tokens.push(token);
            },
        }
    }
}

} // verus!
