//! Diagnostics: an error kind, a position in the source and a message, and
//! the header line that presents them.

use crate::text::{decimal, push_decimal};
use vstd::prelude::*;
use vstd::string::*;

verus! {

/// The kinds of diagnostics. The front end reports syntax errors only.
#[derive(Debug, Clone, Copy, PartialEq, Eq, Structural)]
pub enum ErrKind {
    Syntax,
    Semantics,
    Internal,
}

/// A position in the source text: line and column, both counted from one.
#[derive(Debug, Clone, Copy, PartialEq, Eq, Structural)]
pub struct Pos {
    pub line: usize,
    pub col: usize,
}

/// A diagnostic: what kind of error, where, and what is wrong.
#[derive(Debug, PartialEq)]
pub struct Diagnostic {
    pub kind: ErrKind,
    pub pos: Pos,
    pub message: String,
}

/// The text that names a kind of error at the start of a header.
pub open spec fn label_text(kind: ErrKind) -> Seq<char> {
    match kind {
        ErrKind::Syntax => "Syntax Error: "@,
        ErrKind::Semantics => "Error: "@,
        ErrKind::Internal => "Internal error: "@,
    }
}

/// The SGR parameter of the colour in which a kind of error is named:
/// bright red, and plain red for internal errors.
pub open spec fn colour_code(kind: ErrKind) -> Seq<char> {
    match kind {
        ErrKind::Syntax => "91"@,
        ErrKind::Semantics => "91"@,
        ErrKind::Internal => "31"@,
    }
}

/// `text` between the escape sequence that switches to the colour `code`
/// and the one that resets it.
pub open spec fn coloured(code: Seq<char>, text: Seq<char>) -> Seq<char> {
    "\u{1b}["@ + code + "m"@ + text + "\u{1b}[0m"@
}

/// A line and a column as a header shows them.
pub open spec fn place_text(line: nat, col: nat) -> Seq<char> {
    "line "@ + decimal(line) + ", col "@ + decimal(col)
}

/// The header of a diagnostic: the label as it is to be shown, the place,
/// a colon and the message.
pub open spec fn header_text(label: Seq<char>, line: nat, col: nat, message: Seq<char>) -> Seq<
    char,
> {
    label + place_text(line, col) + ": "@ + message
}

/// Calls `colored::Colorize::bright_red` on `text` and formats what it
/// returns. Whether colours are in use depends on the environment and on
/// the terminal. Without them the text comes back unchanged; with them it
/// stands between the escape sequences for bright red and for reset, as long
/// as it holds no escape character itself.
#[verifier::external_body]
fn paint_bright_red(text: &str) -> (out: String)
    requires
        !text@.contains('\u{1b}'),
    ensures
        out@ == text@ || out@ == coloured("91"@, text@),
{
    colored::Colorize::bright_red(text).to_string()
}

/// Calls `colored::Colorize::red` on `text` and formats what it returns:
/// the text unchanged where colours are not in use, and between the escape
/// sequences for red and for reset where they are.
#[verifier::external_body]
fn paint_red(text: &str) -> (out: String)
    requires
        !text@.contains('\u{1b}'),
    ensures
        out@ == text@ || out@ == coloured("31"@, text@),
{
    colored::Colorize::red(text).to_string()
}

impl Pos {
    /// The position at `line` and `col`.
    pub fn new(line: usize, col: usize) -> (pos: Pos)
        ensures
            pos.line == line,
            pos.col == col,
    {
        Pos { line, col }
    }

    /// The position as a header shows it.
    pub fn text(&self) -> (out: String)
        ensures
            out@ == place_text(self.line as nat, self.col as nat),
    {
        let mut out = "line ".to_owned();
        push_decimal(&mut out, self.line);
        out.append(", col ");
        push_decimal(&mut out, self.col);
        out
    }
}

impl ErrKind {
    /// The text that names this kind of error at the start of a header.
    pub fn label(&self) -> (out: &'static str)
        ensures
            out@ == label_text(*self),
    {
        match self {
            ErrKind::Syntax => "Syntax Error: ",
            ErrKind::Semantics => "Error: ",
            ErrKind::Internal => "Internal error: ",
        }
    }

    /// The label as it is shown: in colour where the terminal takes colours
    /// and plain where it does not.
    pub fn shown_label(&self) -> (out: String)
        ensures
            out@ == label_text(*self) || out@ == coloured(colour_code(*self), label_text(*self)),
    {
        let label = self.label();
        proof {
            reveal_strlit("Syntax Error: ");
            reveal_strlit("Error: ");
            reveal_strlit("Internal error: ");
        }
        match self {
            ErrKind::Syntax => paint_bright_red(label),
            ErrKind::Semantics => paint_bright_red(label),
            ErrKind::Internal => paint_red(label),
        }
    }
}

impl Diagnostic {
    /// A diagnostic of the given kind.
    pub fn new(kind: ErrKind, pos: Pos, message: String) -> (d: Diagnostic)
        ensures
            d.kind == kind,
            d.pos == pos,
            d.message == message,
    {
        Diagnostic { kind, pos, message }
    }

    /// A syntax error.
    pub fn syntax(pos: Pos, message: String) -> (d: Diagnostic)
        ensures
            d.kind == ErrKind::Syntax,
            d.pos == pos,
            d.message == message,
    {
        Diagnostic::new(ErrKind::Syntax, pos, message)
    }

    /// A semantic error.
    pub fn semantics(pos: Pos, message: String) -> (d: Diagnostic)
        ensures
            d.kind == ErrKind::Semantics,
            d.pos == pos,
            d.message == message,
    {
        Diagnostic::new(ErrKind::Semantics, pos, message)
    }

    /// An internal error.
    pub fn internal(pos: Pos, message: String) -> (d: Diagnostic)
        ensures
            d.kind == ErrKind::Internal,
            d.pos == pos,
            d.message == message,
    {
        Diagnostic::new(ErrKind::Internal, pos, message)
    }

    /// The header with `label` in place of the name of the kind: the label,
    /// the position, a colon and the message.
    pub fn header_with(&self, label: &str) -> (out: String)
        ensures
            out@ == header_text(label@, self.pos.line as nat, self.pos.col as nat, self.message@),
    {
        let place = self.pos.text();
        let mut out = label.to_owned();
        out.append(place.as_str());
        out.append(": ");
        out.append(self.message.as_str());
        out
    }

    /// The header of the diagnostic. The name of the kind is shown in
    /// colour where the terminal takes colours and plain where it does not.
    pub fn header(&self) -> (out: String)
        ensures
            out@ == header_text(
                label_text(self.kind),
                self.pos.line as nat,
                self.pos.col as nat,
                self.message@,
            ) || out@ == header_text(
                coloured(colour_code(self.kind), label_text(self.kind)),
                self.pos.line as nat,
                self.pos.col as nat,
                self.message@,
            ),
    {
        let label = self.kind.shown_label();
        self.header_with(label.as_str())
    }
}

} // verus!
