//! Locating a byte offset in the source text and rendering a failure as a
//! header, the source line and a caret under the offending column.

use crate::err::{coloured, colour_code, header_text, label_text, Diagnostic, ErrKind, Pos};
use crate::lexer::{lemma_offset_step, offset_of};
use crate::text::{chars_of, lemma_utf8_len_prefix, push_chars, utf8_len, width_of};
use vstd::prelude::*;
use vstd::string::*;

verus! {

/// The first position from `from` on whose character starts at byte `pos`
/// or later, or the end of the text: the characters before it are those
/// that start before byte `pos`.
pub open spec fn chars_before(src: Seq<char>, pos: nat, from: int) -> int
    decreases src.len() - from,
{
    if 0 <= from < src.len() && offset_of(src, from) < pos {
        chars_before(src, pos, from + 1)
    } else {
        from
    }
}

/// The number of line breaks in `text`.
pub open spec fn breaks_in(text: Seq<char>) -> nat
    decreases text.len(),
{
    if text.len() == 0 {
        0
    } else {
        breaks_in(text.drop_last()) + if text.last() == '\n' {
            1nat
        } else {
            0nat
        }
    }
}

/// The line, counted from one, on which a character stands that follows
/// `text`.
pub open spec fn line_of(text: Seq<char>) -> nat {
    1 + breaks_in(text)
}

/// The column, counted from one, at which a character stands that follows
/// `text`: one more than the number of characters since the last line
/// break, carriage returns not counted.
pub open spec fn column_of(text: Seq<char>) -> nat
    decreases text.len(),
{
    if text.len() == 0 || text.last() == '\n' {
        1
    } else if text.last() == '\r' {
        column_of(text.drop_last())
    } else {
        column_of(text.drop_last()) + 1
    }
}

/// Line and column are counted from one and never exceed the number of
/// characters by more than one.
pub proof fn lemma_line_col_bound(text: Seq<char>)
    ensures
        1 <= line_of(text) <= text.len() + 1,
        1 <= column_of(text) <= text.len() + 1,
    decreases text.len(),
{
    if text.len() > 0 {
        lemma_line_col_bound(text.drop_last());
    }
}

/// The line and the column, both counted from one, of the character of
/// `code` that starts at byte offset `pos`. An offset inside a character
/// counts as that of the next one, and one past the end as the end.
pub fn usize_to_line_col(code: &str, pos: usize) -> (out: (usize, usize))
    ensures
        out.0 == line_of(code@.take(chars_before(code@, pos as nat, 0))),
        out.1 == column_of(code@.take(chars_before(code@, pos as nat, 0))),
        out.0 >= 1,
        out.1 >= 1,
{
    let chars = chars_of(code);
    let bytes = code.as_bytes();
    let total = bytes.len();
    assert(utf8_len(chars@) == total);
    let mut line: usize = 1;
    let mut col: usize = 1;
    let mut i: usize = 0;
    let mut offset: usize = 0;
    assert(chars@.take(0) =~= Seq::<char>::empty());
    while i < chars.len() && offset < pos
        invariant
            i <= chars.len(),
            chars.len() < usize::MAX,
            chars@ == code@,
            utf8_len(chars@) <= usize::MAX,
            offset == offset_of(chars@, i as int),
            chars_before(chars@, pos as nat, i as int) == chars_before(chars@, pos as nat, 0),
            line == line_of(chars@.take(i as int)),
            col == column_of(chars@.take(i as int)),
        decreases chars.len() - i,
    {
        let c = chars[i];
        proof {
            lemma_offset_step(chars@, i as int);
            lemma_line_col_bound(chars@.take(i as int));
            assert(chars@.take(i + 1).drop_last() =~= chars@.take(i as int));
            assert(chars@.take(i + 1).last() == c);
        }
        if c == '\n' {
            line = line + 1;
            col = 1;
        } else if c != '\r' {
            col = col + 1;
        }
        offset = offset + width_of(c);
        i = i + 1;
    }
    proof {
        lemma_line_col_bound(chars@.take(i as int));
    }
    (line, col)
}

/// The position of the line break at or after `from`, or the end of the
/// text.
pub open spec fn line_end(src: Seq<char>, from: int) -> int
    decreases src.len() - from,
{
    if 0 <= from < src.len() && src[from] != '\n' {
        line_end(src, from + 1)
    } else {
        from
    }
}

/// `text` without a carriage return at its end.
pub open spec fn strip_return(text: Seq<char>) -> Seq<char> {
    if text.len() > 0 && text.last() == '\r' {
        text.drop_last()
    } else {
        text
    }
}

/// The line with index `n`, counted from zero, of the part of `src` that
/// starts at `from`. A line ends at a line break, which does not belong to
/// it, nor does a carriage return directly before the break; the last line
/// may end with the text. Where there is no such line, the result is empty.
pub open spec fn line_text(src: Seq<char>, from: int, n: nat) -> Seq<char>
    decreases n,
{
    let end = line_end(src, from);
    if !(0 <= from <= src.len()) {
        Seq::empty()
    } else if n == 0 {
        if end < src.len() {
            strip_return(src.subrange(from, end))
        } else {
            src.subrange(from, src.len() as int)
        }
    } else if end < src.len() {
        line_text(src, end + 1, (n - 1) as nat)
    } else {
        Seq::empty()
    }
}

/// A line ends between its start and the end of the text.
proof fn lemma_line_end_bounds(src: Seq<char>, from: int)
    requires
        0 <= from <= src.len(),
    ensures
        from <= line_end(src, from) <= src.len(),
    decreases src.len() - from,
{
    if from < src.len() && src[from] != '\n' {
        lemma_line_end_bounds(src, from + 1);
    }
}

/// Reads on from `from` to the next line break or the end of the text.
fn find_line_end(chars: &Vec<char>, from: usize) -> (end: usize)
    requires
        from <= chars.len(),
    ensures
        end == line_end(chars@, from as int),
        from <= end <= chars.len(),
{
    let mut end: usize = from;
    while end < chars.len() && chars[end] != '\n'
        invariant
            from <= end <= chars.len(),
            line_end(chars@, end as int) == line_end(chars@, from as int),
        decreases chars.len() - end,
    {
        end = end + 1;
    }
    end
}

/// The line of `code` with number `line`, counted from one, without its
/// line ending; empty where `code` has no such line.
pub fn get_line(code: &str, line: usize) -> (out: String)
    requires
        line >= 1,
    ensures
        out@ == line_text(code@, 0, (line - 1) as nat),
{
    let chars = chars_of(code);
    let mut from: usize = 0;
    let mut left: usize = line - 1;
    let mut out = String::new();
    loop
        invariant
            from <= chars.len(),
            chars@ == code@,
            out@ == Seq::<char>::empty(),
            line_text(chars@, from as int, left as nat) == line_text(
                chars@,
                0,
                (line - 1) as nat,
            ),
        decreases left,
    {
        let end = find_line_end(&chars, from);
        if left == 0 {
            if end < chars.len() {
                let stop = if end > from && chars[end - 1] == '\r' {
                    end - 1
                } else {
                    end
                };
                push_chars(&mut out, &chars, from, stop);
                assert(out@ =~= strip_return(chars@.subrange(from as int, end as int)));
            } else {
                push_chars(&mut out, &chars, from, end);
                assert(out@ =~= chars@.subrange(from as int, chars@.len() as int));
            }
            return out;
        }
        if end >= chars.len() {
            return out;
        }
        from = end + 1;
        left = left - 1;
    }
}

/// The sign that shows a line break in a source line of a report.
pub open spec fn break_sign() -> char {
    '\u{2936}'
}

/// `text` with the sign for a line break put before every line break.
pub open spec fn marked(text: Seq<char>) -> Seq<char>
    decreases text.len(),
{
    if text.len() == 0 {
        Seq::empty()
    } else if text.last() == '\n' {
        marked(text.drop_last()).push(break_sign()).push('\n')
    } else {
        marked(text.drop_last()).push(text.last())
    }
}

/// `code` with the sign for a line break put before every line break.
pub fn mark_breaks(code: &str) -> (out: String)
    ensures
        out@ == marked(code@),
{
    let chars = chars_of(code);
    let mut out = String::new();
    let mut i: usize = 0;
    assert(chars@.take(0) =~= Seq::<char>::empty());
    while i < chars.len()
        invariant
            i <= chars.len(),
            chars@ == code@,
            out@ == marked(chars@.take(i as int)),
        decreases chars.len() - i,
    {
        proof {
            assert(chars@.take(i + 1).drop_last() =~= chars@.take(i as int));
            assert(chars@.take(i + 1).last() == chars@[i as int]);
        }
        if chars[i] == '\n' {
            out.push('\u{2936}');
        }
        out.push(chars[i]);
        i = i + 1;
    }
    assert(chars@.take(i as int) =~= chars@);
    out
}

/// `n` spaces.
pub open spec fn spaces(n: nat) -> Seq<char> {
    Seq::new(n, |i: int| ' ')
}

/// The line that points at column `col`: a caret under that column.
pub open spec fn caret_text(col: nat) -> Seq<char> {
    spaces((col - 1) as nat).push('^')
}

/// The line that points at column `col`, counted from one.
pub fn caret_line(col: usize) -> (out: String)
    requires
        col >= 1,
    ensures
        out@ == caret_text(col as nat),
{
    let mut out = String::new();
    let mut i: usize = 1;
    assert(out@ =~= spaces(0));
    while i < col
        invariant
            1 <= i <= col,
            out@ == spaces((i - 1) as nat),
        decreases col - i,
    {
        out.push(' ');
        assert(out@ =~= spaces(i as nat));
        i = i + 1;
    }
    out.push('^');
    out
}

/// The position of byte offset `pos` in `src`.
pub open spec fn position_of(src: Seq<char>, pos: nat) -> (nat, nat) {
    let before = src.take(chars_before(src, pos, 0));
    (line_of(before), column_of(before))
}

/// The three lines of the report of a failure, each with its line break:
/// the header with the label, the place and the message; the source line
/// with its break made visible; and the caret under the column.
pub open spec fn report_text(
    label: Seq<char>,
    src: Seq<char>,
    pos: nat,
    message: Seq<char>,
) -> Seq<char> {
    let at = position_of(src, pos);
    header_text(label, at.0, at.1, message) + "\n"@ + line_text(
        marked(src),
        0,
        (at.0 - 1) as nat,
    ) + "\n"@ + caret_text(at.1) + "\n"@
}

/// Renders the failure `message` at byte offset `pos` of `code` as a syntax
/// error, with `label` in place of the name of the kind.
pub fn report_with(code: &str, pos: usize, message: String, label: &str) -> (out: String)
    ensures
        out@ == report_text(label@, code@, pos as nat, message@),
{
    let (line, col) = usize_to_line_col(code, pos);
    let diagnostic = Diagnostic::syntax(Pos::new(line, col), message);
    let shown = mark_breaks(code);
    let source_line = get_line(shown.as_str(), line);
    let caret = caret_line(col);
    let mut out = diagnostic.header_with(label);
    out.append("\n");
    out.append(source_line.as_str());
    out.append("\n");
    out.append(caret.as_str());
    out.append("\n");
    out
}

/// Renders the failure `message` at byte offset `pos` of `code` as a syntax
/// error. The name of the kind is shown in colour where the terminal takes
/// colours and plain where it does not.
pub fn report(code: &str, pos: usize, message: String) -> (out: String)
    ensures
        out@ == report_text(label_text(ErrKind::Syntax), code@, pos as nat, message@) || out@
            == report_text(
            coloured(colour_code(ErrKind::Syntax), label_text(ErrKind::Syntax)),
            code@,
            pos as nat,
            message@,
        ),
{
    let label = ErrKind::Syntax.shown_label();
    report_with(code, pos, message, label.as_str())
}

/// The characters that start before the offset at which the character at
/// position `k` starts are those before `k`.
pub proof fn lemma_chars_before_boundary(src: Seq<char>, k: int, from: int)
    requires
        0 <= from <= k <= src.len(),
    ensures
        chars_before(src, offset_of(src, k), from) == k,
    decreases k - from,
{
    if from < k {
        lemma_utf8_len_prefix(src, from, k);
        lemma_chars_before_boundary(src, k, from + 1);
    }
}

/// The number of characters of `text` that take a column: all but the
/// carriage returns.
pub open spec fn columns_in(text: Seq<char>) -> nat
    decreases text.len(),
{
    if text.len() == 0 {
        0
    } else {
        columns_in(text.drop_last()) + if text.last() == '\r' {
            0nat
        } else {
            1nat
        }
    }
}

/// Position mapping at a character boundary: the offset at which the
/// character at position `k` starts is reported with the line and column
/// of that character, counted over the characters before it.
pub proof fn law_position_of_boundary(src: Seq<char>, k: int)
    requires
        0 <= k <= src.len(),
    ensures
        position_of(src, offset_of(src, k)) == (line_of(src.take(k)), column_of(src.take(k))),
{
    lemma_chars_before_boundary(src, k, 0);
}

/// Position mapping at the start of a line: the offset directly behind a
/// line break is reported in column one of the line whose number is one
/// more than the number of line breaks before it.
pub proof fn law_position_at_line_start(src: Seq<char>, k: int)
    requires
        0 < k <= src.len(),
        src[k - 1] == '\n',
    ensures
        position_of(src, offset_of(src, k)) == (1 + breaks_in(src.take(k)), 1nat),
        breaks_in(src.take(k)) == breaks_in(src.take(k - 1)) + 1,
{
    law_position_of_boundary(src, k);
    assert(src.take(k).drop_last() =~= src.take(k - 1));
    assert(src.take(k).last() == '\n');
}

/// Position mapping inside a line: where no line break stands between the
/// start `k` of a line and the position `j`, the offset of `j` is reported
/// on the line of `k`, in the column that is one more than the number of
/// characters between the two, carriage returns not counted.
pub proof fn law_position_in_line(src: Seq<char>, k: int, j: int)
    requires
        0 <= k <= j <= src.len(),
        k == 0 || src[k - 1] == '\n',
        forall|i: int| k <= i < j ==> #[trigger] src[i] != '\n',
    ensures
        position_of(src, offset_of(src, j)) == (
            line_of(src.take(k)),
            1 + columns_in(src.subrange(k, j)),
        ),
    decreases j - k,
{
    law_position_of_boundary(src, j);
    if j == k {
        assert(src.subrange(k, j) =~= Seq::<char>::empty());
        if k > 0 {
            assert(src.take(k).last() == '\n');
        }
    } else {
        law_position_in_line(src, k, j - 1);
        law_position_of_boundary(src, j - 1);
        assert(src.take(j).drop_last() =~= src.take(j - 1));
        assert(src.take(j).last() == src[j - 1]);
        assert(src.subrange(k, j).drop_last() =~= src.subrange(k, j - 1));
        assert(src.subrange(k, j).last() == src[j - 1]);
    }
}

} // verus!
