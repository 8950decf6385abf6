//! The pipeline from source text to the C++ translation unit, or to the
//! report of the first failure.

use crate::err::{coloured, colour_code, label_text, ErrKind};
use crate::lexer::{lexemes, offset_of};
use crate::lexer_laws::{is_boundary, lemma_boundary, lemma_lexemes_boundaries};
use crate::parser::{
    error_message, error_offset, kinds, parse_source, source_outcome, ParseError, ParseErrorView,
};
use crate::parser_laws::lemma_failure_within;
use crate::report::{
    column_of, law_position_of_boundary, line_of, position_of, report, report_text, report_with,
};
use crate::text::utf8_len;
use crate::tree_walk::{program_text, program_visitor};
use vstd::prelude::*;

verus! {

/// What compiling the source text `src` yields: the translation unit for
/// the program that it parses to, or the first failure.
pub open spec fn compiled(src: Seq<char>) -> Result<Seq<char>, ParseErrorView> {
    match source_outcome(src) {
        Ok(stmts) => Ok(program_text(stmts)),
        Err(e) => Err(e),
    }
}

/// Compiles the source text `input` to a C++ translation unit. Nothing is
/// generated where lexing or parsing fails: the first failure is returned.
pub fn compile(input: &str) -> (r: Result<String, ParseError>)
    ensures
        match compiled(input@) {
            Ok(text) => r matches Ok(out) && out@ == text,
            Err(e) => r matches Err(error) && error@ == e,
        },
{
    match parse_source(input) {
        Ok(stmts) => Ok(program_visitor(&stmts)),
        Err(error) => Err(error),
    }
}

/// The report of the failure `error` in the source text `src`, with the
/// header label `label`.
pub open spec fn explained(src: Seq<char>, error: ParseErrorView, label: Seq<char>) -> Seq<char> {
    report_text(label, src, error_offset(error), error_message(error))
}

/// Renders the failure `error` of compiling `code` with `label` in place of
/// the name of the kind of error: the header, the source line and the
/// caret.
pub fn explain_with(code: &str, error: &ParseError, label: &str) -> (out: String)
    ensures
        out@ == explained(code@, error@, label@),
{
    report_with(code, error.offset(), error.message(), label)
}

/// Renders the failure `error` of compiling `code` as a syntax error. The
/// name of the kind is shown in colour where the terminal takes colours and
/// plain where it does not.
pub fn explain(code: &str, error: &ParseError) -> (out: String)
    ensures
        out@ == explained(code@, error@, label_text(ErrKind::Syntax)) || out@ == explained(
            code@,
            error@,
            coloured(colour_code(ErrKind::Syntax), label_text(ErrKind::Syntax)),
        ),
{
    report(code, error.offset(), error.message())
}

/// Failures are reported at characters. The offset at which the failure of
/// compiling a text is reported is one at which a character of the text
/// starts, or the end of the text; so its place is the line and the column
/// of that character, with nothing lost in the mapping.
pub proof fn law_failures_lie_at_characters(src: Seq<char>)
    requires
        utf8_len(src) <= usize::MAX,
        compiled(src) is Err,
    ensures
        exists|k: int|
            0 <= k <= src.len() && #[trigger] offset_of(src, k) == error_offset(
                compiled(src)->Err_0,
            ) && position_of(src, error_offset(compiled(src)->Err_0)) == (
                line_of(src.take(k)),
                column_of(src.take(k)),
            ),
{
    let tokens = lexemes(src, 0).0;
    let end = lexemes(src, 0).1;
    let error = compiled(src)->Err_0;
    lemma_lexemes_boundaries(src, 0);
    lemma_failure_within(kinds(tokens));
    assert(src.take(0) =~= Seq::<char>::empty());
    lemma_boundary(src, 0);
    if tokens.len() > 0 {
        assert(is_boundary(src, tokens[tokens.len() - 1].2));
    }
    assert(is_boundary(src, error_offset(error)));
    let k = choose|k: int| 0 <= k <= src.len() && #[trigger] offset_of(src, k) == error_offset(error);
    law_position_of_boundary(src, k);
}

} // verus!
