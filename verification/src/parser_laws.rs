//! What holds of the grammar: a nonterminal reads ahead of where it starts,
//! and what it yields depends on no token behind the one at which it stops.
//! From this follows that the first failure is reported whatever stands
//! behind it.

use crate::ast::{ExprView, StmtView};
use crate::lexer::{LexicalError, TokView, TokenView};
use crate::grammar::{
    assign_op, at, binary, binary_op, binary_rest, block, block_rest, body, braced,
    conditional_rest, declaration, expect, items, items_rest, levels, operation, params,
    params_rest, postfix, primary, program, stmt, unary, Close, Expected, Failure, Miss, Parsed,
};
use crate::parser::{kinds, outcome, ParseErrorView};
use vstd::prelude::*;

verus! {

/// The position up to which a nonterminal has looked at the tokens: the
/// position after what it read, or the position of its failure.
pub open spec fn reach<T>(r: Parsed<T>) -> int {
    match r {
        Ok((_, next)) => next,
        Err(m) => m.at,
    }
}

/// Whether the token sequences `a` and `b` hold the same tokens at the
/// positions up to and with `upto`, and end at the same position if they end
/// before it.
pub open spec fn agree(a: Seq<TokView>, b: Seq<TokView>, upto: int) -> bool {
    forall|i: int| 0 <= i <= upto ==> #[trigger] at(a, i) == at(b, i)
}

/// Whether the result `r` of a nonterminal that started at `pos` lies ahead
/// of `pos` and within the `len` tokens; `strict` asks that a value takes
/// at least one token.
pub open spec fn within<T>(r: Parsed<T>, pos: int, len: int, strict: bool) -> bool {
    match r {
        Ok((_, next)) => pos <= next <= len && (strict ==> pos < next),
        Err(m) => pos <= m.at <= len,
    }
}

/// What the laws say of the result `r` of a nonterminal on the tokens `a`
/// and its result `s` on the tokens `b`, both from `pos`: `r` lies ahead,
/// and `s` is the same wherever `b` agrees with `a` as far as `r` reaches.
pub open spec fn local<T>(
    r: Parsed<T>,
    s: Parsed<T>,
    a: Seq<TokView>,
    b: Seq<TokView>,
    pos: int,
    strict: bool,
) -> bool {
    &&& within(r, pos, a.len() as int, strict)
    &&& agree(a, b, reach(r)) ==> s == r
}

/// Sequences that agree up to a position agree up to every earlier one, and
/// neither ends before that position unless the other does.
proof fn lemma_agree(a: Seq<TokView>, b: Seq<TokView>, upto: int, p: int)
    requires
        agree(a, b, upto),
        0 <= p <= upto,
    ensures
        agree(a, b, p),
        at(a, p) == at(b, p),
        p <= a.len() ==> p <= b.len(),
{
    if 0 < p <= a.len() {
        assert(at(a, p - 1) == at(b, p - 1));
    }
}

/// The nonterminal `primary` reads ahead of where it starts and looks at no
/// token behind the one at which it stops.
pub proof fn lemma_primary(a: Seq<TokView>, b: Seq<TokView>, pos: int)
    requires
        0 <= pos <= a.len(),
    ensures
        local(primary(a, pos), primary(b, pos), a, b, pos, true),
    decreases a.len() - pos, 4nat,
{
    let r = primary(a, pos);
    match at(a, pos) {
        Some(TokView::LParen) => {
            lemma_binary(a, b, pos + 1, 0);
            if let Ok((e, next)) = binary(a, pos + 1, 0) {
                if agree(a, b, reach(r)) {
                    lemma_agree(a, b, reach(r), next);
                }
            }
        },
        Some(TokView::LBrace) => {
            lemma_items(a, b, pos + 1, Close::Brace);
        },
        _ => {},
    }
    if agree(a, b, reach(r)) {
        lemma_agree(a, b, reach(r), pos);
    }
}

/// The nonterminal `postfix` reads ahead of where it starts and looks at no
/// token behind the one at which it stops.
pub proof fn lemma_postfix(a: Seq<TokView>, b: Seq<TokView>, pos: int, acc: ExprView)
    requires
        0 <= pos <= a.len(),
    ensures
        local(postfix(a, pos, acc), postfix(b, pos, acc), a, b, pos, false),
    decreases a.len() - pos, 5nat,
{
    let r = postfix(a, pos, acc);
    match at(a, pos) {
        Some(TokView::LParen) => {
            lemma_items(a, b, pos + 1, Close::Paren);
            if let Ok((args, next)) = items(a, pos + 1, Close::Paren) {
                lemma_postfix(a, b, next, ExprView::Call(Box::new(acc), args));
                if agree(a, b, reach(r)) {
                    lemma_agree(a, b, reach(r), next);
                    lemma_agree(a, b, reach(r), pos);
                }
            } else {
                if agree(a, b, reach(r)) {
                    lemma_agree(a, b, reach(r), pos);
                }
            }
        },
        Some(TokView::Colon) => {
            lemma_primary(a, b, pos + 1);
            if let Ok((index, next)) = primary(a, pos + 1) {
                lemma_postfix(a, b, next, ExprView::Index(Box::new(acc), Box::new(index)));
                if agree(a, b, reach(r)) {
                    lemma_agree(a, b, reach(r), next);
                    lemma_agree(a, b, reach(r), pos);
                }
            } else {
                if agree(a, b, reach(r)) {
                    lemma_agree(a, b, reach(r), pos);
                }
            }
        },
        _ => {
            if agree(a, b, reach(r)) {
                lemma_agree(a, b, reach(r), pos);
            }
        },
    }
}

/// The nonterminal `unary` reads ahead of where it starts and looks at no
/// token behind the one at which it stops.
pub proof fn lemma_unary(a: Seq<TokView>, b: Seq<TokView>, pos: int)
    requires
        0 <= pos <= a.len(),
    ensures
        local(unary(a, pos), unary(b, pos), a, b, pos, true),
    decreases a.len() - pos, 6nat,
{
    let r = unary(a, pos);
    match at(a, pos) {
        Some(TokView::Minus) => {
            lemma_unary(a, b, pos + 1);
            if agree(a, b, reach(r)) {
                lemma_agree(a, b, reach(r), pos);
            }
        },
        Some(TokView::Not) => {
            lemma_unary(a, b, pos + 1);
            if agree(a, b, reach(r)) {
                lemma_agree(a, b, reach(r), pos);
            }
        },
        _ => {
            lemma_primary(a, b, pos);
            if let Ok((e, next)) = primary(a, pos) {
                lemma_postfix(a, b, next, e);
                if agree(a, b, reach(r)) {
                    lemma_agree(a, b, reach(r), next);
                    lemma_agree(a, b, reach(r), pos);
                }
            } else {
                if agree(a, b, reach(r)) {
                    lemma_agree(a, b, reach(r), pos);
                }
            }
        },
    }
}

/// The nonterminal `binary` reads ahead of where it starts and looks at no
/// token behind the one at which it stops.
pub proof fn lemma_binary(a: Seq<TokView>, b: Seq<TokView>, pos: int, level: nat)
    requires
        0 <= pos <= a.len(),
    ensures
        local(binary(a, pos, level), binary(b, pos, level), a, b, pos, true),
    decreases a.len() - pos,
        (if level < levels() {
            30 - 2 * level
        } else {
            18
        }),
{
    let r = binary(a, pos, level);
    if level >= levels() {
        lemma_unary(a, b, pos);
    } else {
        lemma_binary(a, b, pos, level + 1);
        if let Ok((lhs, next)) = binary(a, pos, level + 1) {
            lemma_binary_rest(a, b, next, level, lhs);
            if agree(a, b, reach(r)) {
                lemma_agree(a, b, reach(r), next);
            }
        }
    }
}

/// The nonterminal `binary_rest` reads ahead of where it starts and looks at no
/// token behind the one at which it stops.
pub proof fn lemma_binary_rest(
    a: Seq<TokView>,
    b: Seq<TokView>,
    pos: int,
    level: nat,
    acc: ExprView,
)
    requires
        0 <= pos <= a.len(),
    ensures
        local(
            binary_rest(a, pos, level, acc),
            binary_rest(b, pos, level, acc),
            a,
            b,
            pos,
            false,
        ),
    decreases a.len() - pos, 7nat,
{
    let r = binary_rest(a, pos, level, acc);
    match binary_op(level, at(a, pos)) {
        Some(op) => {
            lemma_binary(a, b, pos + 1, level + 1);
            if let Ok((rhs, next)) = binary(a, pos + 1, level + 1) {
                lemma_binary_rest(
                    a,
                    b,
                    next,
                    level,
                    ExprView::BinOp(Box::new(acc), op, Box::new(rhs)),
                );
                if agree(a, b, reach(r)) {
                    lemma_agree(a, b, reach(r), next);
                    lemma_agree(a, b, reach(r), pos);
                }
            } else {
                if agree(a, b, reach(r)) {
                    lemma_agree(a, b, reach(r), pos);
                }
            }
        },
        None => {
            if agree(a, b, reach(r)) {
                lemma_agree(a, b, reach(r), pos);
            }
        },
    }
}

/// The nonterminal `items` reads ahead of where it starts and looks at no
/// token behind the one at which it stops.
pub proof fn lemma_items(a: Seq<TokView>, b: Seq<TokView>, pos: int, close: Close)
    requires
        0 <= pos <= a.len(),
    ensures
        local(items(a, pos, close), items(b, pos, close), a, b, pos, true),
    decreases a.len() - pos, 41nat,
{
    let r = items(a, pos, close);
    lemma_items_rest(a, b, pos, close, Seq::empty());
    if agree(a, b, reach(r)) {
        lemma_agree(a, b, reach(r), pos);
    }
}

/// The nonterminal `items_rest` reads ahead of where it starts and looks at no
/// token behind the one at which it stops.
pub proof fn lemma_items_rest(
    a: Seq<TokView>,
    b: Seq<TokView>,
    pos: int,
    close: Close,
    acc: Seq<ExprView>,
)
    requires
        0 <= pos <= a.len(),
    ensures
        local(
            items_rest(a, pos, close, acc),
            items_rest(b, pos, close, acc),
            a,
            b,
            pos,
            true,
        ),
    decreases a.len() - pos, 40nat,
{
    let r = items_rest(a, pos, close, acc);
    lemma_binary(a, b, pos, 0);
    if let Ok((e, next)) = binary(a, pos, 0) {
        if at(a, next) == Some(TokView::Comma) {
            lemma_items_rest(a, b, next + 1, close, acc.push(e));
        }
        if agree(a, b, reach(r)) {
            lemma_agree(a, b, reach(r), next);
        }
    }
}

/// The nonterminal `params_rest` reads ahead of where it starts and looks at no
/// token behind the one at which it stops.
pub proof fn lemma_params_rest(a: Seq<TokView>, b: Seq<TokView>, pos: int, acc: Seq<Seq<char>>)
    requires
        0 <= pos <= a.len(),
    ensures
        local(params_rest(a, pos, acc), params_rest(b, pos, acc), a, b, pos, true),
    decreases a.len() - pos,
{
    let r = params_rest(a, pos, acc);
    match at(a, pos) {
        Some(TokView::Identifier(name)) => {
            if at(a, pos + 1) == Some(TokView::Comma) {
                lemma_params_rest(a, b, pos + 2, acc.push(name));
            }
            if agree(a, b, reach(r)) {
                lemma_agree(a, b, reach(r), pos + 1);
            }
        },
        _ => {},
    }
    if agree(a, b, reach(r)) {
        lemma_agree(a, b, reach(r), pos);
    }
}

/// The nonterminal `params` reads ahead of where it starts and looks at no
/// token behind the one at which it stops.
pub proof fn lemma_params(a: Seq<TokView>, b: Seq<TokView>, pos: int)
    requires
        0 <= pos <= a.len(),
    ensures
        local(params(a, pos), params(b, pos), a, b, pos, true),
{
    let r = params(a, pos);
    lemma_params_rest(a, b, pos, Seq::empty());
    if agree(a, b, reach(r)) {
        lemma_agree(a, b, reach(r), pos);
    }
}

/// The result of `expect` as the result of a nonterminal without a value.
pub open spec fn expected_step(r: Result<int, Miss>) -> Parsed<()> {
    match r {
        Ok(next) => Ok(((), next)),
        Err(m) => Err(m),
    }
}

/// The nonterminal `expect` reads ahead of where it starts and looks at no
/// token behind the one at which it stops.
pub proof fn lemma_expect(
    a: Seq<TokView>,
    b: Seq<TokView>,
    pos: int,
    tok: TokView,
    expected: Expected,
)
    requires
        0 <= pos <= a.len(),
    ensures
        local(
            expected_step(expect(a, pos, tok, expected)),
            expected_step(expect(b, pos, tok, expected)),
            a,
            b,
            pos,
            true,
        ),
{
    let r = expected_step(expect(a, pos, tok, expected));
    if agree(a, b, reach(r)) {
        lemma_agree(a, b, reach(r), pos);
    }
}

/// The nonterminal `braced` reads ahead of where it starts and looks at no
/// token behind the one at which it stops.
pub proof fn lemma_braced(a: Seq<TokView>, b: Seq<TokView>, pos: int)
    requires
        0 <= pos <= a.len(),
    ensures
        local(braced(a, pos), braced(b, pos), a, b, pos, true),
    decreases a.len() - pos, 4nat,
{
    let r = braced(a, pos);
    if at(a, pos) == Some(TokView::LBrace) {
        lemma_block(a, b, pos + 1);
        if let Ok((stmts, next)) = block(a, pos + 1) {
            if agree(a, b, reach(r)) {
                lemma_agree(a, b, reach(r), next);
            }
        }
    }
    if agree(a, b, reach(r)) {
        lemma_agree(a, b, reach(r), pos);
    }
}

/// The nonterminal `conditional_rest` reads ahead of where it starts and looks at no
/// token behind the one at which it stops.
pub proof fn lemma_conditional_rest(
    a: Seq<TokView>,
    b: Seq<TokView>,
    pos: int,
    cond: ExprView,
    then: Seq<StmtView>,
)
    requires
        0 <= pos <= a.len(),
    ensures
        local(
            conditional_rest(a, pos, cond, then),
            conditional_rest(b, pos, cond, then),
            a,
            b,
            pos,
            true,
        ),
    decreases a.len() - pos, 5nat,
{
    let r = conditional_rest(a, pos, cond, then);
    if at(a, pos) == Some(TokView::Else) {
        lemma_braced(a, b, pos + 1);
        if let Ok((other, next)) = braced(a, pos + 1) {
            lemma_expect(a, b, next, TokView::End, Expected::End);
            if agree(a, b, reach(r)) {
                lemma_agree(a, b, reach(r), next);
            }
        }
    } else {
        lemma_expect(a, b, pos, TokView::End, Expected::ElseOrEnd);
    }
    if agree(a, b, reach(r)) {
        lemma_agree(a, b, reach(r), pos);
    }
}

/// The nonterminal `body` reads ahead of where it starts and looks at no
/// token behind the one at which it stops.
pub proof fn lemma_body(a: Seq<TokView>, b: Seq<TokView>, pos: int)
    requires
        0 <= pos <= a.len(),
    ensures
        local(body(a, pos), body(b, pos), a, b, pos, true),
    decreases a.len() - pos, 5nat,
{
    let r = body(a, pos);
    lemma_braced(a, b, pos);
    if let Ok((stmts, next)) = braced(a, pos) {
        lemma_expect(a, b, next, TokView::End, Expected::End);
        if agree(a, b, reach(r)) {
            lemma_agree(a, b, reach(r), next);
        }
    }
}

/// The nonterminal `declaration` reads ahead of where it starts and looks at no
/// token behind the one at which it stops.
pub proof fn lemma_declaration(a: Seq<TokView>, b: Seq<TokView>, pos: int)
    requires
        0 <= pos <= a.len(),
    ensures
        local(declaration(a, pos), declaration(b, pos), a, b, pos, true),
    decreases a.len() - pos, 6nat,
{
    let r = declaration(a, pos);
    match at(a, pos) {
        Some(TokView::Identifier(name)) => {
            lemma_expect(a, b, pos + 1, TokView::LParen, Expected::LParen);
            if let Ok(open) = expect(a, pos + 1, TokView::LParen, Expected::LParen) {
                lemma_params(a, b, open);
                if let Ok((names, next)) = params(a, open) {
                    lemma_body(a, b, next);
                    if agree(a, b, reach(r)) {
                        lemma_agree(a, b, reach(r), next);
                    }
                }
                if agree(a, b, reach(r)) {
                    lemma_agree(a, b, reach(r), open);
                }
            }
            if agree(a, b, reach(r)) {
                lemma_agree(a, b, reach(r), pos + 1);
            }
        },
        _ => {},
    }
    if agree(a, b, reach(r)) {
        lemma_agree(a, b, reach(r), pos);
    }
}

/// The nonterminal `operation` reads ahead of where it starts and looks at no
/// token behind the one at which it stops.
pub proof fn lemma_operation(a: Seq<TokView>, b: Seq<TokView>, pos: int, name: Seq<char>)
    requires
        0 <= pos <= a.len(),
    ensures
        local(operation(a, pos, name), operation(b, pos, name), a, b, pos, true),
{
    let r = operation(a, pos, name);
    match assign_op(at(a, pos)) {
        Some(op) => {
            lemma_binary(a, b, pos + 1, 0);
        },
        None => {
            if at(a, pos) == Some(TokView::LParen) {
                lemma_items(a, b, pos + 1, Close::Paren);
            } else if at(a, pos) == Some(TokView::Colon) {
                lemma_primary(a, b, pos + 1);
                if let Ok((index, next)) = primary(a, pos + 1) {
                    lemma_expect(a, b, next, TokView::Assign, Expected::Assign);
                    if let Ok(after) = expect(a, next, TokView::Assign, Expected::Assign) {
                        lemma_binary(a, b, after, 0);
                        if agree(a, b, reach(r)) {
                            lemma_agree(a, b, reach(r), after);
                        }
                    }
                    if agree(a, b, reach(r)) {
                        lemma_agree(a, b, reach(r), next);
                    }
                }
            }
        },
    }
    if agree(a, b, reach(r)) {
        lemma_agree(a, b, reach(r), pos);
    }
}

/// The nonterminal `stmt` reads ahead of where it starts and looks at no
/// token behind the one at which it stops.
pub proof fn lemma_stmt(a: Seq<TokView>, b: Seq<TokView>, pos: int)
    requires
        0 <= pos <= a.len(),
    ensures
        local(stmt(a, pos), stmt(b, pos), a, b, pos, false),
    decreases a.len() - pos, 7nat,
{
    let r = stmt(a, pos);
    match at(a, pos) {
        Some(TokView::If) => {
            lemma_binary(a, b, pos + 1, 0);
            if let Ok((cond, next)) = binary(a, pos + 1, 0) {
                lemma_braced(a, b, next);
                if let Ok((then, after)) = braced(a, next) {
                    lemma_conditional_rest(a, b, after, cond, then);
                    if agree(a, b, reach(r)) {
                        lemma_agree(a, b, reach(r), after);
                    }
                }
                if agree(a, b, reach(r)) {
                    lemma_agree(a, b, reach(r), next);
                }
            }
        },
        Some(TokView::While) => {
            lemma_binary(a, b, pos + 1, 0);
            if let Ok((cond, next)) = binary(a, pos + 1, 0) {
                lemma_body(a, b, next);
                if agree(a, b, reach(r)) {
                    lemma_agree(a, b, reach(r), next);
                }
            }
        },
        Some(TokView::For) => {
            match at(a, pos + 1) {
                Some(TokView::Identifier(name)) => {
                    lemma_binary(a, b, pos + 2, 0);
                    if let Ok((list, next)) = binary(a, pos + 2, 0) {
                        lemma_body(a, b, next);
                        if agree(a, b, reach(r)) {
                            lemma_agree(a, b, reach(r), next);
                        }
                    }
                },
                _ => {},
            }
            if agree(a, b, reach(r)) {
                lemma_agree(a, b, reach(r), pos + 1);
            }
        },
        Some(TokView::Fn) => {
            lemma_declaration(a, b, pos + 1);
        },
        Some(TokView::Sub) => {
            lemma_declaration(a, b, pos + 1);
        },
        Some(TokView::Return) => {
            lemma_binary(a, b, pos + 1, 0);
        },
        Some(TokView::Identifier(name)) => {
            lemma_operation(a, b, pos + 1, name);
        },
        _ => {},
    }
    if agree(a, b, reach(r)) {
        lemma_agree(a, b, reach(r), pos);
    }
}

/// The nonterminal `block` reads ahead of where it starts and looks at no
/// token behind the one at which it stops.
pub proof fn lemma_block(a: Seq<TokView>, b: Seq<TokView>, pos: int)
    requires
        0 <= pos <= a.len(),
    ensures
        local(block(a, pos), block(b, pos), a, b, pos, false),
    decreases a.len() - pos, 9nat,
{
    let r = block(a, pos);
    lemma_stmt(a, b, pos);
    if let Ok((first, next)) = stmt(a, pos) {
        lemma_block_rest(a, b, next, seq![first]);
        if agree(a, b, reach(r)) {
            lemma_agree(a, b, reach(r), next);
        }
    }
}

/// The nonterminal `block_rest` reads ahead of where it starts and looks at no
/// token behind the one at which it stops.
pub proof fn lemma_block_rest(a: Seq<TokView>, b: Seq<TokView>, pos: int, acc: Seq<StmtView>)
    requires
        0 <= pos <= a.len(),
    ensures
        local(block_rest(a, pos, acc), block_rest(b, pos, acc), a, b, pos, false),
    decreases a.len() - pos, 8nat,
{
    let r = block_rest(a, pos, acc);
    if at(a, pos) == Some(TokView::Newline) {
        lemma_stmt(a, b, pos + 1);
        if let Ok((s, next)) = stmt(a, pos + 1) {
            lemma_block_rest(a, b, next, acc.push(s));
            if agree(a, b, reach(r)) {
                lemma_agree(a, b, reach(r), next);
            }
        }
    }
    if agree(a, b, reach(r)) {
        lemma_agree(a, b, reach(r), pos);
    }
}

/// The position of the token at which the grammar fails.
pub open spec fn failure_at(failure: Failure) -> int {
    match failure {
        Failure::Unexpected(m) => m.at,
        Failure::Extra(at) => at,
    }
}

/// A failure of the grammar lies at a token or directly behind the last.
pub proof fn lemma_failure_within(t: Seq<TokView>)
    ensures
        program(t) matches Err(failure) ==> 0 <= failure_at(failure) <= t.len(),
{
    lemma_block(t, t, 0);
}

/// Only the first failure is reported. Where parsing fails at a token,
/// the same failure is reported for every token stream that holds the same
/// tokens up to and with that one: neither the tokens behind it, with
/// whatever further failures they hold, nor a failure of the lexer behind
/// it change what is reported.
pub proof fn law_first_failure_only(
    tokens: Seq<TokenView>,
    end: Option<LexicalError>,
    others: Seq<TokenView>,
    others_end: Option<LexicalError>,
)
    requires
        program(kinds(tokens)) is Err,
        failure_at(program(kinds(tokens))->Err_0) < tokens.len(),
        failure_at(program(kinds(tokens))->Err_0) < others.len(),
        forall|i: int|
            0 <= i <= failure_at(program(kinds(tokens))->Err_0) ==> others[i] == tokens[i],
    ensures
        outcome(others, others_end) == outcome(tokens, end),
        outcome(tokens, end) is Err,
{
    let a = kinds(tokens);
    let b = kinds(others);
    let k = failure_at(program(a)->Err_0);
    lemma_block(a, b, 0);
    assert(agree(a, b, k));
}

/// A failure of the lexer is reported exactly when the grammar has nothing
/// to object to in any of the tokens before it.
pub proof fn law_lexical_failure_is_reported_in_turn(tokens: Seq<TokenView>, error: LexicalError)
    ensures
        outcome(tokens, Some(error)) == Err::<Seq<StmtView>, ParseErrorView>(
            ParseErrorView::Lexical { error },
        ) <==> (program(kinds(tokens)) matches Err(failure) ==> failure_at(failure)
            >= tokens.len()),
{
    lemma_failure_within(kinds(tokens));
}

/// The parser never reports an invalid token: that kind of failure is
/// kept for lexers that let such a token through, and this one lets none.
pub proof fn law_no_invalid_token(tokens: Seq<TokenView>, end: Option<LexicalError>)
    ensures
        !(outcome(tokens, end) matches Err(ParseErrorView::InvalidToken { .. })),
{
}

} // verus!
