//! The parser: tokens to syntax tree.
//!
//! The executable parser reads the tokens by recursive descent, one
//! function for each nonterminal of the grammar, and is proved to yield what
//! the grammar yields. It stops at the first failure.

use crate::ast::{
    expr_view, exprs_view, names_view, stmt_view, stmts_view, AssignOp, BinOp, Expr, ExprView,
    Stmt, StmtView, UnaryOp,
};
use crate::grammar::{
    assign_op, at, binary, binary_op, binary_rest, block, block_rest, body, braced, close_expected,
    close_token, conditional_rest, declaration, expect, items, items_rest, operation, params,
    params_rest, postfix, primary, program, stmt, unary, Close, Expected, Failure, Miss, Parsed,
    expected_text,
};
use crate::lexer::{
    lexemes, tok_text, token_view, tokenize, tokens_view, LexicalError, Tok, TokView, Token,
    TokenView,
};
use vstd::prelude::*;
use vstd::string::*;

verus! {

/// The tokens of a token sequence without their spans.
pub open spec fn kinds(tokens: Seq<TokenView>) -> Seq<TokView> {
    Seq::new(tokens.len(), |i: int| tokens[i].1)
}

/// What an executable parsing function returns: the value and the position
/// after it, or the position of the failure and what was expected there.
pub type Step<T> = Result<(T, usize), (usize, Expected)>;

/// Whether the step `r`, taken from position `pos`, is what the grammar
/// yields as `s`: the same failure, or a value with the view that the
/// grammar gives and the same position after it. A value that takes tokens
/// (`strict`) ends after `pos`, and no position lies beyond the `len`
/// tokens.
pub open spec fn same_step<T, V>(
    r: Step<T>,
    s: Parsed<V>,
    view: spec_fn(T) -> V,
    pos: int,
    len: int,
    strict: bool,
) -> bool {
    match s {
        Ok((value, next)) => {
            &&& r matches Ok((v, n))
            &&& view(v) == value
            &&& n == next
            &&& pos <= next <= len
            &&& strict ==> pos < next
        },
        Err(m) => {
            &&& r matches Err((a, expected))
            &&& a == m.at
            &&& expected == m.expected
            &&& pos <= m.at <= len
        },
    }
}

/// The view of a boxed expression.
pub open spec fn boxed_expr() -> spec_fn(Box<Expr>) -> ExprView {
    |e: Box<Expr>| expr_view(*e)
}

/// The views of a vector of boxed expressions.
pub open spec fn boxed_exprs() -> spec_fn(Vec<Box<Expr>>) -> Seq<ExprView> {
    |v: Vec<Box<Expr>>| exprs_view(v@)
}

/// The view of a boxed statement.
pub open spec fn boxed_stmt() -> spec_fn(Box<Stmt>) -> StmtView {
    |s: Box<Stmt>| stmt_view(*s)
}

/// The views of a vector of boxed statements.
pub open spec fn boxed_stmts() -> spec_fn(Vec<Box<Stmt>>) -> Seq<StmtView> {
    |v: Vec<Box<Stmt>>| stmts_view(v@)
}

/// The character sequences of a vector of names.
pub open spec fn name_list() -> spec_fn(Vec<String>) -> Seq<Seq<char>> {
    |v: Vec<String>| names_view(v@)
}

/// The tokens without a value that the grammar asks for by name.
#[derive(Debug, Clone, Copy, PartialEq, Eq, Structural)]
pub enum Mark {
    LParen,
    RParen,
    LBrace,
    RBrace,
    Comma,
    Colon,
    Newline,
    Assign,
    Else,
    End,
}

/// The token that a mark stands for.
pub open spec fn mark_token(mark: Mark) -> TokView {
    match mark {
        Mark::LParen => TokView::LParen,
        Mark::RParen => TokView::RParen,
        Mark::LBrace => TokView::LBrace,
        Mark::RBrace => TokView::RBrace,
        Mark::Comma => TokView::Comma,
        Mark::Colon => TokView::Colon,
        Mark::Newline => TokView::Newline,
        Mark::Assign => TokView::Assign,
        Mark::Else => TokView::Else,
        Mark::End => TokView::End,
    }
}

/// Whether the token at `pos` is the one that `mark` stands for.
fn sees(tokens: &Vec<Token>, pos: usize, mark: Mark) -> (r: bool)
    ensures
        r == (at(kinds(tokens_view(tokens@)), pos as int) == Some(mark_token(mark))),
{
    if pos >= tokens.len() {
        return false;
    }
    let tok = &tokens[pos].1;
    match mark {
        Mark::LParen => matches!(tok, Tok::LParen),
        Mark::RParen => matches!(tok, Tok::RParen),
        Mark::LBrace => matches!(tok, Tok::LBrace),
        Mark::RBrace => matches!(tok, Tok::RBrace),
        Mark::Comma => matches!(tok, Tok::Comma),
        Mark::Colon => matches!(tok, Tok::Colon),
        Mark::Newline => matches!(tok, Tok::Newline),
        Mark::Assign => matches!(tok, Tok::Assign),
        Mark::Else => matches!(tok, Tok::Else),
        Mark::End => matches!(tok, Tok::End),
    }
}

/// The position after the token that `mark` stands for, which is expected
/// at `pos`.
fn expect_mark(tokens: &Vec<Token>, pos: usize, mark: Mark, expected: Expected) -> (r: Result<
    usize,
    (usize, Expected),
>)
    requires
        pos <= tokens.len(),
    ensures
        match expect(kinds(tokens_view(tokens@)), pos as int, mark_token(mark), expected) {
            Ok(next) => r == Ok::<usize, (usize, Expected)>(next as usize) && next == pos + 1
                && next <= tokens.len(),
            Err(m) => r == Err::<usize, (usize, Expected)>((pos, expected)),
        },
{
    if sees(tokens, pos, mark) {
        Ok(pos + 1)
    } else {
        Err((pos, expected))
    }
}

/// The mark of the token that closes a list of expressions.
fn close_mark(close: Close) -> (mark: Mark)
    ensures
        mark_token(mark) == close_token(close),
{
    match close {
        Close::Paren => Mark::RParen,
        Close::Brace => Mark::RBrace,
    }
}

/// What is expected after an expression in a list.
fn close_wanted(close: Close) -> (expected: Expected)
    ensures
        expected == close_expected(close),
{
    match close {
        Close::Paren => Expected::ArgumentEnd,
        Close::Brace => Expected::ItemEnd,
    }
}

/// The binary operator that the token at `pos` is at level `level`, if any.
fn binary_op_at(tokens: &Vec<Token>, pos: usize, level: u8) -> (op: Option<BinOp>)
    ensures
        op == binary_op(level as nat, at(kinds(tokens_view(tokens@)), pos as int)),
{
    if pos >= tokens.len() {
        return None;
    }
    match &tokens[pos].1 {
        Tok::Or => if level == 0 {
            Some(BinOp::Or)
        } else {
            None
        },
        Tok::And => if level == 1 {
            Some(BinOp::And)
        } else {
            None
        },
        Tok::Eq => if level == 2 {
            Some(BinOp::Eq)
        } else {
            None
        },
        Tok::NotEq => if level == 2 {
            Some(BinOp::NotEq)
        } else {
            None
        },
        Tok::Less => if level == 3 {
            Some(BinOp::Less)
        } else {
            None
        },
        Tok::LessEq => if level == 3 {
            Some(BinOp::LessEq)
        } else {
            None
        },
        Tok::Greater => if level == 3 {
            Some(BinOp::Greater)
        } else {
            None
        },
        Tok::GreaterEq => if level == 3 {
            Some(BinOp::GreaterEq)
        } else {
            None
        },
        Tok::Plus => if level == 4 {
            Some(BinOp::Add)
        } else {
            None
        },
        Tok::Minus => if level == 4 {
            Some(BinOp::Sub)
        } else {
            None
        },
        Tok::Star => if level == 5 {
            Some(BinOp::Mul)
        } else {
            None
        },
        Tok::Slash => if level == 5 {
            Some(BinOp::Div)
        } else {
            None
        },
        Tok::Mod => if level == 5 {
            Some(BinOp::Mod)
        } else {
            None
        },
        _ => None,
    }
}

/// The assignment operator that the token at `pos` is, if any.
fn assign_op_at(tokens: &Vec<Token>, pos: usize) -> (op: Option<AssignOp>)
    ensures
        op == assign_op(at(kinds(tokens_view(tokens@)), pos as int)),
{
    if pos >= tokens.len() {
        return None;
    }
    match &tokens[pos].1 {
        Tok::Assign => Some(AssignOp::Assign),
        Tok::PlusAssign => Some(AssignOp::PlusAssign),
        Tok::MinusAssign => Some(AssignOp::MinusAssign),
        Tok::StarAssign => Some(AssignOp::StarAssign),
        Tok::SlashAssign => Some(AssignOp::SlashAssign),
        Tok::ModAssign => Some(AssignOp::ModAssign),
        _ => None,
    }
}

/// A vector of expressions that grows by one has the views that it had and
/// the view of the new expression.
proof fn lemma_exprs_push(items: Seq<Box<Expr>>, e: Box<Expr>)
    ensures
        exprs_view(items.push(e)) == exprs_view(items).push(expr_view(*e)),
{
    assert(items.push(e).drop_last() =~= items);
}

/// A vector of statements that grows by one has the views that it had and
/// the view of the new statement.
proof fn lemma_stmts_push(items: Seq<Box<Stmt>>, s: Box<Stmt>)
    ensures
        stmts_view(items.push(s)) == stmts_view(items).push(stmt_view(*s)),
{
    assert(items.push(s).drop_last() =~= items);
}

/// Parses a primary expression.
fn parse_primary(tokens: &Vec<Token>, pos: usize) -> (r: Step<Box<Expr>>)
    requires
        pos <= tokens.len(),
    ensures
        same_step(
            r,
            primary(kinds(tokens_view(tokens@)), pos as int),
            boxed_expr(),
            pos as int,
            tokens.len() as int,
            true,
        ),
    decreases tokens.len() - pos, 4nat,
{
    if pos >= tokens.len() {
        return Err((pos, Expected::Expression));
    }
    match &tokens[pos].1 {
        Tok::Number(digits) => Ok((Box::new(Expr::Number(digits.clone())), pos + 1)),
        Tok::Boolean(b) => Ok((Box::new(Expr::Boolean(*b)), pos + 1)),
        Tok::String(s) => Ok((Box::new(Expr::String(s.clone())), pos + 1)),
        Tok::Identifier(name) => Ok((Box::new(Expr::Variable(name.clone())), pos + 1)),
        Tok::LParen => match parse_binary(tokens, pos + 1, 0) {
            Ok((e, next)) => if sees(tokens, next, Mark::RParen) {
                Ok((e, next + 1))
            } else {
                Err((next, Expected::RParen))
            },
            Err(m) => Err(m),
        },
        Tok::LBrace => match parse_items(tokens, pos + 1, Close::Brace) {
            Ok((list, next)) => Ok((Box::new(Expr::List(list)), next)),
            Err(m) => Err(m),
        },
        _ => Err((pos, Expected::Expression)),
    }
}

/// Parses the calls and indexings that follow the expression `first`.
#[verifier::loop_isolation(false)]
fn parse_postfix(tokens: &Vec<Token>, pos: usize, first: Box<Expr>) -> (r: Step<Box<Expr>>)
    requires
        pos <= tokens.len(),
    ensures
        same_step(
            r,
            postfix(kinds(tokens_view(tokens@)), pos as int, expr_view(*first)),
            boxed_expr(),
            pos as int,
            tokens.len() as int,
            false,
        ),
    decreases tokens.len() - pos, 5nat,
{
    let ghost t = kinds(tokens_view(tokens@));
    let ghost goal = postfix(t, pos as int, expr_view(*first));
    let mut acc = first;
    let mut p: usize = pos;
    loop
        invariant
            pos <= p <= tokens.len(),
            t == kinds(tokens_view(tokens@)),
            postfix(t, p as int, expr_view(*acc)) == goal,
        decreases tokens.len() - p,
    {
        if sees(tokens, p, Mark::LParen) {
            match parse_items(tokens, p + 1, Close::Paren) {
                Ok((args, next)) => {
                    acc = Box::new(Expr::Call(acc, args));
                    p = next;
                },
                Err(m) => {
                    return Err(m);
                },
            }
        } else if sees(tokens, p, Mark::Colon) {
            match parse_primary(tokens, p + 1) {
                Ok((index, next)) => {
                    acc = Box::new(Expr::Index(acc, index));
                    p = next;
                },
                Err(m) => {
                    return Err(m);
                },
            }
        } else {
            return Ok((acc, p));
        }
    }
}

/// Parses a unary expression.
fn parse_unary(tokens: &Vec<Token>, pos: usize) -> (r: Step<Box<Expr>>)
    requires
        pos <= tokens.len(),
    ensures
        same_step(
            r,
            unary(kinds(tokens_view(tokens@)), pos as int),
            boxed_expr(),
            pos as int,
            tokens.len() as int,
            true,
        ),
    decreases tokens.len() - pos, 6nat,
{
    if pos < tokens.len() {
        match &tokens[pos].1 {
            Tok::Minus => {
                return match parse_unary(tokens, pos + 1) {
                    Ok((e, next)) => Ok((Box::new(Expr::UnaryOp(UnaryOp::Neg, e)), next)),
                    Err(m) => Err(m),
                };
            },
            Tok::Not => {
                return match parse_unary(tokens, pos + 1) {
                    Ok((e, next)) => Ok((Box::new(Expr::UnaryOp(UnaryOp::Not, e)), next)),
                    Err(m) => Err(m),
                };
            },
            _ => {},
        }
    }
    match parse_primary(tokens, pos) {
        Ok((e, next)) => parse_postfix(tokens, next, e),
        Err(m) => Err(m),
    }
}

/// Parses an expression of precedence level `level`.
#[verifier::loop_isolation(false)]
fn parse_binary(tokens: &Vec<Token>, pos: usize, level: u8) -> (r: Step<Box<Expr>>)
    requires
        pos <= tokens.len(),
    ensures
        same_step(
            r,
            binary(kinds(tokens_view(tokens@)), pos as int, level as nat),
            boxed_expr(),
            pos as int,
            tokens.len() as int,
            true,
        ),
    decreases tokens.len() - pos,
        (if level < 6 {
            30 - 2 * level
        } else {
            18
        }),
{
    if level >= 6 {
        return parse_unary(tokens, pos);
    }
    let ghost t = kinds(tokens_view(tokens@));
    let (first, start) = match parse_binary(tokens, pos, level + 1) {
        Ok(step) => step,
        Err(m) => {
            return Err(m);
        },
    };
    let ghost goal = binary_rest(t, start as int, level as nat, expr_view(*first));
    let mut acc = first;
    let mut p: usize = start;
    loop
        invariant
            pos < start <= p <= tokens.len(),
            level < 6,
            t == kinds(tokens_view(tokens@)),
            binary_rest(t, p as int, level as nat, expr_view(*acc)) == goal,
        decreases tokens.len() - p,
    {
        match binary_op_at(tokens, p, level) {
            Some(op) => match parse_binary(tokens, p + 1, level + 1) {
                Ok((rhs, next)) => {
                    acc = Box::new(Expr::BinOp(acc, op, rhs));
                    p = next;
                },
                Err(m) => {
                    return Err(m);
                },
            },
            None => {
                return Ok((acc, p));
            },
        }
    }
}

/// Parses a list of expressions up to and with the bracket that closes it.
#[verifier::loop_isolation(false)]
fn parse_items(tokens: &Vec<Token>, pos: usize, close: Close) -> (r: Step<Vec<Box<Expr>>>)
    requires
        pos <= tokens.len(),
    ensures
        same_step(
            r,
            items(kinds(tokens_view(tokens@)), pos as int, close),
            boxed_exprs(),
            pos as int,
            tokens.len() as int,
            true,
        ),
    decreases tokens.len() - pos, 41nat,
{
    let ghost t = kinds(tokens_view(tokens@));
    let mut acc: Vec<Box<Expr>> = Vec::new();
    if sees(tokens, pos, close_mark(close)) {
        return Ok((acc, pos + 1));
    }
    let ghost goal = items_rest(t, pos as int, close, Seq::empty());
    let mut p: usize = pos;
    loop
        invariant
            pos <= p <= tokens.len(),
            t == kinds(tokens_view(tokens@)),
            items_rest(t, p as int, close, exprs_view(acc@)) == goal,
        decreases tokens.len() - p,
    {
        match parse_binary(tokens, p, 0) {
            Ok((e, next)) => {
                proof {
                    lemma_exprs_push(acc@, e);
                }
                if sees(tokens, next, Mark::Comma) {
                    acc.push(e);
                    p = next + 1;
                } else if sees(tokens, next, close_mark(close)) {
                    acc.push(e);
                    return Ok((acc, next + 1));
                } else {
                    return Err((next, close_wanted(close)));
                }
            },
            Err(m) => {
                return Err(m);
            },
        }
    }
}

/// Parses the parameters of a function or subroutine up to and with the
/// closing parenthesis.
#[verifier::loop_isolation(false)]
fn parse_params(tokens: &Vec<Token>, pos: usize) -> (r: Step<Vec<String>>)
    requires
        pos <= tokens.len(),
    ensures
        same_step(
            r,
            params(kinds(tokens_view(tokens@)), pos as int),
            name_list(),
            pos as int,
            tokens.len() as int,
            true,
        ),
{
    let ghost t = kinds(tokens_view(tokens@));
    let mut acc: Vec<String> = Vec::new();
    assert(names_view(acc@) =~= Seq::<Seq<char>>::empty());
    if sees(tokens, pos, Mark::RParen) {
        return Ok((acc, pos + 1));
    }
    if pos >= tokens.len() || !matches!(tokens[pos].1, Tok::Identifier(_)) {
        return Err((pos, Expected::Parameter));
    }
    let ghost goal = params_rest(t, pos as int, Seq::empty());
    let mut p: usize = pos;
    loop
        invariant
            pos <= p <= tokens.len(),
            params_rest(t, p as int, names_view(acc@)) == goal,
        decreases tokens.len() - p,
    {
        if p >= tokens.len() {
            return Err((p, Expected::Identifier));
        }
        match &tokens[p].1 {
            Tok::Identifier(name) => {
                assert(names_view(acc@.push(*name)) =~= names_view(acc@).push(name@));
                if sees(tokens, p + 1, Mark::Comma) {
                    acc.push(name.clone());
                    p = p + 2;
                } else if sees(tokens, p + 1, Mark::RParen) {
                    acc.push(name.clone());
                    return Ok((acc, p + 2));
                } else {
                    return Err((p + 1, Expected::ArgumentEnd));
                }
            },
            _ => {
                return Err((p, Expected::Identifier));
            },
        }
    }
}

/// Parses a block in braces.
fn parse_braced(tokens: &Vec<Token>, pos: usize) -> (r: Step<Vec<Box<Stmt>>>)
    requires
        pos <= tokens.len(),
    ensures
        same_step(
            r,
            braced(kinds(tokens_view(tokens@)), pos as int),
            boxed_stmts(),
            pos as int,
            tokens.len() as int,
            true,
        ),
    decreases tokens.len() - pos, 4nat,
{
    if !sees(tokens, pos, Mark::LBrace) {
        return Err((pos, Expected::LBrace));
    }
    match parse_block(tokens, pos + 1) {
        Ok((stmts, next)) => if sees(tokens, next, Mark::RBrace) {
            Ok((stmts, next + 1))
        } else {
            Err((next, Expected::BlockEnd))
        },
        Err(m) => Err(m),
    }
}

/// Parses the end of a conditional whose condition and first block have
/// been read.
fn parse_conditional_rest(
    tokens: &Vec<Token>,
    pos: usize,
    cond: Box<Expr>,
    then: Vec<Box<Stmt>>,
) -> (r: Step<Box<Stmt>>)
    requires
        pos <= tokens.len(),
    ensures
        same_step(
            r,
            conditional_rest(kinds(tokens_view(tokens@)), pos as int, expr_view(*cond), stmts_view(then@)),
            boxed_stmt(),
            pos as int,
            tokens.len() as int,
            true,
        ),
    decreases tokens.len() - pos, 5nat,
{
    if sees(tokens, pos, Mark::Else) {
        match parse_braced(tokens, pos + 1) {
            Ok((other, next)) => match expect_mark(tokens, next, Mark::End, Expected::End) {
                Ok(after) => Ok((Box::new(Stmt::If(cond, then, other)), after)),
                Err(m) => Err(m),
            },
            Err(m) => Err(m),
        }
    } else {
        match expect_mark(tokens, pos, Mark::End, Expected::ElseOrEnd) {
            Ok(after) => {
                let other: Vec<Box<Stmt>> = Vec::new();
                Ok((Box::new(Stmt::If(cond, then, other)), after))
            },
            Err(m) => Err(m),
        }
    }
}

/// Parses the block of a loop, function or subroutine and the `end` after
/// it.
fn parse_body(tokens: &Vec<Token>, pos: usize) -> (r: Step<Vec<Box<Stmt>>>)
    requires
        pos <= tokens.len(),
    ensures
        same_step(
            r,
            body(kinds(tokens_view(tokens@)), pos as int),
            boxed_stmts(),
            pos as int,
            tokens.len() as int,
            true,
        ),
    decreases tokens.len() - pos, 5nat,
{
    match parse_braced(tokens, pos) {
        Ok((stmts, next)) => match expect_mark(tokens, next, Mark::End, Expected::End) {
            Ok(after) => Ok((stmts, after)),
            Err(m) => Err(m),
        },
        Err(m) => Err(m),
    }
}

/// The view of what a declaration consists of: name, parameters and body.
pub open spec fn declared() -> spec_fn((String, Vec<String>, Vec<Box<Stmt>>)) -> (
    Seq<char>,
    Seq<Seq<char>>,
    Seq<StmtView>,
) {
    |d: (String, Vec<String>, Vec<Box<Stmt>>)| (d.0@, names_view(d.1@), stmts_view(d.2@))
}

/// Parses the name, the parameters and the body of a function or
/// subroutine, after its keyword.
fn parse_declaration(tokens: &Vec<Token>, pos: usize) -> (r: Step<
    (String, Vec<String>, Vec<Box<Stmt>>),
>)
    requires
        pos <= tokens.len(),
    ensures
        same_step(
            r,
            declaration(kinds(tokens_view(tokens@)), pos as int),
            declared(),
            pos as int,
            tokens.len() as int,
            true,
        ),
    decreases tokens.len() - pos, 6nat,
{
    if pos >= tokens.len() {
        return Err((pos, Expected::Identifier));
    }
    match &tokens[pos].1 {
        Tok::Identifier(name) => match expect_mark(
            tokens,
            pos + 1,
            Mark::LParen,
            Expected::LParen,
        ) {
            Ok(open) => match parse_params(tokens, open) {
                Ok((names, next)) => match parse_body(tokens, next) {
                    Ok((stmts, after)) => Ok(((name.clone(), names, stmts), after)),
                    Err(m) => Err(m),
                },
                Err(m) => Err(m),
            },
            Err(m) => Err(m),
        },
        _ => Err((pos, Expected::Identifier)),
    }
}

/// Parses a statement that starts with the identifier `name`, after it.
fn parse_operation(tokens: &Vec<Token>, pos: usize, name: String) -> (r: Step<Box<Stmt>>)
    requires
        pos <= tokens.len(),
    ensures
        same_step(
            r,
            operation(kinds(tokens_view(tokens@)), pos as int, name@),
            boxed_stmt(),
            pos as int,
            tokens.len() as int,
            true,
        ),
{
    match assign_op_at(tokens, pos) {
        Some(op) => match parse_binary(tokens, pos + 1, 0) {
            Ok((value, next)) => Ok((Box::new(Stmt::Assign(name, op, value)), next)),
            Err(m) => Err(m),
        },
        None => if sees(tokens, pos, Mark::LParen) {
            match parse_items(tokens, pos + 1, Close::Paren) {
                Ok((args, next)) => Ok((Box::new(Stmt::Call(name, args)), next)),
                Err(m) => Err(m),
            }
        } else if sees(tokens, pos, Mark::Colon) {
            match parse_primary(tokens, pos + 1) {
                Ok((index, next)) => match expect_mark(
                    tokens,
                    next,
                    Mark::Assign,
                    Expected::Assign,
                ) {
                    Ok(after) => match parse_binary(tokens, after, 0) {
                        Ok((value, end)) => Ok(
                            (Box::new(Stmt::AssignIndex(name, index, value)), end),
                        ),
                        Err(m) => Err(m),
                    },
                    Err(m) => Err(m),
                },
                Err(m) => Err(m),
            }
        } else {
            Err((pos, Expected::Operation))
        },
    }
}

/// Parses the conditional whose keyword stands at `pos`.
fn parse_conditional(tokens: &Vec<Token>, pos: usize) -> (r: Step<Box<Stmt>>)
    requires
        pos < tokens.len(),
        tokens[pos as int].1 is If,
    ensures
        same_step(
            r,
            stmt(kinds(tokens_view(tokens@)), pos as int),
            boxed_stmt(),
            pos as int,
            tokens.len() as int,
            true,
        ),
    decreases tokens.len() - pos, 6nat,
{
    match parse_binary(tokens, pos + 1, 0) {
        Ok((cond, next)) => match parse_braced(tokens, next) {
            Ok((then, after)) => parse_conditional_rest(tokens, after, cond, then),
            Err(m) => Err(m),
        },
        Err(m) => Err(m),
    }
}

/// Parses the loop whose keyword `while` stands at `pos`.
fn parse_while(tokens: &Vec<Token>, pos: usize) -> (r: Step<Box<Stmt>>)
    requires
        pos < tokens.len(),
        tokens[pos as int].1 is While,
    ensures
        same_step(
            r,
            stmt(kinds(tokens_view(tokens@)), pos as int),
            boxed_stmt(),
            pos as int,
            tokens.len() as int,
            true,
        ),
    decreases tokens.len() - pos, 6nat,
{
    match parse_binary(tokens, pos + 1, 0) {
        Ok((cond, next)) => match parse_body(tokens, next) {
            Ok((stmts, after)) => Ok((Box::new(Stmt::While(cond, stmts)), after)),
            Err(m) => Err(m),
        },
        Err(m) => Err(m),
    }
}

/// Parses the loop whose keyword `for` stands at `pos`.
fn parse_for(tokens: &Vec<Token>, pos: usize) -> (r: Step<Box<Stmt>>)
    requires
        pos < tokens.len(),
        tokens[pos as int].1 is For,
    ensures
        same_step(
            r,
            stmt(kinds(tokens_view(tokens@)), pos as int),
            boxed_stmt(),
            pos as int,
            tokens.len() as int,
            true,
        ),
    decreases tokens.len() - pos, 6nat,
{
    if pos + 1 >= tokens.len() {
        return Err((pos + 1, Expected::Identifier));
    }
    match &tokens[pos + 1].1 {
        Tok::Identifier(name) => match parse_binary(tokens, pos + 2, 0) {
            Ok((list, next)) => match parse_body(tokens, next) {
                Ok((stmts, after)) => Ok((Box::new(Stmt::For(name.clone(), list, stmts)), after)),
                Err(m) => Err(m),
            },
            Err(m) => Err(m),
        },
        _ => Err((pos + 1, Expected::Identifier)),
    }
}

/// Parses a statement; where none starts at `pos`, the empty statement.
fn parse_stmt(tokens: &Vec<Token>, pos: usize) -> (r: Step<Box<Stmt>>)
    requires
        pos <= tokens.len(),
    ensures
        same_step(
            r,
            stmt(kinds(tokens_view(tokens@)), pos as int),
            boxed_stmt(),
            pos as int,
            tokens.len() as int,
            false,
        ),
    decreases tokens.len() - pos, 7nat,
{
    if pos >= tokens.len() {
        return Ok((Box::new(Stmt::Empty), pos));
    }
    match &tokens[pos].1 {
        Tok::If => parse_conditional(tokens, pos),
        Tok::While => parse_while(tokens, pos),
        Tok::For => parse_for(tokens, pos),
        Tok::Fn => match parse_declaration(tokens, pos + 1) {
            Ok(((name, names, stmts), after)) => Ok(
                (Box::new(Stmt::Func(name, names, stmts)), after),
            ),
            Err(m) => Err(m),
        },
        Tok::Sub => match parse_declaration(tokens, pos + 1) {
            Ok(((name, names, stmts), after)) => Ok(
                (Box::new(Stmt::Sub(name, names, stmts)), after),
            ),
            Err(m) => Err(m),
        },
        Tok::Return => match parse_binary(tokens, pos + 1, 0) {
            Ok((value, next)) => Ok((Box::new(Stmt::Return(value)), next)),
            Err(m) => Err(m),
        },
        Tok::Break => Ok((Box::new(Stmt::Break), pos + 1)),
        Tok::Continue => Ok((Box::new(Stmt::Continue), pos + 1)),
        Tok::Identifier(name) => parse_operation(tokens, pos + 1, name.clone()),
        _ => Ok((Box::new(Stmt::Empty), pos)),
    }
}

/// Parses a sequence of statements, separated by line breaks.
#[verifier::loop_isolation(false)]
fn parse_block(tokens: &Vec<Token>, pos: usize) -> (r: Step<Vec<Box<Stmt>>>)
    requires
        pos <= tokens.len(),
    ensures
        same_step(
            r,
            block(kinds(tokens_view(tokens@)), pos as int),
            boxed_stmts(),
            pos as int,
            tokens.len() as int,
            false,
        ),
    decreases tokens.len() - pos, 9nat,
{
    let ghost t = kinds(tokens_view(tokens@));
    let mut acc: Vec<Box<Stmt>> = Vec::new();
    let mut p: usize = match parse_stmt(tokens, pos) {
        Ok((first, next)) => {
            proof {
                lemma_stmts_push(acc@, first);
                assert(stmts_view(acc@).push(stmt_view(*first)) =~= seq![stmt_view(*first)]);
            }
            acc.push(first);
            next
        },
        Err(m) => {
            return Err(m);
        },
    };
    let ghost goal = block(t, pos as int);
    loop
        invariant
            pos <= p <= tokens.len(),
            block_rest(t, p as int, stmts_view(acc@)) == goal,
        decreases tokens.len() - p,
    {
        if !sees(tokens, p, Mark::Newline) {
            return Ok((acc, p));
        }
        match parse_stmt(tokens, p + 1) {
            Ok((s, next)) => {
                proof {
                    lemma_stmts_push(acc@, s);
                }
                acc.push(s);
                p = next;
            },
            Err(m) => {
                return Err(m);
            },
        }
    }
}

/// A failure of the parser.
#[derive(Debug, PartialEq)]
pub enum ParseError {
    /// A token that the lexer should not have let through. The parser takes
    /// its tokens from the lexer of this library and never reports this.
    InvalidToken { location: usize },
    /// The tokens end where more was expected; `location` is the byte offset
    /// at which the last token ends.
    UnexpectedEndOfInput { location: usize, expected: Expected },
    /// A token does not fit where it stands.
    UnrecognizedToken { token: Token, expected: Expected },
    /// The program is complete and a token is left over.
    ExtraTrailingToken { token: Token },
    /// The lexer failed.
    Lexical { error: LexicalError },
}

/// The mathematical value of a [`ParseError`].
pub ghost enum ParseErrorView {
    InvalidToken { location: nat },
    UnexpectedEndOfInput { location: nat, expected: Expected },
    UnrecognizedToken { token: TokenView, expected: Expected },
    ExtraTrailingToken { token: TokenView },
    Lexical { error: LexicalError },
}

impl View for ParseError {
    type V = ParseErrorView;

    open spec fn view(&self) -> ParseErrorView {
        match self {
            ParseError::InvalidToken { location } => ParseErrorView::InvalidToken {
                location: *location as nat,
            },
            ParseError::UnexpectedEndOfInput { location, expected } => ParseErrorView::UnexpectedEndOfInput {
                location: *location as nat,
                expected: *expected,
            },
            ParseError::UnrecognizedToken { token, expected } => ParseErrorView::UnrecognizedToken {
                token: token_view(*token),
                expected: *expected,
            },
            ParseError::ExtraTrailingToken { token } => ParseErrorView::ExtraTrailingToken {
                token: token_view(*token),
            },
            ParseError::Lexical { error } => ParseErrorView::Lexical { error: *error },
        }
    }
}

/// The byte offset in the source text at which a failure is reported: the
/// start of the token that does not fit, the end of the last token where
/// the text ends too early, and the offset that the lexer gives for its own
/// failures.
pub open spec fn error_offset(error: ParseErrorView) -> nat {
    match error {
        ParseErrorView::InvalidToken { location } => location,
        ParseErrorView::UnexpectedEndOfInput { location, .. } => location,
        ParseErrorView::UnrecognizedToken { token, .. } => token.0,
        ParseErrorView::ExtraTrailingToken { token } => token.0,
        ParseErrorView::Lexical { error } => match error {
            LexicalError::UnrecognizedToken(at) => at as nat,
            LexicalError::UnterminatedString(at) => at as nat,
        },
    }
}

/// The message that tells of a failure.
pub open spec fn error_message(error: ParseErrorView) -> Seq<char> {
    match error {
        ParseErrorView::InvalidToken { .. } => "Invalid token"@,
        ParseErrorView::UnexpectedEndOfInput { expected, .. } => "Unexpected end of file, expected "@
            + expected_text(expected),
        ParseErrorView::UnrecognizedToken { token, expected } => "Unexpected token "@ + tok_text(
            token.1,
        ) + ", expected "@ + expected_text(expected),
        ParseErrorView::ExtraTrailingToken { token } => "Unexpected token "@ + tok_text(token.1),
        ParseErrorView::Lexical { error } => match error {
            LexicalError::UnrecognizedToken(_) => "Unrecognized token"@,
            LexicalError::UnterminatedString(_) => "Unterminated string"@,
        },
    }
}

impl ParseError {
    /// The byte offset in the source text at which the failure is reported.
    pub fn offset(&self) -> (at: usize)
        ensures
            at == error_offset(self@),
    {
        match self {
            ParseError::InvalidToken { location } => *location,
            ParseError::UnexpectedEndOfInput { location, .. } => *location,
            ParseError::UnrecognizedToken { token, .. } => token.0,
            ParseError::ExtraTrailingToken { token } => token.0,
            ParseError::Lexical { error } => match error {
                LexicalError::UnrecognizedToken(at) => *at,
                LexicalError::UnterminatedString(at) => *at,
            },
        }
    }

    /// The message that tells of the failure.
    pub fn message(&self) -> (out: String)
        ensures
            out@ == error_message(self@),
    {
        match self {
            ParseError::InvalidToken { .. } => "Invalid token".to_owned(),
            ParseError::UnexpectedEndOfInput { expected, .. } => {
                let mut out = "Unexpected end of file, expected ".to_owned();
                out.append(expected.symbols());
                out
            },
            ParseError::UnrecognizedToken { token, expected } => {
                let name = token.1.describe();
                let mut out = "Unexpected token ".to_owned();
                out.append(name.as_str());
                out.append(", expected ");
                out.append(expected.symbols());
                out
            },
            ParseError::ExtraTrailingToken { token } => {
                let name = token.1.describe();
                let mut out = "Unexpected token ".to_owned();
                out.append(name.as_str());
                out
            },
            ParseError::Lexical { error } => match error {
                LexicalError::UnrecognizedToken(_) => "Unrecognized token".to_owned(),
                LexicalError::UnterminatedString(_) => "Unterminated string".to_owned(),
            },
        }
    }
}

/// The byte offset at which the last of `tokens` ends, or zero.
pub open spec fn end_of(tokens: Seq<TokenView>) -> nat {
    if tokens.len() == 0 {
        0
    } else {
        tokens.last().2
    }
}

/// The failure that is reported for the tokens `tokens`, which the lexer
/// yielded before it came to the end of the text (`end` is `None`) or
/// failed (`end` is its failure), when the grammar fails with `failure`. A
/// failure at a token is reported with that token. A failure behind the
/// last token is the failure of the lexer if there is one: it stands where
/// the next token would; and else the unexpected end of the text.
pub open spec fn error_of(
    tokens: Seq<TokenView>,
    end: Option<LexicalError>,
    failure: Failure,
) -> ParseErrorView {
    match failure {
        Failure::Unexpected(m) => if 0 <= m.at < tokens.len() {
            ParseErrorView::UnrecognizedToken { token: tokens[m.at], expected: m.expected }
        } else {
            match end {
                Some(error) => ParseErrorView::Lexical { error },
                None => ParseErrorView::UnexpectedEndOfInput {
                    location: end_of(tokens),
                    expected: m.expected,
                },
            }
        },
        Failure::Extra(at) => ParseErrorView::ExtraTrailingToken { token: tokens[at] },
    }
}

/// What parsing yields for the tokens `tokens` and the end `end` of the
/// token stream: the program, or the first failure. Where the grammar is
/// content with the tokens and the lexer failed behind them, the failure of
/// the lexer is reported.
pub open spec fn outcome(tokens: Seq<TokenView>, end: Option<LexicalError>) -> Result<
    Seq<StmtView>,
    ParseErrorView,
> {
    match program(kinds(tokens)) {
        Ok(stmts) => match end {
            Some(error) => Err(ParseErrorView::Lexical { error }),
            None => Ok(stmts),
        },
        Err(failure) => Err(error_of(tokens, end, failure)),
    }
}

/// What parsing the source text `src` yields.
pub open spec fn source_outcome(src: Seq<char>) -> Result<Seq<StmtView>, ParseErrorView> {
    outcome(lexemes(src, 0).0, lexemes(src, 0).1)
}

/// Whether `r` is the result `expected` of parsing: a failure or a program
/// with the view that is expected.
pub open spec fn same_outcome(
    r: Result<Vec<Box<Stmt>>, ParseError>,
    expected: Result<Seq<StmtView>, ParseErrorView>,
) -> bool {
    match expected {
        Ok(stmts) => r matches Ok(program) && stmts_view(program@) == stmts,
        Err(e) => r matches Err(error) && error@ == e,
    }
}

/// The failure at position `at`, which lies at a token or behind the last.
fn failure_at(tokens: &Vec<Token>, end: Option<LexicalError>, at: usize, expected: Expected) -> (e:
    ParseError)
    requires
        at <= tokens.len(),
    ensures
        e@ == error_of(
            tokens_view(tokens@),
            end,
            Failure::Unexpected(Miss { at: at as int, expected }),
        ),
{
    if at < tokens.len() {
        let token = (tokens[at].0, tokens[at].1.duplicate(), tokens[at].2);
        ParseError::UnrecognizedToken { token, expected }
    } else {
        match end {
            Some(error) => ParseError::Lexical { error },
            None => {
                let location = if tokens.len() == 0 {
                    0
                } else {
                    tokens[tokens.len() - 1].2
                };
                ParseError::UnexpectedEndOfInput { location, expected }
            },
        }
    }
}

/// Parses the tokens `tokens` as a program. `end` tells how the token
/// stream ended: with the text (`None`) or with a failure of the lexer.
/// Parsing stops at the first failure.
pub fn parse(tokens: &Vec<Token>, end: Option<LexicalError>) -> (r: Result<
    Vec<Box<Stmt>>,
    ParseError,
>)
    ensures
        same_outcome(r, outcome(tokens_view(tokens@), end)),
{
    match parse_block(tokens, 0) {
        Ok((stmts, next)) => {
            if next < tokens.len() {
                let token = (tokens[next].0, tokens[next].1.duplicate(), tokens[next].2);
                Err(ParseError::ExtraTrailingToken { token })
            } else {
                match end {
                    Some(error) => Err(ParseError::Lexical { error }),
                    None => Ok(stmts),
                }
            }
        },
        Err((at, expected)) => Err(failure_at(tokens, end, at, expected)),
    }
}

/// Lexes and parses the source text `input`. Lexing goes as far as the
/// first failure of the lexer; parsing stops at the first failure, be it
/// the parser's own or that of the lexer.
pub fn parse_source(input: &str) -> (r: Result<Vec<Box<Stmt>>, ParseError>)
    ensures
        same_outcome(r, source_outcome(input@)),
{
    let (tokens, end) = tokenize(input);
    parse(&tokens, end)
}

} // verus!
