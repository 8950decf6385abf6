//! The grammar of the source language.
//!
//! The grammar is given as spec functions over the token sequence, one for
//! each nonterminal. Each takes the position at which it starts and yields
//! the tree it reads together with the position after it, or the position
//! of the token that does not fit together with what was expected there.
//!
//! ```text
//! program  := block
//! block    := stmt (NEWLINE stmt)*
//! stmt     := "if" expr "{" block "}" ("else" "{" block "}")? "end"
//!           | "while" expr "{" block "}" "end"
//!           | "for" IDENT expr "{" block "}" "end"
//!           | "fn" IDENT "(" params "{" block "}" "end"
//!           | "sub" IDENT "(" params "{" block "}" "end"
//!           | "return" expr | "break" | "continue"
//!           | IDENT assign-op expr
//!           | IDENT ":" primary "=" expr
//!           | IDENT "(" items
//!           |                                    (the empty statement)
//! params   := ")" | IDENT ("," IDENT)* ")"
//! items    := close | expr ("," expr)* close     (close is ")" or "}")
//! expr     := binary at level 0
//! binary   := operand (operator operand)*        (left to right, by level:
//!             or; and; == !=; < <= > >=; + -; * / %; operand of the last
//!             level is unary)
//! unary    := ("-" | "not") unary | primary postfix*
//! postfix  := "(" items | ":" primary
//! primary  := NUMBER | BOOLEAN | STRING | IDENT | "(" expr ")" | "{" items
//! ```
//!
//! A statement ends at a line break, at the brace that closes its block or
//! with the text; between two line breaks, or before a closing brace, the
//! empty statement may stand. Lists are written in braces and an element is
//! reached with a colon, as in `xs:0`; the index is a primary expression.
//!
//! Where a definition goes on after a nonterminal that has read something,
//! it first makes sure that the position has moved ahead (`ahead`). This
//! always holds, as `parser_laws` shows; it is asked so that the definitions
//! are seen to end.

use crate::ast::{AssignOp, BinOp, ExprView, StmtView, UnaryOp};
use crate::lexer::TokView;
use vstd::prelude::*;

verus! {

/// What the nonterminal that fails asks for at the place of the failure.
/// Where an expression stands before that place, an operator, a call or an
/// indexing could go on with it as well; they are not named.
#[derive(Debug, Clone, Copy, PartialEq, Eq, Structural)]
pub enum Expected {
    /// A token that starts an expression.
    Expression,
    /// An identifier.
    Identifier,
    /// `(`.
    LParen,
    /// `)`.
    RParen,
    /// `{`.
    LBrace,
    /// A line break or `}`.
    BlockEnd,
    /// `=`.
    Assign,
    /// `end`.
    End,
    /// `else` or `end`.
    ElseOrEnd,
    /// An identifier or the closing parenthesis.
    Parameter,
    /// What may follow the identifier that starts a statement: an assignment
    /// operator, `(` or `:`.
    Operation,
    /// A comma or the closing parenthesis.
    ArgumentEnd,
    /// A comma or the closing brace.
    ItemEnd,
}

/// The symbols that stand for an expectation in a message: their names in
/// quotes, separated by commas, in square brackets.
pub open spec fn expected_text(expected: Expected) -> Seq<char> {
    match expected {
        Expected::Expression => "[\"number\", \"boolean\", \"string\", \"identifier\", \"(\", \"{\", \"-\", \"not\"]"@,
        Expected::Identifier => "[\"identifier\"]"@,
        Expected::LParen => "[\"(\"]"@,
        Expected::RParen => "[\")\"]"@,
        Expected::LBrace => "[\"{\"]"@,
        Expected::BlockEnd => "[\"newline\", \"}\"]"@,
        Expected::Assign => "[\"=\"]"@,
        Expected::End => "[\"end\"]"@,
        Expected::ElseOrEnd => "[\"else\", \"end\"]"@,
        Expected::Parameter => "[\"identifier\", \")\"]"@,
        Expected::Operation => "[\"=\", \"+=\", \"-=\", \"*=\", \"/=\", \"%=\", \"(\", \":\"]"@,
        Expected::ArgumentEnd => "[\",\", \")\"]"@,
        Expected::ItemEnd => "[\",\", \"}\"]"@,
    }
}

impl Expected {
    /// The symbols that stand for the expectation in a message.
    pub fn symbols(&self) -> (out: &'static str)
        ensures
            out@ == expected_text(*self),
    {
        match self {
            Expected::Expression => "[\"number\", \"boolean\", \"string\", \"identifier\", \"(\", \"{\", \"-\", \"not\"]",
            Expected::Identifier => "[\"identifier\"]",
            Expected::LParen => "[\"(\"]",
            Expected::RParen => "[\")\"]",
            Expected::LBrace => "[\"{\"]",
            Expected::BlockEnd => "[\"newline\", \"}\"]",
            Expected::Assign => "[\"=\"]",
            Expected::End => "[\"end\"]",
            Expected::ElseOrEnd => "[\"else\", \"end\"]",
            Expected::Parameter => "[\"identifier\", \")\"]",
            Expected::Operation => "[\"=\", \"+=\", \"-=\", \"*=\", \"/=\", \"%=\", \"(\", \":\"]",
            Expected::ArgumentEnd => "[\",\", \")\"]",
            Expected::ItemEnd => "[\",\", \"}\"]",
        }
    }
}

/// A failure of the grammar: the position, in tokens, of the token that
/// does not fit, and what was expected in its place.
pub ghost struct Miss {
    pub at: int,
    pub expected: Expected,
}

/// What a nonterminal yields: its value and the position after it, or the
/// failure.
pub type Parsed<T> = Result<(T, int), Miss>;

/// The token at position `pos`, if there is one.
pub open spec fn at(t: Seq<TokView>, pos: int) -> Option<TokView> {
    if 0 <= pos < t.len() {
        Some(t[pos])
    } else {
        None
    }
}

/// Whether `next` is a position that a nonterminal which started at `pos`
/// and read at least one token can have reached.
pub open spec fn ahead(t: Seq<TokView>, pos: int, next: int) -> bool {
    pos < next <= t.len()
}

/// The failure at `pos` for want of `expected`.
pub open spec fn miss<T>(pos: int, expected: Expected) -> Parsed<T> {
    Err(Miss { at: pos, expected })
}

/// The bracket that closes a list of expressions.
#[derive(Debug, Clone, Copy, PartialEq, Eq, Structural)]
pub enum Close {
    /// `)`, after the arguments of a call.
    Paren,
    /// `}`, after the elements of a list.
    Brace,
}

/// The token that closes a list of expressions.
pub open spec fn close_token(close: Close) -> TokView {
    match close {
        Close::Paren => TokView::RParen,
        Close::Brace => TokView::RBrace,
    }
}

/// What is expected after an expression in a list.
pub open spec fn close_expected(close: Close) -> Expected {
    match close {
        Close::Paren => Expected::ArgumentEnd,
        Close::Brace => Expected::ItemEnd,
    }
}

/// The binary operator that `tok` is at precedence level `level`, if any.
/// The levels, from loosest to tightest: `or`; `and`; equality; relation;
/// sum; product.
pub open spec fn binary_op(level: nat, tok: Option<TokView>) -> Option<BinOp> {
    match tok {
        Some(TokView::Or) => if level == 0 {
            Some(BinOp::Or)
        } else {
            None
        },
        Some(TokView::And) => if level == 1 {
            Some(BinOp::And)
        } else {
            None
        },
        Some(TokView::Eq) => if level == 2 {
            Some(BinOp::Eq)
        } else {
            None
        },
        Some(TokView::NotEq) => if level == 2 {
            Some(BinOp::NotEq)
        } else {
            None
        },
        Some(TokView::Less) => if level == 3 {
            Some(BinOp::Less)
        } else {
            None
        },
        Some(TokView::LessEq) => if level == 3 {
            Some(BinOp::LessEq)
        } else {
            None
        },
        Some(TokView::Greater) => if level == 3 {
            Some(BinOp::Greater)
        } else {
            None
        },
        Some(TokView::GreaterEq) => if level == 3 {
            Some(BinOp::GreaterEq)
        } else {
            None
        },
        Some(TokView::Plus) => if level == 4 {
            Some(BinOp::Add)
        } else {
            None
        },
        Some(TokView::Minus) => if level == 4 {
            Some(BinOp::Sub)
        } else {
            None
        },
        Some(TokView::Star) => if level == 5 {
            Some(BinOp::Mul)
        } else {
            None
        },
        Some(TokView::Slash) => if level == 5 {
            Some(BinOp::Div)
        } else {
            None
        },
        Some(TokView::Mod) => if level == 5 {
            Some(BinOp::Mod)
        } else {
            None
        },
        _ => None,
    }
}

/// The assignment operator that `tok` is, if any.
pub open spec fn assign_op(tok: Option<TokView>) -> Option<AssignOp> {
    match tok {
        Some(TokView::Assign) => Some(AssignOp::Assign),
        Some(TokView::PlusAssign) => Some(AssignOp::PlusAssign),
        Some(TokView::MinusAssign) => Some(AssignOp::MinusAssign),
        Some(TokView::StarAssign) => Some(AssignOp::StarAssign),
        Some(TokView::SlashAssign) => Some(AssignOp::SlashAssign),
        Some(TokView::ModAssign) => Some(AssignOp::ModAssign),
        _ => None,
    }
}

/// The number of precedence levels of binary operators.
pub open spec fn levels() -> nat {
    6
}

/// A primary expression: a literal, a variable, an expression in
/// parentheses or a list in braces.
pub open spec fn primary(t: Seq<TokView>, pos: int) -> Parsed<ExprView>
    decreases t.len() - pos, 4nat,
{
    match at(t, pos) {
        Some(TokView::Number(digits)) => Ok((ExprView::Number(digits), pos + 1)),
        Some(TokView::Boolean(b)) => Ok((ExprView::Boolean(b), pos + 1)),
        Some(TokView::String(s)) => Ok((ExprView::String(s), pos + 1)),
        Some(TokView::Identifier(name)) => Ok((ExprView::Variable(name), pos + 1)),
        Some(TokView::LParen) => match binary(t, pos + 1, 0) {
            Ok((e, next)) => if at(t, next) == Some(TokView::RParen) {
                Ok((e, next + 1))
            } else {
                miss(next, Expected::RParen)
            },
            Err(m) => Err(m),
        },
        Some(TokView::LBrace) => match items(t, pos + 1, Close::Brace) {
            Ok((list, next)) => Ok((ExprView::List(list), next)),
            Err(m) => Err(m),
        },
        _ => miss(pos, Expected::Expression),
    }
}

/// The calls and indexings that follow the expression `acc`, applied to it
/// from left to right.
pub open spec fn postfix(t: Seq<TokView>, pos: int, acc: ExprView) -> Parsed<ExprView>
    decreases t.len() - pos, 5nat,
{
    match at(t, pos) {
        Some(TokView::LParen) => match items(t, pos + 1, Close::Paren) {
            Ok((args, next)) => if ahead(t, pos, next) {
                postfix(t, next, ExprView::Call(Box::new(acc), args))
            } else {
                miss(pos, Expected::Expression)
            },
            Err(m) => Err(m),
        },
        Some(TokView::Colon) => match primary(t, pos + 1) {
            Ok((index, next)) => if ahead(t, pos, next) {
                postfix(t, next, ExprView::Index(Box::new(acc), Box::new(index)))
            } else {
                miss(pos, Expected::Expression)
            },
            Err(m) => Err(m),
        },
        _ => Ok((acc, pos)),
    }
}

/// A unary expression: prefix operators, then a primary expression with
/// what is applied to it.
pub open spec fn unary(t: Seq<TokView>, pos: int) -> Parsed<ExprView>
    decreases t.len() - pos, 6nat,
{
    match at(t, pos) {
        Some(TokView::Minus) => match unary(t, pos + 1) {
            Ok((e, next)) => Ok((ExprView::UnaryOp(UnaryOp::Neg, Box::new(e)), next)),
            Err(m) => Err(m),
        },
        Some(TokView::Not) => match unary(t, pos + 1) {
            Ok((e, next)) => Ok((ExprView::UnaryOp(UnaryOp::Not, Box::new(e)), next)),
            Err(m) => Err(m),
        },
        _ => match primary(t, pos) {
            Ok((e, next)) => if ahead(t, pos, next) {
                postfix(t, next, e)
            } else {
                miss(pos, Expected::Expression)
            },
            Err(m) => Err(m),
        },
    }
}

/// An expression of precedence level `level`: operands of the next level
/// joined by operators of this one, grouped from the left. Past the last
/// level stand the unary expressions.
pub open spec fn binary(t: Seq<TokView>, pos: int, level: nat) -> Parsed<ExprView>
    decreases t.len() - pos,
        (if level < levels() {
            30 - 2 * level
        } else {
            18
        }),
{
    if level >= levels() {
        unary(t, pos)
    } else {
        match binary(t, pos, level + 1) {
            Ok((lhs, next)) => if ahead(t, pos, next) {
                binary_rest(t, next, level, lhs)
            } else {
                miss(pos, Expected::Expression)
            },
            Err(m) => Err(m),
        }
    }
}

/// The operators of level `level` and their right operands that follow the
/// expression `acc`, applied to it from left to right.
pub open spec fn binary_rest(t: Seq<TokView>, pos: int, level: nat, acc: ExprView) -> Parsed<
    ExprView,
>
    decreases t.len() - pos, 7nat,
{
    match binary_op(level, at(t, pos)) {
        Some(op) => match binary(t, pos + 1, level + 1) {
            Ok((rhs, next)) => if ahead(t, pos, next) {
                binary_rest(t, next, level, ExprView::BinOp(Box::new(acc), op, Box::new(rhs)))
            } else {
                miss(pos, Expected::Expression)
            },
            Err(m) => Err(m),
        },
        None => Ok((acc, pos)),
    }
}

/// A list of expressions up to and with the bracket that closes it: the
/// bracket alone, or expressions separated by commas and then the bracket.
pub open spec fn items(t: Seq<TokView>, pos: int, close: Close) -> Parsed<Seq<ExprView>>
    decreases t.len() - pos, 41nat,
{
    if at(t, pos) == Some(close_token(close)) {
        Ok((Seq::empty(), pos + 1))
    } else {
        items_rest(t, pos, close, Seq::empty())
    }
}

/// An expression and what follows it in a list: a comma and more of the
/// list, or the bracket that closes it. `acc` holds the expressions read so
/// far.
pub open spec fn items_rest(t: Seq<TokView>, pos: int, close: Close, acc: Seq<ExprView>) -> Parsed<
    Seq<ExprView>,
>
    decreases t.len() - pos, 40nat,
{
    match binary(t, pos, 0) {
        Ok((e, next)) => if !ahead(t, pos, next) {
            miss(pos, Expected::Expression)
        } else if at(t, next) == Some(TokView::Comma) {
            items_rest(t, next + 1, close, acc.push(e))
        } else if at(t, next) == Some(close_token(close)) {
            Ok((acc.push(e), next + 1))
        } else {
            miss(next, close_expected(close))
        },
        Err(m) => Err(m),
    }
}

/// An expression.
pub open spec fn expr(t: Seq<TokView>, pos: int) -> Parsed<ExprView> {
    binary(t, pos, 0)
}

/// The parameters of a function or subroutine up to and with the closing
/// parenthesis.
pub open spec fn params(t: Seq<TokView>, pos: int) -> Parsed<Seq<Seq<char>>> {
    if at(t, pos) == Some(TokView::RParen) {
        Ok((Seq::empty(), pos + 1))
    } else if at(t, pos) is Some && at(t, pos)->Some_0 is Identifier {
        params_rest(t, pos, Seq::empty())
    } else {
        miss(pos, Expected::Parameter)
    }
}

/// A parameter and what follows it: a comma and more parameters, or the
/// closing parenthesis. `acc` holds the parameters read so far.
pub open spec fn params_rest(t: Seq<TokView>, pos: int, acc: Seq<Seq<char>>) -> Parsed<
    Seq<Seq<char>>,
>
    decreases t.len() - pos,
{
    match at(t, pos) {
        Some(TokView::Identifier(name)) => if at(t, pos + 1) == Some(TokView::Comma) {
            params_rest(t, pos + 2, acc.push(name))
        } else if at(t, pos + 1) == Some(TokView::RParen) {
            Ok((acc.push(name), pos + 2))
        } else {
            miss(pos + 1, Expected::ArgumentEnd)
        },
        _ => miss(pos, Expected::Identifier),
    }
}

/// The position after the token `tok`, which is expected at `pos`.
pub open spec fn expect(t: Seq<TokView>, pos: int, tok: TokView, expected: Expected) -> Result<
    int,
    Miss,
> {
    if at(t, pos) == Some(tok) {
        Ok(pos + 1)
    } else {
        Err(Miss { at: pos, expected })
    }
}

/// A block in braces followed by what `stmt` makes of it: `{`, the
/// statements, `}`.
pub open spec fn braced(t: Seq<TokView>, pos: int) -> Parsed<Seq<StmtView>>
    decreases t.len() - pos, 4nat,
{
    if at(t, pos) == Some(TokView::LBrace) {
        match block(t, pos + 1) {
            Ok((body, next)) => if at(t, next) == Some(TokView::RBrace) {
                Ok((body, next + 1))
            } else {
                miss(next, Expected::BlockEnd)
            },
            Err(m) => Err(m),
        }
    } else {
        miss(pos, Expected::LBrace)
    }
}

/// The end of a conditional whose condition and first block have been
/// read: an optional `else` with its block, then `end`.
pub open spec fn conditional_rest(
    t: Seq<TokView>,
    pos: int,
    cond: ExprView,
    then: Seq<StmtView>,
) -> Parsed<StmtView>
    decreases t.len() - pos, 5nat,
{
    if at(t, pos) == Some(TokView::Else) {
        match braced(t, pos + 1) {
            Ok((other, next)) => match expect(t, next, TokView::End, Expected::End) {
                Ok(after) => Ok((StmtView::If(cond, then, other), after)),
                Err(m) => Err(m),
            },
            Err(m) => Err(m),
        }
    } else {
        match expect(t, pos, TokView::End, Expected::ElseOrEnd) {
            Ok(after) => Ok((StmtView::If(cond, then, Seq::empty()), after)),
            Err(m) => Err(m),
        }
    }
}

/// The block of a loop, function or subroutine and the `end` after it.
pub open spec fn body(t: Seq<TokView>, pos: int) -> Parsed<Seq<StmtView>>
    decreases t.len() - pos, 5nat,
{
    match braced(t, pos) {
        Ok((stmts, next)) => match expect(t, next, TokView::End, Expected::End) {
            Ok(after) => Ok((stmts, after)),
            Err(m) => Err(m),
        },
        Err(m) => Err(m),
    }
}

/// The name, the parameters and the body of a function or subroutine,
/// after its keyword.
pub open spec fn declaration(t: Seq<TokView>, pos: int) -> Parsed<
    (Seq<char>, Seq<Seq<char>>, Seq<StmtView>),
>
    decreases t.len() - pos, 6nat,
{
    match at(t, pos) {
        Some(TokView::Identifier(name)) => match expect(
            t,
            pos + 1,
            TokView::LParen,
            Expected::LParen,
        ) {
            Ok(open) => match params(t, open) {
                Ok((names, next)) => if ahead(t, pos, next) {
                    match body(t, next) {
                        Ok((stmts, after)) => Ok(((name, names, stmts), after)),
                        Err(m) => Err(m),
                    }
                } else {
                    miss(pos, Expected::Identifier)
                },
                Err(m) => Err(m),
            },
            Err(m) => Err(m),
        },
        _ => miss(pos, Expected::Identifier),
    }
}

/// A statement that starts with the identifier `name`, after it: an
/// assignment, an assignment to an element, or a call.
pub open spec fn operation(t: Seq<TokView>, pos: int, name: Seq<char>) -> Parsed<StmtView> {
    match assign_op(at(t, pos)) {
        Some(op) => match expr(t, pos + 1) {
            Ok((value, next)) => Ok((StmtView::Assign(name, op, value), next)),
            Err(m) => Err(m),
        },
        None => if at(t, pos) == Some(TokView::LParen) {
            match items(t, pos + 1, Close::Paren) {
                Ok((args, next)) => Ok((StmtView::Call(name, args), next)),
                Err(m) => Err(m),
            }
        } else if at(t, pos) == Some(TokView::Colon) {
            match primary(t, pos + 1) {
                Ok((index, next)) => match expect(t, next, TokView::Assign, Expected::Assign) {
                    Ok(after) => match expr(t, after) {
                        Ok((value, end)) => Ok((StmtView::AssignIndex(name, index, value), end)),
                        Err(m) => Err(m),
                    },
                    Err(m) => Err(m),
                },
                Err(m) => Err(m),
            }
        } else {
            miss(pos, Expected::Operation)
        },
    }
}

/// A statement. Where no statement starts at `pos`, the empty statement is
/// read, which takes no token.
pub open spec fn stmt(t: Seq<TokView>, pos: int) -> Parsed<StmtView>
    decreases t.len() - pos, 7nat,
{
    match at(t, pos) {
        Some(TokView::If) => match expr(t, pos + 1) {
            Ok((cond, next)) => if ahead(t, pos, next) {
                match braced(t, next) {
                    Ok((then, after)) => if ahead(t, pos, after) {
                        conditional_rest(t, after, cond, then)
                    } else {
                        miss(pos, Expected::LBrace)
                    },
                    Err(m) => Err(m),
                }
            } else {
                miss(pos, Expected::Expression)
            },
            Err(m) => Err(m),
        },
        Some(TokView::While) => match expr(t, pos + 1) {
            Ok((cond, next)) => if ahead(t, pos, next) {
                match body(t, next) {
                    Ok((stmts, after)) => Ok((StmtView::While(cond, stmts), after)),
                    Err(m) => Err(m),
                }
            } else {
                miss(pos, Expected::Expression)
            },
            Err(m) => Err(m),
        },
        Some(TokView::For) => match at(t, pos + 1) {
            Some(TokView::Identifier(name)) => match expr(t, pos + 2) {
                Ok((list, next)) => if ahead(t, pos, next) {
                    match body(t, next) {
                        Ok((stmts, after)) => Ok((StmtView::For(name, list, stmts), after)),
                        Err(m) => Err(m),
                    }
                } else {
                    miss(pos, Expected::Expression)
                },
                Err(m) => Err(m),
            },
            _ => miss(pos + 1, Expected::Identifier),
        },
        Some(TokView::Fn) => match declaration(t, pos + 1) {
            Ok(((name, names, stmts), after)) => Ok((StmtView::Func(name, names, stmts), after)),
            Err(m) => Err(m),
        },
        Some(TokView::Sub) => match declaration(t, pos + 1) {
            Ok(((name, names, stmts), after)) => Ok((StmtView::Sub(name, names, stmts), after)),
            Err(m) => Err(m),
        },
        Some(TokView::Return) => match expr(t, pos + 1) {
            Ok((value, next)) => Ok((StmtView::Return(value), next)),
            Err(m) => Err(m),
        },
        Some(TokView::Break) => Ok((StmtView::Break, pos + 1)),
        Some(TokView::Continue) => Ok((StmtView::Continue, pos + 1)),
        Some(TokView::Identifier(name)) => operation(t, pos + 1, name),
        _ => Ok((StmtView::Empty, pos)),
    }
}

/// A sequence of statements, separated by line breaks.
pub open spec fn block(t: Seq<TokView>, pos: int) -> Parsed<Seq<StmtView>>
    decreases t.len() - pos, 9nat,
{
    match stmt(t, pos) {
        Ok((first, next)) => if pos <= next <= t.len() {
            block_rest(t, next, seq![first])
        } else {
            miss(pos, Expected::BlockEnd)
        },
        Err(m) => Err(m),
    }
}

/// The line breaks and statements that follow the statements `acc`.
pub open spec fn block_rest(t: Seq<TokView>, pos: int, acc: Seq<StmtView>) -> Parsed<
    Seq<StmtView>,
>
    decreases t.len() - pos, 8nat,
{
    if at(t, pos) == Some(TokView::Newline) {
        match stmt(t, pos + 1) {
            Ok((s, next)) => if ahead(t, pos, next) {
                block_rest(t, next, acc.push(s))
            } else {
                miss(pos, Expected::BlockEnd)
            },
            Err(m) => Err(m),
        }
    } else {
        Ok((acc, pos))
    }
}

/// How parsing a token sequence fails: a token does not fit where it
/// stands, or the program is complete and a token is left over.
pub ghost enum Failure {
    Unexpected(Miss),
    Extra(int),
}

/// A program: a block that takes all the tokens.
pub open spec fn program(t: Seq<TokView>) -> Result<Seq<StmtView>, Failure> {
    match block(t, 0) {
        Ok((stmts, next)) => if next < t.len() {
            Err(Failure::Extra(next))
        } else {
            Ok(stmts)
        },
        Err(m) => Err(Failure::Unexpected(m)),
    }
}

} // verus!
