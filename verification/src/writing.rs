//! Every tree can be written down: `written` gives for an expression, and
//! `written_block` for the statements of a grammatical program, a token
//! sequence that the grammar reads back as that expression or program. And
//! the grammar reads grammatical programs only. So the trees that parsing
//! can yield are known exactly, and none is read for tokens that were
//! written for another.

use crate::ast::{AssignOp, BinOp, ExprView, StmtView, UnaryOp};
use crate::grammar::{
    ahead, assign_op, at, binary, binary_op, binary_rest, block, block_rest, body, braced,
    close_token, conditional_rest, declaration, expect, items, items_rest, levels, operation,
    params, params_rest, postfix, primary, program, stmt, unary, Close, Expected, Failure, Miss,
};
use crate::lexer::TokView;
use vstd::prelude::*;

verus! {

/// The token that denotes a binary operator.
pub open spec fn binary_token(op: BinOp) -> TokView {
    match op {
        BinOp::Add => TokView::Plus,
        BinOp::Sub => TokView::Minus,
        BinOp::Mul => TokView::Star,
        BinOp::Div => TokView::Slash,
        BinOp::Mod => TokView::Mod,
        BinOp::Less => TokView::Less,
        BinOp::LessEq => TokView::LessEq,
        BinOp::Greater => TokView::Greater,
        BinOp::GreaterEq => TokView::GreaterEq,
        BinOp::Eq => TokView::Eq,
        BinOp::NotEq => TokView::NotEq,
        BinOp::And => TokView::And,
        BinOp::Or => TokView::Or,
    }
}

/// The precedence level of a binary operator.
pub open spec fn binary_level(op: BinOp) -> nat {
    match op {
        BinOp::Or => 0,
        BinOp::And => 1,
        BinOp::Eq => 2,
        BinOp::NotEq => 2,
        BinOp::Less => 3,
        BinOp::LessEq => 3,
        BinOp::Greater => 3,
        BinOp::GreaterEq => 3,
        BinOp::Add => 4,
        BinOp::Sub => 4,
        BinOp::Mul => 5,
        BinOp::Div => 5,
        BinOp::Mod => 5,
    }
}

/// The token that denotes a prefix operator.
pub open spec fn unary_token(op: UnaryOp) -> TokView {
    match op {
        UnaryOp::Neg => TokView::Minus,
        UnaryOp::Not => TokView::Not,
    }
}

/// The expression `e` written as tokens: a literal or variable as its one
/// token, a list in braces, and every operation, call and indexing in
/// parentheses of its own.
pub open spec fn written(e: ExprView) -> Seq<TokView>
    decreases e, 0nat,
{
    match e {
        ExprView::Number(digits) => seq![TokView::Number(digits)],
        ExprView::Boolean(b) => seq![TokView::Boolean(b)],
        ExprView::String(s) => seq![TokView::String(s)],
        ExprView::Variable(name) => seq![TokView::Identifier(name)],
        ExprView::BinOp(l, op, r) => seq![TokView::LParen] + written(*l) + seq![binary_token(op)]
            + written(*r) + seq![TokView::RParen],
        ExprView::UnaryOp(op, e) => seq![TokView::LParen, unary_token(op)] + written(*e)
            + seq![TokView::RParen],
        ExprView::List(items) => seq![TokView::LBrace] + written_list(items)
            + seq![TokView::RBrace],
        ExprView::Call(f, args) => seq![TokView::LParen] + written(*f) + seq![TokView::LParen]
            + written_list(args) + seq![TokView::RParen, TokView::RParen],
        ExprView::Index(e, i) => seq![TokView::LParen] + written(*e) + seq![TokView::Colon]
            + written(*i) + seq![TokView::RParen],
    }
}

/// The expressions `items` written as tokens, with commas between them.
pub open spec fn written_list(items: Seq<ExprView>) -> Seq<TokView>
    decreases items, 1nat,
{
    if items.len() == 0 {
        Seq::empty()
    } else if items.len() == 1 {
        written(items[0])
    } else {
        written(items[0]) + seq![TokView::Comma] + written_list(items.drop_first())
    }
}

/// Whether the tokens `part` stand in `t` from position `pos` on.
#[verifier::opaque]
pub open spec fn has(t: Seq<TokView>, pos: int, part: Seq<TokView>) -> bool {
    &&& 0 <= pos
    &&& pos + part.len() <= t.len()
    &&& forall|i: int| 0 <= i < part.len() ==> t[pos + i] == #[trigger] part[i]
}

/// Where two sequences of tokens stand one after the other, each of them
/// stands at its place.
proof fn lemma_has_both(t: Seq<TokView>, pos: int, a: Seq<TokView>, b: Seq<TokView>)
    requires
        has(t, pos, a + b),
    ensures
        has(t, pos, a),
        has(t, pos + a.len(), b),
{
    reveal(has);
    let whole = a + b;
    assert forall|i: int| 0 <= i < a.len() implies t[pos + i] == #[trigger] a[i] by {
        assert(whole[i] == a[i]);
    }
    assert forall|i: int| 0 <= i < b.len() implies t[pos + a.len() + i] == #[trigger] b[i] by {
        assert(whole[a.len() + i] == b[i]);
    }
}

/// A token of a sequence that stands in `t` stands at its place.
proof fn lemma_has_token(t: Seq<TokView>, pos: int, part: Seq<TokView>, i: int)
    requires
        has(t, pos, part),
        0 <= i < part.len(),
    ensures
        at(t, pos + i) == Some(part[i]),
        0 <= pos,
        pos + part.len() <= t.len(),
{
    reveal(has);
}

/// A sequence of tokens stands in itself.
proof fn lemma_has_itself(t: Seq<TokView>)
    ensures
        has(t, 0, t),
{
    reveal(has);
}

/// Whether a token starts a primary expression as `written` writes it: a
/// literal, an identifier or an opening bracket.
pub open spec fn opens(tok: TokView) -> bool {
    tok is Number || tok is Boolean || tok is String || tok is Identifier || tok is LParen || tok
        is LBrace
}

/// What is written is not empty and starts like a primary expression.
proof fn lemma_written_opens(e: ExprView)
    ensures
        written(e).len() >= 1,
        opens(written(e)[0]),
{
    match e {
        ExprView::BinOp(l, op, r) => {
            assert(written(e)[0] == TokView::LParen);
        },
        ExprView::UnaryOp(op, inner) => {
            assert(written(e)[0] == TokView::LParen);
        },
        ExprView::List(items) => {
            assert(written(e)[0] == TokView::LBrace);
        },
        ExprView::Call(f, args) => {
            assert(written(e)[0] == TokView::LParen);
        },
        ExprView::Index(target, i) => {
            assert(written(e)[0] == TokView::LParen);
        },
        _ => {},
    }
}

/// Whether no binary operator of level `level` or above stands at `tok`.
pub open spec fn ends_operand(tok: Option<TokView>, level: nat) -> bool {
    forall|above: nat| level <= above ==> (#[trigger] binary_op(above, tok)) is None
}

/// Whether neither a call nor an indexing starts at `tok`.
pub open spec fn ends_postfix(tok: Option<TokView>) -> bool {
    tok != Some(TokView::LParen) && tok != Some(TokView::Colon)
}

/// A unary expression behind which no operator of level `level` or above
/// stands is all that the grammar reads at that level.
proof fn lemma_lift(t: Seq<TokView>, pos: int, e: ExprView, next: int, level: nat)
    requires
        unary(t, pos) == Ok::<(ExprView, int), Miss>((e, next)),
        ahead(t, pos, next),
        ends_operand(at(t, next), level),
    ensures
        binary(t, pos, level) == Ok::<(ExprView, int), Miss>((e, next)),
    decreases levels() + 1 - level,
{
    if level < levels() {
        lemma_lift(t, pos, e, next, level + 1);
        assert(binary_op(level, at(t, next)) is None);
        assert(binary_rest(t, next, level, e) == Ok::<(ExprView, int), Miss>(
            (e, next),
        ));
    }
}

/// The token behind a binary operand of level `level + 1` that is the
/// operator `op` of level `level`.
proof fn lemma_operator_ends_operand(op: BinOp)
    ensures
        ends_operand(Some(binary_token(op)), binary_level(op) + 1),
        ends_postfix(Some(binary_token(op))),
        binary_op(binary_level(op), Some(binary_token(op))) == Some(op),
        binary_level(op) < levels(),
{
}

/// The grammar reads what is written for `e` as the primary expression `e`.
pub proof fn lemma_written_primary(t: Seq<TokView>, pos: int, e: ExprView)
    requires
        has(t, pos, written(e)),
    ensures
        primary(t, pos) == Ok::<(ExprView, int), Miss>((e, pos + written(e).len())),
    decreases e, 1nat,
{
    match e {
        ExprView::BinOp(_, _, _) => {
            lemma_written_operation(t, pos, e);
        },
        ExprView::UnaryOp(_, _) => {
            lemma_written_prefixed(t, pos, e);
        },
        ExprView::List(_) => {
            lemma_written_braced_list(t, pos, e);
        },
        ExprView::Call(_, _) => {
            lemma_written_call(t, pos, e);
        },
        ExprView::Index(_, _) => {
            lemma_written_index(t, pos, e);
        },
        _ => {
            lemma_has_token(t, pos, written(e), 0);
        },
    }
}

/// The grammar reads what is written for a binary operation as that
/// operation.
proof fn lemma_written_operation(t: Seq<TokView>, pos: int, e: ExprView)
    requires
        e is BinOp,
        has(t, pos, written(e)),
    ensures
        primary(t, pos) == Ok::<(ExprView, int), Miss>((e, pos + written(e).len())),
    decreases e, 0nat,
{
    match e {
        ExprView::BinOp(l, op, r) => {
            let a = seq![TokView::LParen];
            let wl = written(*l);
            let o = seq![binary_token(op)];
            let wr = written(*r);
            let c = seq![TokView::RParen];
            lemma_has_both(t, pos, a + wl + o + wr, c);
            lemma_has_both(t, pos, a + wl + o, wr);
            lemma_has_both(t, pos, a + wl, o);
            lemma_has_both(t, pos, a, wl);
            let p0 = pos + 1;
            let p1 = p0 + wl.len();
            let p2 = p1 + 1 + wr.len();
            lemma_has_token(t, pos, a, 0);
            lemma_has_token(t, p1, o, 0);
            lemma_has_token(t, p2, c, 0);
            lemma_operator_ends_operand(op);
            let k = binary_level(op);
            lemma_written_operand(t, p0, *l, k + 1);
            lemma_written_operand(t, p1 + 1, *r, k + 1);
            assert(binary_rest(t, p2, k, e) == Ok::<(ExprView, int), Miss>((e, p2)));
            assert(binary_rest(t, p1, k, *l) == Ok::<(ExprView, int), Miss>((e, p2)));
            assert(binary(t, p0, k) == Ok::<(ExprView, int), Miss>((e, p2)));
            lemma_lower(t, p0, e, p2, k, 0);
        },
        _ => {},
    }
}

/// The grammar reads what is written for a prefix operation as that
/// operation.
proof fn lemma_written_prefixed(t: Seq<TokView>, pos: int, e: ExprView)
    requires
        e is UnaryOp,
        has(t, pos, written(e)),
    ensures
        primary(t, pos) == Ok::<(ExprView, int), Miss>((e, pos + written(e).len())),
    decreases e, 0nat,
{
    match e {
        ExprView::UnaryOp(op, inner) => {
            let a = seq![TokView::LParen, unary_token(op)];
            let wi = written(*inner);
            let c = seq![TokView::RParen];
            lemma_has_both(t, pos, a + wi, c);
            lemma_has_both(t, pos, a, wi);
            let p2 = pos + 2 + wi.len();
            lemma_has_token(t, pos, a, 0);
            lemma_has_token(t, pos, a, 1);
            lemma_has_token(t, p2, c, 0);
            lemma_written_unary(t, pos + 2, *inner);
            assert(unary(t, pos + 1) == Ok::<(ExprView, int), Miss>((e, p2)));
            lemma_lift(t, pos + 1, e, p2, 0);
        },
        _ => {},
    }
}

/// The grammar reads what is written for a list as that list.
proof fn lemma_written_braced_list(t: Seq<TokView>, pos: int, e: ExprView)
    requires
        e is List,
        has(t, pos, written(e)),
    ensures
        primary(t, pos) == Ok::<(ExprView, int), Miss>((e, pos + written(e).len())),
    decreases e, 0nat,
{
    match e {
        ExprView::List(list) => {
            let a = seq![TokView::LBrace];
            let wl = written_list(list);
            let c = seq![TokView::RBrace];
            lemma_has_both(t, pos, a + wl, c);
            lemma_has_both(t, pos, a, wl);
            lemma_has_token(t, pos, a, 0);
            lemma_has_token(t, pos + 1 + wl.len(), c, 0);
            lemma_written_items(t, pos + 1, list, Close::Brace);
        },
        _ => {},
    }
}

/// The grammar reads what is written for a call as that call.
proof fn lemma_written_call(t: Seq<TokView>, pos: int, e: ExprView)
    requires
        e is Call,
        has(t, pos, written(e)),
    ensures
        primary(t, pos) == Ok::<(ExprView, int), Miss>((e, pos + written(e).len())),
    decreases e, 0nat,
{
    match e {
        ExprView::Call(f, args) => {
            let a = seq![TokView::LParen];
            let wf = written(*f);
            let o = seq![TokView::LParen];
            let wa = written_list(args);
            let c = seq![TokView::RParen, TokView::RParen];
            lemma_has_both(t, pos, a + wf + o + wa, c);
            lemma_has_both(t, pos, a + wf + o, wa);
            lemma_has_both(t, pos, a + wf, o);
            lemma_has_both(t, pos, a, wf);
            let p0 = pos + 1;
            let p1 = p0 + wf.len();
            let p2 = p1 + 1 + wa.len();
            lemma_has_token(t, pos, a, 0);
            lemma_has_token(t, p1, o, 0);
            lemma_has_token(t, p2, c, 0);
            lemma_has_token(t, p2, c, 1);
            lemma_written_opens(*f);
            lemma_has_token(t, p0, wf, 0);
            lemma_written_primary(t, p0, *f);
            lemma_written_items(t, p1 + 1, args, Close::Paren);
            assert(postfix(t, p2 + 1, e) == Ok::<(ExprView, int), Miss>((e, p2 + 1)));
            assert(postfix(t, p1, *f) == Ok::<(ExprView, int), Miss>((e, p2 + 1)));
            assert(unary(t, p0) == Ok::<(ExprView, int), Miss>((e, p2 + 1)));
            lemma_lift(t, p0, e, p2 + 1, 0);
        },
        _ => {},
    }
}

/// The grammar reads what is written for an indexing as that indexing.
proof fn lemma_written_index(t: Seq<TokView>, pos: int, e: ExprView)
    requires
        e is Index,
        has(t, pos, written(e)),
    ensures
        primary(t, pos) == Ok::<(ExprView, int), Miss>((e, pos + written(e).len())),
    decreases e, 0nat,
{
    match e {
        ExprView::Index(target, i) => {
            let a = seq![TokView::LParen];
            let wt = written(*target);
            let o = seq![TokView::Colon];
            let wi = written(*i);
            let c = seq![TokView::RParen];
            lemma_has_both(t, pos, a + wt + o + wi, c);
            lemma_has_both(t, pos, a + wt + o, wi);
            lemma_has_both(t, pos, a + wt, o);
            lemma_has_both(t, pos, a, wt);
            let p0 = pos + 1;
            let p1 = p0 + wt.len();
            let p2 = p1 + 1 + wi.len();
            lemma_has_token(t, pos, a, 0);
            lemma_has_token(t, p1, o, 0);
            lemma_has_token(t, p2, c, 0);
            lemma_written_opens(*target);
            lemma_has_token(t, p0, wt, 0);
            lemma_written_primary(t, p0, *target);
            lemma_written_primary(t, p1 + 1, *i);
            assert(postfix(t, p2, e) == Ok::<(ExprView, int), Miss>((e, p2)));
            assert(postfix(t, p1, *target) == Ok::<(ExprView, int), Miss>((e, p2)));
            assert(unary(t, p0) == Ok::<(ExprView, int), Miss>((e, p2)));
            lemma_lift(t, p0, e, p2, 0);
        },
        _ => {},
    }
}

/// An expression that the grammar reads at level `from` from `pos` to
/// `next`, where a closing parenthesis stands, is what it reads at every
/// level below.
proof fn lemma_lower(t: Seq<TokView>, pos: int, e: ExprView, next: int, from: nat, level: nat)
    requires
        binary(t, pos, from) == Ok::<(ExprView, int), Miss>((e, next)),
        ahead(t, pos, next),
        at(t, next) == Some(TokView::RParen),
        level <= from < levels(),
    ensures
        binary(t, pos, level) == Ok::<(ExprView, int), Miss>((e, next)),
    decreases from - level,
{
    if level < from {
        lemma_lower(t, pos, e, next, from, level + 1);
        assert(binary_op(level, at(t, next)) is None);
        assert(binary_rest(t, next, level, e) == Ok::<(ExprView, int), Miss>(
            (e, next),
        ));
    }
}

/// The grammar reads what is written for `e` as the unary expression `e`,
/// where neither a call nor an indexing follows.
proof fn lemma_written_unary(t: Seq<TokView>, pos: int, e: ExprView)
    requires
        has(t, pos, written(e)),
        ends_postfix(at(t, pos + written(e).len())),
    ensures
        unary(t, pos) == Ok::<(ExprView, int), Miss>(
            (e, pos + written(e).len()),
        ),
        ahead(t, pos, pos + written(e).len()),
    decreases e, 2nat,
{
    lemma_written_opens(e);
    lemma_written_primary(t, pos, e);
    lemma_has_token(t, pos, written(e), 0);
    let next = pos + written(e).len();
    assert(postfix(t, next, e) == Ok::<(ExprView, int), Miss>((e, next)));
}

/// The grammar reads what is written for `e` as an operand of level
/// `level`, where no call, no indexing and no operator of that level or
/// above follows.
pub proof fn lemma_written_operand(t: Seq<TokView>, pos: int, e: ExprView, level: nat)
    requires
        has(t, pos, written(e)),
        ends_postfix(at(t, pos + written(e).len())),
        ends_operand(at(t, pos + written(e).len()), level),
    ensures
        binary(t, pos, level) == Ok::<(ExprView, int), Miss>(
            (e, pos + written(e).len()),
        ),
    decreases e, 3nat,
{
    lemma_written_unary(t, pos, e);
    lemma_lift(t, pos, e, pos + written(e).len(), level);
}

/// Whether a token ends an expression in a list: a comma or a closing
/// bracket.
proof fn lemma_list_token_ends(tok: TokView)
    requires
        tok == TokView::Comma || tok == TokView::RParen || tok == TokView::RBrace,
    ensures
        ends_postfix(Some(tok)),
        ends_operand(Some(tok), 0),
{
}

/// The grammar reads what is written for the expressions `list`, followed
/// by the closing bracket, as these expressions.
pub proof fn lemma_written_items(t: Seq<TokView>, pos: int, list: Seq<ExprView>, close: Close)
    requires
        has(t, pos, written_list(list)),
        at(t, pos + written_list(list).len()) == Some(close_token(close)),
    ensures
        items(t, pos, close) == Ok::<(Seq<ExprView>, int), Miss>(
            (list, pos + written_list(list).len() + 1),
        ),
    decreases list, 3nat,
{
    if list.len() > 0 {
        lemma_written_opens(list[0]);
        if list.len() > 1 {
            lemma_has_both(
                t,
                pos,
                written(list[0]) + seq![TokView::Comma],
                written_list(list.drop_first()),
            );
            lemma_has_both(t, pos, written(list[0]), seq![TokView::Comma]);
        }
        lemma_has_token(t, pos, written(list[0]), 0);
        lemma_written_items_rest(t, pos, list, close, Seq::empty());
        assert(Seq::<ExprView>::empty() + list =~= list);
    } else {
        assert(list =~= Seq::<ExprView>::empty());
    }
}

/// The grammar reads what is written for the expressions `list`, which
/// are not none, followed by the closing bracket, as these expressions,
/// and adds them to those read before.
proof fn lemma_written_items_rest(
    t: Seq<TokView>,
    pos: int,
    list: Seq<ExprView>,
    close: Close,
    acc: Seq<ExprView>,
)
    requires
        list.len() > 0,
        has(t, pos, written_list(list)),
        at(t, pos + written_list(list).len()) == Some(close_token(close)),
    ensures
        items_rest(t, pos, close, acc) == Ok::<(Seq<ExprView>, int), Miss>(
            (acc + list, pos + written_list(list).len() + 1),
        ),
    decreases list, 2nat,
{
    let first = list[0];
    let w = written(first);
    lemma_written_opens(first);
    if list.len() == 1 {
        lemma_list_token_ends(close_token(close));
        lemma_written_operand(t, pos, first, 0);
        assert(acc.push(first) =~= acc + list);
    } else {
        let rest = list.drop_first();
        let comma = seq![TokView::Comma];
        lemma_has_both(t, pos, w + comma, written_list(rest));
        lemma_has_both(t, pos, w, comma);
        lemma_has_token(t, pos + w.len(), comma, 0);
        lemma_list_token_ends(TokView::Comma);
        lemma_written_operand(t, pos, first, 0);
        lemma_written_items_rest(t, pos + w.len() + 1, rest, close, acc.push(first));
        assert(acc.push(first) + rest =~= acc + list);
    }
}

/// Every expression can be written down and is read back: the tokens
/// `written(e)`, in parentheses, are read by the grammar as the expression
/// `e`, whatever `e` is.
pub proof fn law_written_is_read_back(e: ExprView)
    ensures
        primary(written(e), 0) == Ok::<(ExprView, int), Miss>(
            (e, written(e).len() as int),
        ),
{
    lemma_has_itself(written(e));
    lemma_written_primary(written(e), 0, e);
}

/// The token that denotes an assignment operator.
pub open spec fn assign_token(op: AssignOp) -> TokView {
    match op {
        AssignOp::Assign => TokView::Assign,
        AssignOp::PlusAssign => TokView::PlusAssign,
        AssignOp::MinusAssign => TokView::MinusAssign,
        AssignOp::StarAssign => TokView::StarAssign,
        AssignOp::SlashAssign => TokView::SlashAssign,
        AssignOp::ModAssign => TokView::ModAssign,
    }
}

/// The parameters `names` written as tokens, with commas between them.
pub open spec fn written_names(names: Seq<Seq<char>>) -> Seq<TokView>
    decreases names.len(),
{
    if names.len() == 0 {
        Seq::empty()
    } else if names.len() == 1 {
        seq![TokView::Identifier(names[0])]
    } else {
        seq![TokView::Identifier(names[0]), TokView::Comma] + written_names(names.drop_first())
    }
}

/// The statement `s` written as tokens.
pub open spec fn written_stmt(s: StmtView) -> Seq<TokView>
    decreases s, 0nat,
{
    match s {
        StmtView::If(c, then, other) => seq![TokView::If] + written(c) + written_braces(then)
            + written_finish(other),
        StmtView::While(c, b) => seq![TokView::While] + written(c) + written_braces(b)
            + seq![TokView::End],
        StmtView::For(v, e, b) => seq![TokView::For, TokView::Identifier(v)] + written(e)
            + written_braces(b) + seq![TokView::End],
        StmtView::Assign(name, op, e) => seq![TokView::Identifier(name), assign_token(op)]
            + written(e),
        StmtView::Func(name, names, b) => seq![TokView::Fn] + written_declaration(
            name,
            names,
            b,
        ),
        StmtView::Sub(name, names, b) => seq![TokView::Sub] + written_declaration(name, names, b),
        StmtView::Return(e) => seq![TokView::Return] + written(e),
        StmtView::Break => seq![TokView::Break],
        StmtView::Continue => seq![TokView::Continue],
        StmtView::AssignIndex(name, i, e) => seq![TokView::Identifier(name), TokView::Colon]
            + written(i) + seq![TokView::Assign] + written(e),
        StmtView::Call(name, args) => seq![TokView::Identifier(name), TokView::LParen]
            + written_list(args) + seq![TokView::RParen],
        StmtView::Empty => Seq::empty(),
    }
}

/// The name, the parameters and the body of a function or subroutine
/// written as tokens.
pub open spec fn written_declaration(
    name: Seq<char>,
    names: Seq<Seq<char>>,
    b: Seq<StmtView>,
) -> Seq<TokView>
    decreases b, 3nat,
{
    seq![TokView::Identifier(name), TokView::LParen] + written_names(names)
        + seq![TokView::RParen] + written_braces(b) + seq![TokView::End]
}

/// The end of a conditional written as tokens: the second block, if there
/// is one, and the `end`.
pub open spec fn written_finish(other: Seq<StmtView>) -> Seq<TokView>
    decreases other, 4nat,
{
    written_else(other) + seq![TokView::End]
}

/// The second block of a conditional written as tokens: nothing where the
/// block holds no statement, and else the keyword and the block in braces.
pub open spec fn written_else(other: Seq<StmtView>) -> Seq<TokView>
    decreases other, 3nat,
{
    if other.len() > 0 {
        seq![TokView::Else] + written_braces(other)
    } else {
        Seq::empty()
    }
}

/// The statements `stmts` written as a block in braces.
pub open spec fn written_braces(stmts: Seq<StmtView>) -> Seq<TokView>
    decreases stmts, 2nat,
{
    seq![TokView::LBrace] + written_block(stmts) + seq![TokView::RBrace]
}

/// The statements `stmts` written as tokens, with line breaks between
/// them.
pub open spec fn written_block(stmts: Seq<StmtView>) -> Seq<TokView>
    decreases stmts, 1nat,
{
    if stmts.len() == 0 {
        Seq::empty()
    } else {
        written_stmt(stmts[0]) + written_tail(stmts.drop_first())
    }
}

/// The statements `stmts` written as tokens, with a line break before each
/// of them.
pub open spec fn written_tail(stmts: Seq<StmtView>) -> Seq<TokView>
    decreases stmts, 0nat,
{
    if stmts.len() == 0 {
        Seq::empty()
    } else {
        seq![TokView::Newline] + written_stmt(stmts[0]) + written_tail(stmts.drop_first())
    }
}

/// Whether the statement `s` is one that the grammar can yield: every block
/// in it holds a statement, but for the second block of a conditional,
/// which holds none where there is no `else`.
pub open spec fn grammatical(s: StmtView) -> bool
    decreases s, 0nat,
{
    match s {
        StmtView::If(_, then, other) => then.len() > 0 && all_grammatical(then)
            && all_grammatical(other),
        StmtView::While(_, b) => b.len() > 0 && all_grammatical(b),
        StmtView::For(_, _, b) => b.len() > 0 && all_grammatical(b),
        StmtView::Func(_, _, b) => b.len() > 0 && all_grammatical(b),
        StmtView::Sub(_, _, b) => b.len() > 0 && all_grammatical(b),
        _ => true,
    }
}

/// Whether all of the statements `stmts` are grammatical.
pub open spec fn all_grammatical(stmts: Seq<StmtView>) -> bool
    decreases stmts, 1nat,
{
    stmts.len() > 0 ==> grammatical(stmts[0]) && all_grammatical(stmts.drop_first())
}

/// Whether a statement may end before `tok`: at a line break, at a closing
/// brace or at the end of the tokens.
pub open spec fn ends_stmt(tok: Option<TokView>) -> bool {
    tok is None || tok == Some(TokView::Newline) || tok == Some(TokView::RBrace)
}

/// Whether a block may end before `tok`: at a closing brace or at the end
/// of the tokens.
pub open spec fn ends_block(tok: Option<TokView>) -> bool {
    tok is None || tok == Some(TokView::RBrace)
}

/// Before what ends a statement, an expression ends too.
proof fn lemma_stmt_end_ends_expr(tok: Option<TokView>)
    requires
        ends_stmt(tok) || tok == Some(TokView::LBrace) || tok == Some(TokView::Assign),
    ensures
        ends_postfix(tok),
        ends_operand(tok, 0),
{
}

/// The grammar reads what is written for the parameters `names`, followed
/// by the closing parenthesis, as these parameters, and adds them to those
/// read before.
proof fn lemma_written_params_rest(
    t: Seq<TokView>,
    pos: int,
    names: Seq<Seq<char>>,
    acc: Seq<Seq<char>>,
)
    requires
        names.len() > 0,
        has(t, pos, written_names(names)),
        at(t, pos + written_names(names).len()) == Some(TokView::RParen),
    ensures
        params_rest(t, pos, acc) == Ok::<(Seq<Seq<char>>, int), Miss>(
            (acc + names, pos + written_names(names).len() + 1),
        ),
    decreases names.len(),
{
    let w = written_names(names);
    if names.len() == 1 {
        lemma_has_token(t, pos, w, 0);
        assert(acc.push(names[0]) =~= acc + names);
    } else {
        let rest = names.drop_first();
        let head = seq![TokView::Identifier(names[0]), TokView::Comma];
        lemma_has_both(t, pos, head, written_names(rest));
        lemma_has_token(t, pos, head, 0);
        lemma_has_token(t, pos, head, 1);
        lemma_written_params_rest(t, pos + 2, rest, acc.push(names[0]));
        assert(acc.push(names[0]) + rest =~= acc + names);
    }
}

/// The grammar reads what is written for the parameters `names`, followed
/// by the closing parenthesis, as these parameters.
proof fn lemma_written_params(t: Seq<TokView>, pos: int, names: Seq<Seq<char>>)
    requires
        0 <= pos,
        has(t, pos, written_names(names)),
        at(t, pos + written_names(names).len()) == Some(TokView::RParen),
    ensures
        params(t, pos) == Ok::<(Seq<Seq<char>>, int), Miss>(
            (names, pos + written_names(names).len() + 1),
        ),
{
    if names.len() == 0 {
        assert(names =~= Seq::<Seq<char>>::empty());
    } else {
        let w = written_names(names);
        if names.len() > 1 {
            let head = seq![TokView::Identifier(names[0]), TokView::Comma];
            lemma_has_both(t, pos, head, written_names(names.drop_first()));
            lemma_has_token(t, pos, head, 0);
        } else {
            lemma_has_token(t, pos, w, 0);
        }
        lemma_written_params_rest(t, pos, names, Seq::empty());
        assert(Seq::<Seq<char>>::empty() + names =~= names);
    }
}

/// The grammar reads what is written for a block in braces as that block.
proof fn lemma_written_braces(t: Seq<TokView>, pos: int, stmts: Seq<StmtView>)
    requires
        stmts.len() > 0,
        all_grammatical(stmts),
        has(t, pos, written_braces(stmts)),
    ensures
        braced(t, pos) == Ok::<(Seq<StmtView>, int), Miss>(
            (stmts, pos + written_braces(stmts).len()),
        ),
        written_braces(stmts).len() == written_block(stmts).len() + 2,
        at(t, pos) == Some(TokView::LBrace),
    decreases stmts, 3nat,
{
    let a = seq![TokView::LBrace];
    let w = written_block(stmts);
    let c = seq![TokView::RBrace];
    lemma_has_both(t, pos, a + w, c);
    lemma_has_both(t, pos, a, w);
    lemma_has_token(t, pos, a, 0);
    lemma_has_token(t, pos + 1 + w.len(), c, 0);
    lemma_written_block(t, pos + 1, stmts);
}

/// The grammar reads what is written for a block in braces, before the
/// `end` of its statement, as the body of that statement.
proof fn lemma_written_body(t: Seq<TokView>, pos: int, stmts: Seq<StmtView>)
    requires
        stmts.len() > 0,
        all_grammatical(stmts),
        has(t, pos, written_braces(stmts)),
        at(t, pos + written_braces(stmts).len()) == Some(TokView::End),
    ensures
        body(t, pos) == Ok::<(Seq<StmtView>, int), Miss>(
            (stmts, pos + written_braces(stmts).len() + 1),
        ),
        at(t, pos) == Some(TokView::LBrace),
    decreases stmts, 4nat,
{
    lemma_written_braces(t, pos, stmts);
}

/// The grammar reads what is written for the grammatical statement `s` as
/// `s`, where the statement may end behind it.
pub proof fn lemma_written_stmt(t: Seq<TokView>, pos: int, s: StmtView)
    requires
        0 <= pos <= t.len(),
        grammatical(s),
        has(t, pos, written_stmt(s)),
        ends_stmt(at(t, pos + written_stmt(s).len())),
    ensures
        stmt(t, pos) == Ok::<(StmtView, int), Miss>((s, pos + written_stmt(s).len())),
    decreases s, 6nat,
{
    match s {
        StmtView::If(_, _, _) => {
            lemma_written_if(t, pos, s);
        },
        StmtView::While(_, _) => {
            lemma_written_while(t, pos, s);
        },
        StmtView::For(_, _, _) => {
            lemma_written_for(t, pos, s);
        },
        StmtView::Assign(_, _, _) => {
            lemma_written_assign(t, pos, s);
        },
        StmtView::Func(_, _, _) => {
            lemma_written_func(t, pos, s);
        },
        StmtView::Sub(_, _, _) => {
            lemma_written_sub(t, pos, s);
        },
        StmtView::Return(_) => {
            lemma_written_return(t, pos, s);
        },
        StmtView::Break => {
            lemma_has_token(t, pos, written_stmt(s), 0);
        },
        StmtView::Continue => {
            lemma_has_token(t, pos, written_stmt(s), 0);
        },
        StmtView::AssignIndex(_, _, _) => {
            lemma_written_assign_index(t, pos, s);
        },
        StmtView::Call(_, _) => {
            lemma_written_call_stmt(t, pos, s);
        },
        StmtView::Empty => {},
    }
}

/// The grammar reads what is written for the end of a conditional as the
/// end of that conditional.
proof fn lemma_written_finish(
    t: Seq<TokView>,
    pos: int,
    c: ExprView,
    then: Seq<StmtView>,
    other: Seq<StmtView>,
)
    requires
        all_grammatical(other),
        has(t, pos, written_finish(other)),
    ensures
        conditional_rest(t, pos, c, then) == Ok::<(StmtView, int), Miss>(
            (StmtView::If(c, then, other), pos + written_finish(other).len()),
        ),
    decreases other, 5nat,
{
    let wo = written_else(other);
    let e = seq![TokView::End];
    lemma_has_both(t, pos, wo, e);
    lemma_has_token(t, pos + wo.len(), e, 0);
    if other.len() > 0 {
        let l = seq![TokView::Else];
        lemma_has_both(t, pos, l, written_braces(other));
        lemma_has_token(t, pos, l, 0);
        lemma_written_braces(t, pos + 1, other);
    } else {
        assert(other =~= Seq::<StmtView>::empty());
    }
}

/// The grammar reads what is written for a conditional as that
/// conditional.
proof fn lemma_written_if(t: Seq<TokView>, pos: int, s: StmtView)
    requires
        s is If,
        grammatical(s),
        has(t, pos, written_stmt(s)),
    ensures
        stmt(t, pos) == Ok::<(StmtView, int), Miss>((s, pos + written_stmt(s).len())),
    decreases s, 5nat,
{
    match s {
        StmtView::If(c, then, other) => {
            let a = seq![TokView::If];
            let wc = written(c);
            let wt = written_braces(then);
            let wf = written_finish(other);
            lemma_has_both(t, pos, a + wc + wt, wf);
            lemma_has_both(t, pos, a + wc, wt);
            lemma_has_both(t, pos, a, wc);
            lemma_has_token(t, pos, a, 0);
            let p1 = pos + 1 + wc.len();
            let p2 = p1 + wt.len();
            lemma_written_braces(t, p1, then);
            lemma_stmt_end_ends_expr(at(t, p1));
            lemma_written_operand(t, pos + 1, c, 0);
            lemma_written_opens(c);
            lemma_written_finish(t, p2, c, then, other);
        },
        _ => {},
    }
}

/// The grammar reads what is written for a loop as that loop.
proof fn lemma_written_while(t: Seq<TokView>, pos: int, s: StmtView)
    requires
        s is While,
        grammatical(s),
        has(t, pos, written_stmt(s)),
        ends_stmt(at(t, pos + written_stmt(s).len())),
    ensures
        stmt(t, pos) == Ok::<(StmtView, int), Miss>((s, pos + written_stmt(s).len())),
    decreases s, 5nat,
{
    let end = pos + written_stmt(s).len();
    lemma_stmt_end_ends_expr(at(t, end));
    match s {
        StmtView::While(c, b) => {
            let a = seq![TokView::While];
            let wc = written(c);
            let wb = written_braces(b);
            let e = seq![TokView::End];
            lemma_has_both(t, pos, a + wc + wb, e);
            lemma_has_both(t, pos, a + wc, wb);
            lemma_has_both(t, pos, a, wc);
            lemma_has_token(t, pos, a, 0);
            let p1 = pos + 1 + wc.len();
            lemma_has_token(t, p1 + wb.len(), e, 0);
            lemma_written_body(t, p1, b);
            lemma_stmt_end_ends_expr(at(t, p1));
            lemma_written_operand(t, pos + 1, c, 0);
            lemma_written_opens(c);
        },
        _ => {},
    }
}

/// The grammar reads what is written for a loop over a list as that
/// loop.
proof fn lemma_written_for(t: Seq<TokView>, pos: int, s: StmtView)
    requires
        s is For,
        grammatical(s),
        has(t, pos, written_stmt(s)),
        ends_stmt(at(t, pos + written_stmt(s).len())),
    ensures
        stmt(t, pos) == Ok::<(StmtView, int), Miss>((s, pos + written_stmt(s).len())),
    decreases s, 5nat,
{
    let end = pos + written_stmt(s).len();
    lemma_stmt_end_ends_expr(at(t, end));
    match s {
        StmtView::For(v, list, b) => {
            let a = seq![TokView::For, TokView::Identifier(v)];
            let wl = written(list);
            let wb = written_braces(b);
            let e = seq![TokView::End];
            lemma_has_both(t, pos, a + wl + wb, e);
            lemma_has_both(t, pos, a + wl, wb);
            lemma_has_both(t, pos, a, wl);
            lemma_has_token(t, pos, a, 0);
            lemma_has_token(t, pos, a, 1);
            let p1 = pos + 2 + wl.len();
            lemma_has_token(t, p1 + wb.len(), e, 0);
            lemma_written_body(t, p1, b);
            lemma_stmt_end_ends_expr(at(t, p1));
            lemma_written_operand(t, pos + 2, list, 0);
            lemma_written_opens(list);
        },
        _ => {},
    }
}

/// The grammar reads what is written for an assignment as that
/// assignment.
proof fn lemma_written_assign(t: Seq<TokView>, pos: int, s: StmtView)
    requires
        s is Assign,
        grammatical(s),
        has(t, pos, written_stmt(s)),
        ends_stmt(at(t, pos + written_stmt(s).len())),
    ensures
        stmt(t, pos) == Ok::<(StmtView, int), Miss>((s, pos + written_stmt(s).len())),
    decreases s, 5nat,
{
    let end = pos + written_stmt(s).len();
    lemma_stmt_end_ends_expr(at(t, end));
    match s {
        StmtView::Assign(name, op, value) => {
            let a = seq![TokView::Identifier(name), assign_token(op)];
            lemma_has_both(t, pos, a, written(value));
            lemma_has_token(t, pos, a, 0);
            lemma_has_token(t, pos, a, 1);
            lemma_written_operand(t, pos + 2, value, 0);
            assert(assign_op(at(t, pos + 1)) == Some(op));
            assert(operation(t, pos + 1, name) == Ok::<(StmtView, int), Miss>((s, end)));
        },
        _ => {},
    }
}

/// The grammar reads what is written for the name, the parameters and the
/// body of a function or subroutine as these.
proof fn lemma_written_declaration(
    t: Seq<TokView>,
    pos: int,
    name: Seq<char>,
    names: Seq<Seq<char>>,
    b: Seq<StmtView>,
)
    requires
        b.len() > 0,
        all_grammatical(b),
        has(t, pos, written_declaration(name, names, b)),
    ensures
        declaration(t, pos) == Ok::<((Seq<char>, Seq<Seq<char>>, Seq<StmtView>), int), Miss>(
            ((name, names, b), pos + written_declaration(name, names, b).len()),
        ),
    decreases b, 5nat,
{
    let a = seq![TokView::Identifier(name), TokView::LParen];
    let wn = written_names(names);
    let r = seq![TokView::RParen];
    let wb = written_braces(b);
    let e = seq![TokView::End];
    lemma_has_both(t, pos, a + wn + r + wb, e);
    lemma_has_both(t, pos, a + wn + r, wb);
    lemma_has_both(t, pos, a + wn, r);
    lemma_has_both(t, pos, a, wn);
    lemma_has_token(t, pos, a, 0);
    lemma_has_token(t, pos, a, 1);
    let p1 = pos + 2 + wn.len();
    lemma_has_token(t, p1, r, 0);
    lemma_has_token(t, p1 + 1 + wb.len(), e, 0);
    lemma_written_params(t, pos + 2, names);
    lemma_written_body(t, p1 + 1, b);
}

/// The grammar reads what is written for a function as that function.
proof fn lemma_written_func(t: Seq<TokView>, pos: int, s: StmtView)
    requires
        s is Func,
        grammatical(s),
        has(t, pos, written_stmt(s)),
    ensures
        stmt(t, pos) == Ok::<(StmtView, int), Miss>((s, pos + written_stmt(s).len())),
    decreases s, 5nat,
{
    match s {
        StmtView::Func(name, names, b) => {
            let k = seq![TokView::Fn];
            lemma_has_both(t, pos, k, written_declaration(name, names, b));
            lemma_has_token(t, pos, k, 0);
            lemma_written_declaration(t, pos + 1, name, names, b);
        },
        _ => {},
    }
}

/// The grammar reads what is written for a subroutine as that
/// subroutine.
proof fn lemma_written_sub(t: Seq<TokView>, pos: int, s: StmtView)
    requires
        s is Sub,
        grammatical(s),
        has(t, pos, written_stmt(s)),
    ensures
        stmt(t, pos) == Ok::<(StmtView, int), Miss>((s, pos + written_stmt(s).len())),
    decreases s, 5nat,
{
    match s {
        StmtView::Sub(name, names, b) => {
            let k = seq![TokView::Sub];
            lemma_has_both(t, pos, k, written_declaration(name, names, b));
            lemma_has_token(t, pos, k, 0);
            lemma_written_declaration(t, pos + 1, name, names, b);
        },
        _ => {},
    }
}

/// The grammar reads what is written for a return as that return.
proof fn lemma_written_return(t: Seq<TokView>, pos: int, s: StmtView)
    requires
        s is Return,
        grammatical(s),
        has(t, pos, written_stmt(s)),
        ends_stmt(at(t, pos + written_stmt(s).len())),
    ensures
        stmt(t, pos) == Ok::<(StmtView, int), Miss>((s, pos + written_stmt(s).len())),
    decreases s, 5nat,
{
    let end = pos + written_stmt(s).len();
    lemma_stmt_end_ends_expr(at(t, end));
    match s {
        StmtView::Return(value) => {
            let a = seq![TokView::Return];
            lemma_has_both(t, pos, a, written(value));
            lemma_has_token(t, pos, a, 0);
            lemma_written_operand(t, pos + 1, value, 0);
        },
        _ => {},
    }
}

/// The grammar reads what is written for an assignment to an element as
/// that assignment.
proof fn lemma_written_assign_index(t: Seq<TokView>, pos: int, s: StmtView)
    requires
        s is AssignIndex,
        grammatical(s),
        has(t, pos, written_stmt(s)),
        ends_stmt(at(t, pos + written_stmt(s).len())),
    ensures
        stmt(t, pos) == Ok::<(StmtView, int), Miss>((s, pos + written_stmt(s).len())),
    decreases s, 5nat,
{
    let end = pos + written_stmt(s).len();
    lemma_stmt_end_ends_expr(at(t, end));
    match s {
        StmtView::AssignIndex(name, i, value) => {
            let a = seq![TokView::Identifier(name), TokView::Colon];
            let wi = written(i);
            let q = seq![TokView::Assign];
            let wv = written(value);
            lemma_has_both(t, pos, a + wi + q, wv);
            lemma_has_both(t, pos, a + wi, q);
            lemma_has_both(t, pos, a, wi);
            lemma_has_token(t, pos, a, 0);
            lemma_has_token(t, pos, a, 1);
            let p1 = pos + 2 + wi.len();
            lemma_has_token(t, p1, q, 0);
            lemma_written_primary(t, pos + 2, i);
            lemma_written_operand(t, p1 + 1, value, 0);
            assert(operation(t, pos + 1, name) == Ok::<(StmtView, int), Miss>((s, end)));
        },
        _ => {},
    }
}

/// The grammar reads what is written for a call statement as that
/// statement.
proof fn lemma_written_call_stmt(t: Seq<TokView>, pos: int, s: StmtView)
    requires
        s is Call,
        grammatical(s),
        has(t, pos, written_stmt(s)),
        ends_stmt(at(t, pos + written_stmt(s).len())),
    ensures
        stmt(t, pos) == Ok::<(StmtView, int), Miss>((s, pos + written_stmt(s).len())),
    decreases s, 5nat,
{
    let end = pos + written_stmt(s).len();
    lemma_stmt_end_ends_expr(at(t, end));
    match s {
        StmtView::Call(name, args) => {
            let a = seq![TokView::Identifier(name), TokView::LParen];
            let wa = written_list(args);
            let c = seq![TokView::RParen];
            lemma_has_both(t, pos, a + wa, c);
            lemma_has_both(t, pos, a, wa);
            lemma_has_token(t, pos, a, 0);
            lemma_has_token(t, pos, a, 1);
            lemma_has_token(t, pos + 2 + wa.len(), c, 0);
            lemma_written_items(t, pos + 2, args, Close::Paren);
            assert(operation(t, pos + 1, name) == Ok::<(StmtView, int), Miss>((s, end)));
        },
        _ => {},
    }
}

/// The grammar reads what is written for the grammatical statements
/// `stmts`, which are not none, as these statements, where a block may end
/// behind them.
pub proof fn lemma_written_block(t: Seq<TokView>, pos: int, stmts: Seq<StmtView>)
    requires
        0 <= pos <= t.len(),
        stmts.len() > 0,
        all_grammatical(stmts),
        has(t, pos, written_block(stmts)),
        ends_block(at(t, pos + written_block(stmts).len())),
    ensures
        block(t, pos) == Ok::<(Seq<StmtView>, int), Miss>(
            (stmts, pos + written_block(stmts).len()),
        ),
    decreases stmts, 2nat,
{
    let first = stmts[0];
    let rest = stmts.drop_first();
    let wf = written_stmt(first);
    let wr = written_tail(rest);
    lemma_has_both(t, pos, wf, wr);
    lemma_has_bounds(t, pos, wf);
    lemma_tail_starts(t, pos + wf.len(), rest);
    lemma_written_stmt(t, pos, first);
    lemma_written_tail(t, pos + wf.len(), rest, seq![first]);
    assert(seq![first] + rest =~= stmts);
}

/// A sequence of tokens that stands in `t` lies within `t`.
proof fn lemma_has_bounds(t: Seq<TokView>, pos: int, part: Seq<TokView>)
    requires
        has(t, pos, part),
    ensures
        0 <= pos,
        pos + part.len() <= t.len(),
{
    reveal(has);
}

/// Where what is written for statements with a line break before each
/// stands before the end of a block, a statement may end before it.
proof fn lemma_tail_starts(t: Seq<TokView>, pos: int, stmts: Seq<StmtView>)
    requires
        has(t, pos, written_tail(stmts)),
        ends_block(at(t, pos + written_tail(stmts).len())),
    ensures
        ends_stmt(at(t, pos)),
        stmts.len() > 0 ==> at(t, pos) == Some(TokView::Newline),
        stmts.len() == 0 ==> written_tail(stmts).len() == 0,
{
    if stmts.len() > 0 {
        let w = written_tail(stmts);
        assert(w[0] == TokView::Newline);
        lemma_has_token(t, pos, w, 0);
    }
}

/// The grammar reads what is written for the grammatical statements
/// `stmts` with a line break before each as these statements, where a block
/// may end behind them, and adds them to those read before.
proof fn lemma_written_tail(t: Seq<TokView>, pos: int, stmts: Seq<StmtView>, acc: Seq<StmtView>)
    requires
        0 <= pos <= t.len(),
        all_grammatical(stmts),
        has(t, pos, written_tail(stmts)),
        ends_block(at(t, pos + written_tail(stmts).len())),
    ensures
        block_rest(t, pos, acc) == Ok::<(Seq<StmtView>, int), Miss>(
            (acc + stmts, pos + written_tail(stmts).len()),
        ),
    decreases stmts, 1nat,
{
    lemma_tail_starts(t, pos, stmts);
    if stmts.len() == 0 {
        assert(acc + stmts =~= acc);
    } else {
        let first = stmts[0];
        let rest = stmts.drop_first();
        let n = seq![TokView::Newline];
        let wf = written_stmt(first);
        let wr = written_tail(rest);
        lemma_has_both(t, pos, n + wf, wr);
        lemma_has_both(t, pos, n, wf);
        lemma_has_bounds(t, pos + 1, wf);
        lemma_tail_starts(t, pos + 1 + wf.len(), rest);
        lemma_written_stmt(t, pos + 1, first);
        lemma_written_tail(t, pos + 1 + wf.len(), rest, acc.push(first));
        assert(acc.push(first) + rest =~= acc + stmts);
    }
}

/// Grammatical statements with one more grammatical statement behind them
/// are grammatical.
proof fn lemma_grammatical_push(stmts: Seq<StmtView>, s: StmtView)
    requires
        all_grammatical(stmts),
        grammatical(s),
    ensures
        all_grammatical(stmts.push(s)),
    decreases stmts.len(),
{
    let all = stmts.push(s);
    if stmts.len() == 0 {
        assert(all.drop_first() =~= Seq::<StmtView>::empty());
        assert(all_grammatical(all.drop_first()));
    } else {
        assert(all.drop_first() =~= stmts.drop_first().push(s));
        lemma_grammatical_push(stmts.drop_first(), s);
    }
}

/// The statement that the grammar reads is grammatical.
pub proof fn lemma_stmt_is_grammatical(t: Seq<TokView>, pos: int)
    ensures
        stmt(t, pos) matches Ok((s, _)) ==> grammatical(s),
    decreases t.len() - pos, 7nat,
{
    match at(t, pos) {
        Some(TokView::If) => {
            if let Ok((cond, next)) = binary(t, pos + 1, 0) {
                if ahead(t, pos, next) {
                    lemma_braced_is_grammatical(t, next);
                    if let Ok((then, after)) = braced(t, next) {
                        if ahead(t, pos, after) {
                            lemma_conditional_is_grammatical(t, after, cond, then);
                        }
                    }
                }
            }
        },
        Some(TokView::While) => {
            if let Ok((cond, next)) = binary(t, pos + 1, 0) {
                if ahead(t, pos, next) {
                    lemma_braced_is_grammatical(t, next);
                }
            }
        },
        Some(TokView::For) => {
            if let Ok((list, next)) = binary(t, pos + 2, 0) {
                if ahead(t, pos, next) {
                    lemma_braced_is_grammatical(t, next);
                }
            }
        },
        Some(TokView::Fn) => {
            lemma_declaration_is_grammatical(t, pos + 1);
        },
        Some(TokView::Sub) => {
            lemma_declaration_is_grammatical(t, pos + 1);
        },
        _ => {},
    }
}

/// The body of the function or subroutine that the grammar reads is
/// grammatical and not empty.
proof fn lemma_declaration_is_grammatical(t: Seq<TokView>, pos: int)
    ensures
        declaration(t, pos) matches Ok(((_, _, stmts), _)) ==> stmts.len() > 0 && all_grammatical(
            stmts,
        ),
    decreases t.len() - pos, 6nat,
{
    if let Ok(open) = expect(t, pos + 1, TokView::LParen, Expected::LParen) {
        if let Ok((names, next)) = params(t, open) {
            if ahead(t, pos, next) {
                lemma_braced_is_grammatical(t, next);
            }
        }
    }
}

/// The conditional that the grammar reads behind a grammatical first block
/// is grammatical.
proof fn lemma_conditional_is_grammatical(
    t: Seq<TokView>,
    pos: int,
    cond: ExprView,
    then: Seq<StmtView>,
)
    requires
        then.len() > 0,
        all_grammatical(then),
    ensures
        conditional_rest(t, pos, cond, then) matches Ok((s, _)) ==> grammatical(s),
    decreases t.len() - pos, 5nat,
{
    if at(t, pos) == Some(TokView::Else) {
        lemma_braced_is_grammatical(t, pos + 1);
    } else {
        assert(all_grammatical(Seq::<StmtView>::empty()));
    }
}

/// The block in braces that the grammar reads is grammatical and not
/// empty.
proof fn lemma_braced_is_grammatical(t: Seq<TokView>, pos: int)
    ensures
        braced(t, pos) matches Ok((stmts, _)) ==> stmts.len() > 0 && all_grammatical(stmts),
        body(t, pos) matches Ok((stmts, _)) ==> stmts.len() > 0 && all_grammatical(stmts),
    decreases t.len() - pos, 4nat,
{
    if at(t, pos) == Some(TokView::LBrace) {
        lemma_block_is_grammatical(t, pos + 1);
    }
}

/// The statements that the grammar reads are grammatical and not none.
pub proof fn lemma_block_is_grammatical(t: Seq<TokView>, pos: int)
    ensures
        block(t, pos) matches Ok((stmts, _)) ==> stmts.len() > 0 && all_grammatical(stmts),
    decreases t.len() - pos, 9nat,
{
    lemma_stmt_is_grammatical(t, pos);
    if let Ok((first, next)) = stmt(t, pos) {
        if pos <= next <= t.len() {
            lemma_grammatical_push(Seq::empty(), first);
            assert(Seq::<StmtView>::empty().push(first) =~= seq![first]);
            lemma_block_rest_is_grammatical(t, next, seq![first]);
        }
    }
}

/// The statements that the grammar reads behind grammatical statements
/// are grammatical together with these.
proof fn lemma_block_rest_is_grammatical(t: Seq<TokView>, pos: int, acc: Seq<StmtView>)
    requires
        acc.len() > 0,
        all_grammatical(acc),
    ensures
        block_rest(t, pos, acc) matches Ok((stmts, _)) ==> stmts.len() > 0 && all_grammatical(
            stmts,
        ),
    decreases t.len() - pos, 8nat,
{
    if at(t, pos) == Some(TokView::Newline) {
        lemma_stmt_is_grammatical(t, pos + 1);
        if let Ok((s, next)) = stmt(t, pos + 1) {
            if ahead(t, pos, next) {
                lemma_grammatical_push(acc, s);
                lemma_block_rest_is_grammatical(t, next, acc.push(s));
            }
        }
    }
}

/// The grammar yields grammatical programs only: together with
/// `law_written_program_is_read_back`, the programs that the grammar can
/// yield are the grammatical ones, no more and no fewer.
pub proof fn law_read_programs_are_grammatical(t: Seq<TokView>)
    ensures
        program(t) matches Ok(stmts) ==> stmts.len() > 0 && all_grammatical(stmts),
{
    lemma_block_is_grammatical(t, 0);
}

/// Every program that the grammar can yield can be written down and is read
/// back: the tokens `written_block(stmts)` are read by the grammar as the
/// program `stmts`.
pub proof fn law_written_program_is_read_back(stmts: Seq<StmtView>)
    requires
        stmts.len() > 0,
        all_grammatical(stmts),
    ensures
        program(written_block(stmts)) == Ok::<Seq<StmtView>, Failure>(stmts),
{
    lemma_has_itself(written_block(stmts));
    lemma_written_block(written_block(stmts), 0, stmts);
}

} // verus!
