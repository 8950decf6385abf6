//! The syntax tree shared by the parser and the code generator, together with
//! the mathematical view of each node that the contracts speak of.

use vstd::prelude::*;

verus! {

/// Binary operators of the source language.
#[derive(Debug, Clone, Copy, PartialEq, Eq, Structural)]
pub enum BinOp {
    Add,
    Sub,
    Mul,
    Div,
    Mod,
    Less,
    LessEq,
    Greater,
    GreaterEq,
    Eq,
    NotEq,
    And,
    Or,
}

/// Prefix operators of the source language.
#[derive(Debug, Clone, Copy, PartialEq, Eq, Structural)]
pub enum UnaryOp {
    Neg,
    Not,
}

/// Assignment operators: plain and compound.
#[derive(Debug, Clone, Copy, PartialEq, Eq, Structural)]
pub enum AssignOp {
    Assign,
    PlusAssign,
    MinusAssign,
    StarAssign,
    SlashAssign,
    ModAssign,
}

/// An expression. A numeric literal keeps the decimal digits it was written
/// with.
#[derive(Debug, PartialEq)]
pub enum Expr {
    Number(String),
    Boolean(bool),
    String(String),
    Variable(String),
    BinOp(Box<Expr>, BinOp, Box<Expr>),
    UnaryOp(UnaryOp, Box<Expr>),
    List(Vec<Box<Expr>>),
    Call(Box<Expr>, Vec<Box<Expr>>),
    Index(Box<Expr>, Box<Expr>),
}

/// A statement.
#[derive(Debug, PartialEq)]
pub enum Stmt {
    If(Box<Expr>, Vec<Box<Stmt>>, Vec<Box<Stmt>>),
    While(Box<Expr>, Vec<Box<Stmt>>),
    For(String, Box<Expr>, Vec<Box<Stmt>>),
    Assign(String, AssignOp, Box<Expr>),
    Func(String, Vec<String>, Vec<Box<Stmt>>),
    Sub(String, Vec<String>, Vec<Box<Stmt>>),
    Return(Box<Expr>),
    Break,
    Continue,
    AssignIndex(String, Box<Expr>, Box<Expr>),
    Call(String, Vec<Box<Expr>>),
    Empty,
}

/// The mathematical value of an [`Expr`]: text as character sequences,
/// children as sequences.
pub ghost enum ExprView {
    Number(Seq<char>),
    Boolean(bool),
    String(Seq<char>),
    Variable(Seq<char>),
    BinOp(Box<ExprView>, BinOp, Box<ExprView>),
    UnaryOp(UnaryOp, Box<ExprView>),
    List(Seq<ExprView>),
    Call(Box<ExprView>, Seq<ExprView>),
    Index(Box<ExprView>, Box<ExprView>),
}

/// The mathematical value of a [`Stmt`].
pub ghost enum StmtView {
    If(ExprView, Seq<StmtView>, Seq<StmtView>),
    While(ExprView, Seq<StmtView>),
    For(Seq<char>, ExprView, Seq<StmtView>),
    Assign(Seq<char>, AssignOp, ExprView),
    Func(Seq<char>, Seq<Seq<char>>, Seq<StmtView>),
    Sub(Seq<char>, Seq<Seq<char>>, Seq<StmtView>),
    Return(ExprView),
    Break,
    Continue,
    AssignIndex(Seq<char>, ExprView, ExprView),
    Call(Seq<char>, Seq<ExprView>),
    Empty,
}

/// The view of an expression tree.
pub open spec fn expr_view(e: Expr) -> ExprView
    decreases e,
{
    match e {
        Expr::Number(digits) => ExprView::Number(digits@),
        Expr::Boolean(b) => ExprView::Boolean(b),
        Expr::String(s) => ExprView::String(s@),
        Expr::Variable(name) => ExprView::Variable(name@),
        Expr::BinOp(l, op, r) => ExprView::BinOp(Box::new(expr_view(*l)), op, Box::new(expr_view(*r))),
        Expr::UnaryOp(op, e) => ExprView::UnaryOp(op, Box::new(expr_view(*e))),
        Expr::List(items) => ExprView::List(exprs_view(items@)),
        Expr::Call(f, args) => ExprView::Call(Box::new(expr_view(*f)), exprs_view(args@)),
        Expr::Index(e, i) => ExprView::Index(Box::new(expr_view(*e)), Box::new(expr_view(*i))),
    }
}

/// The views of a sequence of expression trees, in order.
pub open spec fn exprs_view(items: Seq<Box<Expr>>) -> Seq<ExprView>
    decreases items,
{
    if items.len() == 0 {
        Seq::empty()
    } else {
        exprs_view(items.drop_last()).push(expr_view(*items.last()))
    }
}

/// The view of a statement tree.
pub open spec fn stmt_view(s: Stmt) -> StmtView
    decreases s,
{
    match s {
        Stmt::If(c, t, f) => StmtView::If(expr_view(*c), stmts_view(t@), stmts_view(f@)),
        Stmt::While(c, b) => StmtView::While(expr_view(*c), stmts_view(b@)),
        Stmt::For(v, e, b) => StmtView::For(v@, expr_view(*e), stmts_view(b@)),
        Stmt::Assign(v, op, e) => StmtView::Assign(v@, op, expr_view(*e)),
        Stmt::Func(name, params, b) => StmtView::Func(name@, names_view(params@), stmts_view(b@)),
        Stmt::Sub(name, params, b) => StmtView::Sub(name@, names_view(params@), stmts_view(b@)),
        Stmt::Return(e) => StmtView::Return(expr_view(*e)),
        Stmt::Break => StmtView::Break,
        Stmt::Continue => StmtView::Continue,
        Stmt::AssignIndex(v, i, e) => StmtView::AssignIndex(v@, expr_view(*i), expr_view(*e)),
        Stmt::Call(name, args) => StmtView::Call(name@, exprs_view(args@)),
        Stmt::Empty => StmtView::Empty,
    }
}

/// The views of a sequence of statement trees, in order.
pub open spec fn stmts_view(items: Seq<Box<Stmt>>) -> Seq<StmtView>
    decreases items,
{
    if items.len() == 0 {
        Seq::empty()
    } else {
        stmts_view(items.drop_last()).push(stmt_view(*items.last()))
    }
}

/// The character sequences of a list of names, in order.
pub open spec fn names_view(names: Seq<String>) -> Seq<Seq<char>> {
    Seq::new(names.len(), |i: int| names[i]@)
}

/// `exprs_view` works element by element.
pub proof fn lemma_exprs_view(items: Seq<Box<Expr>>)
    ensures
        exprs_view(items).len() == items.len(),
        forall|i: int| 0 <= i < items.len() ==> exprs_view(items)[i] == expr_view(*#[trigger] items[i]),
    decreases items.len(),
{
    if items.len() > 0 {
        let front = items.drop_last();
        lemma_exprs_view(front);
        assert forall|i: int| 0 <= i < items.len() implies exprs_view(items)[i] == expr_view(
            *#[trigger] items[i],
        ) by {
            if i < front.len() {
                assert(front[i] == items[i]);
            }
        }
    }
}

/// `stmts_view` works element by element.
pub proof fn lemma_stmts_view(items: Seq<Box<Stmt>>)
    ensures
        stmts_view(items).len() == items.len(),
        forall|i: int| 0 <= i < items.len() ==> stmts_view(items)[i] == stmt_view(*#[trigger] items[i]),
    decreases items.len(),
{
    if items.len() > 0 {
        let front = items.drop_last();
        lemma_stmts_view(front);
        assert forall|i: int| 0 <= i < items.len() implies stmts_view(items)[i] == stmt_view(
            *#[trigger] items[i],
        ) by {
            if i < front.len() {
                assert(front[i] == items[i]);
            }
        }
    }
}

impl View for Expr {
    type V = ExprView;

    open spec fn view(&self) -> ExprView {
        expr_view(*self)
    }
}

impl View for Stmt {
    type V = StmtView;

    open spec fn view(&self) -> StmtView {
        stmt_view(*self)
    }
}

} // verus!
