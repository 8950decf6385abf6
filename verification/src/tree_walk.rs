//! The code generator: a walk over the syntax tree that emits C++ text.
//!
//! What is emitted is defined by the spec functions `expr_text`, `stmt_text`
//! and `block_text` over the views of the tree; the executable visitors are
//! proved to produce exactly that text. Whether an assignment declares its
//! variable or mutates it depends on the names declared so far, which travel
//! through the walk as a [`Scope`].

use crate::ast::{
    expr_view, exprs_view, lemma_exprs_view, lemma_stmts_view, names_view, stmt_view, stmts_view,
    AssignOp, BinOp, Expr, ExprView, Stmt, StmtView, UnaryOp,
};
use crate::text::{
    chars_of, decimal, is_digit, is_numeral, lemma_decimal_of_value, lemma_leading_zero,
    numeral_value, push_chars, push_decimal,
};
use vstd::prelude::*;
use vstd::string::*;

verus! {

/// The C++ spelling of a binary operator.
pub open spec fn bin_op_text(op: BinOp) -> Seq<char> {
    match op {
        BinOp::Add => "+"@,
        BinOp::Sub => "-"@,
        BinOp::Mul => "*"@,
        BinOp::Div => "/"@,
        BinOp::Mod => "%"@,
        BinOp::Less => "<"@,
        BinOp::LessEq => "<="@,
        BinOp::Greater => ">"@,
        BinOp::GreaterEq => ">="@,
        BinOp::Eq => "=="@,
        BinOp::NotEq => "!="@,
        BinOp::And => "&&"@,
        BinOp::Or => "||"@,
    }
}

/// The C++ spelling of a prefix operator.
pub open spec fn unary_op_text(op: UnaryOp) -> Seq<char> {
    match op {
        UnaryOp::Neg => "-"@,
        UnaryOp::Not => "!"@,
    }
}

/// The C++ spelling of an assignment operator.
pub open spec fn assign_op_text(op: AssignOp) -> Seq<char> {
    match op {
        AssignOp::Assign => "="@,
        AssignOp::PlusAssign => "+="@,
        AssignOp::MinusAssign => "-="@,
        AssignOp::StarAssign => "*="@,
        AssignOp::SlashAssign => "/="@,
        AssignOp::ModAssign => "%="@,
    }
}

/// `digits` without its leading zeros; the last character always stays, so
/// that zero is written `0`.
pub open spec fn strip_zeros(digits: Seq<char>) -> Seq<char>
    decreases digits.len(),
{
    if digits.len() > 1 && digits[0] == '0' {
        strip_zeros(digits.drop_first())
    } else {
        digits
    }
}

/// A numeric literal as emitted: its digits without leading zeros, a point
/// and eight fractional zeros.
pub open spec fn numeral_text(digits: Seq<char>) -> Seq<char> {
    strip_zeros(digits) + ".00000000"@
}

/// `text` inside the constructor of the dynamic value type.
pub open spec fn wrapped(text: Seq<char>) -> Seq<char> {
    "AuroraObject("@ + text + ")"@
}

/// The text of a boolean literal.
pub open spec fn bool_text(b: bool) -> Seq<char> {
    if b {
        "true"@
    } else {
        "false"@
    }
}

/// The C++ expression emitted for `e`.
pub open spec fn expr_text(e: ExprView) -> Seq<char>
    decreases e, 0nat,
{
    match e {
        ExprView::Number(digits) => numeral_text(digits),
        ExprView::Boolean(b) => wrapped(bool_text(b)),
        ExprView::String(s) => "AuroraObject(\""@ + s + "\")"@,
        ExprView::Variable(name) => name,
        ExprView::BinOp(l, op, r) => "("@ + expr_text(*l) + " "@ + bin_op_text(op) + " "@
            + expr_text(*r) + ")"@,
        ExprView::UnaryOp(op, e) => "("@ + unary_op_text(op) + " "@ + expr_text(*e) + ")"@,
        ExprView::List(items) => "AuroraObject({ "@ + items_text(items) + " })"@,
        ExprView::Call(f, args) => expr_text(*f) + call_text(args, true),
        ExprView::Index(e, i) => expr_text(*e) + "["@ + expr_text(*i) + "]"@,
    }
}

/// An element of a list or an argument of a call: a numeric literal is
/// wrapped into a dynamic value, anything else is emitted as it is.
pub open spec fn item_text(e: ExprView) -> Seq<char>
    decreases e, 1nat,
{
    match e {
        ExprView::Number(digits) => wrapped(numeral_text(digits)),
        _ => expr_text(e),
    }
}

/// The elements `items`, separated by a comma and a space.
pub open spec fn items_text(items: Seq<ExprView>) -> Seq<char>
    decreases items, 0nat,
{
    if items.len() == 0 {
        Seq::empty()
    } else if items.len() == 1 {
        item_text(items.last())
    } else {
        items_text(items.drop_last()) + ", "@ + item_text(items.last())
    }
}

/// The argument part of a call: the number of arguments, the arguments
/// moved in as an array of dynamic values, and whether a value is wanted.
pub open spec fn call_text(args: Seq<ExprView>, yields: bool) -> Seq<char>
    decreases args, 1nat,
{
    "("@ + decimal(args.len()) + ", std::move((AuroraObject["@ + decimal(args.len()) + "])"@
        + "{"@ + items_text(args) + "}"@ + "), "@ + bool_text(yields) + ")"@
}

/// The names declared after statement `s` has been emitted in `scope`: an
/// assignment declares its variable unless it is declared already, a
/// function or subroutine declares its name, and nothing that is declared
/// inside a block outlives the block.
pub open spec fn stmt_scope(s: StmtView, scope: Seq<Seq<char>>) -> Seq<Seq<char>> {
    match s {
        StmtView::Assign(name, _, _) => if scope.contains(name) {
            scope
        } else {
            scope.push(name)
        },
        StmtView::Func(name, _, _) => scope.push(name),
        StmtView::Sub(name, _, _) => scope.push(name),
        _ => scope,
    }
}

/// The names declared after the statements `stmts` have been emitted in
/// `scope`, one after the other.
pub open spec fn block_scope(stmts: Seq<StmtView>, scope: Seq<Seq<char>>) -> Seq<Seq<char>>
    decreases stmts.len(),
{
    if stmts.len() == 0 {
        scope
    } else {
        stmt_scope(stmts.last(), block_scope(stmts.drop_last(), scope))
    }
}

/// The bindings of the parameters `params` to the slots of the argument
/// array.
pub open spec fn params_text(params: Seq<Seq<char>>) -> Seq<char>
    decreases params.len(),
{
    if params.len() == 0 {
        Seq::empty()
    } else {
        params_text(params.drop_last()) + "auto& "@ + params.last() + " = _FN_ARGS["@ + decimal(
            (params.len() - 1) as nat,
        ) + "];"@
    }
}

/// The head of the capturing callable of a function or subroutine `name`,
/// up to and with the check of the number of arguments.
pub open spec fn closure_head(name: Seq<char>, arity: nat, result: Seq<char>) -> Seq<char> {
    "auto _CAPTURE_"@ + name + " = [&](const AuroraObject& "@ + name
        + ", int _FN_ARG_COUNT, AuroraObject* _FN_ARGS) -> "@ + result + " {"@
        + "if (_FN_ARG_COUNT != "@ + decimal(arity) + ") error(\"incorrect number of args\"); "@
}

/// The trampoline of a function or subroutine `name` and the binding of the
/// name to the dynamic value that pairs the trampoline with the callable.
pub open spec fn closure_tail(
    name: Seq<char>,
    result: Seq<char>,
    forward: Seq<char>,
    wrapper: Seq<char>,
) -> Seq<char> {
    "};"@ + "auto _PTR_WRAP_"@ + name
        + " = [](void* _LAMBDA_PTR, int _FN_ARG_COUNT, AuroraObject* _FN_ARGS, AuroraObject& _SELF) -> "@
        + result + " {"@ + forward + "(*(decltype(_CAPTURE_"@ + name
        + ")*) _LAMBDA_PTR)(_SELF, _FN_ARG_COUNT, _FN_ARGS);"@ + "};"@ + "auto "@ + name
        + " = AuroraObject("@ + wrapper + "(_PTR_WRAP_"@ + name + "), &_CAPTURE_"@ + name + ");"@
}

/// The C++ text emitted for statement `s` when the names in `scope` are
/// declared.
pub open spec fn stmt_text(s: StmtView, scope: Seq<Seq<char>>) -> Seq<char>
    decreases s,
{
    match s {
        StmtView::If(c, t, f) => "if ("@ + expr_text(c) + ") {"@ + block_text(t, scope) + "}"@ + (
        if f.len() > 0 {
            " else {"@ + block_text(f, scope) + "}"@
        } else {
            Seq::empty()
        }),
        StmtView::While(c, b) => "while ("@ + expr_text(c) + ") {"@ + block_text(b, scope) + "}"@,
        StmtView::For(v, e, b) => "for (auto& "@ + v + " : "@ + expr_text(e) + ") {"@ + block_text(
            b,
            scope,
        ) + "}"@,
        StmtView::Assign(name, op, e) => if scope.contains(name) {
            name + " "@ + assign_op_text(op) + " "@ + expr_text(e) + ";"@
        } else {
            "auto "@ + name + " = "@ + expr_text(e) + ";"@
        },
        StmtView::Func(name, params, b) => closure_head(name, params.len(), "AuroraObject"@)
            + params_text(params) + block_text(b, scope + params)
            + "error(\"function must return a value\");"@ + closure_tail(
            name,
            "AuroraObject"@,
            "return "@,
            "AuroraFunc"@,
        ),
        StmtView::Sub(name, params, b) => closure_head(name, params.len(), "void"@) + params_text(
            params,
        ) + block_text(b, scope + params) + closure_tail(name, "void"@, ""@, "AuroraSub"@),
        StmtView::Return(e) => "return "@ + expr_text(e) + ";"@,
        StmtView::Break => "break;"@,
        StmtView::Continue => "continue;"@,
        StmtView::AssignIndex(name, i, e) => name + ".set("@ + item_text(i) + ", "@ + expr_text(e)
            + ");"@,
        StmtView::Call(name, args) => name + call_text(args, false) + ";"@,
        StmtView::Empty => Seq::empty(),
    }
}

/// The C++ text emitted for the statements `stmts`, one after the other,
/// starting with the names in `scope` declared.
pub open spec fn block_text(stmts: Seq<StmtView>, scope: Seq<Seq<char>>) -> Seq<char>
    decreases stmts,
{
    if stmts.len() == 0 {
        Seq::empty()
    } else {
        block_text(stmts.drop_last(), scope) + stmt_text(
            stmts.last(),
            block_scope(stmts.drop_last(), scope),
        )
    }
}

/// The translation unit emitted for a program: the include of the runtime
/// and a `main` that holds the program's statements.
pub open spec fn program_text(stmts: Seq<StmtView>) -> Seq<char> {
    "#include <AuroraRuntime.h>\n"@ + "int main() {"@ + block_text(stmts, Seq::empty()) + "}"@
}

/// The names that count as declared while the generator walks the tree,
/// oldest first. A block remembers the depth at which it was entered and
/// restores it when it closes, so that what it declared is forgotten.
pub struct Scope {
    names: Vec<String>,
}

impl View for Scope {
    type V = Seq<Seq<char>>;

    closed spec fn view(&self) -> Seq<Seq<char>> {
        names_view(self.names@)
    }
}

impl Scope {
    /// A scope in which nothing is declared.
    pub fn new() -> (scope: Scope)
        ensures
            scope@ == Seq::<Seq<char>>::empty(),
    {
        let scope = Scope { names: Vec::new() };
        assert(scope@ =~= Seq::<Seq<char>>::empty());
        scope
    }

    /// Whether `name` is declared.
    pub fn contains(&self, name: &String) -> (found: bool)
        ensures
            found == self@.contains(name@),
    {
        let mut i: usize = 0;
        while i < self.names.len()
            invariant
                i <= self.names.len(),
                forall|j: int| 0 <= j < i ==> self@[j] != name@,
            decreases self.names.len() - i,
        {
            if self.names[i] == *name {
                assert(self@[i as int] == name@);
                return true;
            }
            i += 1;
        }
        false
    }

    /// Declares `name`.
    pub fn declare(&mut self, name: String)
        ensures
            final(self)@ == old(self)@.push(name@),
    {
        self.names.push(name);
        assert(self@ =~= old(self)@.push(name@));
    }

    /// The number of declarations made so far.
    pub fn depth(&self) -> (depth: usize)
        ensures
            depth == self@.len(),
    {
        self.names.len()
    }

    /// Forgets all but the first `depth` declarations; where there are no
    /// more than `depth`, all of them stay.
    pub fn restore(&mut self, depth: usize)
        ensures
            depth <= old(self)@.len() ==> final(self)@ == old(self)@.take(depth as int),
            depth > old(self)@.len() ==> final(self)@ == old(self)@,
    {
        self.names.truncate(depth);
        proof {
            if depth <= old(self)@.len() {
                assert(self@ =~= old(self)@.take(depth as int));
            }
        }
    }
}

/// Emits the C++ spelling of a binary operator.
pub fn bin_op_visitor(op: &BinOp) -> (out: String)
    ensures
        out@ == bin_op_text(*op),
{
    match op {
        BinOp::Add => "+".to_owned(),
        BinOp::Sub => "-".to_owned(),
        BinOp::Mul => "*".to_owned(),
        BinOp::Div => "/".to_owned(),
        BinOp::Mod => "%".to_owned(),
        BinOp::Less => "<".to_owned(),
        BinOp::LessEq => "<=".to_owned(),
        BinOp::Greater => ">".to_owned(),
        BinOp::GreaterEq => ">=".to_owned(),
        BinOp::Eq => "==".to_owned(),
        BinOp::NotEq => "!=".to_owned(),
        BinOp::And => "&&".to_owned(),
        BinOp::Or => "||".to_owned(),
    }
}

/// Emits the C++ spelling of a prefix operator.
pub fn unary_op_visitor(op: &UnaryOp) -> (out: String)
    ensures
        out@ == unary_op_text(*op),
{
    match op {
        UnaryOp::Neg => "-".to_owned(),
        UnaryOp::Not => "!".to_owned(),
    }
}

/// Emits the C++ spelling of an assignment operator.
pub fn assign_op_visitor(op: &AssignOp) -> (out: String)
    ensures
        out@ == assign_op_text(*op),
{
    match op {
        AssignOp::Assign => "=".to_owned(),
        AssignOp::PlusAssign => "+=".to_owned(),
        AssignOp::MinusAssign => "-=".to_owned(),
        AssignOp::StarAssign => "*=".to_owned(),
        AssignOp::SlashAssign => "/=".to_owned(),
        AssignOp::ModAssign => "%=".to_owned(),
    }
}

/// `strip_zeros` keeps the part of `digits` that starts at `from`, when only
/// zeros stand before it and it is the last character or no zero.
proof fn lemma_strip_zeros(digits: Seq<char>, from: int)
    requires
        0 <= from < digits.len(),
        forall|j: int| 0 <= j < from ==> digits[j] == '0',
        from == digits.len() - 1 || digits[from] != '0',
    ensures
        strip_zeros(digits) == digits.subrange(from, digits.len() as int),
    decreases from,
{
    if from == 0 {
        assert(digits.subrange(0, digits.len() as int) =~= digits);
    } else {
        let rest = digits.drop_first();
        assert(forall|j: int| 0 <= j < from - 1 ==> rest[j] == digits[j + 1]);
        lemma_strip_zeros(rest, from - 1);
        assert(rest.subrange(from - 1, rest.len() as int) =~= digits.subrange(
            from,
            digits.len() as int,
        ));
    }
}

/// The digits of a numeric literal without leading zeros.
pub fn stripped_digits(digits: &String) -> (out: String)
    ensures
        out@ == strip_zeros(digits@),
{
    let chars = chars_of(digits.as_str());
    let mut out = String::new();
    if chars.len() == 0 {
        assert(out@ =~= strip_zeros(digits@));
        return out;
    }
    let mut from: usize = 0;
    while from + 1 < chars.len() && chars[from] == '0'
        invariant
            from < chars.len(),
            forall|j: int| 0 <= j < from ==> chars@[j] == '0',
        decreases chars.len() - from,
    {
        from += 1;
    }
    proof {
        lemma_strip_zeros(chars@, from as int);
    }
    push_chars(&mut out, &chars, from, chars.len());
    assert(out@ =~= strip_zeros(digits@));
    out
}

/// Emits a numeric literal with eight fractional digits.
pub fn numeral(digits: &String) -> (out: String)
    ensures
        out@ == numeral_text(digits@),
{
    let mut out = stripped_digits(digits);
    out.append(".00000000");
    out
}

/// Emits `text` inside the constructor of the dynamic value type.
fn wrap(text: &String) -> (out: String)
    ensures
        out@ == wrapped(text@),
{
    let mut out = "AuroraObject(".to_owned();
    out.append(text.as_str());
    out.append(")");
    out
}

/// Emits a boolean literal.
fn bool_visitor(b: bool) -> (out: String)
    ensures
        out@ == bool_text(b),
{
    if b {
        "true".to_owned()
    } else {
        "false".to_owned()
    }
}

/// Emits the C++ expression for `expr`.
pub fn expr_visitor(expr: &Box<Expr>) -> (out: String)
    ensures
        out@ == expr_text(expr_view(**expr)),
    decreases expr, 0nat,
{
    match &**expr {
        Expr::Number(digits) => numeral(digits),
        Expr::Boolean(b) => {
            let inner = bool_visitor(*b);
            wrap(&inner)
        },
        Expr::String(s) => {
            let mut out = "AuroraObject(\"".to_owned();
            out.append(s.as_str());
            out.append("\")");
            out
        },
        Expr::Variable(name) => name.clone(),
        Expr::BinOp(l, op, r) => {
            let left = expr_visitor(l);
            let sign = bin_op_visitor(op);
            let right = expr_visitor(r);
            let mut out = "(".to_owned();
            out.append(left.as_str());
            out.append(" ");
            out.append(sign.as_str());
            out.append(" ");
            out.append(right.as_str());
            out.append(")");
            out
        },
        Expr::UnaryOp(op, e) => {
            let sign = unary_op_visitor(op);
            let inner = expr_visitor(e);
            let mut out = "(".to_owned();
            out.append(sign.as_str());
            out.append(" ");
            out.append(inner.as_str());
            out.append(")");
            out
        },
        Expr::List(items) => {
            let inner = items_visitor(items);
            let mut out = "AuroraObject({ ".to_owned();
            out.append(inner.as_str());
            out.append(" })");
            out
        },
        Expr::Call(f, args) => {
            let mut out = expr_visitor(f);
            let tail = call_visitor(args, true);
            out.append(tail.as_str());
            out
        },
        Expr::Index(e, i) => {
            let mut out = expr_visitor(e);
            let index = expr_visitor(i);
            out.append("[");
            out.append(index.as_str());
            out.append("]");
            out
        },
    }
}

/// Emits an element of a list or an argument of a call.
pub fn item_visitor(expr: &Box<Expr>) -> (out: String)
    ensures
        out@ == item_text(expr_view(**expr)),
    decreases expr, 1nat,
{
    match &**expr {
        Expr::Number(digits) => {
            let inner = numeral(digits);
            wrap(&inner)
        },
        _ => expr_visitor(expr),
    }
}

/// Emits the elements `items`, separated by a comma and a space.
pub fn items_visitor(items: &Vec<Box<Expr>>) -> (out: String)
    ensures
        out@ == items_text(exprs_view(items@)),
    decreases items, 0nat,
{
    let ghost views = exprs_view(items@);
    proof {
        lemma_exprs_view(items@);
    }
    let mut out = String::new();
    let mut i: usize = 0;
    while i < items.len()
        invariant
            i <= items.len(),
            views == exprs_view(items@),
            views.len() == items.len(),
            forall|j: int| 0 <= j < items.len() ==> views[j] == expr_view(*#[trigger] items@[j]),
            out@ == items_text(views.take(i as int)),
        decreases items.len() - i,
    {
        let item = item_visitor(&items[i]);
        assert(views.take(i + 1).drop_last() =~= views.take(i as int));
        assert(views.take(i + 1).last() == expr_view(*items@[i as int]));
        if i == 0 {
            out = item;
        } else {
            out.append(", ");
            out.append(item.as_str());
        }
        i += 1;
    }
    assert(views.take(i as int) =~= views);
    out
}

/// Emits the argument part of a call.
pub fn call_visitor(args: &Vec<Box<Expr>>, yields: bool) -> (out: String)
    ensures
        out@ == call_text(exprs_view(args@), yields),
    decreases args, 1nat,
{
    proof {
        lemma_exprs_view(args@);
    }
    let inner = items_visitor(args);
    let flag = bool_visitor(yields);
    let mut out = "(".to_owned();
    push_decimal(&mut out, args.len());
    out.append(", std::move((AuroraObject[");
    push_decimal(&mut out, args.len());
    out.append("])");
    out.append("{");
    out.append(inner.as_str());
    out.append("}");
    out.append("), ");
    out.append(flag.as_str());
    out.append(")");
    out
}

/// Emitting statements only ever adds declarations: what was declared
/// before stays, in place.
pub proof fn lemma_block_scope_extends(stmts: Seq<StmtView>, scope: Seq<Seq<char>>)
    ensures
        scope.len() <= block_scope(stmts, scope).len(),
        block_scope(stmts, scope).take(scope.len() as int) == scope,
    decreases stmts.len(),
{
    if stmts.len() == 0 {
        assert(scope.take(scope.len() as int) =~= scope);
    } else {
        lemma_block_scope_extends(stmts.drop_last(), scope);
        let before = block_scope(stmts.drop_last(), scope);
        let after = stmt_scope(stmts.last(), before);
        assert(after.take(scope.len() as int) =~= before.take(scope.len() as int));
    }
}

/// Emits the bindings of the parameters to the slots of the argument array
/// and declares each parameter.
fn params_visitor(params: &Vec<String>, scope: &mut Scope) -> (out: String)
    ensures
        out@ == params_text(names_view(params@)),
        final(scope)@ == old(scope)@ + names_view(params@),
{
    let ghost names = names_view(params@);
    let mut out = String::new();
    let mut i: usize = 0;
    assert(names.take(0) =~= Seq::<Seq<char>>::empty());
    assert(scope@ =~= old(scope)@ + names.take(0));
    while i < params.len()
        invariant
            i <= params.len(),
            names == names_view(params@),
            out@ == params_text(names.take(i as int)),
            scope@ == old(scope)@ + names.take(i as int),
        decreases params.len() - i,
    {
        assert(names.take(i + 1).drop_last() =~= names.take(i as int));
        assert(names.take(i + 1).last() == params@[i as int]@);
        scope.declare(params[i].clone());
        out.append("auto& ");
        out.append(params[i].as_str());
        out.append(" = _FN_ARGS[");
        push_decimal(&mut out, i);
        out.append("];");
        assert(scope@ =~= old(scope)@ + names.take(i + 1));
        i += 1;
    }
    assert(names.take(i as int) =~= names);
    out
}

/// Emits the head of the capturing callable of a function or subroutine.
fn closure_head_visitor(name: &String, arity: usize, result: &str) -> (out: String)
    ensures
        out@ == closure_head(name@, arity as nat, result@),
{
    let mut out = "auto _CAPTURE_".to_owned();
    out.append(name.as_str());
    out.append(" = [&](const AuroraObject& ");
    out.append(name.as_str());
    out.append(", int _FN_ARG_COUNT, AuroraObject* _FN_ARGS) -> ");
    out.append(result);
    out.append(" {");
    out.append("if (_FN_ARG_COUNT != ");
    push_decimal(&mut out, arity);
    out.append(") error(\"incorrect number of args\"); ");
    out
}

/// Emits the trampoline of a function or subroutine and the binding of its
/// name.
fn closure_tail_visitor(name: &String, result: &str, forward: &str, wrapper: &str) -> (out: String)
    ensures
        out@ == closure_tail(name@, result@, forward@, wrapper@),
{
    let mut out = "};".to_owned();
    out.append("auto _PTR_WRAP_");
    out.append(name.as_str());
    out.append(
        " = [](void* _LAMBDA_PTR, int _FN_ARG_COUNT, AuroraObject* _FN_ARGS, AuroraObject& _SELF) -> ",
    );
    out.append(result);
    out.append(" {");
    out.append(forward);
    out.append("(*(decltype(_CAPTURE_");
    out.append(name.as_str());
    out.append(")*) _LAMBDA_PTR)(_SELF, _FN_ARG_COUNT, _FN_ARGS);");
    out.append("};");
    out.append("auto ");
    out.append(name.as_str());
    out.append(" = AuroraObject(");
    out.append(wrapper);
    out.append("(_PTR_WRAP_");
    out.append(name.as_str());
    out.append("), &_CAPTURE_");
    out.append(name.as_str());
    out.append(");");
    out
}

/// Emits the C++ text for `stmt`. `scope` holds the names declared so far
/// and is brought up to date: an assignment to a name that is not declared
/// yet declares it, a function or subroutine declares its name, and a block
/// leaves the scope as it found it.
pub fn stmt_visitor(stmt: &Box<Stmt>, scope: &mut Scope) -> (out: String)
    ensures
        out@ == stmt_text(stmt_view(**stmt), old(scope)@),
        final(scope)@ == stmt_scope(stmt_view(**stmt), old(scope)@),
    decreases stmt,
{
    match &**stmt {
        Stmt::If(c, t, f) => {
            let depth = scope.depth();
            let cond = expr_visitor(c);
            let mut out = "if (".to_owned();
            out.append(cond.as_str());
            out.append(") {");
            let then_text = block_visitor(t, scope);
            proof {
                lemma_block_scope_extends(stmts_view(t@), old(scope)@);
            }
            scope.restore(depth);
            out.append(then_text.as_str());
            out.append("}");
            proof {
                lemma_stmts_view(f@);
            }
            if f.len() > 0 {
                let mut rest = " else {".to_owned();
                let else_text = block_visitor(f, scope);
                proof {
                    lemma_block_scope_extends(stmts_view(f@), old(scope)@);
                }
                scope.restore(depth);
                rest.append(else_text.as_str());
                rest.append("}");
                out.append(rest.as_str());
            } else {
                assert(out@ + Seq::<char>::empty() =~= out@);
            }
            out
        },
        Stmt::While(c, b) => {
            let depth = scope.depth();
            let cond = expr_visitor(c);
            let mut out = "while (".to_owned();
            out.append(cond.as_str());
            out.append(") {");
            let body = block_visitor(b, scope);
            proof {
                lemma_block_scope_extends(stmts_view(b@), old(scope)@);
            }
            scope.restore(depth);
            out.append(body.as_str());
            out.append("}");
            out
        },
        Stmt::For(v, e, b) => {
            let depth = scope.depth();
            let items = expr_visitor(e);
            let mut out = "for (auto& ".to_owned();
            out.append(v.as_str());
            out.append(" : ");
            out.append(items.as_str());
            out.append(") {");
            let body = block_visitor(b, scope);
            proof {
                lemma_block_scope_extends(stmts_view(b@), old(scope)@);
            }
            scope.restore(depth);
            out.append(body.as_str());
            out.append("}");
            out
        },
        Stmt::Assign(name, op, e) => {
            let value = expr_visitor(e);
            if scope.contains(name) {
                let sign = assign_op_visitor(op);
                let mut out = name.clone();
                out.append(" ");
                out.append(sign.as_str());
                out.append(" ");
                out.append(value.as_str());
                out.append(";");
                out
            } else {
                let mut out = "auto ".to_owned();
                out.append(name.as_str());
                out.append(" = ");
                out.append(value.as_str());
                out.append(";");
                scope.declare(name.clone());
                out
            }
        },
        Stmt::Func(name, params, b) => {
            let depth = scope.depth();
            let mut out = closure_head_visitor(name, params.len(), "AuroraObject");
            let bindings = params_visitor(params, scope);
            out.append(bindings.as_str());
            let body = block_visitor(b, scope);
            proof {
                lemma_block_scope_extends(
                    stmts_view(b@),
                    old(scope)@ + names_view(params@),
                );
                assert((old(scope)@ + names_view(params@)).take(depth as int) =~= old(scope)@);
            }
            scope.restore(depth);
            scope.declare(name.clone());
            out.append(body.as_str());
            out.append("error(\"function must return a value\");");
            let tail = closure_tail_visitor(name, "AuroraObject", "return ", "AuroraFunc");
            out.append(tail.as_str());
            out
        },
        Stmt::Sub(name, params, b) => {
            let depth = scope.depth();
            let mut out = closure_head_visitor(name, params.len(), "void");
            let bindings = params_visitor(params, scope);
            out.append(bindings.as_str());
            let body = block_visitor(b, scope);
            proof {
                lemma_block_scope_extends(
                    stmts_view(b@),
                    old(scope)@ + names_view(params@),
                );
                assert((old(scope)@ + names_view(params@)).take(depth as int) =~= old(scope)@);
            }
            scope.restore(depth);
            scope.declare(name.clone());
            out.append(body.as_str());
            let tail = closure_tail_visitor(name, "void", "", "AuroraSub");
            out.append(tail.as_str());
            out
        },
        Stmt::Return(e) => {
            let value = expr_visitor(e);
            let mut out = "return ".to_owned();
            out.append(value.as_str());
            out.append(";");
            out
        },
        Stmt::Break => "break;".to_owned(),
        Stmt::Continue => "continue;".to_owned(),
        Stmt::AssignIndex(name, i, e) => {
            let index = item_visitor(i);
            let value = expr_visitor(e);
            let mut out = name.clone();
            out.append(".set(");
            out.append(index.as_str());
            out.append(", ");
            out.append(value.as_str());
            out.append(");");
            out
        },
        Stmt::Call(name, args) => {
            let mut out = name.clone();
            let tail = call_visitor(args, false);
            out.append(tail.as_str());
            out.append(";");
            out
        },
        Stmt::Empty => String::new(),
    }
}

/// Emits the C++ text for the statements `stmts`, one after the other, and
/// brings `scope` up to date with what they declare.
pub fn block_visitor(stmts: &Vec<Box<Stmt>>, scope: &mut Scope) -> (out: String)
    ensures
        out@ == block_text(stmts_view(stmts@), old(scope)@),
        final(scope)@ == block_scope(stmts_view(stmts@), old(scope)@),
    decreases stmts,
{
    let ghost views = stmts_view(stmts@);
    proof {
        lemma_stmts_view(stmts@);
    }
    let mut out = String::new();
    let mut i: usize = 0;
    assert(views.take(0) =~= Seq::<StmtView>::empty());
    while i < stmts.len()
        invariant
            i <= stmts.len(),
            views == stmts_view(stmts@),
            views.len() == stmts.len(),
            forall|j: int| 0 <= j < stmts.len() ==> views[j] == stmt_view(*#[trigger] stmts@[j]),
            out@ == block_text(views.take(i as int), old(scope)@),
            scope@ == block_scope(views.take(i as int), old(scope)@),
        decreases stmts.len() - i,
    {
        assert(views.take(i + 1).drop_last() =~= views.take(i as int));
        assert(views.take(i + 1).last() == stmt_view(*stmts@[i as int]));
        let text = stmt_visitor(&stmts[i], scope);
        out.append(text.as_str());
        i += 1;
    }
    assert(views.take(i as int) =~= views);
    out
}

/// Emits the translation unit for a program: the include of the runtime and
/// a `main` that holds the program's statements, emitted in a scope of
/// their own.
pub fn program_visitor(stmts: &Vec<Box<Stmt>>) -> (out: String)
    ensures
        out@ == program_text(stmts_view(stmts@)),
{
    let mut scope = Scope::new();
    let body = block_visitor(stmts, &mut scope);
    let mut out = "#include <AuroraRuntime.h>\n".to_owned();
    out.append("int main() {");
    out.append(body.as_str());
    out.append("}");
    out
}

/// Without its leading zeros a numeral is still a numeral, has no needless
/// zero in front and denotes the same number.
pub proof fn lemma_strip_zeros_keeps_value(digits: Seq<char>)
    requires
        is_numeral(digits),
    ensures
        is_numeral(strip_zeros(digits)),
        strip_zeros(digits).len() == 1 || strip_zeros(digits)[0] != '0',
        numeral_value(strip_zeros(digits)) == numeral_value(digits),
    decreases digits.len(),
{
    if digits.len() > 1 && digits[0] == '0' {
        let rest = digits.drop_first();
        assert(forall|i: int| 0 <= i < rest.len() ==> rest[i] == digits[i + 1]);
        lemma_strip_zeros_keeps_value(rest);
        lemma_leading_zero(digits);
    }
}

/// Numeric literals are emitted faithfully and in one form. The text of a
/// literal is the same wherever the literal stands: bare as an expression,
/// and inside the constructor of the dynamic value type as an element of a
/// list, an argument of a call or an index of an assignment. It ends with a
/// point and eight zeros. For
/// a literal of digits, what stands before the point is the decimal numeral
/// of the number that the literal denotes, so the point is the only one.
pub proof fn law_numeral_fidelity(digits: Seq<char>)
    ensures
        expr_text(ExprView::Number(digits)) == numeral_text(digits),
        item_text(ExprView::Number(digits)) == wrapped(numeral_text(digits)),
        forall|name: Seq<char>, value: ExprView, scope: Seq<Seq<char>>| #[trigger]
            stmt_text(StmtView::AssignIndex(name, ExprView::Number(digits), value), scope) == name
                + ".set("@ + wrapped(numeral_text(digits)) + ", "@ + expr_text(value) + ");"@,
        ({
            let text = numeral_text(digits);
            let whole = strip_zeros(digits).len() as int;
            &&& text.len() == whole + 9
            &&& text.subrange(0, whole) == strip_zeros(digits)
            &&& text[whole] == '.'
            &&& forall|k: int| whole < k < text.len() ==> text[k] == '0'
        }),
        is_numeral(digits) ==> strip_zeros(digits) == decimal(numeral_value(digits)),
        is_numeral(digits) ==> forall|k: int|
            0 <= k < strip_zeros(digits).len() ==> is_digit(#[trigger] strip_zeros(digits)[k]),
{
    reveal_strlit(".00000000");
    let text = numeral_text(digits);
    let whole = strip_zeros(digits).len() as int;
    assert(text.subrange(0, whole) =~= strip_zeros(digits));
    if is_numeral(digits) {
        lemma_strip_zeros_keeps_value(digits);
        lemma_decimal_of_value(strip_zeros(digits));
    }
}

/// Emitting one statement more: the text grows by the text of the
/// statement in the scope that the statements before it leave.
pub proof fn lemma_block_push(stmts: Seq<StmtView>, s: StmtView, scope: Seq<Seq<char>>)
    ensures
        block_text(stmts.push(s), scope) == block_text(stmts, scope) + stmt_text(
            s,
            block_scope(stmts, scope),
        ),
        block_scope(stmts.push(s), scope) == stmt_scope(s, block_scope(stmts, scope)),
{
    assert(stmts.push(s).drop_last() =~= stmts);
}

/// A block of one statement is emitted as that statement.
pub proof fn lemma_block_single(s: StmtView, scope: Seq<Seq<char>>)
    ensures
        block_text(seq![s], scope) == stmt_text(s, scope),
        block_scope(seq![s], scope) == stmt_scope(s, scope),
{
    let none = Seq::<StmtView>::empty();
    lemma_block_push(none, s, scope);
    assert(none.push(s) =~= seq![s]);
    assert(block_text(none, scope) + stmt_text(s, scope) =~= stmt_text(s, scope));
}

/// An assignment declares its variable once: of two assignments to a name
/// that is not declared yet, the first is emitted as a declaration and the
/// second as a mutation.
pub proof fn law_assignment_declares_once(
    name: Seq<char>,
    first_op: AssignOp,
    first: ExprView,
    second_op: AssignOp,
    second: ExprView,
    scope: Seq<Seq<char>>,
)
    requires
        !scope.contains(name),
    ensures
        block_text(
            seq![
                StmtView::Assign(name, first_op, first),
                StmtView::Assign(name, second_op, second),
            ],
            scope,
        ) == ("auto "@ + name + " = "@ + expr_text(first) + ";"@) + (name + " "@ + assign_op_text(
            second_op,
        ) + " "@ + expr_text(second) + ";"@),
        block_scope(
            seq![
                StmtView::Assign(name, first_op, first),
                StmtView::Assign(name, second_op, second),
            ],
            scope,
        ) == scope.push(name),
{
    let a = StmtView::Assign(name, first_op, first);
    let b = StmtView::Assign(name, second_op, second);
    lemma_block_single(a, scope);
    lemma_block_push(seq![a], b, scope);
    assert(seq![a].push(b) =~= seq![a, b]);
    assert(scope.push(name)[scope.len() as int] == name);
}

/// Whether `s` is a statement that holds a block: a conditional or a loop.
pub open spec fn is_block_statement(s: StmtView) -> bool {
    s is If || s is While || s is For
}

/// What a block declares ends with the block: after a conditional or a
/// loop the same names are declared as before it, so an assignment that
/// follows it to a name that was not declared before is emitted as a
/// declaration, whatever the block assigned to.
pub proof fn law_block_declarations_end_with_the_block(
    s: StmtView,
    name: Seq<char>,
    op: AssignOp,
    value: ExprView,
    scope: Seq<Seq<char>>,
)
    requires
        is_block_statement(s),
        !scope.contains(name),
    ensures
        stmt_scope(s, scope) == scope,
        block_text(seq![s, StmtView::Assign(name, op, value)], scope) == stmt_text(s, scope) + (
        "auto "@ + name + " = "@ + expr_text(value) + ";"@),
{
    let a = StmtView::Assign(name, op, value);
    lemma_block_single(s, scope);
    lemma_block_push(seq![s], a, scope);
    assert(seq![s].push(a) =~= seq![s, a]);
}

/// What is declared outside a block is declared inside it: a name that is
/// declared when statements are entered stays declared throughout them.
pub proof fn law_enclosing_declarations_are_visible(
    stmts: Seq<StmtView>,
    scope: Seq<Seq<char>>,
    name: Seq<char>,
)
    requires
        scope.contains(name),
    ensures
        block_scope(stmts, scope).contains(name),
{
    lemma_block_scope_extends(stmts, scope);
    let i = choose|i: int| 0 <= i < scope.len() && scope[i] == name;
    let after = block_scope(stmts, scope);
    assert(after.take(scope.len() as int)[i] == after[i]);
}

/// Every function and every subroutine checks the number of its arguments
/// before anything else: its text starts with the head of the callable,
/// which ends with the check against the number of declared parameters.
pub proof fn law_arity_is_checked(
    name: Seq<char>,
    params: Seq<Seq<char>>,
    body: Seq<StmtView>,
    scope: Seq<Seq<char>>,
)
    ensures
        stmt_text(StmtView::Func(name, params, body), scope).subrange(
            0,
            closure_head(name, params.len(), "AuroraObject"@).len() as int,
        ) == closure_head(name, params.len(), "AuroraObject"@),
        stmt_text(StmtView::Sub(name, params, body), scope).subrange(
            0,
            closure_head(name, params.len(), "void"@).len() as int,
        ) == closure_head(name, params.len(), "void"@),
        forall|result: Seq<char>|
            {
                let head = #[trigger] closure_head(name, params.len(), result);
                let check = "if (_FN_ARG_COUNT != "@ + decimal(params.len())
                    + ") error(\"incorrect number of args\"); "@;
                head.subrange(head.len() - check.len(), head.len() as int) == check
            },
{
    let f = stmt_text(StmtView::Func(name, params, body), scope);
    let fh = closure_head(name, params.len(), "AuroraObject"@);
    assert(f.subrange(0, fh.len() as int) =~= fh);
    let g = stmt_text(StmtView::Sub(name, params, body), scope);
    let gh = closure_head(name, params.len(), "void"@);
    assert(g.subrange(0, gh.len() as int) =~= gh);
    assert forall|result: Seq<char>|
        {
            let head = #[trigger] closure_head(name, params.len(), result);
            let check = "if (_FN_ARG_COUNT != "@ + decimal(params.len())
                + ") error(\"incorrect number of args\"); "@;
            head.subrange(head.len() - check.len(), head.len() as int) == check
        } by {
        let head = closure_head(name, params.len(), result);
        let check = "if (_FN_ARG_COUNT != "@ + decimal(params.len())
            + ") error(\"incorrect number of args\"); "@;
        assert(head.subrange(head.len() - check.len(), head.len() as int) =~= check);
    }
}

} // verus!
