use aurora::ast::{AssignOp, BinOp, Expr, Stmt, UnaryOp};
use aurora::tree_walk::{
    assign_op_visitor, bin_op_visitor, block_visitor, expr_visitor, item_visitor, numeral,
    program_visitor, stmt_visitor, stripped_digits, unary_op_visitor, Scope,
};

fn num(digits: &str) -> Box<Expr> {
    Box::new(Expr::Number(digits.to_string()))
}

fn var(name: &str) -> Box<Expr> {
    Box::new(Expr::Variable(name.to_string()))
}

fn assign(name: &str, op: AssignOp, value: Box<Expr>) -> Box<Stmt> {
    Box::new(Stmt::Assign(name.to_string(), op, value))
}

fn emit(stmts: &Vec<Box<Stmt>>) -> String {
    let mut scope = Scope::new();
    block_visitor(stmts, &mut scope)
}

#[test]
fn binary_operators_are_spelled_as_in_the_target() {
    let cases = vec![
        (BinOp::Add, "+"),
        (BinOp::Sub, "-"),
        (BinOp::Mul, "*"),
        (BinOp::Div, "/"),
        (BinOp::Mod, "%"),
        (BinOp::Less, "<"),
        (BinOp::LessEq, "<="),
        (BinOp::Greater, ">"),
        (BinOp::GreaterEq, ">="),
        (BinOp::Eq, "=="),
        (BinOp::NotEq, "!="),
        (BinOp::And, "&&"),
        (BinOp::Or, "||"),
    ];
    for (op, text) in cases {
        assert_eq!(bin_op_visitor(&op), text);
    }
}

#[test]
fn unary_and_assignment_operators_are_spelled_as_in_the_target() {
    assert_eq!(unary_op_visitor(&UnaryOp::Neg), "-");
    assert_eq!(unary_op_visitor(&UnaryOp::Not), "!");
    assert_eq!(assign_op_visitor(&AssignOp::Assign), "=");
    assert_eq!(assign_op_visitor(&AssignOp::PlusAssign), "+=");
    assert_eq!(assign_op_visitor(&AssignOp::MinusAssign), "-=");
    assert_eq!(assign_op_visitor(&AssignOp::StarAssign), "*=");
    assert_eq!(assign_op_visitor(&AssignOp::SlashAssign), "/=");
    assert_eq!(assign_op_visitor(&AssignOp::ModAssign), "%=");
}

#[test]
fn numeral_has_eight_fractional_digits_wherever_it_stands() {
    assert_eq!(expr_visitor(&num("42")), "42.00000000");
    assert_eq!(item_visitor(&num("42")), "AuroraObject(42.00000000)");
    let list = Box::new(Expr::List(vec![num("42")]));
    assert_eq!(expr_visitor(&list), "AuroraObject({ AuroraObject(42.00000000) })");
    let call = Box::new(Expr::Call(var("f"), vec![num("42")]));
    assert_eq!(
        expr_visitor(&call),
        "f(1, std::move((AuroraObject[1]){AuroraObject(42.00000000)}), true)"
    );
    let sum = Box::new(Expr::BinOp(num("42"), BinOp::Add, num("42")));
    assert_eq!(expr_visitor(&sum), "(42.00000000 + 42.00000000)");
}

#[test]
fn numeral_loses_its_leading_zeros() {
    assert_eq!(numeral(&"007".to_string()), "7.00000000");
    assert_eq!(numeral(&"0".to_string()), "0.00000000");
    assert_eq!(numeral(&"000".to_string()), "0.00000000");
    assert_eq!(numeral(&"100".to_string()), "100.00000000");
    assert_eq!(
        numeral(&"123456789012345678901234567890".to_string()),
        "123456789012345678901234567890.00000000"
    );
    assert_eq!(stripped_digits(&"0042".to_string()), "42");
    assert_eq!(stripped_digits(&"".to_string()), "");
}

#[test]
fn literals_are_wrapped_into_dynamic_values() {
    assert_eq!(expr_visitor(&Box::new(Expr::Boolean(true))), "AuroraObject(true)");
    assert_eq!(expr_visitor(&Box::new(Expr::Boolean(false))), "AuroraObject(false)");
    assert_eq!(
        expr_visitor(&Box::new(Expr::String("hi".to_string()))),
        "AuroraObject(\"hi\")"
    );
    assert_eq!(expr_visitor(&var("x")), "x");
}

#[test]
fn operations_are_parenthesized() {
    let e = Box::new(Expr::BinOp(
        var("a"),
        BinOp::Mul,
        Box::new(Expr::UnaryOp(UnaryOp::Neg, var("b"))),
    ));
    assert_eq!(expr_visitor(&e), "(a * (- b))");
    let e = Box::new(Expr::UnaryOp(UnaryOp::Not, Box::new(Expr::Boolean(true))));
    assert_eq!(expr_visitor(&e), "(! AuroraObject(true))");
}

#[test]
fn lists_join_their_elements() {
    let empty = Box::new(Expr::List(vec![]));
    assert_eq!(expr_visitor(&empty), "AuroraObject({  })");
    let list = Box::new(Expr::List(vec![num("1"), var("x"), Box::new(Expr::Boolean(true))]));
    assert_eq!(
        expr_visitor(&list),
        "AuroraObject({ AuroraObject(1.00000000), x, AuroraObject(true) })"
    );
}

#[test]
fn calls_marshal_their_arguments() {
    let none = Box::new(Expr::Call(var("f"), vec![]));
    assert_eq!(expr_visitor(&none), "f(0, std::move((AuroraObject[0]){}), true)");
    let two = Box::new(Expr::Call(var("f"), vec![var("a"), num("2")]));
    assert_eq!(
        expr_visitor(&two),
        "f(2, std::move((AuroraObject[2]){a, AuroraObject(2.00000000)}), true)"
    );
    let s = Box::new(Stmt::Call("g".to_string(), vec![var("a")]));
    let mut scope = Scope::new();
    assert_eq!(
        stmt_visitor(&s, &mut scope),
        "g(1, std::move((AuroraObject[1]){a}), false);"
    );
}

#[test]
fn call_counts_are_decimal() {
    let mut args = Vec::new();
    for _ in 0..12 {
        args.push(var("a"));
    }
    let s = Box::new(Stmt::Call("g".to_string(), args));
    let mut scope = Scope::new();
    let text = stmt_visitor(&s, &mut scope);
    assert!(text.starts_with("g(12, std::move((AuroraObject[12]){a, a, "));
}

#[test]
fn index_is_emitted_in_brackets() {
    let e = Box::new(Expr::Index(var("xs"), num("0")));
    assert_eq!(expr_visitor(&e), "xs[0.00000000]");
}

#[test]
fn first_assignment_declares_and_second_mutates() {
    let stmts = vec![
        assign("x", AssignOp::Assign, num("1")),
        assign("x", AssignOp::Assign, num("2")),
    ];
    assert_eq!(emit(&stmts), "auto x = 1.00000000;x = 2.00000000;");
}

#[test]
fn compound_assignment_keeps_its_operator_once_declared() {
    let stmts = vec![
        assign("x", AssignOp::PlusAssign, num("1")),
        assign("x", AssignOp::PlusAssign, num("2")),
        assign("x", AssignOp::ModAssign, num("3")),
    ];
    assert_eq!(emit(&stmts), "auto x = 1.00000000;x += 2.00000000;x %= 3.00000000;");
}

#[test]
fn declarations_inside_a_block_do_not_leak() {
    let stmts = vec![
        Box::new(Stmt::If(
            Box::new(Expr::Boolean(true)),
            vec![assign("x", AssignOp::Assign, num("1"))],
            vec![],
        )),
        assign("x", AssignOp::Assign, num("2")),
    ];
    assert_eq!(
        emit(&stmts),
        "if (AuroraObject(true)) {auto x = 1.00000000;}auto x = 2.00000000;"
    );
}

#[test]
fn enclosing_declarations_are_visible_in_a_block() {
    let stmts = vec![
        assign("x", AssignOp::Assign, num("1")),
        Box::new(Stmt::While(
            var("x"),
            vec![
                assign("x", AssignOp::MinusAssign, num("1")),
                assign("y", AssignOp::Assign, num("0")),
            ],
        )),
        assign("y", AssignOp::Assign, num("2")),
    ];
    assert_eq!(
        emit(&stmts),
        "auto x = 1.00000000;while (x) {x -= 1.00000000;auto y = 0.00000000;}auto y = 2.00000000;"
    );
}

#[test]
fn both_branches_start_from_the_enclosing_scope() {
    let stmts = vec![Box::new(Stmt::If(
        var("c"),
        vec![assign("x", AssignOp::Assign, num("1"))],
        vec![assign("x", AssignOp::Assign, num("2"))],
    ))];
    assert_eq!(
        emit(&stmts),
        "if (c) {auto x = 1.00000000;} else {auto x = 2.00000000;}"
    );
}

#[test]
fn for_loop_binds_by_reference() {
    let s = Box::new(Stmt::For(
        "v".to_string(),
        var("xs"),
        vec![Box::new(Stmt::Break), Box::new(Stmt::Continue)],
    ));
    let mut scope = Scope::new();
    assert_eq!(stmt_visitor(&s, &mut scope), "for (auto& v : xs) {break;continue;}");
    assert_eq!(scope.depth(), 0);
}

#[test]
fn function_checks_its_arity_and_guards_its_end() {
    let s = Box::new(Stmt::Func(
        "f".to_string(),
        vec!["a".to_string(), "b".to_string()],
        vec![Box::new(Stmt::Return(Box::new(Expr::BinOp(var("a"), BinOp::Add, var("b")))))],
    ));
    let mut scope = Scope::new();
    let text = stmt_visitor(&s, &mut scope);
    assert_eq!(
        text,
        "auto _CAPTURE_f = [&](const AuroraObject& f, int _FN_ARG_COUNT, AuroraObject* _FN_ARGS) -> AuroraObject {\
if (_FN_ARG_COUNT != 2) error(\"incorrect number of args\"); \
auto& a = _FN_ARGS[0];auto& b = _FN_ARGS[1];\
return (a + b);\
error(\"function must return a value\");\
};\
auto _PTR_WRAP_f = [](void* _LAMBDA_PTR, int _FN_ARG_COUNT, AuroraObject* _FN_ARGS, AuroraObject& _SELF) -> AuroraObject {\
return (*(decltype(_CAPTURE_f)*) _LAMBDA_PTR)(_SELF, _FN_ARG_COUNT, _FN_ARGS);\
};\
auto f = AuroraObject(AuroraFunc(_PTR_WRAP_f), &_CAPTURE_f);"
    );
    assert!(scope.contains(&"f".to_string()));
    assert!(!scope.contains(&"a".to_string()));
    assert_eq!(scope.depth(), 1);
}

#[test]
fn subroutine_returns_nothing() {
    let s = Box::new(Stmt::Sub(
        "p".to_string(),
        vec![],
        vec![assign("x", AssignOp::Assign, num("1"))],
    ));
    let mut scope = Scope::new();
    let text = stmt_visitor(&s, &mut scope);
    assert_eq!(
        text,
        "auto _CAPTURE_p = [&](const AuroraObject& p, int _FN_ARG_COUNT, AuroraObject* _FN_ARGS) -> void {\
if (_FN_ARG_COUNT != 0) error(\"incorrect number of args\"); \
auto x = 1.00000000;\
};\
auto _PTR_WRAP_p = [](void* _LAMBDA_PTR, int _FN_ARG_COUNT, AuroraObject* _FN_ARGS, AuroraObject& _SELF) -> void {\
(*(decltype(_CAPTURE_p)*) _LAMBDA_PTR)(_SELF, _FN_ARG_COUNT, _FN_ARGS);\
};\
auto p = AuroraObject(AuroraSub(_PTR_WRAP_p), &_CAPTURE_p);"
    );
}

#[test]
fn parameters_are_declared_inside_the_body_only() {
    let stmts = vec![
        Box::new(Stmt::Sub(
            "p".to_string(),
            vec!["a".to_string()],
            vec![assign("a", AssignOp::Assign, num("1"))],
        )),
        assign("a", AssignOp::Assign, num("2")),
        assign("p", AssignOp::Assign, num("3")),
    ];
    let text = emit(&stmts);
    assert!(text.contains("auto& a = _FN_ARGS[0];a = 1.00000000;};"));
    assert!(text.ends_with("auto a = 2.00000000;p = 3.00000000;"));
}

#[test]
fn indexed_assignment_calls_the_mutator() {
    let mut scope = Scope::new();
    let literal = Box::new(Stmt::AssignIndex("xs".to_string(), num("03"), var("v")));
    assert_eq!(
        stmt_visitor(&literal, &mut scope),
        "xs.set(AuroraObject(3.00000000), v);"
    );
    let computed = Box::new(Stmt::AssignIndex("xs".to_string(), var("i"), num("5")));
    assert_eq!(stmt_visitor(&computed, &mut scope), "xs.set(i, 5.00000000);");
}

#[test]
fn simple_statements() {
    let mut scope = Scope::new();
    assert_eq!(stmt_visitor(&Box::new(Stmt::Return(var("x"))), &mut scope), "return x;");
    assert_eq!(stmt_visitor(&Box::new(Stmt::Break), &mut scope), "break;");
    assert_eq!(stmt_visitor(&Box::new(Stmt::Continue), &mut scope), "continue;");
    assert_eq!(stmt_visitor(&Box::new(Stmt::Empty), &mut scope), "");
}

#[test]
fn program_is_wrapped_into_main() {
    assert_eq!(
        program_visitor(&vec![]),
        "#include <AuroraRuntime.h>\nint main() {}"
    );
    assert_eq!(
        program_visitor(&vec![assign("x", AssignOp::Assign, num("1"))]),
        "#include <AuroraRuntime.h>\nint main() {auto x = 1.00000000;}"
    );
}

#[test]
fn scope_remembers_and_forgets() {
    let mut scope = Scope::new();
    assert_eq!(scope.depth(), 0);
    assert!(!scope.contains(&"x".to_string()));
    scope.declare("x".to_string());
    scope.declare("y".to_string());
    assert!(scope.contains(&"x".to_string()));
    assert_eq!(scope.depth(), 2);
    scope.restore(1);
    assert!(scope.contains(&"x".to_string()));
    assert!(!scope.contains(&"y".to_string()));
}
