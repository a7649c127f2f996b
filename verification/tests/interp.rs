use std::rc::Rc;
use jseval::ast::BinOp;
use jseval::ast::BitOp;
use jseval::ast::CompOp;
use jseval::ast::Const;
use jseval::ast::Expr;
use jseval::ast::ExprDef;
use jseval::ast::NumOp;
use jseval::ast::UnaryOp;
use jseval::exec::Executor;
use jseval::exec::Host;
use jseval::exec::Interpreter;
use jseval::value::Value;

fn e(def: ExprDef) -> Expr {
    Expr { def }
}

fn num(n: i64) -> Expr {
    e(ExprDef::ConstExpr(Const::Num(n)))
}

fn iv(i: i32) -> Expr {
    e(ExprDef::ConstExpr(Const::Int(i)))
}

fn sv(s: &str) -> Expr {
    e(ExprDef::ConstExpr(Const::Str(s.to_string())))
}

fn local(n: &str) -> Expr {
    e(ExprDef::LocalExpr(n.to_string()))
}

fn block(v: Vec<Expr>) -> Expr {
    e(ExprDef::BlockExpr(v))
}

fn assign(target: Expr, v: Expr) -> Expr {
    e(ExprDef::AssignExpr(Box::new(target), Box::new(v)))
}

fn member(obj: Expr, field: &str) -> Expr {
    e(ExprDef::GetConstFieldExpr(Box::new(obj), field.to_string()))
}

fn call(callee: Expr, args: Vec<Expr>) -> Expr {
    e(ExprDef::CallExpr(Box::new(callee), args))
}

fn binop(op: BinOp, a: Expr, b: Expr) -> Expr {
    e(ExprDef::BinOpExpr(op, Box::new(a), Box::new(b)))
}

fn func(name: &str, params: Vec<&str>, body: Expr) -> Expr {
    e(ExprDef::FunctionDeclExpr(
        Some(name.to_string()),
        Rc::new(params.iter().map(|s| s.to_string()).collect()),
        Rc::new(body),
    ))
}

struct TestHost {
    calls: Vec<(u64, Value, Value, Vec<Value>)>,
    return_this: bool,
}

impl TestHost {
    fn new(return_this: bool) -> TestHost {
        TestHost { calls: Vec::new(), return_this }
    }
}

impl Host for TestHost {
    fn call_native(&mut self, id: u64, this: Value, callee: Value, args: Vec<Value>) -> Result<Value, Value> {
        self.calls.push((id, this.clone(), callee.clone(), args.clone()));
        if self.return_this {
            Ok(this)
        } else {
            Ok(Value::Undefined)
        }
    }
}

const FUEL: u64 = 1 << 40;

fn run1(ast: &Expr) -> Result<Value, Value> {
    let mut it = Interpreter::new();
    it.run(ast)
}

#[test]
fn literal_constants() {
    assert_eq!(run1(&num(42)), Ok(Value::Number(42)));
    assert_eq!(run1(&iv(-7)), Ok(Value::Integer(-7)));
    assert_eq!(run1(&sv("hi")), Ok(Value::String("hi".to_string())));
    assert_eq!(run1(&e(ExprDef::ConstExpr(Const::Bool(true)))), Ok(Value::Boolean(true)));
    assert_eq!(run1(&e(ExprDef::ConstExpr(Const::Null))), Ok(Value::Null));
    assert_eq!(run1(&e(ExprDef::ConstExpr(Const::Undefined))), Ok(Value::Undefined));
}

#[test]
fn block_yields_last_value() {
    let ast = block(vec![iv(1), iv(2), iv(3)]);
    assert_eq!(run1(&ast), Ok(Value::Integer(3)));
}

#[test]
fn block_short_circuits_on_failure() {
    // Native calls count side effects: the call after the throw never runs.
    let mut it = Interpreter::new();
    let mut host = TestHost::new(false);
    let f = it.make_native(7);
    it.register_global("count", f);
    let ast = block(vec![
        call(local("count"), vec![]),
        e(ExprDef::ThrowExpr(Box::new(sv("boom")))),
        call(local("count"), vec![]),
    ]);
    let r = it.run_with_host(&mut host, &ast, FUEL);
    assert_eq!(r, Err(Value::String("boom".to_string())));
    assert_eq!(host.calls.len(), 1);
}

#[test]
fn assign_then_read() {
    let ast = block(vec![assign(local("x"), num(9)), local("x")]);
    assert_eq!(run1(&ast), Ok(Value::Number(9)));
}

#[test]
fn function_parameters_bind_positionally() {
    let body = e(ExprDef::ReturnExpr(Some(Box::new(binop(
        BinOp::Num(NumOp::Sub),
        local("a"),
        local("b"),
    )))));
    let ast = block(vec![
        func("f", vec!["a", "b"], body),
        call(local("f"), vec![iv(1), iv(2)]),
    ]);
    assert_eq!(run1(&ast), Ok(Value::Number(-1)));
}

#[test]
fn constructor_prototype_delegation() {
    let mut it = Interpreter::new();
    let mut host = TestHost::new(true);
    let f = it.make_native(1);
    it.register_global("F", f);
    let setup = block(vec![
        assign(member(local("F"), "prototype"), e(ExprDef::ObjectDeclExpr(vec![]))),
        assign(member(member(local("F"), "prototype"), "k"), iv(5)),
    ]);
    it.run_with_host(&mut host, &setup, FUEL).unwrap();
    let ast = member(
        e(ExprDef::ConstructExpr(Box::new(local("F")), vec![])),
        "k",
    );
    assert_eq!(it.run_with_host(&mut host, &ast, FUEL), Ok(Value::Integer(5)));
}

#[test]
fn user_defined_constructor_returns_this() {
    // The constructor's body reads `this`, which is bound to the fresh
    // instance; the instance delegates the member to the prototype.
    let body = e(ExprDef::ReturnExpr(Some(Box::new(local("this")))));
    let ast = block(vec![
        func("F", vec![], body),
        assign(
            member(local("F"), "prototype"),
            e(ExprDef::ObjectDeclExpr(vec![("k".to_string(), iv(5))])),
        ),
        member(e(ExprDef::ConstructExpr(Box::new(local("F")), vec![])), "k"),
    ]);
    assert_eq!(run1(&ast), Ok(Value::Integer(5)));
}

#[test]
fn constructor_result_passes_through() {
    // A body that does not return `this` decides the construction's
    // result itself.
    let body = e(ExprDef::ReturnExpr(Some(Box::new(iv(7)))));
    let ast = block(vec![
        func("F", vec![], body),
        e(ExprDef::ConstructExpr(Box::new(local("F")), vec![])),
    ]);
    assert_eq!(run1(&ast), Ok(Value::Integer(7)));
}

#[test]
fn constructor_binds_this_and_parameters() {
    // `this` and the parameters are all visible in the body; the own
    // property written through a parameter-independent path is absent, so
    // lookup falls through to the argument value instead.
    let body = e(ExprDef::ReturnExpr(Some(Box::new(binop(
        BinOp::Num(NumOp::Add),
        e(ExprDef::TypeOfExpr(Box::new(local("this")))),
        local("a"),
    )))));
    let ast = block(vec![
        func("F", vec!["a"], body),
        e(ExprDef::ConstructExpr(Box::new(local("F")), vec![sv("!")])),
    ]);
    assert_eq!(run1(&ast), Ok(Value::String("object!".to_string())));
}

#[test]
fn switch_matches_first_case_or_default() {
    let mk = |disc: Expr| {
        e(ExprDef::SwitchExpr(
            Box::new(disc),
            vec![(iv(1), vec![sv("one")]), (iv(2), vec![sv("two")])],
            Some(Box::new(sv("other"))),
        ))
    };
    assert_eq!(run1(&mk(iv(2))), Ok(Value::String("two".to_string())));
    assert_eq!(run1(&mk(iv(3))), Ok(Value::String("other".to_string())));
}

#[test]
fn object_identity_not_structure() {
    let obj = || e(ExprDef::ObjectDeclExpr(vec![("a".to_string(), iv(1))]));
    let ast = binop(BinOp::Comp(CompOp::Equal), obj(), obj());
    assert_eq!(run1(&ast), Ok(Value::Boolean(false)));
    let strict = binop(BinOp::Comp(CompOp::StrictEqual), obj(), obj());
    assert_eq!(run1(&strict), Ok(Value::Boolean(false)));
    let nums = binop(BinOp::Comp(CompOp::Equal), num(3), num(3));
    assert_eq!(run1(&nums), Ok(Value::Boolean(true)));
}

#[test]
fn typeof_kinds() {
    let t = |x: Expr| e(ExprDef::TypeOfExpr(Box::new(x)));
    assert_eq!(
        run1(&t(e(ExprDef::ConstExpr(Const::Null)))),
        Ok(Value::String("object".to_string()))
    );
    assert_eq!(
        run1(&t(e(ExprDef::ObjectDeclExpr(vec![])))),
        Ok(Value::String("object".to_string()))
    );
    assert_eq!(run1(&t(iv(1))), Ok(Value::String("number".to_string())));
    assert_eq!(run1(&t(num(1)))
, Ok(Value::String("number".to_string())));
    assert_eq!(run1(&t(sv("s"))), Ok(Value::String("string".to_string())));
}

#[test]
fn arithmetic_and_concatenation() {
    assert_eq!(run1(&binop(BinOp::Num(NumOp::Add), iv(2), iv(3))), Ok(Value::Number(5)));
    assert_eq!(run1(&binop(BinOp::Num(NumOp::Div), num(7), num(2))), Ok(Value::Number(3)));
    assert_eq!(run1(&binop(BinOp::Num(NumOp::Div), num(7), num(0))), Ok(Value::Number(0)));
    assert_eq!(run1(&binop(BinOp::Num(NumOp::Mod), num(-7), num(2))), Ok(Value::Number(-1)));
    assert_eq!(
        run1(&binop(BinOp::Num(NumOp::Add), iv(1), sv("a"))),
        Ok(Value::String("1a".to_string()))
    );
    assert_eq!(
        run1(&binop(BinOp::Num(NumOp::Add), sv("a"), e(ExprDef::ConstExpr(Const::Null)))),
        Ok(Value::String("anull".to_string()))
    );
}

#[test]
fn string_numeric_coercion() {
    let plus = |x: Expr| e(ExprDef::UnaryOpExpr(UnaryOp::Plus, Box::new(x)));
    assert_eq!(run1(&plus(sv("42"))), Ok(Value::Number(42)));
    assert_eq!(run1(&plus(sv("-8"))), Ok(Value::Number(-8)));
    assert_eq!(run1(&plus(sv("4x"))), Ok(Value::Number(0)));
    assert_eq!(run1(&plus(sv(""))), Ok(Value::Number(0)));
    let minus = e(ExprDef::UnaryOpExpr(UnaryOp::Minus, Box::new(iv(5))));
    assert_eq!(run1(&minus), Ok(Value::Number(-5)));
    let not = e(ExprDef::UnaryOpExpr(UnaryOp::Not, Box::new(sv(""))));
    assert_eq!(run1(&not), Ok(Value::Boolean(true)));
}

#[test]
fn bitwise_window_and_shift_mask() {
    assert_eq!(run1(&binop(BinOp::Bit(BitOp::And), iv(6), iv(3))), Ok(Value::Integer(2)));
    assert_eq!(run1(&binop(BinOp::Bit(BitOp::Xor), iv(6), iv(3))), Ok(Value::Integer(5)));
    // the shift count is masked to five bits: 33 & 31 == 1
    assert_eq!(run1(&binop(BinOp::Bit(BitOp::Shl), iv(1), iv(33))), Ok(Value::Integer(2)));
}

#[test]
fn while_loop_keeps_last_body_value() {
    let cond = binop(BinOp::Comp(CompOp::LessThan), local("i"), iv(3));
    let body = assign(local("i"), binop(BinOp::Num(NumOp::Add), local("i"), iv(1)));
    let ast = block(vec![
        assign(local("i"), iv(0)),
        e(ExprDef::WhileLoopExpr(Box::new(cond), Box::new(body))),
    ]);
    assert_eq!(run1(&ast), Ok(Value::Number(3)));
}

#[test]
fn while_loop_zero_iterations_is_undefined() {
    let ast = e(ExprDef::WhileLoopExpr(
        Box::new(e(ExprDef::ConstExpr(Const::Bool(false)))),
        Box::new(iv(1)),
    ));
    assert_eq!(run1(&ast), Ok(Value::Undefined));
}

#[test]
fn if_without_else_is_undefined() {
    let ast = e(ExprDef::IfExpr(
        Box::new(e(ExprDef::ConstExpr(Const::Bool(false)))),
        Box::new(iv(1)),
        None,
    ));
    assert_eq!(run1(&ast), Ok(Value::Undefined));
}

#[test]
fn array_literal_indices_and_length() {
    let arr = e(ExprDef::ArrayDeclExpr(vec![iv(5), iv(6)]));
    let second = e(ExprDef::GetFieldExpr(Box::new(arr), Box::new(iv(1))));
    assert_eq!(run1(&second), Ok(Value::Integer(6)));
    let arr2 = e(ExprDef::ArrayDeclExpr(vec![iv(5), iv(6)]));
    assert_eq!(run1(&member(arr2, "length")), Ok(Value::Integer(2)));
}

#[test]
fn var_declaration_defaults_to_null() {
    let ast = block(vec![
        e(ExprDef::VarDeclExpr(vec![("x".to_string(), None)])),
        local("x"),
    ]);
    assert_eq!(run1(&ast), Ok(Value::Null));
}

#[test]
fn declaration_expression_is_undefined() {
    let ast = e(ExprDef::LetDeclExpr(vec![("x".to_string(), Some(iv(1)))]));
    assert_eq!(run1(&ast), Ok(Value::Undefined));
}

#[test]
fn calling_a_non_callable_fails() {
    let ast = call(iv(3), vec![]);
    assert_eq!(run1(&ast), Err(Value::Undefined));
}

#[test]
fn missing_argument_fails_gracefully() {
    let body = e(ExprDef::ReturnExpr(Some(Box::new(local("a")))));
    let ast = block(vec![func("f", vec!["a", "b"], body), call(local("f"), vec![iv(1)])]);
    assert_eq!(run1(&ast), Err(Value::Undefined));
}

#[test]
fn unresolved_name_reads_undefined() {
    assert_eq!(run1(&local("nope")), Ok(Value::Undefined));
}

#[test]
fn native_call_receives_resolved_callee_once() {
    // The callee expression is evaluated once; the native receives the
    // resolved function value as its callee argument.
    let mut it = Interpreter::new();
    let mut host = TestHost::new(false);
    let f = it.make_native(9);
    it.register_global("g", f.clone());
    let callee = block(vec![
        assign(local("n"), binop(BinOp::Num(NumOp::Add), local("n"), iv(1))),
        local("g"),
    ]);
    let ast = block(vec![
        assign(local("n"), iv(0)),
        call(callee, vec![iv(4)]),
        local("n"),
    ]);
    let r = it.run_with_host(&mut host, &ast, FUEL);
    assert_eq!(r, Ok(Value::Number(1)));
    assert_eq!(host.calls.len(), 1);
    assert_eq!(host.calls[0].2, f);
    assert_eq!(host.calls[0].3, vec![Value::Integer(4)]);
}

#[test]
fn boxing_dispatches_methods_on_primitives() {
    // A method call on a string boxes it through the global String
    // constructor: the native constructor returns the instance, whose
    // prototype carries the method.
    let mut it = Interpreter::new();
    let mut host = TestHost::new(true);
    let ctor = it.make_native(2);
    it.register_global("String", ctor);
    let setup = block(vec![
        assign(member(local("String"), "prototype"), e(ExprDef::ObjectDeclExpr(vec![]))),
        func("m", vec![], e(ExprDef::ReturnExpr(Some(Box::new(iv(11)))))),
        assign(member(member(local("String"), "prototype"), "m"), local("m")),
    ]);
    it.run_with_host(&mut host, &setup, FUEL).unwrap();
    let ast = call(member(sv("abc"), "m"), vec![]);
    assert_eq!(it.run_with_host(&mut host, &ast, FUEL), Ok(Value::Integer(11)));
    // The boxing construction called the native constructor with the
    // primitive as the sole argument.
    assert!(host
        .calls
        .iter()
        .any(|c| c.3 == vec![Value::String("abc".to_string())]));
}

#[test]
fn assignment_to_member_sets_property() {
    let ast = block(vec![
        assign(local("o"), e(ExprDef::ObjectDeclExpr(vec![]))),
        assign(member(local("o"), "a"), iv(4)),
        member(local("o"), "a"),
    ]);
    assert_eq!(run1(&ast), Ok(Value::Integer(4)));
}

#[test]
fn thrown_value_propagates() {
    let ast = block(vec![e(ExprDef::ThrowExpr(Box::new(iv(3))))]);
    assert_eq!(run1(&ast), Err(Value::Integer(3)));
}

#[test]
fn regexp_literal_is_undefined_placeholder() {
    let ast = e(ExprDef::ConstExpr(Const::RegExp("a*".to_string(), false, false)));
    assert_eq!(run1(&ast), Ok(Value::Undefined));
}

#[test]
fn relational_comparison_coerces_numerically() {
    let ast = binop(BinOp::Comp(CompOp::LessThan), sv("9"), iv(10));
    assert_eq!(run1(&ast), Ok(Value::Boolean(true)));
    let ge = binop(BinOp::Comp(CompOp::GreaterThanOrEqual), iv(2), num(2));
    assert_eq!(run1(&ge), Ok(Value::Boolean(true)));
}

#[test]
fn overflow_yields_zero() {
    let big = num(i64::MAX);
    let ast = binop(BinOp::Num(NumOp::Add), big, num(1));
    assert_eq!(run1(&ast), Ok(Value::Number(0)));
}
