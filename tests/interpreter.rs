use simple_script::execute_code::CodeExecutor;
use simple_script::functions::{call_native, native_named, simple_eq, simple_print, Builtin, FunctionContainer};
use simple_script::math_functions::{arith_with, needs_float, simple_add, simple_sub, FloatArith};
use simple_script::number::{canonical_string, parse_number, Decimal};
use simple_script::syntax::{Expr, FuncCall, Statement};
use simple_script::type_string::make_string;
use simple_script::value::{ErrorKind, VariableContent, VariableTypes};
use simple_script::variables::VariableContainer;

/// Floating-point arithmetic in `f64`, left to right.
struct F64;

impl FloatArith for F64 {
    fn float_fold(&self, texts: &Vec<String>, subtract: bool) -> Option<String> {
        let mut it = texts.iter();
        let mut acc: f64 = it.next()?.parse().ok()?;
        for t in it {
            let x: f64 = t.parse().ok()?;
            if subtract {
                acc -= x;
            } else {
                acc += x;
            }
        }
        Some(acc.to_string())
    }
}

/// Answers every float question with the same text.
struct Fixed;

impl FloatArith for Fixed {
    fn float_fold(&self, _texts: &Vec<String>, _subtract: bool) -> Option<String> {
        Some("42".to_string())
    }
}

fn int_val(t: &str) -> VariableContent {
    VariableContent::new(VariableTypes::INT, t.to_string())
}

fn float_val(t: &str) -> VariableContent {
    VariableContent::new(VariableTypes::FLOAT, t.to_string())
}

fn str_val(t: &str) -> VariableContent {
    VariableContent::new(VariableTypes::STRING, t.to_string())
}

fn check(v: &VariableContent, kind: VariableTypes, text: &str) {
    assert_eq!(v.data_type, kind);
    assert_eq!(v.value, text);
}

fn call(name: &str, args: Vec<Expr>) -> FuncCall {
    FuncCall { name: name.to_string(), args }
}

fn s(t: &str) -> String {
    t.to_string()
}

#[test]
fn declared_value_is_found_in_same_and_nested_scope() {
    let mut vars = VariableContainer::new();
    vars.add_variable("x", int_val("7"));
    check(&vars.get_variable("x").unwrap(), VariableTypes::INT, "7");
    vars.scope_in();
    vars.add_variable("y", str_val("hi"));
    check(&vars.get_variable("x").unwrap(), VariableTypes::INT, "7");
    check(&vars.get_variable("y").unwrap(), VariableTypes::STRING, "hi");
    vars.scope_out();
    assert_eq!(vars.get_variable("y").unwrap_err(), ErrorKind::NameError);
}

#[test]
fn shadowing_is_undone_on_scope_exit() {
    let mut vars = VariableContainer::new();
    vars.add_variable("x", int_val("1"));
    vars.scope_in();
    vars.add_variable("x", int_val("2"));
    check(&vars.get_variable("x").unwrap(), VariableTypes::INT, "2");
    vars.scope_out();
    check(&vars.get_variable("x").unwrap(), VariableTypes::INT, "1");
    assert_eq!(vars.scope_depth(), 1);
}

#[test]
fn redeclaring_in_same_scope_overwrites() {
    let mut vars = VariableContainer::new();
    vars.add_variable("x", int_val("1"));
    vars.add_variable("x", float_val("2.5"));
    check(&vars.get_variable("x").unwrap(), VariableTypes::FLOAT, "2.5");
}

#[test]
fn reassigning_undeclared_name_fails() {
    let mut vars = VariableContainer::new();
    assert_eq!(vars.set_variable("x", int_val("1")), Err(ErrorKind::NameError));
    assert_eq!(vars.get_variable("x").unwrap_err(), ErrorKind::NameError);
}

#[test]
fn declare_then_reassign_is_seen() {
    let mut vars = VariableContainer::new();
    vars.add_variable("x", int_val("1"));
    vars.scope_in();
    assert_eq!(vars.set_variable("x", int_val("9")), Ok(()));
    vars.scope_out();
    check(&vars.get_variable("x").unwrap(), VariableTypes::INT, "9");
}

#[test]
fn lookup_returns_a_copy() {
    let mut vars = VariableContainer::new();
    vars.add_variable("x", str_val("abc"));
    let mut got = vars.get_variable("x").unwrap();
    got.value.push_str("def");
    got.data_type = VariableTypes::NULL;
    check(&vars.get_variable("x").unwrap(), VariableTypes::STRING, "abc");
}

#[test]
fn debug_listing_of_innermost_scope() {
    let mut vars = VariableContainer::new();
    vars.add_variable("a", int_val("1"));
    vars.scope_in();
    vars.add_variable("b", str_val("x y"));
    vars.add_variable("c", VariableContent::null());
    assert_eq!(vars.debug_print_vars(), "b: STRING x y\nc: NULL \n");
}

#[test]
fn add_two_ints() {
    let r = simple_add(vec![int_val("2"), int_val("3")], &F64).unwrap();
    check(&r, VariableTypes::INT, "5");
}

#[test]
fn add_float_and_int() {
    let r = simple_add(vec![float_val("2.5"), int_val("1")], &F64).unwrap();
    check(&r, VariableTypes::FLOAT, "3.5");
}

#[test]
fn add_one_argument_is_arity_error() {
    assert_eq!(simple_add(vec![int_val("1")], &F64).unwrap_err(), ErrorKind::ArityError);
    assert_eq!(simple_sub(vec![], &F64).unwrap_err(), ErrorKind::ArityError);
}

#[test]
fn sub_left_to_right() {
    let r = simple_sub(vec![int_val("10"), int_val("3"), int_val("2")], &F64).unwrap();
    check(&r, VariableTypes::INT, "5");
}

#[test]
fn sub_going_negative() {
    let r = simple_sub(vec![int_val("3"), int_val("10")], &F64).unwrap();
    check(&r, VariableTypes::INT, "-7");
    let r = simple_sub(vec![float_val("0.5"), float_val("0.75")], &F64).unwrap();
    check(&r, VariableTypes::FLOAT, "-0.25");
}

#[test]
fn float_arithmetic_is_floating_point() {
    let r = simple_add(vec![float_val("1.50"), float_val("1.50")], &F64).unwrap();
    check(&r, VariableTypes::FLOAT, "3");
    let r = simple_add(vec![float_val("0.1"), float_val("0.2")], &F64).unwrap();
    check(&r, VariableTypes::FLOAT, "0.30000000000000004");
    let r = simple_sub(vec![float_val("0.3"), float_val("0.1")], &F64).unwrap();
    check(&r, VariableTypes::FLOAT, "0.19999999999999998");
    let r = simple_add(vec![float_val("1."), int_val("2")], &F64).unwrap();
    check(&r, VariableTypes::FLOAT, "3");
}

#[test]
fn float_path_uses_the_provider_answer() {
    assert!(needs_float(&vec![int_val("1"), float_val("2.5")]));
    assert!(!needs_float(&vec![int_val("1"), int_val("2")]));
    assert!(!needs_float(&vec![float_val("1.5")]));
    assert!(!needs_float(&vec![float_val("1.5"), str_val("x")]));
    assert!(!needs_float(&vec![float_val("1.5"), int_val("x")]));
    check(&simple_add(vec![int_val("1"), float_val("2.5")], &Fixed).unwrap(), VariableTypes::FLOAT, "42");
    check(&simple_add(vec![int_val("1"), int_val("2")], &Fixed).unwrap(), VariableTypes::INT, "3");
    let r = arith_with(&vec![float_val("1"), float_val("2")], true, Some(s("-1")));
    check(&r.unwrap(), VariableTypes::FLOAT, "-1");
    let r = arith_with(&vec![float_val("x"), float_val("2")], false, None);
    assert_eq!(r.unwrap_err(), ErrorKind::MalformedNumber);
    let r = arith_with(&vec![int_val("7"), int_val("2")], true, Some(s("ignored")));
    check(&r.unwrap(), VariableTypes::INT, "5");
}

#[test]
fn add_rejects_non_numeric() {
    assert_eq!(simple_add(vec![int_val("1"), str_val("2")], &F64).unwrap_err(), ErrorKind::TypeError);
    let b = VariableContent::new(VariableTypes::BOOL, s("true"));
    assert_eq!(simple_sub(vec![b, int_val("2")], &F64).unwrap_err(), ErrorKind::TypeError);
}

#[test]
fn add_rejects_malformed_numbers() {
    assert_eq!(simple_add(vec![int_val("1"), int_val("1.5")], &F64).unwrap_err(), ErrorKind::MalformedNumber);
    assert_eq!(simple_add(vec![int_val("1x"), int_val("2")], &F64).unwrap_err(), ErrorKind::MalformedNumber);
    assert_eq!(simple_add(vec![float_val("abc"), int_val("2")], &F64).unwrap_err(), ErrorKind::MalformedNumber);
    assert_eq!(simple_add(vec![int_val(""), int_val("2")], &F64).unwrap_err(), ErrorKind::MalformedNumber);
}

#[test]
fn add_reports_overflow() {
    let big = "170141183460469231731687303715884105727";
    check(&simple_add(vec![int_val(big), int_val("0")], &F64).unwrap(), VariableTypes::INT, big);
    assert_eq!(simple_add(vec![int_val(big), int_val("1")], &F64).unwrap_err(), ErrorKind::Overflow);
    assert_eq!(
        simple_add(vec![int_val("1"), int_val("999999999999999999999999999999999999999999")], &F64).unwrap_err(),
        ErrorKind::Overflow
    );
}

#[test]
fn eq_same_kind_and_text() {
    check(&simple_eq(vec![int_val("1"), int_val("1")]).unwrap(), VariableTypes::BOOL, "true");
    check(&simple_eq(vec![int_val("1"), int_val("1"), int_val("2")]).unwrap(), VariableTypes::BOOL, "false");
}

#[test]
fn eq_does_not_coerce() {
    check(&simple_eq(vec![int_val("1"), float_val("1.0")]).unwrap(), VariableTypes::BOOL, "false");
    check(&simple_eq(vec![int_val("1"), float_val("1")]).unwrap(), VariableTypes::BOOL, "false");
    assert_eq!(simple_eq(vec![int_val("1")]).unwrap_err(), ErrorKind::ArityError);
}

#[test]
fn print_concatenates_with_newline() {
    let mut out = String::new();
    let r = simple_print(vec![str_val("a"), str_val("b")], &mut out);
    assert_eq!(out, "ab\n");
    check(&r, VariableTypes::NULL, "");
    let r = call_native(Builtin::Print, vec![int_val("1"), float_val("2.5")], &mut out, None).unwrap();
    assert_eq!(out, "ab\n12.5\n");
    check(&r, VariableTypes::NULL, "");
}

#[test]
fn native_names() {
    assert_eq!(native_named(&s("print")), Some(Builtin::Print));
    assert_eq!(native_named(&s("eq")), Some(Builtin::Eq));
    assert_eq!(native_named(&s("add")), Some(Builtin::Add));
    assert_eq!(native_named(&s("sub")), Some(Builtin::Sub));
    assert_eq!(native_named(&s("mul")), None);
}

#[test]
fn string_literal_escapes() {
    assert_eq!(make_string("\"a\\nb\""), "a\nb");
    assert_eq!(make_string("\"\\t\\r\\\"x\\q\""), "\t\r\"x\\q");
    assert_eq!(make_string("\"\""), "");
    assert_eq!(make_string("abc"), "");
    assert_eq!(make_string("\""), "");
}

#[test]
fn numbers_read_and_written() {
    assert_eq!(parse_number("-12.50", true), Ok(Decimal { mantissa: -1250, scale: 2 }));
    assert_eq!(parse_number("12.5", false), Err(ErrorKind::MalformedNumber));
    assert_eq!(parse_number("-", true), Err(ErrorKind::MalformedNumber));
    assert_eq!(parse_number(".5", true), Err(ErrorKind::MalformedNumber));
    assert_eq!(canonical_string(-1250, 2), "-12.5");
    assert_eq!(canonical_string(5, 3), "0.005");
    assert_eq!(canonical_string(0, 2), "0");
}

#[test]
fn registry_holds_user_functions() {
    let mut reg = FunctionContainer::new();
    assert!(!reg.is_own_function("f"));
    reg.add_own_function("f", vec![Statement::DeclareEmpty(s("a"))]);
    assert!(reg.is_own_function("f"));
    reg.add_own_function("f", vec![]);
    assert_eq!(reg.find_own(&s("f")).unwrap().len(), 0);
}

#[test]
fn program_declares_computes_and_prints() {
    let mut ex = CodeExecutor::new();
    let prog = vec![
        Statement::Declare(s("x"), Expr::IntLit(s("2"))),
        Statement::Declare(s("y"), Expr::Call(call("add", vec![Expr::Var(s("x")), Expr::FloatLit(s("0.5"))]))),
        Statement::Call(call("print", vec![Expr::StrLit(s("\"y=\"")), Expr::Var(s("y"))])),
        Statement::Reassign(s("x"), Expr::BoolLit(s("true"))),
        Statement::DeclareEmpty(s("z")),
    ];
    let mut out = String::new();
    let mut diag = String::new();
    assert_eq!(ex.execute_code(&prog, &mut out, &mut diag, &F64), Ok(()));
    assert_eq!(out, "y=2.5\n");
    check(&ex.var_container.get_variable("x").unwrap(), VariableTypes::BOOL, "true");
    check(&ex.var_container.get_variable("y").unwrap(), VariableTypes::FLOAT, "2.5");
    check(&ex.var_container.get_variable("z").unwrap(), VariableTypes::NULL, "");
}

#[test]
fn false_guard_runs_nothing() {
    let mut ex = CodeExecutor::new();
    let prog = vec![Statement::If(
        Expr::BoolLit(s("false")),
        vec![
            Statement::Call(call("print", vec![Expr::StrLit(s("\"no\""))])),
            Statement::Declare(s("x"), Expr::IntLit(s("1"))),
        ],
    )];
    let mut out = String::new();
    let mut diag = String::new();
    assert_eq!(ex.execute_code(&prog, &mut out, &mut diag, &F64), Ok(()));
    assert_eq!(out, "");
    assert_eq!(ex.var_container.scope_depth(), 1);
    assert_eq!(ex.var_container.get_variable("x").unwrap_err(), ErrorKind::NameError);
}

#[test]
fn true_guard_runs_body_in_own_scope() {
    let mut ex = CodeExecutor::new();
    let prog = vec![
        Statement::Declare(s("x"), Expr::IntLit(s("1"))),
        Statement::If(
            Expr::Call(call("eq", vec![Expr::Var(s("x")), Expr::IntLit(s("1"))])),
            vec![
                Statement::Declare(s("x"), Expr::IntLit(s("2"))),
                Statement::Declare(s("inner"), Expr::IntLit(s("3"))),
                Statement::DebugVars,
                Statement::Call(call("print", vec![Expr::Var(s("x"))])),
            ],
        ),
        Statement::Call(call("print", vec![Expr::Var(s("x"))])),
    ];
    let mut out = String::new();
    let mut diag = String::new();
    assert_eq!(ex.execute_code(&prog, &mut out, &mut diag, &F64), Ok(()));
    assert_eq!(out, "2\n1\n");
    assert_eq!(diag, "x: INT 2\ninner: INT 3\n");
    assert_eq!(ex.var_container.scope_depth(), 1);
    assert_eq!(ex.var_container.get_variable("inner").unwrap_err(), ErrorKind::NameError);
}

#[test]
fn non_boolean_guard_is_type_error() {
    let mut ex = CodeExecutor::new();
    let prog = vec![Statement::If(Expr::IntLit(s("1")), vec![])];
    let mut out = String::new();
    let mut diag = String::new();
    assert_eq!(ex.execute_code(&prog, &mut out, &mut diag, &F64), Err(ErrorKind::TypeError));
}

#[test]
fn error_in_block_stops_run_and_pops_scope() {
    let mut ex = CodeExecutor::new();
    let prog = vec![
        Statement::If(
            Expr::BoolLit(s("true")),
            vec![
                Statement::Call(call("print", vec![Expr::StrLit(s("\"before\""))])),
                Statement::Reassign(s("missing"), Expr::IntLit(s("1"))),
                Statement::Call(call("print", vec![Expr::StrLit(s("\"after\""))])),
            ],
        ),
        Statement::Call(call("print", vec![Expr::StrLit(s("\"never\""))])),
    ];
    let mut out = String::new();
    let mut diag = String::new();
    assert_eq!(ex.execute_code(&prog, &mut out, &mut diag, &F64), Err(ErrorKind::NameError));
    assert_eq!(out, "before\n");
    assert_eq!(ex.var_container.scope_depth(), 1);
}

#[test]
fn arguments_evaluate_left_to_right() {
    let mut ex = CodeExecutor::new();
    let prog = vec![Statement::Call(call(
        "print",
        vec![
            Expr::Call(call("print", vec![Expr::StrLit(s("\"first\""))])),
            Expr::Call(call("print", vec![Expr::StrLit(s("\"second\""))])),
            Expr::StrLit(s("\"third\"")),
        ],
    ))];
    let mut out = String::new();
    let mut diag = String::new();
    assert_eq!(ex.execute_code(&prog, &mut out, &mut diag, &F64), Ok(()));
    assert_eq!(out, "first\nsecond\nthird\n");
}

#[test]
fn unknown_function_is_reported() {
    let mut ex = CodeExecutor::new();
    let prog = vec![Statement::Call(call("nope", vec![Expr::IntLit(s("1"))]))];
    let mut out = String::new();
    let mut diag = String::new();
    assert_eq!(ex.execute_code(&prog, &mut out, &mut diag, &F64), Err(ErrorKind::UnknownFunctionError));
}

#[test]
fn user_function_runs_in_fresh_scope_and_returns_null() {
    let mut ex = CodeExecutor::new();
    ex.function_container.add_own_function(
        "greet",
        vec![
            Statement::Declare(s("local"), Expr::StrLit(s("\"hello\""))),
            Statement::Reassign(s("count"), Expr::Call(call("add", vec![Expr::Var(s("count")), Expr::IntLit(s("1"))]))),
            Statement::Call(call("print", vec![Expr::Var(s("local"))])),
        ],
    );
    let prog = vec![
        Statement::Declare(s("count"), Expr::IntLit(s("0"))),
        Statement::Declare(s("r"), Expr::Call(call("greet", vec![]))),
        Statement::Call(call("greet", vec![])),
    ];
    let mut out = String::new();
    let mut diag = String::new();
    assert_eq!(ex.execute_code(&prog, &mut out, &mut diag, &F64), Ok(()));
    assert_eq!(out, "hello\nhello\n");
    check(&ex.var_container.get_variable("r").unwrap(), VariableTypes::NULL, "");
    check(&ex.var_container.get_variable("count").unwrap(), VariableTypes::INT, "2");
    assert_eq!(ex.var_container.get_variable("local").unwrap_err(), ErrorKind::NameError);
}

#[test]
fn native_name_takes_precedence() {
    let mut ex = CodeExecutor::new();
    ex.function_container.add_own_function("add", vec![]);
    let prog = vec![Statement::Declare(s("v"), Expr::Call(call("add", vec![Expr::IntLit(s("1")), Expr::IntLit(s("2"))])))];
    let mut out = String::new();
    let mut diag = String::new();
    assert_eq!(ex.execute_code(&prog, &mut out, &mut diag, &F64), Ok(()));
    check(&ex.var_container.get_variable("v").unwrap(), VariableTypes::INT, "3");
}

#[test]
fn endless_user_recursion_is_cut_off() {
    let mut ex = CodeExecutor::new();
    ex.function_container.add_own_function("f", vec![Statement::Call(call("f", vec![]))]);
    let prog = vec![Statement::Call(call("f", vec![]))];
    let mut out = String::new();
    let mut diag = String::new();
    assert_eq!(ex.execute_code(&prog, &mut out, &mut diag, &F64), Err(ErrorKind::CallDepthExceeded));
    assert_eq!(ex.var_container.scope_depth(), 1);
}

#[test]
fn program_float_arithmetic_goes_through_provider() {
    let mut ex = CodeExecutor::new();
    let prog = vec![
        Statement::Call(call(
            "print",
            vec![Expr::Call(call("add", vec![Expr::FloatLit(s("0.1")), Expr::FloatLit(s("0.2"))]))],
        )),
        Statement::Declare(s("d"), Expr::Call(call("sub", vec![Expr::IntLit(s("1")), Expr::FloatLit(s("0.25"))]))),
    ];
    let mut out = String::new();
    let mut diag = String::new();
    assert_eq!(ex.execute_code(&prog, &mut out, &mut diag, &F64), Ok(()));
    assert_eq!(out, "0.30000000000000004\n");
    check(&ex.var_container.get_variable("d").unwrap(), VariableTypes::FLOAT, "0.75");
}
