use std::rc::Rc;

use mini_lisp::ast::{Exp, LogicalOp, NumOp, PrintType, Program, Stmt};
use mini_lisp::env::{Env, RuntimeError, Value, ValueKind};
use mini_lisp::interpreter::run;

fn num(n: i64) -> Box<Exp> {
    Box::new(Exp::Num(n))
}

fn lit(v: bool) -> Box<Exp> {
    Box::new(Exp::Bool(v))
}

fn id(s: &str) -> Box<Exp> {
    Box::new(Exp::Id(s.to_string()))
}

fn nexp(op: NumOp, args: Vec<Box<Exp>>) -> Box<Exp> {
    Box::new(Exp::NumExp { op, args })
}

fn lexp(op: LogicalOp, args: Vec<Box<Exp>>) -> Box<Exp> {
    Box::new(Exp::LogicalExp { op, args })
}

fn fun(params: Vec<&str>, def_stmts: Vec<Stmt>, body: Box<Exp>) -> Box<Exp> {
    Box::new(Exp::FunExp {
        params: params.into_iter().map(|p| Exp::Id(p.to_string())).collect(),
        def_stmts,
        body: Rc::new(*body),
    })
}

fn call(func: Box<Exp>, args: Vec<Box<Exp>>) -> Box<Exp> {
    Box::new(Exp::FunCall { func, args })
}

fn ife(c: Box<Exp>, t: Box<Exp>, e: Box<Exp>) -> Box<Exp> {
    Box::new(Exp::IfExp { cond_exp: c, then_exp: t, else_exp: e })
}

fn print_num(e: Box<Exp>) -> Stmt {
    Stmt::PrintStmt { print_type: PrintType::PrintNum, exp: *e }
}

fn print_bool(e: Box<Exp>) -> Stmt {
    Stmt::PrintStmt { print_type: PrintType::PrintBool, exp: *e }
}

fn def(name: &str, e: Box<Exp>) -> Stmt {
    Stmt::DefStmt { id: Exp::Id(name.to_string()), exp: *e }
}

fn exp_stmt(e: Box<Exp>) -> Stmt {
    Stmt::ExpStmt { exp: *e }
}

fn run_prog(stmts: Vec<Stmt>) -> Result<String, RuntimeError> {
    let mut out = String::new();
    run(Program { stmts }, &mut out).map(|_| out)
}

#[test]
fn test_print_num() {
    let output = run_prog(vec![
        print_num(num(1)),
        print_num(num(2)),
        print_num(num(3)),
        print_num(num(4)),
    ])
    .unwrap();
    assert_eq!(output, "1\n2\n3\n4\n");

    let output = run_prog(vec![
        print_num(num(0)),
        print_num(num(-123)),
        print_num(num(456)),
    ])
    .unwrap();
    assert_eq!(output, "0\n-123\n456\n");
}

#[test]
fn test_num_exp() {
    let output = run_prog(vec![
        exp_stmt(nexp(NumOp::Plus, vec![num(1), num(2), num(3)])),
        exp_stmt(nexp(NumOp::Multiply, vec![num(4), num(5), num(6)])),
        print_num(nexp(
            NumOp::Plus,
            vec![
                num(1),
                nexp(NumOp::Plus, vec![num(2), num(3), num(4)]),
                nexp(NumOp::Multiply, vec![num(4), num(5), num(6)]),
                nexp(NumOp::Divide, vec![num(8), num(3)]),
                nexp(NumOp::Modulus, vec![num(10), num(3)]),
            ],
        )),
        print_num(nexp(NumOp::Modulus, vec![num(10), num(4)])),
        print_num(nexp(NumOp::Minus, vec![nexp(NumOp::Plus, vec![num(1), num(2)]), num(4)])),
        print_num(num(-256)),
    ])
    .unwrap();
    assert_eq!(output, "133\n2\n-1\n-256\n");

    let output = run_prog(vec![
        print_num(nexp(
            NumOp::Modulus,
            vec![num(10), nexp(NumOp::Plus, vec![num(1), num(2)])],
        )),
        print_num(nexp(
            NumOp::Multiply,
            vec![nexp(NumOp::Divide, vec![num(1), num(2)]), num(4)],
        )),
        print_num(nexp(
            NumOp::Minus,
            vec![
                nexp(
                    NumOp::Plus,
                    vec![
                        num(1),
                        num(2),
                        num(3),
                        nexp(NumOp::Minus, vec![num(4), num(5)]),
                        num(6),
                        nexp(NumOp::Divide, vec![num(7), num(8)]),
                        nexp(NumOp::Modulus, vec![num(9), num(10)]),
                    ],
                ),
                num(11),
            ],
        )),
    ])
    .unwrap();
    assert_eq!(output, "1\n0\n9\n");
}

#[test]
fn test_bool() {
    let output = run_prog(vec![
        print_bool(lit(true)),
        print_bool(lit(false)),
        print_bool(lexp(LogicalOp::And, vec![lit(true), lit(false)])),
        print_bool(lexp(LogicalOp::And, vec![lit(true), lit(true)])),
        print_bool(lexp(LogicalOp::Or, vec![lit(true), lit(false)])),
        print_bool(lexp(LogicalOp::Or, vec![lit(false), lit(false)])),
        print_bool(lexp(LogicalOp::Not, vec![lit(true)])),
        print_bool(lexp(LogicalOp::Not, vec![lit(false)])),
    ])
    .unwrap();
    assert_eq!(output, "#t\n#f\n#f\n#t\n#t\n#f\n#f\n#t\n");

    let output = run_prog(vec![
        print_bool(lexp(LogicalOp::Or, vec![lit(true), lit(true), lit(false)])),
        print_bool(lexp(
            LogicalOp::Or,
            vec![
                lit(false),
                lexp(LogicalOp::And, vec![lit(false), lit(true)]),
                lexp(LogicalOp::Not, vec![lit(false)]),
            ],
        )),
        print_bool(lexp(
            LogicalOp::And,
            vec![
                lit(true),
                lexp(LogicalOp::Not, vec![lit(false)]),
                lexp(LogicalOp::Or, vec![lit(false), lit(true)]),
                lexp(
                    LogicalOp::And,
                    vec![lit(true), lexp(LogicalOp::Not, vec![lit(true)])],
                ),
            ],
        )),
    ])
    .unwrap();
    assert_eq!(output, "#t\n#t\n#f\n");
}

#[test]
fn test_if_statement() {
    let output = run_prog(vec![
        print_num(ife(lit(true), num(1), num(2))),
        print_num(ife(lit(false), num(1), num(2))),
    ])
    .unwrap();
    assert_eq!(output, "1\n2\n");

    let output = run_prog(vec![
        print_num(ife(
            nexp(NumOp::Smaller, vec![num(1), num(2)]),
            nexp(NumOp::Plus, vec![num(1), num(2), num(3)]),
            nexp(NumOp::Multiply, vec![num(1), num(2), num(3), num(4), num(5)]),
        )),
        print_num(ife(
            nexp(
                NumOp::Equal,
                vec![num(9), nexp(NumOp::Multiply, vec![num(2), num(5)])],
            ),
            num(0),
            ife(lit(true), num(1), num(2)),
        )),
    ])
    .unwrap();
    assert_eq!(output, "6\n1\n");
}

#[test]
fn test_variable_definition() {
    let output = run_prog(vec![
        def("x", num(1)),
        print_num(id("x")),
        def("y", nexp(NumOp::Plus, vec![num(1), num(2), num(3)])),
        print_num(id("y")),
    ])
    .unwrap();
    assert_eq!(output, "1\n6\n");

    let output = run_prog(vec![
        def("a", nexp(NumOp::Multiply, vec![num(1), num(2), num(3), num(4)])),
        def("b", nexp(NumOp::Plus, vec![num(10), num(-5), num(-2), num(-1)])),
        print_num(nexp(NumOp::Plus, vec![id("a"), id("b")])),
    ])
    .unwrap();
    assert_eq!(output, "26\n");
}

#[test]
fn test_function() {
    let output = run_prog(vec![
        print_num(call(
            fun(vec!["x"], vec![], nexp(NumOp::Plus, vec![id("x"), num(1)])),
            vec![num(3)],
        )),
        print_num(call(
            fun(vec!["a", "b"], vec![], nexp(NumOp::Plus, vec![id("a"), id("b")])),
            vec![num(4), num(5)],
        )),
    ])
    .unwrap();
    assert_eq!(output, "4\n9\n");

    let output = run_prog(vec![
        def("x", num(0)),
        print_num(call(
            fun(
                vec!["x", "y", "z"],
                vec![],
                nexp(
                    NumOp::Plus,
                    vec![id("x"), nexp(NumOp::Multiply, vec![id("y"), id("z")])],
                ),
            ),
            vec![num(10), num(20), num(30)],
        )),
        print_num(id("x")),
    ])
    .unwrap();
    assert_eq!(output, "610\n0\n");
}

#[test]
fn test_named_function() {
    let output = run_prog(vec![
        def(
            "foo",
            fun(
                vec!["a", "b", "c"],
                vec![],
                nexp(
                    NumOp::Plus,
                    vec![id("a"), id("b"), nexp(NumOp::Multiply, vec![id("b"), id("c")])],
                ),
            ),
        ),
        print_num(call(id("foo"), vec![num(10), num(9), num(8)])),
    ])
    .unwrap();
    assert_eq!(output, "91\n");

    let output = run_prog(vec![
        def("bar", fun(vec!["x"], vec![], nexp(NumOp::Plus, vec![id("x"), num(1)]))),
        def("bar-z", fun(vec![], vec![], num(2))),
        print_num(call(id("bar"), vec![call(id("bar-z"), vec![])])),
    ])
    .unwrap();
    assert_eq!(output, "3\n");
}

#[test]
fn test_recursion() {
    let output = run_prog(vec![
        def(
            "fact",
            fun(
                vec!["n"],
                vec![],
                ife(
                    nexp(NumOp::Smaller, vec![id("n"), num(3)]),
                    id("n"),
                    nexp(
                        NumOp::Multiply,
                        vec![
                            id("n"),
                            call(id("fact"), vec![nexp(NumOp::Minus, vec![id("n"), num(1)])]),
                        ],
                    ),
                ),
            ),
        ),
        print_num(call(id("fact"), vec![num(2)])),
        print_num(call(id("fact"), vec![num(3)])),
        print_num(call(id("fact"), vec![num(4)])),
        print_num(call(id("fact"), vec![num(10)])),
        def(
            "fib",
            fun(
                vec!["x"],
                vec![],
                ife(
                    nexp(NumOp::Smaller, vec![id("x"), num(2)]),
                    id("x"),
                    nexp(
                        NumOp::Plus,
                        vec![
                            call(id("fib"), vec![nexp(NumOp::Minus, vec![id("x"), num(1)])]),
                            call(id("fib"), vec![nexp(NumOp::Minus, vec![id("x"), num(2)])]),
                        ],
                    ),
                ),
            ),
        ),
        print_num(call(id("fib"), vec![num(1)])),
        print_num(call(id("fib"), vec![num(3)])),
        print_num(call(id("fib"), vec![num(5)])),
        print_num(call(id("fib"), vec![num(10)])),
        print_num(call(id("fib"), vec![num(20)])),
    ])
    .unwrap();
    assert_eq!(output, "2\n6\n24\n3628800\n1\n2\n5\n55\n6765\n");

    let output = run_prog(vec![
        def(
            "min",
            fun(
                vec!["a", "b"],
                vec![],
                ife(nexp(NumOp::Smaller, vec![id("a"), id("b")]), id("a"), id("b")),
            ),
        ),
        def(
            "max",
            fun(
                vec!["a", "b"],
                vec![],
                ife(nexp(NumOp::Greater, vec![id("a"), id("b")]), id("a"), id("b")),
            ),
        ),
        def(
            "gcd",
            fun(
                vec!["a", "b"],
                vec![],
                ife(
                    nexp(
                        NumOp::Equal,
                        vec![
                            num(0),
                            nexp(
                                NumOp::Modulus,
                                vec![
                                    call(id("max"), vec![id("a"), id("b")]),
                                    call(id("min"), vec![id("a"), id("b")]),
                                ],
                            ),
                        ],
                    ),
                    call(id("min"), vec![id("a"), id("b")]),
                    call(
                        id("gcd"),
                        vec![
                            call(id("min"), vec![id("a"), id("b")]),
                            nexp(
                                NumOp::Modulus,
                                vec![
                                    call(id("max"), vec![id("a"), id("b")]),
                                    call(id("min"), vec![id("a"), id("b")]),
                                ],
                            ),
                        ],
                    ),
                ),
            ),
        ),
        print_num(call(id("gcd"), vec![num(100), num(88)])),
        print_num(call(id("gcd"), vec![num(1234), num(5678)])),
        print_num(call(id("gcd"), vec![num(81), num(54)])),
    ])
    .unwrap();
    assert_eq!(output, "4\n2\n27\n");
}

#[test]
fn test_type_checking() {
    let result = run_prog(vec![exp_stmt(nexp(
        NumOp::Plus,
        vec![
            num(1),
            num(2),
            num(3),
            lexp(LogicalOp::Or, vec![lit(true), lit(false)]),
        ],
    ))]);
    assert!(result.is_err());
    if let Err(err) = result {
        assert_eq!(
            err,
            RuntimeError::TypeMismatch { expected: ValueKind::Number, got: ValueKind::Boolean }
        );
    }

    let result = run_prog(vec![
        def(
            "f",
            fun(
                vec!["x"],
                vec![],
                ife(
                    nexp(NumOp::Greater, vec![id("x"), num(10)]),
                    num(10),
                    nexp(NumOp::Equal, vec![id("x"), num(5)]),
                ),
            ),
        ),
        print_num(nexp(NumOp::Multiply, vec![num(2), call(id("f"), vec![num(4)])])),
    ]);
    assert!(result.is_err());
    if let Err(err) = result {
        assert_eq!(
            err,
            RuntimeError::TypeMismatch { expected: ValueKind::Number, got: ValueKind::Boolean }
        );
    }
}

#[test]
fn test_nested_function() {
    let output = run_prog(vec![
        def(
            "dist-square",
            fun(
                vec!["x", "y"],
                vec![def(
                    "square",
                    fun(vec!["x"], vec![], nexp(NumOp::Multiply, vec![id("x"), id("x")])),
                )],
                nexp(
                    NumOp::Plus,
                    vec![
                        call(id("square"), vec![id("x")]),
                        call(id("square"), vec![id("y")]),
                    ],
                ),
            ),
        ),
        print_num(call(id("dist-square"), vec![num(3), num(4)])),
    ])
    .unwrap();
    assert_eq!(output, "25\n");

    let output = run_prog(vec![
        def(
            "diff",
            fun(
                vec!["a", "b"],
                vec![def(
                    "abs",
                    fun(
                        vec!["a"],
                        vec![],
                        ife(
                            nexp(NumOp::Smaller, vec![id("a"), num(0)]),
                            nexp(NumOp::Minus, vec![num(0), id("a")]),
                            id("a"),
                        ),
                    ),
                )],
                call(id("abs"), vec![nexp(NumOp::Minus, vec![id("a"), id("b")])]),
            ),
        ),
        print_num(call(id("diff"), vec![num(1), num(10)])),
        print_num(call(id("diff"), vec![num(10), num(2)])),
    ])
    .unwrap();
    assert_eq!(output, "9\n8\n");
}

#[test]
fn test_first_class_function() {
    let output = run_prog(vec![
        def(
            "add-x",
            fun(
                vec!["x"],
                vec![],
                fun(vec!["y"], vec![], nexp(NumOp::Plus, vec![id("x"), id("y")])),
            ),
        ),
        def("z", call(id("add-x"), vec![num(10)])),
        print_num(call(id("z"), vec![num(1)])),
    ])
    .unwrap();
    assert_eq!(output, "11\n");

    let output = run_prog(vec![
        def(
            "foo",
            fun(vec!["f", "x"], vec![], call(id("f"), vec![id("x")])),
        ),
        print_num(call(
            id("foo"),
            vec![
                fun(vec!["x"], vec![], nexp(NumOp::Minus, vec![id("x"), num(1)])),
                num(10),
            ],
        )),
    ])
    .unwrap();
    assert_eq!(output, "9\n");
}

#[test]
fn test_unbound_variable_is_reported() {
    let result = run_prog(vec![exp_stmt(id("nope"))]);
    assert_eq!(result, Err(RuntimeError::UnboundVariable("nope".to_string())));
}

#[test]
fn test_division_and_modulus_by_zero() {
    let result = run_prog(vec![exp_stmt(nexp(NumOp::Divide, vec![num(1), num(0)]))]);
    assert_eq!(result, Err(RuntimeError::DivisionByZero));

    let result = run_prog(vec![exp_stmt(nexp(NumOp::Modulus, vec![num(5), num(0)]))]);
    assert_eq!(result, Err(RuntimeError::DivisionByZero));
}

#[test]
fn test_truncating_division() {
    let output = run_prog(vec![
        print_num(nexp(NumOp::Divide, vec![num(-7), num(2)])),
        print_num(nexp(NumOp::Modulus, vec![num(-7), num(2)])),
        print_num(nexp(NumOp::Divide, vec![num(7), num(-2)])),
        print_num(nexp(NumOp::Modulus, vec![num(7), num(-2)])),
    ])
    .unwrap();
    assert_eq!(output, "-3\n-1\n-3\n1\n");
}

#[test]
fn test_addition_wraps() {
    let output = run_prog(vec![print_num(nexp(
        NumOp::Plus,
        vec![num(9223372036854775807), num(1)],
    ))])
    .unwrap();
    assert_eq!(output, "-9223372036854775808\n");
}

#[test]
fn test_logical_operators_do_not_short_circuit() {
    // the first argument already decides the result, yet the unbound
    // identifier after it must still be evaluated and must fail the run
    let result = run_prog(vec![print_bool(lexp(LogicalOp::Or, vec![lit(true), id("missing")]))]);
    assert_eq!(result, Err(RuntimeError::UnboundVariable("missing".to_string())));

    let result = run_prog(vec![print_bool(lexp(
        LogicalOp::And,
        vec![lit(false), nexp(NumOp::Plus, vec![num(1), num(2)])],
    ))]);
    assert_eq!(
        result,
        Err(RuntimeError::TypeMismatch { expected: ValueKind::Boolean, got: ValueKind::Number })
    );
}

#[test]
fn test_not_requires_exactly_one_argument() {
    let result = run_prog(vec![print_bool(lexp(LogicalOp::Not, vec![lit(true), lit(false)]))]);
    assert_eq!(result, Err(RuntimeError::ArityMismatch));
}

#[test]
fn test_conditional_evaluates_one_branch_only() {
    // an error present only in the unchosen branch never surfaces
    let output = run_prog(vec![print_num(ife(lit(true), num(1), id("missing")))]).unwrap();
    assert_eq!(output, "1\n");

    let output = run_prog(vec![print_num(ife(lit(false), id("missing"), num(2)))]).unwrap();
    assert_eq!(output, "2\n");
}

#[test]
fn test_call_arity_mismatch() {
    let result = run_prog(vec![exp_stmt(call(
        fun(vec!["x"], vec![], id("x")),
        vec![num(1), num(2)],
    ))]);
    assert_eq!(result, Err(RuntimeError::ArityMismatch));
}

#[test]
fn test_calling_a_number_is_a_type_error() {
    let result = run_prog(vec![exp_stmt(call(num(1), vec![num(2)]))]);
    assert_eq!(
        result,
        Err(RuntimeError::TypeMismatch { expected: ValueKind::Function, got: ValueKind::Number })
    );
}

#[test]
fn test_printing_a_closure_is_a_type_error() {
    let result = run_prog(vec![print_bool(fun(vec![], vec![], num(1)))]);
    assert_eq!(
        result,
        Err(RuntimeError::TypeMismatch { expected: ValueKind::Boolean, got: ValueKind::Function })
    );
}

#[test]
fn test_inner_definition_is_invisible_outside() {
    let result = run_prog(vec![
        def("g", fun(vec![], vec![def("y", num(1))], id("y"))),
        print_num(call(id("g"), vec![])),
        print_num(id("y")),
    ]);
    assert_eq!(result, Err(RuntimeError::UnboundVariable("y".to_string())));
}

#[test]
fn test_call_depth_budget_exhaustion() {
    let mut env = Env::new();
    let mut out = String::new();
    let e = call(fun(vec![], vec![], num(1)), vec![]);
    let r = mini_lisp::interpreter::eval_exp(&e, &mut env, 0, 0, &mut out);
    assert!(matches!(r, Err(RuntimeError::ResourceExhausted)));
    let r = mini_lisp::interpreter::eval_exp(&e, &mut env, 0, 1, &mut out);
    assert!(matches!(r, Ok(Value::Num(1))));
    assert_eq!(out, "");
}

#[test]
fn test_exp_to_string() {
    assert_eq!(Exp::Num(-5).to_string(), "-5");
    assert_eq!(Exp::Num(0).to_string(), "0");
    assert_eq!(Exp::Num(1234567).to_string(), "1234567");
    assert_eq!(Exp::Bool(true).to_string(), "true");
    assert_eq!(Exp::Bool(false).to_string(), "false");
    assert_eq!(Exp::Id("abc".to_string()).to_string(), "abc");
}

#[test]
fn test_env_lookup_and_shadowing() {
    let mut env = Env::new();
    env.set_var(0, "x".to_string(), Value::Num(1));
    let child = env.extend(0);
    assert!(matches!(env.get_var(child, "x"), Some(Value::Num(1))));
    env.set_var(child, "x".to_string(), Value::Num(2));
    assert!(matches!(env.get_var(child, "x"), Some(Value::Num(2))));
    assert!(matches!(env.get_var(0, "x"), Some(Value::Num(1))));
    assert!(env.get_var(child, "y").is_none());
}

#[test]
fn test_value_coercions() {
    assert_eq!(Value::Num(7).to_num(), Ok(7));
    assert_eq!(Value::Bool(true).to_bool(), Ok(true));
    assert_eq!(
        Value::Bool(true).to_num(),
        Err(RuntimeError::TypeMismatch { expected: ValueKind::Number, got: ValueKind::Boolean })
    );
    assert_eq!(
        Value::Num(0).to_bool(),
        Err(RuntimeError::TypeMismatch { expected: ValueKind::Boolean, got: ValueKind::Number })
    );
}
