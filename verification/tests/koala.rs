use koala::compiler::compile;
use koala::grammar::{BinExpr, BinOp, Expr, FunctionCall, FunctionDefinition, If, Program, Statement};
use koala::kvm::VirtualMachine;

fn func(name: &str, args: Vec<&str>, body: Vec<Statement>) -> FunctionDefinition {
    FunctionDefinition {
        id: name.to_string(),
        args: args.into_iter().map(|a| a.to_string()).collect(),
        body,
    }
}

fn intl(v: u32) -> Expr {
    Expr::IntLit(v)
}

fn var(name: &str) -> Expr {
    Expr::Variable { id: name.to_string() }
}

fn bin(op1: Expr, binop: BinOp, op2: Expr) -> Expr {
    Expr::BinExpr(Box::new(BinExpr { op1, op2, binop }))
}

fn callx(name: &str, args: Vec<Expr>) -> Expr {
    Expr::FunctionCall(FunctionCall { id: name.to_string(), args })
}

fn calls(name: &str, args: Vec<Expr>) -> Statement {
    Statement::FunctionCall(FunctionCall { id: name.to_string(), args })
}

fn prints(e: Expr) -> Statement {
    Statement::Print { expr: Some(e), newline: false }
}

fn lets(name: &str, e: Expr) -> Statement {
    Statement::VarAssignment { id: name.to_string(), expr: e, global: false }
}

fn ifs(cond: Expr, stmts: Vec<Statement>) -> Statement {
    Statement::If(Box::new(If { expr: cond, stmts }))
}

fn run_program(p: &Program) -> String {
    let code = compile(p).expect("program should compile");
    let mut vm = VirtualMachine::new();
    vm.load_code(&code);
    vm.run().expect("program should run to completion");
    vm.output().to_string()
}

#[test]
fn empty_main_test() {
    let p = Program(vec![func("main", vec![], vec![])]);
    assert_eq!(run_program(&p), "");
}

#[test]
fn print_test() {
    let p = Program(vec![func("main", vec![], vec![prints(intl(2))])]);
    assert_eq!(run_program(&p), "2");
}

#[test]
fn variable_test() {
    let p = Program(vec![func(
        "main",
        vec![],
        vec![lets("x", intl(2)), prints(var("x"))],
    )]);
    assert_eq!(run_program(&p), "2");
}

#[test]
fn nested_ifs_test() {
    let p = Program(vec![func(
        "main",
        vec![],
        vec![
            ifs(intl(1), vec![ifs(intl(0), vec![])]),
            ifs(intl(0), vec![ifs(intl(1), vec![])]),
            ifs(intl(1), vec![ifs(intl(1), vec![prints(intl(5))])]),
            ifs(intl(0), vec![ifs(intl(0), vec![])]),
        ],
    )]);
    assert_eq!(run_program(&p), "5");
}

#[test]
fn fib_test() {
    let p = Program(vec![
        func("main", vec![], vec![prints(callx("fib", vec![intl(4)]))]),
        func(
            "fib",
            vec!["n"],
            vec![
                ifs(
                    var("n"),
                    vec![ifs(
                        bin(var("n"), BinOp::Minus, intl(1)),
                        vec![Statement::ReturnExpr(bin(
                            callx("fib", vec![bin(var("n"), BinOp::Minus, intl(1))]),
                            BinOp::Plus,
                            callx("fib", vec![bin(var("n"), BinOp::Minus, intl(2))]),
                        ))],
                    )],
                ),
                Statement::ReturnExpr(intl(1)),
            ],
        ),
    ]);
    assert_eq!(run_program(&p), "5");
}

#[test]
fn multple_call_test_fp() {
    let p = Program(vec![
        func("main", vec![], vec![calls("t", vec![intl(5)])]),
        func(
            "t",
            vec!["a"],
            vec![
                calls("a", vec![bin(var("a"), BinOp::Minus, intl(1))]),
                calls("a", vec![bin(var("a"), BinOp::Minus, intl(2))]),
            ],
        ),
        func("a", vec!["a"], vec![prints(var("a"))]),
    ]);
    assert_eq!(run_program(&p), "43");
}

#[test]
fn return_value_test() {
    let p = Program(vec![
        func("main", vec![], vec![prints(callx("f", vec![]))]),
        func("f", vec![], vec![Statement::ReturnExpr(intl(3))]),
    ]);
    assert_eq!(run_program(&p), "3");
}

#[test]
fn comparisons_test() {
    let p = Program(vec![func(
        "main",
        vec![],
        vec![
            ifs(bin(intl(1), BinOp::Less, intl(2)), vec![prints(intl(1))]),
            ifs(bin(intl(2), BinOp::Greater, intl(1)), vec![prints(intl(2))]),
            ifs(bin(intl(1), BinOp::Equal, intl(1)), vec![prints(intl(3))]),
            ifs(bin(intl(1), BinOp::NotEqual, intl(2)), vec![prints(intl(4))]),
            ifs(bin(intl(1), BinOp::LessOrEqual, intl(1)), vec![prints(intl(5))]),
            ifs(bin(intl(1), BinOp::GreaterOrEqual, intl(1)), vec![prints(intl(6))]),
        ],
    )]);
    assert_eq!(run_program(&p), "123456");
}

#[test]
fn logical_test() {
    let p = Program(vec![func(
        "main",
        vec![],
        vec![
            ifs(bin(intl(1), BinOp::Or, intl(2)), vec![prints(intl(1))]),
            ifs(bin(intl(2), BinOp::And, intl(1)), vec![prints(intl(2))]),
            ifs(bin(intl(1), BinOp::Or, intl(0)), vec![prints(intl(3))]),
            ifs(bin(intl(1), BinOp::And, intl(0)), vec![prints(intl(4))]),
            ifs(bin(intl(0), BinOp::And, intl(0)), vec![prints(intl(5))]),
            ifs(bin(intl(0), BinOp::Or, intl(0)), vec![prints(intl(6))]),
        ],
    )]);
    assert_eq!(run_program(&p), "123");
}

#[test]
fn nested_math1_test() {
    let p = Program(vec![func(
        "main",
        vec![],
        vec![prints(bin(bin(intl(5), BinOp::Plus, intl(3)), BinOp::Plus, intl(2)))],
    )]);
    assert_eq!(run_program(&p), "10");
}

#[test]
fn nested_math2_test() {
    let p = Program(vec![func(
        "main",
        vec![],
        vec![prints(bin(intl(2), BinOp::Plus, bin(intl(5), BinOp::Plus, intl(3))))],
    )]);
    assert_eq!(run_program(&p), "10");
}

#[test]
fn nested_math3_test() {
    let p = Program(vec![func(
        "main",
        vec![],
        vec![prints(bin(
            bin(bin(intl(2), BinOp::Plus, intl(5)), BinOp::Plus, intl(3)),
            BinOp::Minus,
            bin(
                bin(intl(2), BinOp::Mul, intl(3)),
                BinOp::Minus,
                bin(intl(10), BinOp::Div, intl(2)),
            ),
        ))],
    )]);
    assert_eq!(run_program(&p), "9");
}

#[test]
fn array_test() {
    let p = Program(vec![func(
        "main",
        vec![],
        vec![
            Statement::ArrayInstantiation {
                id: "a".to_string(),
                size: Some(intl(3)),
                elements: Some(vec![intl(1), intl(12), intl(123)]),
                global: false,
            },
            lets("b", Expr::ArrayIndex { id: "a".to_string(), expr: Box::new(intl(2)) }),
            prints(bin(
                Expr::ArrayIndex { id: "a".to_string(), expr: Box::new(intl(2)) },
                BinOp::Plus,
                Expr::ArrayIndex { id: "a".to_string(), expr: Box::new(intl(2)) },
            )),
        ],
    )]);
    assert_eq!(run_program(&p), "246");
}

#[test]
fn array_index_assignment_test() {
    let p = Program(vec![func(
        "main",
        vec![],
        vec![
            Statement::ArrayInstantiation {
                id: "a".to_string(),
                size: Some(intl(2)),
                elements: None,
                global: false,
            },
            Statement::ArrayIndexAssignment {
                id: "a".to_string(),
                index: intl(1),
                expr: intl(9),
            },
            prints(Expr::ArrayIndex { id: "a".to_string(), expr: Box::new(intl(0)) }),
            prints(Expr::ArrayIndex { id: "a".to_string(), expr: Box::new(intl(1)) }),
        ],
    )]);
    assert_eq!(run_program(&p), "09");
}

#[test]
fn global_var_test() {
    let p = Program(vec![
        func(
            "main",
            vec![],
            vec![
                Statement::VarAssignment {
                    id: "theglobal".to_string(),
                    expr: intl(2),
                    global: true,
                },
                calls("foo", vec![]),
            ],
        ),
        func("foo", vec![], vec![prints(var("theglobal"))]),
    ]);
    assert_eq!(run_program(&p), "2");
}

#[test]
fn global_array_test() {
    let p = Program(vec![
        func(
            "main",
            vec![],
            vec![
                Statement::ArrayInstantiation {
                    id: "theglobal".to_string(),
                    size: Some(intl(2)),
                    elements: Some(vec![intl(6), intl(7)]),
                    global: true,
                },
                calls("foo", vec![]),
            ],
        ),
        func(
            "foo",
            vec![],
            vec![prints(Expr::ArrayIndex {
                id: "theglobal".to_string(),
                expr: Box::new(intl(0)),
            })],
        ),
    ]);
    assert_eq!(run_program(&p), "6");
}

#[test]
fn while_control_test() {
    let p = Program(vec![func(
        "main",
        vec![],
        vec![
            lets("a", intl(2)),
            Statement::While {
                cond: bin(var("a"), BinOp::Less, intl(5)),
                stmts: vec![prints(var("a")), lets("a", bin(var("a"), BinOp::Plus, intl(1)))],
            },
        ],
    )]);
    assert_eq!(run_program(&p), "234");
}

#[test]
fn print_with_newline_test() {
    let p = Program(vec![func(
        "main",
        vec![],
        vec![Statement::Print { expr: Some(intl(5)), newline: true }],
    )]);
    assert_eq!(run_program(&p), "5\n");
}

#[test]
fn bare_return_pushes_defined_zero() {
    let p = Program(vec![
        func("main", vec![], vec![prints(callx("f", vec![]))]),
        func("f", vec![], vec![Statement::Return]),
    ]);
    assert_eq!(run_program(&p), "0");
}

#[test]
fn forward_reference_resolves() {
    let p = Program(vec![
        func("main", vec![], vec![prints(callx("later", vec![intl(8)]))]),
        func("later", vec!["x"], vec![Statement::ReturnExpr(bin(
            var("x"),
            BinOp::Mul,
            intl(3),
        ))]),
    ]);
    assert_eq!(run_program(&p), "24");
}

#[test]
fn repeated_global_keeps_last_slot() {
    let p = Program(vec![func(
        "main",
        vec![],
        vec![
            Statement::VarAssignment { id: "g".to_string(), expr: intl(1), global: true },
            Statement::VarAssignment { id: "g".to_string(), expr: intl(2), global: true },
            prints(var("g")),
        ],
    )]);
    assert_eq!(run_program(&p), "2");
}

#[test]
fn local_shadows_global_on_read() {
    let p = Program(vec![func(
        "main",
        vec![],
        vec![
            Statement::VarAssignment { id: "x".to_string(), expr: intl(5), global: true },
            lets("x", intl(7)),
            prints(var("x")),
        ],
    )]);
    assert_eq!(run_program(&p), "7");
}
