use koala::compiler::{compile, CompileError, CompilerContext, ScopeType, VarTable};
use koala::grammar::{Expr, FunctionCall, FunctionDefinition, If, Program, Statement};
use koala::instructions::{CALL, END, LOCAL_LOAD, PRINT, PUSH, RET};

fn def(name: &str, body: Vec<Statement>) -> FunctionDefinition {
    FunctionDefinition { id: name.to_string(), args: Vec::new(), body }
}

fn print_int(v: u32) -> Statement {
    Statement::Print { expr: Some(Expr::IntLit(v)), newline: false }
}

#[test]
fn load_constant() {
    let print_val = 5;
    let ast_root = Program(vec![def("main", vec![print_int(print_val)])]);

    let code = compile(&ast_root).unwrap();

    assert_eq!(code, [CALL, 0, 4, END, PUSH, print_val, PRINT, 1, PUSH, 0, RET]);
}

#[test]
fn preamble_calls_main_and_halts() {
    let p = Program(vec![
        def("helper", vec![]),
        def("main", vec![]),
    ]);
    let code = compile(&p).unwrap();
    // helper's implicit bare return occupies three words from 4; main
    // starts at 7.
    assert_eq!(code, [CALL, 0, 7, END, PUSH, 0, RET, PUSH, 0, RET]);
}

#[test]
fn duplicate_function_is_rejected() {
    let p = Program(vec![def("main", vec![]), def("main", vec![])]);
    assert_eq!(compile(&p), Err(CompileError::DuplicateFunction));
}

#[test]
fn missing_entry_point_is_rejected() {
    let p = Program(vec![def("helper", vec![])]);
    assert_eq!(compile(&p), Err(CompileError::MissingEntryPoint));
}

#[test]
fn undefined_function_is_rejected() {
    let p = Program(vec![def(
        "main",
        vec![Statement::FunctionCall(FunctionCall { id: "nowhere".to_string(), args: vec![] })],
    )]);
    assert_eq!(compile(&p), Err(CompileError::UndefinedFunction));
}

#[test]
fn undefined_variable_is_rejected() {
    let p = Program(vec![def(
        "main",
        vec![Statement::Print {
            expr: Some(Expr::Variable { id: "ghostly".to_string() }),
            newline: false,
        }],
    )]);
    assert_eq!(compile(&p), Err(CompileError::UndefinedVariable));
}

#[test]
fn array_size_mismatch_is_rejected() {
    let p = Program(vec![def(
        "main",
        vec![Statement::ArrayInstantiation {
            id: "a".to_string(),
            size: Some(Expr::IntLit(2)),
            elements: Some(vec![Expr::IntLit(1)]),
            global: false,
        }],
    )]);
    assert_eq!(compile(&p), Err(CompileError::ArraySizeMismatch));
}

#[test]
fn nested_global_declaration_escapes_the_prescan() {
    // The pre-scan covers top-level statements only, so a global assigned
    // solely inside a branch body has no slot.
    let p = Program(vec![def(
        "main",
        vec![Statement::If(Box::new(If {
            expr: Expr::IntLit(1),
            stmts: vec![Statement::VarAssignment {
                id: "g".to_string(),
                expr: Expr::IntLit(2),
                global: true,
            }],
        }))],
    )]);
    assert_eq!(compile(&p), Err(CompileError::UndefinedVariable));
}

#[test]
fn context_resolves_local_before_global() {
    let mut scope = VarTable::new();
    scope.insert("x".to_string(), 0);
    scope.size = 1;
    let mut context = CompilerContext::new();
    context.local_var_scope.push(scope);
    context.global_vars.insert("x".to_string(), 7);
    context.global_vars.insert("g".to_string(), 8);

    assert_eq!(context.find_var_index("x"), Ok((ScopeType::Local, 0)));
    assert_eq!(context.find_var_index("g"), Ok((ScopeType::Global, 8)));
    assert_eq!(
        context.find_var_index("absent"),
        Err(CompileError::UndefinedVariable)
    );
    assert_eq!(context.find_local_var_index("x"), Ok(0));
    assert_eq!(
        context.find_local_var_index("g"),
        Err(CompileError::UndefinedVariable)
    );
    assert_eq!(context.find_global_var_index("g"), Ok(8));
}

#[test]
fn prescan_assigns_slots_across_functions() {
    let p = Program(vec![
        def(
            "main",
            vec![Statement::VarAssignment {
                id: "g".to_string(),
                expr: Expr::IntLit(1),
                global: true,
            }],
        ),
        def(
            "other",
            vec![Statement::VarAssignment {
                id: "h".to_string(),
                expr: Expr::IntLit(2),
                global: true,
            }],
        ),
    ]);
    let table = p.create_global_var_table();
    assert_eq!(table.find("g"), Some(0));
    assert_eq!(table.find("h"), Some(1));
    assert_eq!(table.find("main"), None);
}

#[test]
fn empty_program_has_no_entry_point() {
    let p = Program(vec![]);
    assert_eq!(compile(&p), Err(CompileError::MissingEntryPoint));
}

#[test]
fn call_emission_layout() {
    // main prints f(7); f returns its parameter.  The argument is pushed,
    // the call names f's pre-assigned address, and each function ends
    // with the implicit bare return.
    let p = Program(vec![
        FunctionDefinition {
            id: "main".to_string(),
            args: vec![],
            body: vec![Statement::Print {
                expr: Some(Expr::FunctionCall(FunctionCall {
                    id: "f".to_string(),
                    args: vec![Expr::IntLit(7)],
                })),
                newline: false,
            }],
        },
        FunctionDefinition {
            id: "f".to_string(),
            args: vec!["x".to_string()],
            body: vec![Statement::ReturnExpr(Expr::Variable { id: "x".to_string() })],
        },
    ]);
    let code = compile(&p).unwrap();
    assert_eq!(
        code,
        [
            CALL, 0, 4, END, // bootstrap preamble
            PUSH, 7, CALL, 1, 14, PRINT, 1, PUSH, 0, RET, // main at 4
            LOCAL_LOAD, 0, RET, PUSH, 0, RET, // f at 14
        ]
    );
}
