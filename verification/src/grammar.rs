//! The abstract syntax tree that the code generator consumes.
//!
//! An external parser produces this tree; the shape below is the contract
//! between that parser and the code generator.

use vstd::prelude::*;

verus! {

/// Program:
/// | FunctionDefinition Program
/// | ε
///
/// the main() function will be the entrypoint
pub struct Program(pub Vec<FunctionDefinition>);

pub struct FunctionDefinition {
    pub id: String,
    pub args: Vec<String>,
    pub body: Vec<Statement>,
}

/// Statement:
/// | If
/// | While
/// | Print
/// | Return
/// | ReturnExpr
/// | VarAssignment
/// | ArrayInstantiation
/// | ArrayIndexAssignment
/// | FunctionCall
#[allow(inconsistent_fields)]
pub enum Statement {
    If(Box<If>),
    Print { expr: Option<Expr>, newline: bool },
    Return,
    ReturnExpr(Expr),
    VarAssignment { id: String, expr: Expr, global: bool },
    ArrayInstantiation {
        id: String,
        size: Option<Expr>,
        elements: Option<Vec<Expr>>,
        global: bool,
    },
    ArrayIndexAssignment { id: String, index: Expr, expr: Expr },
    While { cond: Expr, stmts: Vec<Statement> },
    FunctionCall(FunctionCall),
}

/// If:
/// | IF Expr Statement
pub struct If {
    pub expr: Expr,
    pub stmts: Vec<Statement>,
}

/// Expr:
/// | bool
/// | string
/// | int
/// | array subscript
/// | Variable
/// | binary expression
/// | function call
pub enum Expr {
    BoolLit(bool),
    StringLit(String),
    IntLit(u32),
    ArrayIndex { id: String, expr: Box<Expr> },
    Variable { id: String },
    BinExpr(Box<BinExpr>),
    FunctionCall(FunctionCall),
}

pub struct BinExpr {
    pub op1: Expr,
    pub op2: Expr,
    pub binop: BinOp,
}

pub enum BinOp {
    Plus,
    Minus,
    Div,
    Mul,
    Less,
    LessOrEqual,
    Greater,
    GreaterOrEqual,
    Equal,
    NotEqual,
    Or,
    And,
}

pub struct FunctionCall {
    pub id: String,
    pub args: Vec<Expr>,
}

} // verus!
