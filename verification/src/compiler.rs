//! The code generator: walks the abstract syntax tree, resolves names to
//! storage slots, computes branch and call addresses, and emits the flat
//! instruction stream.
//!
//! Name resolution is specified by a family of spec functions
//! ([`expr_err`], [`stmt_err`], [`program_err`]) that give, for every tree
//! and every resolution context, the first error the walk meets, if any;
//! each `code_gen` returns `Ok` exactly when that family reports none.
//! The emitted words themselves are specified by a second family
//! ([`emit_expr`], [`emit_stmt`], [`emit_program`]) over the assigned
//! slots and addresses ([`SlotModel`], [`gscan`], [`fn_addr_map`]): on
//! success each `code_gen` returns exactly that word sequence, so
//! `compile` returns exactly `emit_program`.  Emitted code is also well
//! formed ([`code_ok`]): it splits into whole instructions, and every
//! branch target or callee address it embeds lies within the stated
//! bound — for a whole program, within the program.

use crate::grammar::{
    BinExpr, BinOp, Expr, FunctionCall, FunctionDefinition, If, Program, Statement,
};
use crate::instructions::{
    code_ok, lemma_code_ok_call, lemma_code_ok_concat, lemma_code_ok_one, lemma_code_ok_two,
    AND, BEQZ, CALL, END, EQ, GLOBAL_ARR_LOAD,
    GLOBAL_ARR_STORE, GLOBAL_LOAD, GLOBAL_STORE, GT, GTE, IADD, IDIV, IMUL, ISUB, JUMP,
    LOCAL_ARR_LOAD, LOCAL_ARR_STORE, LOCAL_LOAD, LOCAL_STORE, LT, LTE, NEQ, OR, POP, PRINT, PUSH,
    RET,
};
use vstd::prelude::*;

verus! {

/// The compile-time failure taxonomy.  Compilation aborts on the first
/// occurrence; no partial bytecode is usable.
#[derive(Clone, Copy, Debug, PartialEq, Eq, Structural)]
pub enum CompileError {
    /// Two function definitions share a name.
    DuplicateFunction,
    /// A call names a function that is not in the function table at the
    /// point the call is compiled.
    UndefinedFunction,
    /// A name in an expression or assignment resolves to no storage slot.
    UndefinedVariable,
    /// No function is named `main`.
    MissingEntryPoint,
    /// An array literal's length differs from the declared size.
    ArraySizeMismatch,
}

/// Denote between global and local variables during code generation.
#[derive(Clone, Copy, Debug, PartialEq, Eq, Structural)]
pub enum ScopeType {
    Global,
    Local,
}

/// Relies on str's PartialEq: two string slices are equal exactly when
/// their character sequences are.
#[verifier::external_body]
fn str_eq(a: &str, b: &str) -> (r: bool)
    ensures
        r == (a@ == b@),
{
    a == b
}

/// The mapping an association list denotes: a later entry for the same
/// name overrides an earlier one.
pub open spec fn table_map(s: Seq<(String, usize)>) -> Map<Seq<char>, usize>
    decreases s.len(),
{
    if s.len() == 0 {
        Map::empty()
    } else {
        table_map(s.drop_last()).insert(s.last().0@, s.last().1)
    }
}

/// Entries from position `i` on say nothing about `k`, so the denoted
/// mapping at `k` is decided by the prefix.
proof fn lemma_table_map_prefix(s: Seq<(String, usize)>, k: Seq<char>, i: int)
    requires
        0 <= i <= s.len(),
        forall|j: int| i <= j < s.len() ==> s[j].0@ != k,
    ensures
        table_map(s).dom().contains(k) == table_map(s.take(i)).dom().contains(k),
        table_map(s).dom().contains(k) ==> table_map(s)[k] == table_map(s.take(i))[k],
    decreases s.len() - i,
{
    if i == s.len() {
        assert(s.take(i) =~= s);
    } else {
        assert(s.take(s.len() - 1) =~= s.drop_last());
        lemma_table_map_prefix(s.drop_last(), k, i);
        assert(s.drop_last().take(i) =~= s.take(i));
    }
}

/// A name-to-slot table: an ordered association list together with the
/// next free slot index.
pub struct VarTable {
    pub vars: Vec<(String, usize)>,
    pub size: usize,
}

impl VarTable {
    /// The mapping the table denotes.
    pub open spec fn map(&self) -> Map<Seq<char>, usize> {
        table_map(self.vars@)
    }

    pub fn new() -> (t: VarTable)
        ensures
            t.map() == Map::<Seq<char>, usize>::empty(),
            t.size == 0,
    {
        let t = VarTable { vars: Vec::new(), size: 0 };
        proof {
            assert(t.vars@.len() == 0);
        }
        t
    }

    /// Look a name up; the last entry for it wins, as successive inserts
    /// into a map would have it.
    pub fn find(&self, name: &str) -> (r: Option<usize>)
        ensures
            r == (if self.map().dom().contains(name@) {
                Some(self.map()[name@])
            } else {
                None::<usize>
            }),
    {
        let mut i: usize = self.vars.len();
        while i > 0
            invariant
                i <= self.vars@.len(),
                forall|j: int| i <= j < self.vars@.len() ==> self.vars@[j].0@ != name@,
            decreases i,
        {
            i = i - 1;
            if str_eq(self.vars[i].0.as_str(), name) {
                proof {
                    lemma_table_map_prefix(self.vars@, name@, i + 1);
                    assert(self.vars@.take(i + 1).drop_last() =~= self.vars@.take(i as int));
                    assert(self.vars@.take(i + 1).last() == self.vars@[i as int]);
                }
                return Some(self.vars[i].1);
            }
        }
        proof {
            lemma_table_map_prefix(self.vars@, name@, 0);
            assert(self.vars@.take(0) =~= Seq::<(String, usize)>::empty());
        }
        None
    }

    /// Append an entry for a name; it overrides any earlier entry.
    pub fn insert(&mut self, name: String, slot: usize)
        ensures
            final(self).map() == old(self).map().insert(name@, slot),
            final(self).size == old(self).size,
    {
        let ghost pre = self.vars@;
        self.vars.push((name, slot));
        proof {
            assert(self.vars@.drop_last() =~= pre);
        }
    }
}

/// Compile-time context threaded through code generation.
pub struct CompilerContext {
    /// Table of function names and their addresses.
    pub fn_table: VarTable,
    /// A frame-based stack of slot tables for local variables.
    pub local_var_scope: Vec<VarTable>,
    /// Global variable slots, assigned by the pre-scan.
    pub global_vars: VarTable,
    /// The last word index of the program under generation.  The address
    /// pre-pass sets it; every registered function address lies at or
    /// below it, and it fits the machine's 32-bit word range.
    pub addr_limit: usize,
}

/// The part of the context that decides name resolution: which names are
/// known, in each of the three namespaces.
pub struct CtxModel {
    pub fns: Set<Seq<char>>,
    pub globals: Set<Seq<char>>,
    pub locals: Set<Seq<char>>,
}

impl CompilerContext {
    pub open spec fn fn_map(&self) -> Map<Seq<char>, usize> {
        self.fn_table.map()
    }

    pub open spec fn globals_map(&self) -> Map<Seq<char>, usize> {
        self.global_vars.map()
    }

    /// The active (innermost) scope's mapping.
    pub open spec fn cur_locals(&self) -> Map<Seq<char>, usize>
        recommends
            self.local_var_scope@.len() > 0,
    {
        self.local_var_scope@.last().map()
    }

    /// What name resolution sees of this context.
    pub open spec fn model(&self) -> CtxModel {
        CtxModel {
            fns: self.fn_map().dom(),
            globals: self.globals_map().dom(),
            locals: self.cur_locals().dom(),
        }
    }

    /// What emission sees of this context: the assigned addresses and
    /// slots, and the active scope's next free slot.
    pub open spec fn slots(&self) -> SlotModel
        recommends
            self.local_var_scope@.len() > 0,
    {
        SlotModel {
            fns: self.fn_map(),
            globals: self.globals_map(),
            locals: self.cur_locals(),
            cursor: self.local_var_scope@.last().size as nat,
        }
    }

    /// Every registered function address is at most `b`.
    pub open spec fn fns_bounded(&self, b: int) -> bool {
        forall|k: Seq<char>| #[trigger]
            self.fn_map().dom().contains(k) ==> self.fn_map()[k] <= b
    }

    /// Every registered function address lies within the program's
    /// address space, which itself fits the 32-bit word range.
    pub open spec fn limit_ok(&self) -> bool {
        self.fns_bounded(self.addr_limit as int) && self.addr_limit <= u32::MAX
    }

    pub fn new() -> (c: CompilerContext)
        ensures
            c.fn_map() == Map::<Seq<char>, usize>::empty(),
            c.globals_map() == Map::<Seq<char>, usize>::empty(),
            c.fn_table.size == 0,
            c.global_vars.size == 0,
            c.local_var_scope@.len() == 0,
            c.addr_limit == 0,
    {
        CompilerContext {
            fn_table: VarTable::new(),
            local_var_scope: Vec::new(),
            global_vars: VarTable::new(),
            addr_limit: 0,
        }
    }

    /// Search both variable namespaces for an id, the active scope first,
    /// then the globals.
    pub fn find_var_index(&self, var_name: &str) -> (r: Result<(ScopeType, usize), CompileError>)
        requires
            self.local_var_scope@.len() > 0,
        ensures
            r == (if self.cur_locals().dom().contains(var_name@) {
                Ok::<(ScopeType, usize), CompileError>(
                    (ScopeType::Local, self.cur_locals()[var_name@]),
                )
            } else if self.globals_map().dom().contains(var_name@) {
                Ok::<(ScopeType, usize), CompileError>(
                    (ScopeType::Global, self.globals_map()[var_name@]),
                )
            } else {
                Err::<(ScopeType, usize), CompileError>(CompileError::UndefinedVariable)
            }),
    {
        if let Ok(index) = self.find_local_var_index(var_name) {
            return Ok((ScopeType::Local, index));
        }
        if let Ok(index) = self.find_global_var_index(var_name) {
            return Ok((ScopeType::Global, index));
        }
        Err(CompileError::UndefinedVariable)
    }

    /// Search the active frame's local variable table for an id.
    pub fn find_local_var_index(&self, var_name: &str) -> (r: Result<usize, CompileError>)
        requires
            self.local_var_scope@.len() > 0,
        ensures
            r == (if self.cur_locals().dom().contains(var_name@) {
                Ok::<usize, CompileError>(self.cur_locals()[var_name@])
            } else {
                Err::<usize, CompileError>(CompileError::UndefinedVariable)
            }),
    {
        match self.local_var_scope[self.local_var_scope.len() - 1].find(var_name) {
            Some(index) => Ok(index),
            None => Err(CompileError::UndefinedVariable),
        }
    }

    /// Search the global variable table for an id.
    pub fn find_global_var_index(&self, var_name: &str) -> (r: Result<usize, CompileError>)
        ensures
            r == (if self.globals_map().dom().contains(var_name@) {
                Ok::<usize, CompileError>(self.globals_map()[var_name@])
            } else {
                Err::<usize, CompileError>(CompileError::UndefinedVariable)
            }),
    {
        match self.global_vars.find(var_name) {
            Some(index) => Ok(index),
            None => Err(CompileError::UndefinedVariable),
        }
    }
}

pub open spec fn with_locals(m: CtxModel, l: Set<Seq<char>>) -> CtxModel {
    CtxModel { locals: l, ..m }
}

/// A variable use resolves in the active scope first, then the globals.
pub open spec fn lookup_var(m: CtxModel, id: Seq<char>) -> bool {
    m.locals.contains(id) || m.globals.contains(id)
}

/// The first resolution error an expression walk meets, if any.  Operands
/// of a binary expression are walked right first, then left, the order
/// they are compiled in; call arguments rightmost first.
pub open spec fn expr_err(e: Expr, m: CtxModel) -> Option<CompileError>
    decreases e,
{
    match e {
        Expr::BoolLit(_) => None,
        Expr::StringLit(_) => None,
        Expr::IntLit(_) => None,
        Expr::ArrayIndex { id, expr } => if !lookup_var(m, id@) {
            Some(CompileError::UndefinedVariable)
        } else {
            expr_err(*expr, m)
        },
        Expr::Variable { id } => if lookup_var(m, id@) {
            None
        } else {
            Some(CompileError::UndefinedVariable)
        },
        Expr::BinExpr(be) => if expr_err(be.op2, m) is Some {
            expr_err(be.op2, m)
        } else {
            expr_err(be.op1, m)
        },
        Expr::FunctionCall(fc) => call_err(fc, m),
    }
}

/// Arguments are compiled rightmost first; the callee must already stand
/// in the function table.
pub open spec fn call_err(fc: FunctionCall, m: CtxModel) -> Option<CompileError>
    decreases fc,
{
    match args_err_rev(fc.args@, m) {
        Some(e) => Some(e),
        None => if m.fns.contains(fc.id@) {
            None
        } else {
            Some(CompileError::UndefinedFunction)
        },
    }
}

pub open spec fn args_err_rev(args: Seq<Expr>, m: CtxModel) -> Option<CompileError>
    decreases args,
{
    if args.len() == 0 {
        None
    } else {
        match expr_err(args[args.len() - 1], m) {
            Some(e) => Some(e),
            None => args_err_rev(args.subrange(0, args.len() - 1), m),
        }
    }
}

pub open spec fn exprs_err_fwd(es: Seq<Expr>, m: CtxModel) -> Option<CompileError>
    decreases es,
{
    if es.len() == 0 {
        None
    } else {
        match expr_err(es[0], m) {
            Some(e) => Some(e),
            None => exprs_err_fwd(es.subrange(1, es.len() as int), m),
        }
    }
}

/// The first resolution error a statement walk meets, in compilation
/// order.
pub open spec fn stmt_err(s: Statement, m: CtxModel) -> Option<CompileError>
    decreases s,
{
    match s {
        Statement::Print { expr, .. } => match expr {
            Some(e) => expr_err(e, m),
            None => None,
        },
        Statement::Return => None,
        Statement::ReturnExpr(e) => expr_err(e, m),
        Statement::VarAssignment { id, expr, global } => match expr_err(expr, m) {
            Some(e) => Some(e),
            None => if global && !m.globals.contains(id@) {
                Some(CompileError::UndefinedVariable)
            } else {
                None
            },
        },
        Statement::ArrayIndexAssignment { id, index, expr } => match expr_err(expr, m) {
            Some(e) => Some(e),
            None => match expr_err(index, m) {
                Some(e) => Some(e),
                None => if lookup_var(m, id@) {
                    None
                } else {
                    Some(CompileError::UndefinedVariable)
                },
            },
        },
        Statement::ArrayInstantiation { id, size, elements, global } => match size {
            Some(Expr::IntLit(n)) => if (match elements {
                Some(es) => es@.len() != n as nat,
                None => false,
            }) {
                Some(CompileError::ArraySizeMismatch)
            } else if global && !m.globals.contains(id@) {
                Some(CompileError::UndefinedVariable)
            } else {
                let m2 = if global {
                    m
                } else {
                    with_locals(m, m.locals.insert(id@))
                };
                match elements {
                    Some(es) => exprs_err_fwd(es@, m2),
                    None => None,
                }
            },
            _ => None,
        },
        Statement::If(b) => match expr_err(b.expr, m) {
            Some(e) => Some(e),
            None => stmts_err(b.stmts@, m),
        },
        Statement::While { cond, stmts } => match expr_err(cond, m) {
            Some(e) => Some(e),
            None => stmts_err(stmts@, m),
        },
        Statement::FunctionCall(fc) => call_err(fc, m),
    }
}

/// The names the active scope knows after a statement: assignments and
/// array declarations allocate a local slot on first sight.
pub open spec fn stmt_locals(s: Statement, m: CtxModel) -> Set<Seq<char>>
    decreases s,
{
    match s {
        Statement::VarAssignment { id, global, .. } => if global {
            m.locals
        } else {
            m.locals.insert(id@)
        },
        Statement::ArrayInstantiation { id, size, global, .. } => match size {
            Some(Expr::IntLit(_)) => if global {
                m.locals
            } else {
                m.locals.insert(id@)
            },
            _ => m.locals,
        },
        Statement::If(b) => stmts_locals(b.stmts@, m),
        Statement::While { stmts, .. } => stmts_locals(stmts@, m),
        _ => m.locals,
    }
}

pub open spec fn stmts_err(stmts: Seq<Statement>, m: CtxModel) -> Option<CompileError>
    decreases stmts,
{
    if stmts.len() == 0 {
        None
    } else {
        match stmt_err(stmts[0], m) {
            Some(e) => Some(e),
            None => stmts_err(
                stmts.subrange(1, stmts.len() as int),
                with_locals(m, stmt_locals(stmts[0], m)),
            ),
        }
    }
}

pub open spec fn stmts_locals(stmts: Seq<Statement>, m: CtxModel) -> Set<Seq<char>>
    decreases stmts,
{
    if stmts.len() == 0 {
        m.locals
    } else {
        stmts_locals(
            stmts.subrange(1, stmts.len() as int),
            with_locals(m, stmt_locals(stmts[0], m)),
        )
    }
}

/// Parameter `i` occupies slot `i`; a repeated name keeps the later slot.
pub open spec fn params_set(args: Seq<String>) -> Set<Seq<char>>
    decreases args.len(),
{
    if args.len() == 0 {
        Set::empty()
    } else {
        params_set(args.drop_last()).insert(args.last()@)
    }
}

/// The first resolution error in a function's body, checked with the
/// parameters as the starting scope against the full function table, so
/// recursion and forward references resolve alike.
pub open spec fn fn_body_err(
    d: FunctionDefinition,
    fns: Set<Seq<char>>,
    globals: Set<Seq<char>>,
) -> Option<CompileError>
    decreases d,
{
    stmts_err(d.body@, CtxModel { fns, globals, locals: params_set(d.args@) })
}

/// The first repeated function name over the definitions, in
/// declaration order, found by the address pre-pass before any body is
/// checked.
pub open spec fn dup_err(defs: Seq<FunctionDefinition>, declared: Set<Seq<char>>) -> Option<
    CompileError,
>
    decreases defs,
{
    if defs.len() == 0 {
        None
    } else if declared.contains(defs[0].id@) {
        Some(CompileError::DuplicateFunction)
    } else {
        dup_err(defs.subrange(1, defs.len() as int), declared.insert(defs[0].id@))
    }
}

/// The first body error over the definitions, in declaration order.  The
/// function table is complete before any body is checked, so a call
/// resolves regardless of declaration order.
pub open spec fn bodies_err(
    defs: Seq<FunctionDefinition>,
    fns: Set<Seq<char>>,
    globals: Set<Seq<char>>,
) -> Option<CompileError>
    decreases defs,
{
    if defs.len() == 0 {
        None
    } else {
        match fn_body_err(defs[0], fns, globals) {
            Some(e) => Some(e),
            None => bodies_err(defs.subrange(1, defs.len() as int), fns, globals),
        }
    }
}

pub open spec fn names_set(defs: Seq<FunctionDefinition>) -> Set<Seq<char>>
    decreases defs.len(),
{
    if defs.len() == 0 {
        Set::empty()
    } else {
        names_set(defs.drop_last()).insert(defs.last().id@)
    }
}

/// What one top-level statement contributes to the global pre-scan: an
/// assignment takes the next slot; a sized array declaration takes the
/// next slot and advances the cursor by its size.
pub open spec fn gscan_stmt(s: Statement, acc: (Map<Seq<char>, usize>, nat)) -> (
    Map<Seq<char>, usize>,
    nat,
) {
    match s {
        Statement::VarAssignment { id, global, .. } => if global {
            (acc.0.insert(id@, acc.1 as usize), sat_usize(acc.1 + 1 as int))
        } else {
            acc
        },
        Statement::ArrayInstantiation { id, size, global, .. } => match size {
            Some(Expr::IntLit(n)) => if global {
                (acc.0.insert(id@, acc.1 as usize), sat_usize(acc.1 + n as int))
            } else {
                acc
            },
            _ => acc,
        },
        _ => acc,
    }
}

pub open spec fn gscan_stmts(stmts: Seq<Statement>, acc: (Map<Seq<char>, usize>, nat)) -> (
    Map<Seq<char>, usize>,
    nat,
)
    decreases stmts.len(),
{
    if stmts.len() == 0 {
        acc
    } else {
        gscan_stmt(stmts.last(), gscan_stmts(stmts.drop_last(), acc))
    }
}

pub open spec fn gscan_defs(defs: Seq<FunctionDefinition>, acc: (Map<Seq<char>, usize>, nat)) -> (
    Map<Seq<char>, usize>,
    nat,
)
    decreases defs.len(),
{
    if defs.len() == 0 {
        acc
    } else {
        gscan_stmts(defs.last().body@, gscan_defs(defs.drop_last(), acc))
    }
}

/// The global slot table the pre-scan builds: every top-level global
/// assignment or sized global array declaration, over the whole program
/// in scan order, and the cursor after them.
pub open spec fn gscan(p: Program) -> (Map<Seq<char>, usize>, nat) {
    gscan_defs(p.0@, (Map::<Seq<char>, usize>::empty(), 0nat))
}

/// The names the pre-scan knows: what global resolution checks against.
pub open spec fn prescan_globals(p: Program) -> Set<Seq<char>> {
    gscan(p).0.dom()
}

/// The first error of the whole compilation: a repeated name from the
/// address pre-pass, else the first body error in declaration order, else
/// the entry-point check.
pub open spec fn program_err(p: Program) -> Option<CompileError> {
    match dup_err(p.0@, Set::empty()) {
        Some(e) => Some(e),
        None => match bodies_err(p.0@, names_set(p.0@), prescan_globals(p)) {
            Some(e) => Some(e),
            None => if names_set(p.0@).contains("main"@) {
                None
            } else {
                Some(CompileError::MissingEntryPoint)
            },
        },
    }
}

/// Number of words an expression compiles to.
pub open spec fn expr_size(e: Expr) -> nat
    decreases e,
{
    match e {
        Expr::BoolLit(_) => 2,
        Expr::StringLit(_) => 2,
        Expr::IntLit(_) => 2,
        Expr::ArrayIndex { expr, .. } => 3 + expr_size(*expr),
        Expr::Variable { .. } => 2,
        Expr::BinExpr(be) => expr_size(be.op2) + expr_size(be.op1) + 1,
        Expr::FunctionCall(fc) => args_sizes(fc.args@) + 3,
    }
}

pub open spec fn args_sizes(args: Seq<Expr>) -> nat
    decreases args,
{
    if args.len() == 0 {
        0
    } else {
        args_sizes(args.subrange(0, args.len() - 1)) + expr_size(args[args.len() - 1])
    }
}

/// Each element store is the element's words plus a two-word store.
pub open spec fn elems_size(es: Seq<Expr>) -> nat
    decreases es,
{
    if es.len() == 0 {
        0
    } else {
        elems_size(es.subrange(0, es.len() - 1)) + expr_size(es[es.len() - 1]) + 2
    }
}

/// Number of words a statement compiles to.
pub open spec fn stmt_size(s: Statement) -> nat
    decreases s,
{
    match s {
        Statement::Print { expr, newline } => (match expr {
            Some(e) => expr_size(e) + 2,
            None => 0,
        }) + (if newline {
            4nat
        } else {
            0nat
        }),
        Statement::Return => 3,
        Statement::ReturnExpr(e) => expr_size(e) + 1,
        Statement::VarAssignment { expr, .. } => expr_size(expr) + 2,
        Statement::ArrayIndexAssignment { index, expr, .. } => expr_size(expr) + expr_size(index)
            + 3,
        Statement::ArrayInstantiation { size, elements, .. } => match size {
            Some(Expr::IntLit(n)) => match elements {
                Some(es) => elems_size(es@),
                None => 4 * (n as nat),
            },
            _ => 0,
        },
        Statement::If(b) => expr_size(b.expr) + 2 + stmts_size(b.stmts@),
        Statement::While { cond, stmts } => expr_size(cond) + 2 + stmts_size(stmts@) + 2,
        Statement::FunctionCall(fc) => args_sizes(fc.args@) + 4,
    }
}

pub open spec fn stmts_size(stmts: Seq<Statement>) -> nat
    decreases stmts,
{
    if stmts.len() == 0 {
        0
    } else {
        stmt_size(stmts[0]) + stmts_size(stmts.subrange(1, stmts.len() as int))
    }
}

/// A function's words: its statements and the implicit bare return at
/// the end — a defined zero, then the return, so that a caller that
/// consumes a return value never underflows when the body falls off its
/// end.
pub open spec fn fn_size(d: FunctionDefinition) -> nat {
    stmts_size(d.body@) + 3
}

pub open spec fn fns_size(defs: Seq<FunctionDefinition>) -> nat
    decreases defs,
{
    if defs.len() == 0 {
        0
    } else {
        fn_size(defs[0]) + fns_size(defs.subrange(1, defs.len() as int))
    }
}

/// A program's words: the four-word bootstrap preamble and every function.
pub open spec fn program_size(p: Program) -> nat {
    4 + fns_size(p.0@)
}

/// Extending a statement prefix by one statement adds that statement's
/// words.
proof fn lemma_stmts_size_snoc(s: Seq<Statement>, i: int)
    requires
        0 <= i < s.len(),
    ensures
        stmts_size(s.subrange(0, i + 1)) == stmts_size(s.subrange(0, i)) + stmt_size(s[i]),
    decreases i,
{
    if i == 0 {
        assert(s.subrange(0, 1)[0] == s[0]);
        assert(s.subrange(0, 1).subrange(1, 1) =~= Seq::<Statement>::empty());
        assert(s.subrange(0, 0) =~= Seq::<Statement>::empty());
    } else {
        let t = s.subrange(1, s.len() as int);
        lemma_stmts_size_snoc(t, i - 1);
        assert(s.subrange(0, i + 1)[0] == s[0]);
        assert(s.subrange(0, i + 1).subrange(1, i + 1) =~= t.subrange(0, i));
        assert(s.subrange(0, i)[0] == s[0]);
        assert(s.subrange(0, i).subrange(1, i) =~= t.subrange(0, i - 1));
        assert(t[i - 1] == s[i]);
    }
}

/// Extending a definition prefix by one definition adds that function's
/// words.
proof fn lemma_fns_size_snoc(s: Seq<FunctionDefinition>, i: int)
    requires
        0 <= i < s.len(),
    ensures
        fns_size(s.subrange(0, i + 1)) == fns_size(s.subrange(0, i)) + fn_size(s[i]),
    decreases i,
{
    if i == 0 {
        assert(s.subrange(0, 1)[0] == s[0]);
        assert(s.subrange(0, 1).subrange(1, 1) =~= Seq::<FunctionDefinition>::empty());
        assert(s.subrange(0, 0) =~= Seq::<FunctionDefinition>::empty());
    } else {
        let t = s.subrange(1, s.len() as int);
        lemma_fns_size_snoc(t, i - 1);
        assert(s.subrange(0, i + 1)[0] == s[0]);
        assert(s.subrange(0, i + 1).subrange(1, i + 1) =~= t.subrange(0, i));
        assert(s.subrange(0, i)[0] == s[0]);
        assert(s.subrange(0, i).subrange(1, i) =~= t.subrange(0, i - 1));
        assert(t[i - 1] == s[i]);
    }
}

/// A definition sequence's words split at any point into the prefix's
/// and the suffix's.
proof fn lemma_fns_size_split(s: Seq<FunctionDefinition>, j: int)
    requires
        0 <= j <= s.len(),
    ensures
        fns_size(s) == fns_size(s.subrange(0, j)) + fns_size(s.subrange(j, s.len() as int)),
    decreases j,
{
    if j == 0 {
        assert(s.subrange(0, 0) =~= Seq::<FunctionDefinition>::empty());
        assert(s.subrange(0, s.len() as int) =~= s);
    } else {
        lemma_fns_size_split(s, j - 1);
        lemma_fns_size_snoc(s, j - 1);
        let t = s.subrange(j - 1, s.len() as int);
        assert(t[0] == s[j - 1]);
        assert(t.subrange(1, t.len() as int) =~= s.subrange(j, s.len() as int));
    }
}

/// A count clipped to the 64-bit range: what the size pass computes for
/// trees whose exact word count exceeds it (such a program can never fit
/// the machine's address space anyway).
pub open spec fn cap_u64(x: int) -> int {
    if x > u64::MAX as int {
        u64::MAX as int
    } else {
        x
    }
}

fn sat_add_u64(a: u64, b: u64) -> (r: u64)
    ensures
        r as int == cap_u64(a as int + b as int),
{
    if a <= u64::MAX - b {
        a + b
    } else {
        u64::MAX
    }
}

/// The words an expression will compile to, computed without emitting.
fn size_of_expr(e: &Expr) -> (n: u64)
    ensures
        n as int == cap_u64(expr_size(*e) as int),
    decreases *e,
{
    match e {
        Expr::BoolLit(_) => 2,
        Expr::StringLit(_) => 2,
        Expr::IntLit(_) => 2,
        Expr::ArrayIndex { expr, .. } => sat_add_u64(size_of_expr(expr), 3),
        Expr::Variable { .. } => 2,
        Expr::BinExpr(be) => sat_add_u64(
            sat_add_u64(size_of_expr(&be.op2), size_of_expr(&be.op1)),
            1,
        ),
        Expr::FunctionCall(fc) => sat_add_u64(size_of_args(&fc.args), 3),
    }
}

fn size_of_args(args: &Vec<Expr>) -> (n: u64)
    ensures
        n as int == cap_u64(args_sizes(args@) as int),
    decreases *args,
{
    let ghost av = args@;
    let mut acc: u64 = 0;
    let mut i: usize = 0;
    proof {
        assert(av.subrange(0, 0) =~= Seq::<Expr>::empty());
    }
    while i < args.len()
        invariant
            i <= av.len(),
            av == args@,
            acc as int == cap_u64(args_sizes(av.subrange(0, i as int)) as int),
        decreases av.len() - i,
    {
        let s = size_of_expr(&args[i]);
        acc = sat_add_u64(acc, s);
        proof {
            assert(av.subrange(0, i + 1).subrange(0, i as int) =~= av.subrange(0, i as int));
            assert(av.subrange(0, i + 1)[i as int] == av[i as int]);
        }
        i = i + 1;
    }
    proof {
        assert(av.subrange(0, av.len() as int) =~= av);
    }
    acc
}

fn size_of_elems(es: &Vec<Expr>) -> (n: u64)
    ensures
        n as int == cap_u64(elems_size(es@) as int),
    decreases *es,
{
    let ghost ev = es@;
    let mut acc: u64 = 0;
    let mut i: usize = 0;
    proof {
        assert(ev.subrange(0, 0) =~= Seq::<Expr>::empty());
    }
    while i < es.len()
        invariant
            i <= ev.len(),
            ev == es@,
            acc as int == cap_u64(elems_size(ev.subrange(0, i as int)) as int),
        decreases ev.len() - i,
    {
        let s = size_of_expr(&es[i]);
        acc = sat_add_u64(acc, sat_add_u64(s, 2));
        proof {
            assert(ev.subrange(0, i + 1).subrange(0, i as int) =~= ev.subrange(0, i as int));
            assert(ev.subrange(0, i + 1)[i as int] == ev[i as int]);
        }
        i = i + 1;
    }
    proof {
        assert(ev.subrange(0, ev.len() as int) =~= ev);
    }
    acc
}

/// The words a statement will compile to, computed without emitting.
fn size_of_stmt(s: &Statement) -> (n: u64)
    ensures
        n as int == cap_u64(stmt_size(*s) as int),
    decreases *s, 1int,
{
    match s {
        Statement::Print { expr, newline } => {
            let base: u64 = match expr {
                Some(e) => sat_add_u64(size_of_expr(e), 2),
                None => 0,
            };
            if *newline {
                sat_add_u64(base, 4)
            } else {
                base
            }
        },
        Statement::Return => 3,
        Statement::ReturnExpr(e) => sat_add_u64(size_of_expr(e), 1),
        Statement::VarAssignment { expr, .. } => sat_add_u64(size_of_expr(expr), 2),
        Statement::ArrayIndexAssignment { index, expr, .. } => sat_add_u64(
            sat_add_u64(size_of_expr(expr), size_of_expr(index)),
            3,
        ),
        Statement::ArrayInstantiation { size, elements, .. } => match size {
            Some(Expr::IntLit(n)) => match elements {
                Some(es) => size_of_elems(es),
                None => 4 * (*n as u64),
            },
            _ => 0,
        },
        Statement::If(b) => sat_add_u64(
            sat_add_u64(size_of_expr(&b.expr), 2),
            size_of_stmts(&b.stmts),
        ),
        Statement::While { cond, stmts } => sat_add_u64(
            sat_add_u64(sat_add_u64(size_of_expr(cond), 2), size_of_stmts(stmts)),
            2,
        ),
        Statement::FunctionCall(fc) => sat_add_u64(size_of_args(&fc.args), 4),
    }
}

fn size_of_stmts(stmts: &Vec<Statement>) -> (n: u64)
    ensures
        n as int == cap_u64(stmts_size(stmts@) as int),
    decreases *stmts, 0int,
{
    let ghost sv = stmts@;
    let mut acc: u64 = 0;
    let mut i: usize = 0;
    proof {
        assert(sv.subrange(0, 0) =~= Seq::<Statement>::empty());
    }
    while i < stmts.len()
        invariant
            i <= sv.len(),
            sv == stmts@,
            acc as int == cap_u64(stmts_size(sv.subrange(0, i as int)) as int),
        decreases sv.len() - i,
    {
        let s = size_of_stmt(&stmts[i]);
        acc = sat_add_u64(acc, s);
        proof {
            lemma_stmts_size_snoc(sv, i as int);
        }
        i = i + 1;
    }
    proof {
        assert(sv.subrange(0, sv.len() as int) =~= sv);
    }
    acc
}

/// The words a function will compile to: its statements and the implicit
/// bare return.
fn size_of_fn(d: &FunctionDefinition) -> (n: u64)
    ensures
        n as int == cap_u64(fn_size(*d) as int),
{
    sat_add_u64(size_of_stmts(&d.body), 3)
}

/// The value an emitted operand word carries: an index or address beyond
/// the 32-bit word range has no representation and saturates.
pub open spec fn word32(x: int) -> u32 {
    if x <= u32::MAX as int {
        x as u32
    } else {
        u32::MAX
    }
}

/// A slot cursor clipped to the machine's pointer range, as the
/// slot-allocation code clips it.
pub open spec fn sat_usize(x: int) -> nat {
    if x > usize::MAX as int {
        usize::MAX as nat
    } else {
        x as nat
    }
}

/// The slot and address assignments that emission depends on.  Name
/// resolution needs only which names exist ([`CtxModel`]); the operand
/// words the code generator emits need their values: each function's
/// address, each global's slot, each local's slot, and the next free
/// local slot.
pub struct SlotModel {
    pub fns: Map<Seq<char>, usize>,
    pub globals: Map<Seq<char>, usize>,
    pub locals: Map<Seq<char>, usize>,
    pub cursor: nat,
}

/// Allocate one local slot at the cursor on first sight of a name.
pub open spec fn alloc_local_slots(v: SlotModel, id: Seq<char>) -> SlotModel {
    if v.locals.dom().contains(id) {
        v
    } else {
        SlotModel {
            locals: v.locals.insert(id, v.cursor as usize),
            cursor: sat_usize(v.cursor + 1 as int),
            ..v
        }
    }
}

/// Allocate a contiguous span of `n` local slots at the cursor on first
/// sight of an array name.
pub open spec fn alloc_span_slots(v: SlotModel, id: Seq<char>, n: nat) -> SlotModel {
    if v.locals.dom().contains(id) {
        v
    } else {
        SlotModel {
            locals: v.locals.insert(id, v.cursor as usize),
            cursor: sat_usize(v.cursor + n as int),
            ..v
        }
    }
}

/// Parameter `i` occupies slot `i`; a repeated name keeps the later slot.
pub open spec fn params_map(args: Seq<String>) -> Map<Seq<char>, usize>
    decreases args.len(),
{
    if args.len() == 0 {
        Map::empty()
    } else {
        params_map(args.drop_last()).insert(args.last()@, (args.len() - 1) as usize)
    }
}

/// How one statement moves the slot assignments: assignments and sized
/// array declarations allocate on first sight; branch and loop bodies
/// allocate into the same scope.
pub open spec fn stmt_slots(s: Statement, v: SlotModel) -> SlotModel
    decreases s,
{
    match s {
        Statement::VarAssignment { id, global, .. } => if global {
            v
        } else {
            alloc_local_slots(v, id@)
        },
        Statement::ArrayInstantiation { id, size, global, .. } => match size {
            Some(Expr::IntLit(n)) => if global {
                v
            } else {
                alloc_span_slots(v, id@, n as nat)
            },
            _ => v,
        },
        Statement::If(b) => stmts_slots(b.stmts@, v),
        Statement::While { stmts, .. } => stmts_slots(stmts@, v),
        _ => v,
    }
}

pub open spec fn stmts_slots(stmts: Seq<Statement>, v: SlotModel) -> SlotModel
    decreases stmts,
{
    if stmts.len() == 0 {
        v
    } else {
        stmts_slots(stmts.subrange(1, stmts.len() as int), stmt_slots(stmts[0], v))
    }
}

/// The operator word a binary operator compiles to.
pub open spec fn opcode_of(op: BinOp) -> u32 {
    match op {
        BinOp::Plus => IADD,
        BinOp::Minus => ISUB,
        BinOp::Mul => IMUL,
        BinOp::Div => IDIV,
        BinOp::Less => LT,
        BinOp::LessOrEqual => LTE,
        BinOp::Greater => GT,
        BinOp::GreaterOrEqual => GTE,
        BinOp::Equal => EQ,
        BinOp::NotEqual => NEQ,
        BinOp::Or => OR,
        BinOp::And => AND,
    }
}

/// The exact words an expression compiles to, leaving its value on top of
/// the data stack.
pub open spec fn emit_expr(e: Expr, v: SlotModel) -> Seq<u32>
    decreases e,
{
    match e {
        Expr::BoolLit(b) => seq![PUSH, if b { 1u32 } else { 0u32 }],
        Expr::StringLit(_) => seq![PUSH, 0u32],
        Expr::IntLit(n) => seq![PUSH, n],
        Expr::ArrayIndex { id, expr } => if v.locals.dom().contains(id@) {
            seq![PUSH, word32(v.locals[id@] as int)] + emit_expr(*expr, v) + seq![LOCAL_ARR_LOAD]
        } else {
            seq![PUSH, word32(v.globals[id@] as int)] + emit_expr(*expr, v) + seq![GLOBAL_ARR_LOAD]
        },
        Expr::Variable { id } => if v.locals.dom().contains(id@) {
            seq![LOCAL_LOAD, word32(v.locals[id@] as int)]
        } else {
            seq![GLOBAL_LOAD, word32(v.globals[id@] as int)]
        },
        Expr::BinExpr(be) => emit_expr(be.op2, v) + emit_expr(be.op1, v) + seq![
            opcode_of(be.binop),
        ],
        Expr::FunctionCall(fc) => emit_call(fc, v),
    }
}

/// The exact words of a call: the arguments rightmost first, then the
/// call against the function table's address.
pub open spec fn emit_call(fc: FunctionCall, v: SlotModel) -> Seq<u32>
    decreases fc,
{
    emit_args_rev(fc.args@, v) + seq![
        CALL,
        word32(fc.args@.len() as int),
        word32(v.fns[fc.id@] as int),
    ]
}

pub open spec fn emit_args_rev(args: Seq<Expr>, v: SlotModel) -> Seq<u32>
    decreases args,
{
    if args.len() == 0 {
        Seq::empty()
    } else {
        emit_expr(args[args.len() - 1], v) + emit_args_rev(args.subrange(0, args.len() - 1), v)
    }
}

/// The element stores of an array literal, in order: each element's words
/// and a store to the span's next slot.
pub open spec fn emit_elems(es: Seq<Expr>, v: SlotModel, base: int, opw: u32) -> Seq<u32>
    decreases es,
{
    if es.len() == 0 {
        Seq::empty()
    } else {
        emit_elems(es.subrange(0, es.len() - 1), v, base, opw) + emit_expr(es[es.len() - 1], v)
            + seq![opw, word32(base + es.len() - 1)]
    }
}

/// The default stores of an unsized array literal: `k` zeros into the
/// span's slots.
pub open spec fn emit_zeros(k: nat, base: int, opw: u32) -> Seq<u32>
    decreases k,
{
    if k == 0 {
        Seq::empty()
    } else {
        emit_zeros((k - 1) as nat, base, opw) + seq![PUSH, 0u32, opw, word32(base + k - 1)]
    }
}

/// The exact words an array declaration compiles to: element-by-element
/// stores into the allocated span, defaulting to zero; nothing when the
/// size is no integer constant.
pub open spec fn emit_arr(
    id: String,
    size: Option<Expr>,
    elements: Option<Vec<Expr>>,
    global: bool,
    v: SlotModel,
) -> Seq<u32> {
    match size {
        Some(Expr::IntLit(n)) => {
            let v2 = if global {
                v
            } else {
                alloc_span_slots(v, id@, n as nat)
            };
            let base = if global {
                v.globals[id@]
            } else {
                v2.locals[id@]
            };
            let opw = if global {
                GLOBAL_STORE
            } else {
                LOCAL_STORE
            };
            match elements {
                Some(es) => emit_elems(es@, v2, base as int, opw),
                None => emit_zeros(n as nat, base as int, opw),
            }
        },
        _ => Seq::empty(),
    }
}

/// The exact words of a conditional: the condition, a branch past the
/// body when it is zero, the body.
pub open spec fn emit_if(b: If, v: SlotModel, start: int) -> Seq<u32>
    decreases b, 0int,
{
    let c = emit_expr(b.expr, v);
    let body = emit_stmts(b.stmts@, v, start + c.len() + 2);
    c + seq![BEQZ, word32(start + c.len() + 2 + body.len())] + body
}

/// The exact words of a loop: the condition at the entry address, a
/// branch out on false to just past the construct, the body, a jump back.
pub open spec fn emit_while(cond: Expr, stmts: Seq<Statement>, v: SlotModel, start: int) -> Seq<
    u32,
>
    decreases stmts, 1int,
{
    let c = emit_expr(cond, v);
    let body = emit_stmts(stmts, v, start + c.len() + 2);
    c + seq![BEQZ, word32(start + c.len() + 2 + body.len() + 2)] + body + seq![
        JUMP,
        word32(start),
    ]
}

/// The exact words one statement compiles to at address `start`.
pub open spec fn emit_stmt(s: Statement, v: SlotModel, start: int) -> Seq<u32>
    decreases s, 2int,
{
    match s {
        Statement::Print { expr, newline } => (match expr {
            Some(e) => emit_expr(e, v) + seq![PRINT, 1u32],
            None => Seq::empty(),
        }) + (if newline {
            seq![PUSH, 10u32, PRINT, 2u32]
        } else {
            Seq::empty()
        }),
        Statement::Return => seq![PUSH, 0u32, RET],
        Statement::ReturnExpr(e) => emit_expr(e, v) + seq![RET],
        Statement::VarAssignment { id, expr, global } => emit_expr(expr, v) + (if global {
            seq![GLOBAL_STORE, word32(v.globals[id@] as int)]
        } else {
            seq![LOCAL_STORE, word32(alloc_local_slots(v, id@).locals[id@] as int)]
        }),
        Statement::ArrayIndexAssignment { id, index, expr } => emit_expr(expr, v) + emit_expr(
            index,
            v,
        ) + (if v.locals.dom().contains(id@) {
            seq![PUSH, word32(v.locals[id@] as int), LOCAL_ARR_STORE]
        } else {
            seq![PUSH, word32(v.globals[id@] as int), GLOBAL_ARR_STORE]
        }),
        Statement::ArrayInstantiation { id, size, elements, global } => emit_arr(
            id,
            size,
            elements,
            global,
            v,
        ),
        Statement::If(b) => emit_if(*b, v, start),
        Statement::While { cond, stmts } => emit_while(cond, stmts@, v, start),
        Statement::FunctionCall(fc) => emit_call(fc, v) + seq![POP],
    }
}


/// The exact words of a statement sequence, each statement at the running
/// length of what precedes it, the slot assignments threaded through.
pub open spec fn emit_stmts(stmts: Seq<Statement>, v: SlotModel, start: int) -> Seq<u32>
    decreases stmts, 0int,
{
    if stmts.len() == 0 {
        Seq::empty()
    } else {
        let c = emit_stmt(stmts[0], v, start);
        c + emit_stmts(
            stmts.subrange(1, stmts.len() as int),
            stmt_slots(stmts[0], v),
            start + c.len(),
        )
    }
}

/// The exact words of one function: its body compiled in a fresh scope
/// seeded with the parameters, then the implicit bare return.
pub open spec fn emit_fn(
    d: FunctionDefinition,
    fns: Map<Seq<char>, usize>,
    globals: Map<Seq<char>, usize>,
    start: int,
) -> Seq<u32> {
    emit_stmts(
        d.body@,
        SlotModel { fns, globals, locals: params_map(d.args@), cursor: d.args@.len() },
        start,
    ) + seq![PUSH, 0u32, RET]
}

pub open spec fn emit_fns(
    defs: Seq<FunctionDefinition>,
    fns: Map<Seq<char>, usize>,
    globals: Map<Seq<char>, usize>,
    start: int,
) -> Seq<u32>
    decreases defs,
{
    if defs.len() == 0 {
        Seq::empty()
    } else {
        let c = emit_fn(defs[0], fns, globals, start);
        c + emit_fns(defs.subrange(1, defs.len() as int), fns, globals, start + c.len())
    }
}

/// The address the pre-pass assigns each function: four words of preamble
/// plus every earlier function's words.
pub open spec fn fn_addr_map(defs: Seq<FunctionDefinition>) -> Map<Seq<char>, usize>
    decreases defs.len(),
{
    if defs.len() == 0 {
        Map::empty()
    } else {
        fn_addr_map(defs.drop_last()).insert(
            defs.last().id@,
            (4 + fns_size(defs.drop_last())) as usize,
        )
    }
}

/// The exact words of a whole program: the bootstrap preamble calling
/// `main`, then every function at its pre-assigned address.
pub open spec fn emit_program(p: Program) -> Seq<u32> {
    seq![CALL, 0u32, word32(fn_addr_map(p.0@)["main"@] as int), END] + emit_fns(
        p.0@,
        fn_addr_map(p.0@),
        gscan(p).0,
        4,
    )
}

/// An operand word for a slot index or address.  Slot numbers and
/// addresses beyond the 32-bit word range have no representation; such a
/// word saturates, which keeps it within any address bound the contracts
/// state.  In a program that fits the machine's address space every
/// emitted word is exact.
fn word_of(a: usize) -> (w: u32)
    ensures
        w == word32(a as int),
        w as int <= a as int,
{
    if a <= u32::MAX as usize {
        a as u32
    } else {
        u32::MAX
    }
}

impl Expr {
    /// Emit the words that leave this expression's value on top of the
    /// data stack.  The context only resolves names here; it never
    /// changes.  A string literal has no bytecode representation: it
    /// evaluates as the defined zero word, keeping expression positions
    /// stack-balanced.
    pub fn code_gen(&self, context: &mut CompilerContext, start_addr: usize) -> (r: Result<
        Vec<u32>,
        CompileError,
    >)
        requires
            old(context).local_var_scope@.len() > 0,
            old(context).limit_ok(),
        ensures
            *final(context) == *old(context),
            match r {
                Ok(code) => expr_err(*self, old(context).model()) is None && code@.len()
                    == expr_size(*self) && code_ok(code@, old(context).addr_limit as int)
                    && code@ == emit_expr(*self, old(context).slots()),
                Err(e) => expr_err(*self, old(context).model()) == Some(e),
            },
        decreases *self,
    {
        match self {
            Expr::IntLit(v) => {
                let mut code: Vec<u32> = Vec::new();
                code.push(PUSH);
                code.push(*v);
                proof {
                    assert(code@ =~= seq![PUSH, *v]);
                    lemma_code_ok_two(PUSH, *v, old(context).addr_limit as int);
                }
                Ok(code)
            },
            Expr::BoolLit(truthy) => {
                let w: u32 = if *truthy {
                    1
                } else {
                    0
                };
                let mut code: Vec<u32> = Vec::new();
                code.push(PUSH);
                code.push(w);
                proof {
                    assert(code@ =~= seq![PUSH, w]);
                    lemma_code_ok_two(PUSH, w, old(context).addr_limit as int);
                }
                Ok(code)
            },
            Expr::StringLit(_) => {
                let mut code: Vec<u32> = Vec::new();
                code.push(PUSH);
                code.push(0);
                proof {
                    assert(code@ =~= seq![PUSH, 0u32]);
                    lemma_code_ok_two(PUSH, 0u32, old(context).addr_limit as int);
                }
                Ok(code)
            },
            Expr::Variable { id } => {
                let (scope_type, index) = match context.find_var_index(id.as_str()) {
                    Ok(pair) => pair,
                    Err(e) => {
                        return Err(e);
                    },
                };
                let opw: u32 = match scope_type {
                    ScopeType::Global => GLOBAL_LOAD,
                    ScopeType::Local => LOCAL_LOAD,
                };
                let w = word_of(index);
                let mut code: Vec<u32> = Vec::new();
                code.push(opw);
                code.push(w);
                proof {
                    assert(code@ =~= seq![opw, w]);
                    lemma_code_ok_two(opw, w, old(context).addr_limit as int);
                }
                Ok(code)
            },
            Expr::ArrayIndex { id, expr } => {
                let (scope_type, index) = match context.find_var_index(id.as_str()) {
                    Ok(pair) => pair,
                    Err(e) => {
                        return Err(e);
                    },
                };
                let w = word_of(index);
                let mut code: Vec<u32> = Vec::new();
                code.push(PUSH);
                code.push(w);
                proof {
                    assert(code@ =~= seq![PUSH, w]);
                    lemma_code_ok_two(PUSH, w, old(context).addr_limit as int);
                }
                let mut sub = match expr.code_gen(context, start_addr) {
                    Ok(c) => c,
                    Err(e) => {
                        return Err(e);
                    },
                };
                let ghost pre = code@;
                let ghost subv = sub@;
                code.append(&mut sub);
                let opw: u32 = match scope_type {
                    ScopeType::Local => LOCAL_ARR_LOAD,
                    ScopeType::Global => GLOBAL_ARR_LOAD,
                };
                let ghost mid = code@;
                code.push(opw);
                proof {
                    lemma_code_ok_concat(pre, subv, old(context).addr_limit as int);
                    lemma_code_ok_one(opw, old(context).addr_limit as int);
                    lemma_code_ok_concat(mid, seq![opw], old(context).addr_limit as int);
                    assert(code@ =~= mid + seq![opw]);
                    assert(code@ =~= emit_expr(*self, old(context).slots()));
                }
                Ok(code)
            },
            Expr::BinExpr(bin_expr) => bin_expr.code_gen(context, start_addr),
            Expr::FunctionCall(func_call) => func_call.code_gen(context, start_addr),
        }
    }
}

impl BinExpr {
    /// Emit the right operand, then the left, then the operator word, so
    /// that at run time the left operand is popped first and
    /// non-commutative semantics are conventional.
    pub fn code_gen(&self, context: &mut CompilerContext, start_addr: usize) -> (r: Result<
        Vec<u32>,
        CompileError,
    >)
        requires
            old(context).local_var_scope@.len() > 0,
            old(context).limit_ok(),
        ensures
            *final(context) == *old(context),
            match r {
                Ok(code) => expr_err(self.op2, old(context).model()) is None && expr_err(
                    self.op1,
                    old(context).model(),
                ) is None && code@.len() == expr_size(self.op2) + expr_size(self.op1) + 1
                    && code_ok(code@, old(context).addr_limit as int) && code@ == emit_expr(
                    self.op2,
                    old(context).slots(),
                ) + emit_expr(self.op1, old(context).slots()) + seq![opcode_of(self.binop)],
                Err(e) => (if expr_err(self.op2, old(context).model()) is Some {
                    expr_err(self.op2, old(context).model()) == Some(e)
                } else {
                    expr_err(self.op1, old(context).model()) == Some(e)
                }),
            },
        decreases *self,
    {
        let mut code = match self.op2.code_gen(context, start_addr) {
            Ok(c) => c,
            Err(e) => {
                return Err(e);
            },
        };
        let mut left = match self.op1.code_gen(context, start_addr) {
            Ok(c) => c,
            Err(e) => {
                return Err(e);
            },
        };
        let ghost rightv = code@;
        let ghost leftv = left@;
        code.append(&mut left);
        let opw: u32 = match self.binop {
            BinOp::Plus => IADD,
            BinOp::Minus => ISUB,
            BinOp::Mul => IMUL,
            BinOp::Div => IDIV,
            BinOp::Less => LT,
            BinOp::LessOrEqual => LTE,
            BinOp::Greater => GT,
            BinOp::GreaterOrEqual => GTE,
            BinOp::Equal => EQ,
            BinOp::NotEqual => NEQ,
            BinOp::Or => OR,
            BinOp::And => AND,
        };
        let ghost mid = code@;
        code.push(opw);
        proof {
            lemma_code_ok_concat(rightv, leftv, old(context).addr_limit as int);
            lemma_code_ok_one(opw, old(context).addr_limit as int);
            lemma_code_ok_concat(mid, seq![opw], old(context).addr_limit as int);
            assert(code@ =~= mid + seq![opw]);
            assert(opw == opcode_of(self.binop));
        }
        Ok(code)
    }
}

impl FunctionCall {
    /// Emit every argument expression in reverse syntactic order, so the
    /// leftmost argument lands on top of the stack at the call site, then
    /// the call itself against the function table.
    pub fn code_gen(&self, context: &mut CompilerContext, start_addr: usize) -> (r: Result<
        Vec<u32>,
        CompileError,
    >)
        requires
            old(context).local_var_scope@.len() > 0,
            old(context).limit_ok(),
        ensures
            *final(context) == *old(context),
            match r {
                Ok(code) => call_err(*self, old(context).model()) is None && code@.len()
                    == args_sizes(self.args@) + 3 && code_ok(code@, old(context).addr_limit as int)
                    && code@ == emit_call(*self, old(context).slots()),
                Err(e) => call_err(*self, old(context).model()) == Some(e),
            },
        decreases *self,
    {
        let ghost ctx0 = *context;
        let ghost m0 = old(context).model();
        let ghost v0 = old(context).slots();
        let ghost argsv = self.args@;
        let mut code: Vec<u32> = Vec::new();
        let mut idx: usize = self.args.len();
        proof {
            assert(argsv.subrange(0, argsv.len() as int) =~= argsv);
        }
        while idx > 0
            invariant
                idx <= argsv.len(),
                argsv == self.args@,
                *context == ctx0,
                ctx0 == *old(context),
                m0 == old(context).model(),
                old(context).local_var_scope@.len() > 0,
                old(context).limit_ok(),
                args_err_rev(argsv, m0) == args_err_rev(argsv.subrange(0, idx as int), m0),
                v0 == old(context).slots(),
                code@ + emit_args_rev(argsv.subrange(0, idx as int), v0) == emit_args_rev(
                    argsv,
                    v0,
                ),
                code@.len() + args_sizes(argsv.subrange(0, idx as int)) == args_sizes(argsv),
                code_ok(code@, old(context).addr_limit as int),
            decreases idx,
        {
            idx = idx - 1;
            let mut sub = match self.args[idx].code_gen(context, start_addr) {
                Ok(c) => c,
                Err(e) => {
                    proof {
                        assert(argsv.subrange(0, idx + 1)[idx as int] == argsv[idx as int]);
                        assert(args_err_rev(argsv.subrange(0, idx + 1), m0) == Some(e));
                    }
                    return Err(e);
                },
            };
            let ghost pre = code@;
            let ghost subv = sub@;
            code.append(&mut sub);
            proof {
                lemma_code_ok_concat(pre, subv, old(context).addr_limit as int);
                assert(argsv.subrange(0, idx + 1)[idx as int] == argsv[idx as int]);
                assert(argsv.subrange(0, idx + 1).subrange(0, idx as int) =~= argsv.subrange(
                    0,
                    idx as int,
                ));
                assert(args_err_rev(argsv.subrange(0, idx + 1), m0) == args_err_rev(
                    argsv.subrange(0, idx as int),
                    m0,
                ));
                assert(args_sizes(argsv.subrange(0, idx + 1)) == args_sizes(
                    argsv.subrange(0, idx as int),
                ) + expr_size(argsv[idx as int]));
                assert((pre + subv) + emit_args_rev(argsv.subrange(0, idx as int), v0) =~= pre
                    + (subv + emit_args_rev(argsv.subrange(0, idx as int), v0)));
            }
        }
        proof {
            assert(argsv.subrange(0, 0) =~= Seq::<Expr>::empty());
            assert(code@ + Seq::<u32>::empty() =~= code@);
        }
        let fn_addr = match self.fn_table_lookup(context) {
            Some(addr) => addr,
            None => {
                return Err(CompileError::UndefinedFunction);
            },
        };
        let argcw = word_of(self.args.len());
        let addrw = word_of(fn_addr);
        let ghost mid = code@;
        code.push(CALL);
        code.push(argcw);
        code.push(addrw);
        proof {
            assert(old(context).fn_map().dom().contains(self.id@));
            lemma_code_ok_call(argcw, addrw, old(context).addr_limit as int);
            lemma_code_ok_concat(mid, seq![CALL, argcw, addrw], old(context).addr_limit as int);
            assert(code@ =~= mid + seq![CALL, argcw, addrw]);
            assert(mid == emit_args_rev(argsv, v0));
            assert(code@ =~= emit_call(*self, v0));
        }
        Ok(code)
    }

    /// Search the function table for this call's target address.
    fn fn_table_lookup(&self, context: &CompilerContext) -> (r: Option<usize>)
        ensures
            r == (if context.fn_map().dom().contains(self.id@) {
                Some(context.fn_map()[self.id@])
            } else {
                None::<usize>
            }),
    {
        context.fn_table.find(self.id.as_str())
    }
}

/// Find a local's slot, or allocate the next free one on first sight.
fn find_or_alloc_local(context: &mut CompilerContext, id: &String) -> (slot: usize)
    requires
        old(context).local_var_scope@.len() > 0,
    ensures
        final(context).fn_table == old(context).fn_table,
        final(context).global_vars == old(context).global_vars,
        final(context).addr_limit == old(context).addr_limit,
        final(context).local_var_scope@.len() == old(context).local_var_scope@.len(),
        final(context).local_var_scope@.drop_last() == old(context).local_var_scope@.drop_last(),
        final(context).cur_locals().dom() == old(context).cur_locals().dom().insert(id@),
        final(context).cur_locals().dom().contains(id@),
        final(context).slots() == alloc_local_slots(old(context).slots(), id@),
        slot == alloc_local_slots(old(context).slots(), id@).locals[id@],
{
    let ghost pre = context.local_var_scope@;
    match context.find_local_var_index(id.as_str()) {
        Ok(slot) => {
            proof {
                assert(old(context).cur_locals().dom().insert(id@) =~= old(context).cur_locals().dom());
            }
            slot
        },
        Err(_) => {
            let mut scope = context.local_var_scope.pop().unwrap();
            let slot = scope.size;
            scope.insert(id.clone(), slot);
            if scope.size < usize::MAX {
                scope.size = scope.size + 1;
            }
            context.local_var_scope.push(scope);
            proof {
                assert(context.local_var_scope@.drop_last() =~= pre.drop_last());
            }
            slot
        },
    }
}

/// Allocate a contiguous span of `n` local slots for an array, or find the
/// span's base if the name is already known.
fn find_or_alloc_local_span(context: &mut CompilerContext, id: &String, n: usize) -> (slot: usize)
    requires
        old(context).local_var_scope@.len() > 0,
    ensures
        final(context).fn_table == old(context).fn_table,
        final(context).global_vars == old(context).global_vars,
        final(context).addr_limit == old(context).addr_limit,
        final(context).local_var_scope@.len() == old(context).local_var_scope@.len(),
        final(context).local_var_scope@.drop_last() == old(context).local_var_scope@.drop_last(),
        final(context).cur_locals().dom() == old(context).cur_locals().dom().insert(id@),
        final(context).cur_locals().dom().contains(id@),
        final(context).slots() == alloc_span_slots(old(context).slots(), id@, n as nat),
        slot == alloc_span_slots(old(context).slots(), id@, n as nat).locals[id@],
{
    let ghost pre = context.local_var_scope@;
    match context.find_local_var_index(id.as_str()) {
        Ok(slot) => {
            proof {
                assert(old(context).cur_locals().dom().insert(id@) =~= old(context).cur_locals().dom());
            }
            slot
        },
        Err(_) => {
            let mut scope = context.local_var_scope.pop().unwrap();
            let slot = scope.size;
            scope.insert(id.clone(), slot);
            if scope.size <= usize::MAX - n {
                scope.size = scope.size + n;
            } else {
                scope.size = usize::MAX;
            }
            context.local_var_scope.push(scope);
            proof {
                assert(context.local_var_scope@.drop_last() =~= pre.drop_last());
            }
            slot
        },
    }
}

/// Emit a statement sequence in order, each statement at the running
/// length of what precedes it, threading the scope through.
fn gen_stmts(stmts: &Vec<Statement>, context: &mut CompilerContext, start_addr: usize) -> (r:
    Result<Vec<u32>, CompileError>)
    requires
        old(context).local_var_scope@.len() > 0,
        old(context).limit_ok(),
        start_addr + stmts_size(stmts@) <= old(context).addr_limit,
    ensures
        final(context).fn_table == old(context).fn_table,
        final(context).global_vars == old(context).global_vars,
        final(context).addr_limit == old(context).addr_limit,
        final(context).local_var_scope@.len() == old(context).local_var_scope@.len(),
        final(context).local_var_scope@.drop_last() == old(context).local_var_scope@.drop_last(),
        match r {
            Ok(code) => stmts_err(stmts@, old(context).model()) is None && final(context).cur_locals().dom() == stmts_locals(stmts@, old(context).model()) && code@.len()
                == stmts_size(stmts@) && code_ok(code@, old(context).addr_limit as int) && code@
                == emit_stmts(stmts@, old(context).slots(), start_addr as int) && final(context).slots() == stmts_slots(stmts@, old(context).slots()),
            Err(e) => stmts_err(stmts@, old(context).model()) == Some(e),
        },
    decreases *stmts, 0int,
{
    let ghost sv = stmts@;
    let ghost m0 = old(context).model();
    let ghost v0 = old(context).slots();
    let mut code: Vec<u32> = Vec::new();
    let mut i: usize = 0;
    proof {
        assert(sv.subrange(0, sv.len() as int) =~= sv);
    }
    while i < stmts.len()
        invariant
            i <= sv.len(),
            sv == stmts@,
            old(context).local_var_scope@.len() > 0,
            old(context).limit_ok(),
            start_addr + stmts_size(sv) <= old(context).addr_limit,
            m0 == old(context).model(),
            context.fn_table == old(context).fn_table,
            context.global_vars == old(context).global_vars,
            context.addr_limit == old(context).addr_limit,
            context.local_var_scope@.len() == old(context).local_var_scope@.len(),
            context.local_var_scope@.drop_last() == old(context).local_var_scope@.drop_last(),
            context.model().fns == m0.fns,
            context.model().globals == m0.globals,
            stmts_err(sv, m0) == stmts_err(sv.subrange(i as int, sv.len() as int), context.model()),
            stmts_locals(sv, m0) == stmts_locals(
                sv.subrange(i as int, sv.len() as int),
                context.model(),
            ),
            v0 == old(context).slots(),
            stmts_slots(sv, v0) == stmts_slots(
                sv.subrange(i as int, sv.len() as int),
                context.slots(),
            ),
            emit_stmts(sv, v0, start_addr as int) == code@ + emit_stmts(
                sv.subrange(i as int, sv.len() as int),
                context.slots(),
                start_addr as int + code@.len(),
            ),
            code@.len() + stmts_size(sv.subrange(i as int, sv.len() as int)) == stmts_size(sv),
            code_ok(code@, old(context).addr_limit as int),
        decreases sv.len() - i,
    {
        let ghost mi = context.model();
        let ghost vi = context.slots();
        let ghost rest = sv.subrange(i as int, sv.len() as int);
        proof {
            assert(rest[0] == sv[i as int]);
            assert(rest.subrange(1, rest.len() as int) =~= sv.subrange(
                i + 1,
                sv.len() as int,
            ));
            assert(stmts_size(rest) == stmt_size(sv[i as int]) + stmts_size(
                sv.subrange(i + 1, sv.len() as int),
            ));
        }
        let sub = match stmts[i].code_gen(context, start_addr + code.len()) {
            Ok(c) => c,
            Err(e) => {
                return Err(e);
            },
        };
        let ghost pre = code@;
        let ghost subv = sub@;
        let mut sub = sub;
        code.append(&mut sub);
        proof {
            lemma_code_ok_concat(pre, subv, old(context).addr_limit as int);
            assert(emit_stmts(rest, vi, start_addr as int + pre.len()) == subv + emit_stmts(
                sv.subrange(i + 1, sv.len() as int),
                context.slots(),
                start_addr as int + pre.len() + subv.len(),
            ));
            assert((pre + subv) + emit_stmts(
                sv.subrange(i + 1, sv.len() as int),
                context.slots(),
                start_addr as int + code@.len(),
            ) =~= pre + (subv + emit_stmts(
                sv.subrange(i + 1, sv.len() as int),
                context.slots(),
                start_addr as int + code@.len(),
            )));
        }
        i = i + 1;
    }
    proof {
        assert(sv.subrange(sv.len() as int, sv.len() as int) =~= Seq::<Statement>::empty());
        assert(code@ + Seq::<u32>::empty() =~= code@);
    }
    Ok(code)
}

impl If {
    /// Emit the condition, a branch past the body when it is zero, then
    /// the body.  The branch target is the address immediately after the
    /// body.
    pub fn code_gen(&self, context: &mut CompilerContext, start_addr: usize) -> (r: Result<
        Vec<u32>,
        CompileError,
    >)
        requires
            old(context).local_var_scope@.len() > 0,
            old(context).limit_ok(),
            start_addr + expr_size(self.expr) + 2 + stmts_size(self.stmts@) <= old(context).addr_limit,
        ensures
            final(context).fn_table == old(context).fn_table,
            final(context).global_vars == old(context).global_vars,
            final(context).addr_limit == old(context).addr_limit,
            final(context).local_var_scope@.len() == old(context).local_var_scope@.len(),
            final(context).local_var_scope@.drop_last() == old(context).local_var_scope@.drop_last(),
            match r {
                Ok(code) => expr_err(self.expr, old(context).model()) is None && stmts_err(
                    self.stmts@,
                    old(context).model(),
                ) is None && final(context).cur_locals().dom() == stmts_locals(
                    self.stmts@,
                    old(context).model(),
                ) && code@.len() == expr_size(self.expr) + 2 + stmts_size(self.stmts@)
                    && code_ok(code@, old(context).addr_limit as int) && code@ == emit_if(
                    *self,
                    old(context).slots(),
                    start_addr as int,
                ) && final(context).slots() == stmts_slots(self.stmts@, old(context).slots()),
                Err(e) => (if expr_err(self.expr, old(context).model()) is Some {
                    expr_err(self.expr, old(context).model()) == Some(e)
                } else {
                    stmts_err(self.stmts@, old(context).model()) == Some(e)
                }),
            },
        decreases *self, 1int,
    {
        let mut code = match self.expr.code_gen(context, start_addr) {
            Ok(c) => c,
            Err(e) => {
                return Err(e);
            },
        };
        let mut body = match gen_stmts(&self.stmts, context, start_addr + code.len() + 2) {
            Ok(c) => c,
            Err(e) => {
                return Err(e);
            },
        };
        let target = start_addr + code.len() + 2 + body.len();
        let ghost condv = code@;
        let ghost bodyv = body@;
        code.push(BEQZ);
        code.push(target as u32);
        let ghost mid = code@;
        code.append(&mut body);
        proof {
            let bound = old(context).addr_limit as int;
            lemma_code_ok_two(BEQZ, (target as u32), bound);
            assert(mid =~= condv + seq![BEQZ, (target as u32)]);
            lemma_code_ok_concat(condv, seq![BEQZ, (target as u32)], bound);
            lemma_code_ok_concat(mid, bodyv, bound);
            assert((target as u32) == word32(
                start_addr as int + condv.len() + 2 + bodyv.len(),
            ));
            assert(code@ =~= emit_if(*self, old(context).slots(), start_addr as int));
        }
        Ok(code)
    }
}

impl Statement {
    /// Emit one statement's words at `start_addr`, the running length of
    /// everything emitted before it.  A bare `return` pushes a defined
    /// zero before returning, so a call site that consumes a return value
    /// never underflows the stack.
    #[verifier::rlimit(100)]
    #[verifier::spinoff_prover]
    pub fn code_gen(&self, context: &mut CompilerContext, start_addr: usize) -> (r: Result<
        Vec<u32>,
        CompileError,
    >)
        requires
            old(context).local_var_scope@.len() > 0,
            old(context).limit_ok(),
            start_addr + stmt_size(*self) <= old(context).addr_limit,
        ensures
            final(context).fn_table == old(context).fn_table,
            final(context).global_vars == old(context).global_vars,
            final(context).addr_limit == old(context).addr_limit,
            final(context).local_var_scope@.len() == old(context).local_var_scope@.len(),
            final(context).local_var_scope@.drop_last() == old(context).local_var_scope@.drop_last(),
            match r {
                Ok(code) => stmt_err(*self, old(context).model()) is None && final(context).cur_locals().dom() == stmt_locals(*self, old(context).model()) && code@.len()
                    == stmt_size(*self) && code_ok(code@, old(context).addr_limit as int) && code@
                    == emit_stmt(*self, old(context).slots(), start_addr as int) && final(context).slots() == stmt_slots(*self, old(context).slots()) && (
                *self is Return ==> code@ == seq![PUSH, 0u32, RET]),
                Err(e) => stmt_err(*self, old(context).model()) == Some(e),
            },
        decreases *self, 1int,
    {
        match self {
            Statement::Print { expr, newline } => {
                let mut code: Vec<u32> = match expr {
                    Some(e) => {
                        let mut c = match e.code_gen(context, start_addr) {
                            Ok(c) => c,
                            Err(err) => {
                                return Err(err);
                            },
                        };
                        let ghost ev = c@;
                        c.push(PRINT);
                        c.push(1);
                        proof {
                            lemma_code_ok_two(PRINT, 1u32, old(context).addr_limit as int);
                            lemma_code_ok_concat(ev, seq![PRINT, 1u32], old(context).addr_limit as int);
                            assert(c@ =~= ev + seq![PRINT, 1u32]);
                        }
                        c
                    },
                    None => Vec::new(),
                };
                if *newline {
                    let ghost pre = code@;
                    code.push(PUSH);
                    code.push(10);
                    code.push(PRINT);
                    code.push(2);
                    proof {
                        lemma_code_ok_two(PUSH, 10u32, old(context).addr_limit as int);
                        lemma_code_ok_two(PRINT, 2u32, old(context).addr_limit as int);
                        lemma_code_ok_concat(
                            seq![PUSH, 10u32],
                            seq![PRINT, 2u32],
                            old(context).addr_limit as int,
                        );
                        assert(seq![PUSH, 10u32] + seq![PRINT, 2u32] =~= seq![
                            PUSH,
                            10u32,
                            PRINT,
                            2u32,
                        ]);
                        lemma_code_ok_concat(
                            pre,
                            seq![PUSH, 10u32, PRINT, 2u32],
                            old(context).addr_limit as int,
                        );
                        assert(code@ =~= pre + seq![PUSH, 10u32, PRINT, 2u32]);
                    }
                }
                proof {
                    assert(code@ =~= emit_stmt(*self, old(context).slots(), start_addr as int));
                }
                Ok(code)
            },
            Statement::Return => {
                let mut code: Vec<u32> = Vec::new();
                code.push(PUSH);
                code.push(0);
                code.push(RET);
                proof {
                    lemma_code_ok_two(PUSH, 0u32, old(context).addr_limit as int);
                    lemma_code_ok_one(RET, old(context).addr_limit as int);
                    lemma_code_ok_concat(seq![PUSH, 0u32], seq![RET], old(context).addr_limit as int);
                    assert(code@ =~= seq![PUSH, 0u32] + seq![RET]);
                    assert(code@ =~= seq![PUSH, 0u32, RET]);
                }
                Ok(code)
            },
            Statement::ReturnExpr(e) => {
                let mut code = match e.code_gen(context, start_addr) {
                    Ok(c) => c,
                    Err(err) => {
                        return Err(err);
                    },
                };
                let ghost ev = code@;
                code.push(RET);
                proof {
                    lemma_code_ok_one(RET, old(context).addr_limit as int);
                    lemma_code_ok_concat(ev, seq![RET], old(context).addr_limit as int);
                    assert(code@ =~= ev + seq![RET]);
                }
                Ok(code)
            },
            Statement::VarAssignment { id, expr, global } => {
                let mut code = match expr.code_gen(context, start_addr) {
                    Ok(c) => c,
                    Err(err) => {
                        return Err(err);
                    },
                };
                let ghost ev = code@;
                let (opw, offset): (u32, usize) = if *global {
                    match context.find_global_var_index(id.as_str()) {
                        Ok(off) => (GLOBAL_STORE, off),
                        Err(err) => {
                            return Err(err);
                        },
                    }
                } else {
                    (LOCAL_STORE, find_or_alloc_local(context, id))
                };
                let w = word_of(offset);
                code.push(opw);
                code.push(w);
                proof {
                    lemma_code_ok_two(opw, w, old(context).addr_limit as int);
                    lemma_code_ok_concat(ev, seq![opw, w], old(context).addr_limit as int);
                    assert(code@ =~= ev + seq![opw, w]);
                    assert(code@ =~= emit_stmt(*self, old(context).slots(), start_addr as int));
                }
                Ok(code)
            },
            Statement::ArrayIndexAssignment { id, index, expr } => {
                let mut code = match expr.code_gen(context, start_addr) {
                    Ok(c) => c,
                    Err(err) => {
                        return Err(err);
                    },
                };
                let mut idxc = match index.code_gen(context, start_addr) {
                    Ok(c) => c,
                    Err(err) => {
                        return Err(err);
                    },
                };
                let (scope_type, offset) = match context.find_var_index(id.as_str()) {
                    Ok(pair) => pair,
                    Err(err) => {
                        return Err(err);
                    },
                };
                let ghost ev = code@;
                let ghost iv = idxc@;
                code.append(&mut idxc);
                let w = word_of(offset);
                let opw: u32 = match scope_type {
                    ScopeType::Global => GLOBAL_ARR_STORE,
                    ScopeType::Local => LOCAL_ARR_STORE,
                };
                let ghost mid = code@;
                code.push(PUSH);
                code.push(w);
                code.push(opw);
                proof {
                    lemma_code_ok_concat(ev, iv, old(context).addr_limit as int);
                    lemma_code_ok_two(PUSH, w, old(context).addr_limit as int);
                    lemma_code_ok_one(opw, old(context).addr_limit as int);
                    lemma_code_ok_concat(seq![PUSH, w], seq![opw], old(context).addr_limit as int);
                    assert(seq![PUSH, w] + seq![opw] =~= seq![PUSH, w, opw]);
                    lemma_code_ok_concat(mid, seq![PUSH, w, opw], old(context).addr_limit as int);
                    assert(code@ =~= mid + seq![PUSH, w, opw]);
                    assert(code@ =~= emit_stmt(*self, old(context).slots(), start_addr as int));
                }
                Ok(code)
            },
            Statement::If(if_data) => if_data.code_gen(context, start_addr),
            Statement::While { cond, stmts } => gen_while(cond, stmts, context, start_addr),
            Statement::FunctionCall(func_call) => {
                let mut code = match func_call.code_gen(context, start_addr) {
                    Ok(c) => c,
                    Err(err) => {
                        return Err(err);
                    },
                };
                let ghost cv = code@;
                code.push(POP);
                proof {
                    lemma_code_ok_one(POP, old(context).addr_limit as int);
                    lemma_code_ok_concat(cv, seq![POP], old(context).addr_limit as int);
                    assert(code@ =~= cv + seq![POP]);
                    assert(code@ =~= emit_stmt(*self, old(context).slots(), start_addr as int));
                }
                Ok(code)
            },
            Statement::ArrayInstantiation { id, size, elements, global } => gen_array_inst(
                id,
                size,
                elements,
                *global,
                context,
                start_addr,
            ),
        }
    }
}


/// Emit a loop: the condition at the loop's entry address, a branch out of
/// the loop on false to just past the construct, the body, then an
/// unconditional jump back to the condition's entry address.
fn gen_while(
    cond: &Expr,
    stmts: &Vec<Statement>,
    context: &mut CompilerContext,
    start_addr: usize,
) -> (r: Result<Vec<u32>, CompileError>)
    requires
        old(context).local_var_scope@.len() > 0,
        old(context).limit_ok(),
        start_addr + expr_size(*cond) + 4 + stmts_size(stmts@) <= old(context).addr_limit,
    ensures
        final(context).fn_table == old(context).fn_table,
        final(context).global_vars == old(context).global_vars,
        final(context).addr_limit == old(context).addr_limit,
        final(context).local_var_scope@.len() == old(context).local_var_scope@.len(),
        final(context).local_var_scope@.drop_last() == old(context).local_var_scope@.drop_last(),
        match r {
            Ok(code) => expr_err(*cond, old(context).model()) is None && stmts_err(
                stmts@,
                old(context).model(),
            ) is None && final(context).cur_locals().dom() == stmts_locals(
                stmts@,
                old(context).model(),
            ) && code@.len() == expr_size(*cond) + 4 + stmts_size(stmts@) && code_ok(
                code@,
                old(context).addr_limit as int,
            ) && code@ == emit_while(*cond, stmts@, old(context).slots(), start_addr as int)
                && final(context).slots() == stmts_slots(stmts@, old(context).slots()),
            Err(e) => (if expr_err(*cond, old(context).model()) is Some {
                expr_err(*cond, old(context).model()) == Some(e)
            } else {
                stmts_err(stmts@, old(context).model()) == Some(e)
            }),
        },
    decreases *stmts, 1int,
{
    let mut code = match cond.code_gen(context, start_addr) {
        Ok(c) => c,
        Err(err) => {
            return Err(err);
        },
    };
    let mut body = match gen_stmts(stmts, context, start_addr + code.len() + 2) {
        Ok(c) => c,
        Err(err) => {
            return Err(err);
        },
    };
    let target = start_addr + code.len() + 2 + body.len() + 2;
    let ghost condv = code@;
    let ghost bodyv = body@;
    code.push(BEQZ);
    code.push(target as u32);
    let ghost mid = code@;
    code.append(&mut body);
    let ghost mid2 = code@;
    code.push(JUMP);
    code.push(start_addr as u32);
    proof {
        let bound = old(context).addr_limit as int;
        lemma_code_ok_two(BEQZ, (target as u32), bound);
        assert(mid =~= condv + seq![BEQZ, (target as u32)]);
        lemma_code_ok_concat(condv, seq![BEQZ, (target as u32)], bound);
        lemma_code_ok_concat(mid, bodyv, bound);
        lemma_code_ok_two(JUMP, (start_addr as u32), bound);
        lemma_code_ok_concat(mid2, seq![JUMP, (start_addr as u32)], bound);
        assert(code@ =~= mid2 + seq![JUMP, (start_addr as u32)]);
        assert((target as u32) == word32(
            start_addr as int + condv.len() + 2 + bodyv.len() + 2,
        ));
        assert((start_addr as u32) == word32(start_addr as int));
        assert(code@ =~= emit_while(*cond, stmts@, old(context).slots(), start_addr as int));
    }
    Ok(code)
}

/// Emit an array declaration: the size must be a compile-time integer
/// constant, a literal list must match it exactly, and the span is filled
/// element by element, defaulting to zero.  A declaration without a
/// constant size emits nothing.
#[verifier::rlimit(100)]
#[verifier::spinoff_prover]
#[verifier::loop_isolation(false)]
fn gen_array_inst(
    id: &String,
    size: &Option<Expr>,
    elements: &Option<Vec<Expr>>,
    global: bool,
    context: &mut CompilerContext,
    start_addr: usize,
) -> (r: Result<Vec<u32>, CompileError>)
    requires
        old(context).local_var_scope@.len() > 0,
        old(context).limit_ok(),
        start_addr + stmt_size(
            (Statement::ArrayInstantiation { id: *id, size: *size, elements: *elements, global }),
        ) <= old(context).addr_limit,
    ensures
        final(context).fn_table == old(context).fn_table,
        final(context).global_vars == old(context).global_vars,
        final(context).addr_limit == old(context).addr_limit,
        final(context).local_var_scope@.len() == old(context).local_var_scope@.len(),
        final(context).local_var_scope@.drop_last() == old(context).local_var_scope@.drop_last(),
        ({
            let s = (Statement::ArrayInstantiation {
                id: *id,
                size: *size,
                elements: *elements,
                global,
            });
            match r {
                Ok(code) => stmt_err(s, old(context).model()) is None && final(context).cur_locals().dom() == stmt_locals(s, old(context).model()) && code@.len()
                    == stmt_size(s) && code_ok(code@, old(context).addr_limit as int) && code@
                    == emit_arr(*id, *size, *elements, global, old(context).slots()) && final(context).slots() == stmt_slots(s, old(context).slots()),
                Err(e) => stmt_err(s, old(context).model()) == Some(e),
            }
        }),
{
    match size {
        Some(Expr::IntLit(n)) => {
            if let Some(es) = elements {
                if es.len() != *n as usize {
                    return Err(CompileError::ArraySizeMismatch);
                }
            }
            let offset: usize = if global {
                match context.find_global_var_index(id.as_str()) {
                    Ok(off) => off,
                    Err(err) => {
                        return Err(err);
                    },
                }
            } else {
                find_or_alloc_local_span(context, id, *n as usize)
            };
            let opw: u32 = if global {
                GLOBAL_STORE
            } else {
                LOCAL_STORE
            };
            let ghost m2 = context.model();
            let ghost v2g = context.slots();
            let ghost ctx2 = *context;
            let mut code: Vec<u32> = Vec::new();
            if let Some(es) = elements {
                let ghost esv = es@;
                proof {
                    assert(esv.subrange(0, esv.len() as int) =~= esv);
                    assert(elems_size(esv.subrange(0, 0)) == 0) by {
                        assert(esv.subrange(0, 0) =~= Seq::<Expr>::empty());
                    }
                }
                let mut i: usize = 0;
                while i < es.len()
                    invariant
                        i <= esv.len(),
                        esv == es@,
                        *context == ctx2,
                        m2 == context.model(),
                        context.local_var_scope@.len() > 0,
                        context.limit_ok(),
                        exprs_err_fwd(esv, m2) == exprs_err_fwd(
                            esv.subrange(i as int, esv.len() as int),
                            m2,
                        ),
                        v2g == context.slots(),
                        code@.len() == elems_size(esv.subrange(0, i as int)),
                        code@ == emit_elems(esv.subrange(0, i as int), v2g, offset as int, opw),
                        code_ok(code@, old(context).addr_limit as int),
                    decreases esv.len() - i,
                {
                    let ghost rest = esv.subrange(i as int, esv.len() as int);
                    proof {
                        assert(rest[0] == esv[i as int]);
                        assert(rest.subrange(1, rest.len() as int) =~= esv.subrange(
                            i + 1,
                            esv.len() as int,
                        ));
                    }
                    let mut sub = match es[i].code_gen(context, start_addr) {
                        Ok(c) => c,
                        Err(err) => {
                            return Err(err);
                        },
                    };
                    let ghost pre = code@;
                    let ghost subv = sub@;
                    code.append(&mut sub);
                    let w = word_of_sum(offset, i);
                    code.push(opw);
                    code.push(w);
                    proof {
                        lemma_code_ok_concat(pre, subv, old(context).addr_limit as int);
                        lemma_code_ok_two(opw, w, old(context).addr_limit as int);
                        lemma_code_ok_concat(pre + subv, seq![opw, w], old(context).addr_limit as int);
                        assert(code@ =~= (pre + subv) + seq![opw, w]);
                        assert(esv.subrange(0, i + 1).subrange(0, i as int) =~= esv.subrange(
                            0,
                            i as int,
                        ));
                        assert(esv.subrange(0, i + 1)[i as int] == esv[i as int]);
                        assert(code@ =~= emit_elems(
                            esv.subrange(0, i + 1),
                            v2g,
                            offset as int,
                            opw,
                        ));
                    }
                    i = i + 1;
                }
                proof {
                    assert(esv.subrange(esv.len() as int, esv.len() as int) =~= Seq::<
                        Expr,
                    >::empty());
                    assert(esv.subrange(0, esv.len() as int) =~= esv);
                }
            } else {
                let nn = *n as usize;
                let mut i: usize = 0;
                while i < nn
                    invariant
                        i <= nn,
                        *context == ctx2,
                        v2g == context.slots(),
                        code@.len() == 4 * i,
                        code@ == emit_zeros(i as nat, offset as int, opw),
                        code_ok(code@, old(context).addr_limit as int),
                    decreases nn - i,
                {
                    let ghost pre = code@;
                    let w = word_of_sum(offset, i);
                    code.push(PUSH);
                    code.push(0);
                    code.push(opw);
                    code.push(w);
                    proof {
                        lemma_code_ok_two(PUSH, 0u32, old(context).addr_limit as int);
                        lemma_code_ok_two(opw, w, old(context).addr_limit as int);
                        lemma_code_ok_concat(seq![PUSH, 0u32], seq![opw, w], old(context).addr_limit as int);
                        assert(seq![PUSH, 0u32] + seq![opw, w] =~= seq![PUSH, 0u32, opw, w]);
                        lemma_code_ok_concat(pre, seq![PUSH, 0u32, opw, w], old(context).addr_limit as int);
                        assert(code@ =~= pre + seq![PUSH, 0u32, opw, w]);
                    }
                    i = i + 1;
                }
                proof {
                }
            }
            proof {
                let v0 = old(context).slots();
                assert(v2g == (if global {
                    v0
                } else {
                    alloc_span_slots(v0, (*id)@, *n as nat)
                }));
                assert(code@ =~= emit_arr(*id, *size, *elements, global, v0));
            }
            Ok(code)
        },
        _ => {
            let code: Vec<u32> = Vec::new();
            proof {
                assert(code@ =~= Seq::<u32>::empty());
                assert(code@ =~= emit_arr(*id, *size, *elements, global, old(context).slots()));
            }
            Ok(code)
        },
    }
}


impl FunctionDefinition {
    /// Emit one function: seed a fresh scope with the parameters
    /// (parameter `i` occupies slot `i`), emit the body statements in
    /// order, pop the scope, and append an implicit bare return — a
    /// defined zero, then the return, so every invocation leaves exactly
    /// one value for its caller.  The function table is already complete
    /// from the address pre-pass, so calls resolve regardless of
    /// declaration order.
    #[verifier::rlimit(100)]
    #[verifier::spinoff_prover]
    #[verifier::loop_isolation(false)]
    pub fn code_gen(&self, context: &mut CompilerContext, start_addr: usize) -> (r: Result<
        Vec<u32>,
        CompileError,
    >)
        requires
            old(context).limit_ok(),
            start_addr + fn_size(*self) <= old(context).addr_limit + 1,
        ensures
            final(context).fn_table == old(context).fn_table,
            final(context).global_vars == old(context).global_vars,
            final(context).addr_limit == old(context).addr_limit,
            final(context).local_var_scope@ == old(context).local_var_scope@,
            match r {
                Ok(code) => fn_body_err(
                    *self,
                    old(context).fn_map().dom(),
                    old(context).globals_map().dom(),
                ) is None && code@.len() == fn_size(*self) && code@.len() >= 1 && code@.last()
                    == RET && code_ok(code@, old(context).addr_limit as int) && code@
                    == emit_fn(
                    *self,
                    old(context).fn_map(),
                    old(context).globals_map(),
                    start_addr as int,
                ),
                Err(e) => fn_body_err(
                    *self,
                    old(context).fn_map().dom(),
                    old(context).globals_map().dom(),
                ) == Some(e),
            },
    {
        let mut scope = VarTable::new();
        let ghost argsv = self.args@;
        proof {
            assert(argsv.subrange(0, 0) =~= Seq::<String>::empty());
            assert(params_set(argsv.subrange(0, 0)) =~= Set::<Seq<char>>::empty());
        }
        let mut i: usize = 0;
        while i < self.args.len()
            invariant
                i <= argsv.len(),
                scope.map().dom() == params_set(argsv.subrange(0, i as int)),
                scope.map() == params_map(argsv.subrange(0, i as int)),
            decreases argsv.len() - i,
        {
            scope.insert(self.args[i].clone(), i);
            proof {
                assert(argsv.subrange(0, i + 1).drop_last() =~= argsv.subrange(0, i as int));
                assert(argsv.subrange(0, i + 1).last() == argsv[i as int]);
            }
            i = i + 1;
        }
        proof {
            assert(argsv.subrange(0, argsv.len() as int) =~= argsv);
        }
        scope.size = self.args.len();
        let ghost stack0 = context.local_var_scope@;
        context.local_var_scope.push(scope);
        proof {
            assert(context.slots() == (SlotModel {
                fns: old(context).fn_map(),
                globals: old(context).globals_map(),
                locals: params_map(self.args@),
                cursor: self.args@.len(),
            }));
        }
        let mut code = match gen_stmts(&self.body, context, start_addr) {
            Ok(c) => c,
            Err(e) => {
                context.local_var_scope.pop().unwrap();
                proof {
                    assert(context.local_var_scope@ =~= stack0);
                }
                return Err(e);
            },
        };
        context.local_var_scope.pop().unwrap();
        proof {
            assert(context.local_var_scope@ =~= stack0);
        }
        let ghost bodyv = code@;
        code.push(PUSH);
        code.push(0);
        code.push(RET);
        proof {
            lemma_code_ok_two(PUSH, 0u32, old(context).addr_limit as int);
            lemma_code_ok_one(RET, old(context).addr_limit as int);
            lemma_code_ok_concat(seq![PUSH, 0u32], seq![RET], old(context).addr_limit as int);
            assert(seq![PUSH, 0u32] + seq![RET] =~= seq![PUSH, 0u32, RET]);
            lemma_code_ok_concat(bodyv, seq![PUSH, 0u32, RET], old(context).addr_limit as int);
            assert(code@ =~= bodyv + seq![PUSH, 0u32, RET]);
            assert(code@ =~= emit_fn(
                *self,
                old(context).fn_map(),
                old(context).globals_map(),
                start_addr as int,
            ));
        }
        Ok(code)
    }
}

impl Program {
    /// Pre-scan every function's top-level statements and assign global
    /// slots, so a global used in one function and declared in another
    /// resolves regardless of textual order.  A variable takes the next
    /// slot; a sized array declaration takes the next slot and advances
    /// the cursor by its size: the table and cursor are exactly
    /// [`gscan`].
    #[verifier::rlimit(100)]
    #[verifier::spinoff_prover]
    #[verifier::loop_isolation(false)]
    pub fn create_global_var_table(&self) -> (t: VarTable)
        ensures
            t.map() == gscan(*self).0,
            t.size as nat == gscan(*self).1,
    {
        let mut table = VarTable::new();
        let ghost defsv = self.0@;
        let ghost acc0 = (Map::<Seq<char>, usize>::empty(), 0nat);
        proof {
            assert(defsv.subrange(0, 0) =~= Seq::<FunctionDefinition>::empty());
        }
        let mut i: usize = 0;
        while i < self.0.len()
            invariant
                i <= defsv.len(),
                table.map() == gscan_defs(defsv.subrange(0, i as int), acc0).0,
                table.size as nat == gscan_defs(defsv.subrange(0, i as int), acc0).1,
            decreases defsv.len() - i,
        {
            let def = &self.0[i];
            let ghost bodyv = def.body@;
            let ghost acci = gscan_defs(defsv.subrange(0, i as int), acc0);
            proof {
                assert(bodyv.subrange(0, 0) =~= Seq::<Statement>::empty());
            }
            let mut j: usize = 0;
            while j < def.body.len()
                invariant
                    j <= bodyv.len(),
                    bodyv == def.body@,
                    table.map() == gscan_stmts(bodyv.subrange(0, j as int), acci).0,
                    table.size as nat == gscan_stmts(bodyv.subrange(0, j as int), acci).1,
                decreases bodyv.len() - j,
            {
                let ghost pre = (table.map(), table.size as nat);
                match &def.body[j] {
                    Statement::ArrayInstantiation { id, size, global, .. } => {
                        if *global {
                            if let Some(Expr::IntLit(incr)) = size {
                                let slot = table.size;
                                table.insert(id.clone(), slot);
                                if slot <= usize::MAX - (*incr as usize) {
                                    table.size = slot + (*incr as usize);
                                } else {
                                    table.size = usize::MAX;
                                }
                            }
                        }
                    },
                    Statement::VarAssignment { id, global, .. } => {
                        if *global {
                            let slot = table.size;
                            table.insert(id.clone(), slot);
                            if slot < usize::MAX {
                                table.size = slot + 1;
                            }
                        }
                    },
                    _ => {},
                }
                proof {
                    assert(bodyv.subrange(0, j + 1).drop_last() =~= bodyv.subrange(0, j as int));
                    assert(bodyv.subrange(0, j + 1).last() == bodyv[j as int]);
                    assert(table.map() == gscan_stmt(bodyv[j as int], pre).0);
                    assert(table.size as nat == gscan_stmt(bodyv[j as int], pre).1);
                }
                j = j + 1;
            }
            proof {
                assert(bodyv.subrange(0, bodyv.len() as int) =~= bodyv);
                assert(defsv.subrange(0, i + 1).drop_last() =~= defsv.subrange(0, i as int));
                assert(defsv.subrange(0, i + 1).last() == defsv[i as int]);
            }
            i = i + 1;
        }
        proof {
            assert(defsv.subrange(0, defsv.len() as int) =~= defsv);
        }
        table
    }

    /// Pre-scan the globals; pre-pass the function addresses by sizing
    /// every definition without emitting, so a call resolves regardless
    /// of declaration order; compile every definition in declaration
    /// order at its pre-assigned address; then prefix the four-word
    /// bootstrap preamble that calls `main` and halts.  On success the
    /// array splits into whole instructions and every address it embeds
    /// resolves strictly inside it.
    #[verifier::rlimit(100)]
    #[verifier::spinoff_prover]
    #[verifier::loop_isolation(false)]
    pub fn code_gen(&self, context: &mut CompilerContext, _start_addr: usize) -> (r: Result<
        Vec<u32>,
        CompileError,
    >)
        requires
            old(context).fn_map() == Map::<Seq<char>, usize>::empty(),
            program_size(*self) <= u32::MAX,
        ensures
            final(context).global_vars.map() == gscan(*self).0,
            final(context).global_vars.size as nat == gscan(*self).1,
            match r {
                Ok(code) => program_err(*self) is None && code@.len() == program_size(*self)
                    && code@.len() >= 4 && code@[0] == CALL && code@[1] == 0 && code@[3] == END
                    && 4 <= code@[2] < code@.len() && code_ok(code@, code@.len() - 1) && code@
                    == emit_program(*self) && final(context).fn_map() == fn_addr_map(self.0@)
                    && code@[2] == word32(fn_addr_map(self.0@)["main"@] as int),
                Err(e) => program_err(*self) == Some(e),
            },
    {
        context.global_vars = self.create_global_var_table();
        let ghost defsv = self.0@;
        let ghost globals = prescan_globals(*self);
        proof {
            assert(defsv.subrange(0, defsv.len() as int) =~= defsv);
            assert(defsv.subrange(0, 0) =~= Seq::<FunctionDefinition>::empty());
            assert(names_set(defsv.subrange(0, 0)) =~= Set::<Seq<char>>::empty());
            assert(fns_size(defsv.subrange(0, 0)) == 0);
            assert(old(context).fn_map().dom() =~= Set::<Seq<char>>::empty());
        }
        // Address pre-pass: assign each function its start address from
        // the running total of the sizes of everything before it.
        let mut total: usize = 4;
        let mut i: usize = 0;
        while i < self.0.len()
            invariant
                i <= defsv.len(),
                defsv == self.0@,
                program_size(*self) <= u32::MAX,
                fns_size(defsv) + 4 == program_size(*self),
                total == 4 + fns_size(defsv.subrange(0, i as int)),
                globals == prescan_globals(*self),
                context.globals_map().dom() == globals,
                context.globals_map() == gscan(*self).0,
                context.global_vars.size as nat == gscan(*self).1,
                context.fn_map().dom() == names_set(defsv.subrange(0, i as int)),
                context.fn_map() == fn_addr_map(defsv.subrange(0, i as int)),
                dup_err(defsv, Set::<Seq<char>>::empty()) == dup_err(
                    defsv.subrange(i as int, defsv.len() as int),
                    context.fn_map().dom(),
                ),
                context.fns_bounded(total - 1),
                forall|k: Seq<char>| #[trigger]
                    context.fn_map().dom().contains(k) ==> context.fn_map()[k] >= 4,
            decreases defsv.len() - i,
        {
            let ghost rest = defsv.subrange(i as int, defsv.len() as int);
            proof {
                assert(rest[0] == defsv[i as int]);
                assert(rest.subrange(1, rest.len() as int) =~= defsv.subrange(
                    i + 1,
                    defsv.len() as int,
                ));
                lemma_fns_size_snoc(defsv, i as int);
                lemma_fns_size_split(defsv, i + 1);
            }
            if let Some(_) = context.fn_table.find(self.0[i].id.as_str()) {
                return Err(CompileError::DuplicateFunction);
            }
            let sz64 = size_of_fn(&self.0[i]);
            let ghost predom = context.fn_map().dom();
            context.fn_table.insert(self.0[i].id.clone(), total);
            let sz = sz64 as usize;
            proof {
                assert(fn_size(defsv[i as int]) + fns_size(defsv.subrange(0, i as int)) + 4
                    <= program_size(*self));
                assert(sz64 as int == fn_size(defsv[i as int]) as int);
                assert(defsv.subrange(0, i + 1).drop_last() =~= defsv.subrange(0, i as int));
                assert(defsv.subrange(0, i + 1).last() == defsv[i as int]);
                assert(context.fn_map().dom() =~= predom.insert(defsv[i as int].id@));
                assert(total == (4 + fns_size(defsv.subrange(0, i as int))) as usize);
            }
            total = total + sz;
            proof {
                assert forall|k: Seq<char>| #[trigger]
                    context.fn_map().dom().contains(k) implies context.fn_map()[k] <= total
                    - 1 by {
                    if k != defsv[i as int].id@ {
                        assert(predom.contains(k));
                    }
                }
            }
            i = i + 1;
        }
        proof {
            assert(defsv.subrange(0, defsv.len() as int) =~= defsv);
            assert(defsv.subrange(defsv.len() as int, defsv.len() as int) =~= Seq::<
                FunctionDefinition,
            >::empty());
        }
        context.addr_limit = total - 1;
        let ghost allfns = context.fn_map().dom();
        let ghost fnsmap = context.fn_map();
        let ghost gmap = context.globals_map();
        // Code pass: compile each body at its pre-assigned address.
        let mut code: Vec<u32> = Vec::new();
        let mut i: usize = 0;
        proof {
            assert(fns_size(defsv.subrange(0, 0)) == 0);
        }
        while i < self.0.len()
            invariant
                i <= defsv.len(),
                defsv == self.0@,
                context.fn_map().dom() == allfns,
                context.fn_map() == fnsmap,
                fnsmap == fn_addr_map(defsv),
                context.globals_map().dom() == globals,
                context.globals_map() == gmap,
                gmap == gscan(*self).0,
                context.global_vars.size as nat == gscan(*self).1,
                context.limit_ok(),
                context.addr_limit + 1 == 4 + fns_size(defsv),
                code@.len() == fns_size(defsv.subrange(0, i as int)),
                bodies_err(defsv, allfns, globals) == bodies_err(
                    defsv.subrange(i as int, defsv.len() as int),
                    allfns,
                    globals,
                ),
                emit_fns(defsv, fnsmap, gmap, 4) == code@ + emit_fns(
                    defsv.subrange(i as int, defsv.len() as int),
                    fnsmap,
                    gmap,
                    4 + code@.len() as int,
                ),
                code_ok(code@, context.addr_limit as int),
                forall|k: Seq<char>| #[trigger]
                    context.fn_map().dom().contains(k) ==> context.fn_map()[k] >= 4,
            decreases defsv.len() - i,
        {
            let ghost rest = defsv.subrange(i as int, defsv.len() as int);
            proof {
                assert(rest[0] == defsv[i as int]);
                assert(rest.subrange(1, rest.len() as int) =~= defsv.subrange(
                    i + 1,
                    defsv.len() as int,
                ));
                lemma_fns_size_snoc(defsv, i as int);
                lemma_fns_size_split(defsv, i + 1);
            }
            let start = 4 + code.len();
            let sub = match self.0[i].code_gen(context, start) {
                Ok(c) => c,
                Err(e) => {
                    return Err(e);
                },
            };
            let ghost pre = code@;
            let ghost subv = sub@;
            let mut sub = sub;
            code.append(&mut sub);
            proof {
                lemma_code_ok_concat(pre, subv, context.addr_limit as int);
                assert(emit_fns(rest, fnsmap, gmap, 4 + pre.len() as int) == subv + emit_fns(
                    defsv.subrange(i + 1, defsv.len() as int),
                    fnsmap,
                    gmap,
                    4 + pre.len() as int + subv.len() as int,
                ));
                assert((pre + subv) + emit_fns(
                    defsv.subrange(i + 1, defsv.len() as int),
                    fnsmap,
                    gmap,
                    4 + code@.len() as int,
                ) =~= pre + (subv + emit_fns(
                    defsv.subrange(i + 1, defsv.len() as int),
                    fnsmap,
                    gmap,
                    4 + code@.len() as int,
                )));
            }
            i = i + 1;
        }
        proof {
            assert(defsv.subrange(0, defsv.len() as int) =~= defsv);
            assert(defsv.subrange(defsv.len() as int, defsv.len() as int) =~= Seq::<
                FunctionDefinition,
            >::empty());
        }
        let main_addr = match context.fn_table.find("main") {
            Some(addr) => addr,
            None => {
                return Err(CompileError::MissingEntryPoint);
            },
        };
        let addrw = word_of(main_addr);
        let mut out: Vec<u32> = Vec::new();
        out.push(CALL);
        out.push(0);
        out.push(addrw);
        out.push(END);
        let ghost bodyv = code@;
        let ghost preamble = out@;
        code = {
            let mut c = out;
            c.append(&mut code);
            c
        };
        proof {
            assert(preamble =~= seq![CALL, 0u32, addrw, END]);
            let bound = context.addr_limit as int;
            lemma_code_ok_call(0u32, addrw, bound);
            lemma_code_ok_one(END, bound);
            lemma_code_ok_concat(seq![CALL, 0u32, addrw], seq![END], bound);
            assert(seq![CALL, 0u32, addrw] + seq![END] =~= preamble);
            lemma_code_ok_concat(preamble, bodyv, bound);
            assert(code@ =~= preamble + bodyv);
            assert(bodyv + Seq::<u32>::empty() =~= bodyv);
            assert(bodyv == emit_fns(defsv, fnsmap, gmap, 4));
            assert(addrw == word32(fnsmap["main"@] as int));
            assert(code@ =~= emit_program(*self));
        }
        Ok(code)
    }
}

/// Compile a program into its flat bytecode word array: the public
/// contract of the code generator.
pub fn compile(program: &Program) -> (r: Result<Vec<u32>, CompileError>)
    requires
        program_size(*program) <= u32::MAX,
    ensures
        match r {
            Ok(code) => program_err(*program) is None && code@.len() == program_size(*program)
                && code@.len() >= 4 && code@[0] == CALL && code@[1] == 0 && code@[3] == END && 4
                <= code@[2] < code@.len() && code_ok(code@, code@.len() - 1) && code@
                == emit_program(*program) && code@[2] == word32(
                fn_addr_map(program.0@)["main"@] as int,
            ),
            Err(e) => program_err(*program) == Some(e),
        },
{
    let mut context = CompilerContext::new();
    program.code_gen(&mut context, 0)
}

/// An operand word for the sum of a span base and an element index; as
/// [`word_of`], beyond the word range it saturates.
fn word_of_sum(a: usize, b: usize) -> (w: u32)
    ensures
        w == word32(a as int + b as int),
        w as int <= a as int + b as int,
{
    if a <= u32::MAX as usize && b <= u32::MAX as usize && (a as u64) + (b as u64)
        <= u32::MAX as u64 {
        (a as u64 + b as u64) as u32
    } else {
        u32::MAX
    }
}

} // verus!
