//! The shared opcode vocabulary and word layout consumed by the code
//! generator and the virtual machine.
//!
//! An instruction occupies one opcode word followed by a fixed,
//! opcode-specific number of immediate operand words.  Addresses are word
//! indices into the flat code array, not byte offsets.

use vstd::prelude::*;

verus! {

// End of instruction stream: shut the machine down.
pub const END: u32 = 0x0;

// Integer arithmetic.
pub const IADD: u32 = 0x1;
pub const ISUB: u32 = 0x2;
pub const IMUL: u32 = 0x3;
pub const IDIV: u32 = 0x4;

// Float arithmetic.  These opcodes are part of the instruction space for
// completeness; the machine gives them the same contract as their integer
// counterparts and the code generator never emits them.
pub const FADD: u32 = 0x5;
pub const FSUB: u32 = 0x6;
pub const FMUL: u32 = 0x7;
pub const FDIV: u32 = 0x8;

// Variable access.
pub const LOCAL_LOAD: u32 = 0x10;
pub const LOCAL_STORE: u32 = 0x11;
pub const GLOBAL_LOAD: u32 = 0x12;
pub const GLOBAL_STORE: u32 = 0x13;

// Array access.  Base slot and element index are supplied through the data
// stack, uniformly for loads and stores.
pub const LOCAL_ARR_LOAD: u32 = 0x14;
pub const LOCAL_ARR_STORE: u32 = 0x15;
pub const GLOBAL_ARR_LOAD: u32 = 0x16;
pub const GLOBAL_ARR_STORE: u32 = 0x17;

// Comparison operators: pop two operands, push 1 or 0.
pub const LT: u32 = 0x20;
pub const LTE: u32 = 0x21;
pub const GT: u32 = 0x22;
pub const GTE: u32 = 0x23;
pub const EQ: u32 = 0x24;
pub const NEQ: u32 = 0x25;

// Logical operators: operands coerced to boolean by a nonzero test.
pub const OR: u32 = 0x26;
pub const AND: u32 = 0x27;

// Control flow.
pub const JUMP: u32 = 0x30;
pub const BEQZ: u32 = 0x31;
pub const BNEZ: u32 = 0x32;

// Functions.
pub const CALL: u32 = 0x40;
pub const RET: u32 = 0x41;

// I/O.
pub const PRINT: u32 = 0x50;

// Stack operations.
pub const PUSH: u32 = 0x60;
pub const POP: u32 = 0x61;

// Random number request; reserved, the machine treats it as a no-op.
pub const RAND: u32 = 0xFF;

/// Number of words an instruction with this opcode occupies: the opcode
/// word plus its immediate operands.  A word that is no known opcode is
/// treated as a one-word no-op, as the machine does.
pub open spec fn instr_width(op: u32) -> int {
    if op == PUSH || op == JUMP || op == BEQZ || op == BNEZ || op == PRINT
        || op == LOCAL_LOAD || op == LOCAL_STORE || op == GLOBAL_LOAD
        || op == GLOBAL_STORE {
        2
    } else if op == CALL {
        3
    } else {
        1
    }
}

/// Opcodes whose single operand is a branch target address.
pub open spec fn is_branch(op: u32) -> bool {
    op == JUMP || op == BEQZ || op == BNEZ
}

/// The code sequence splits into whole instructions, and every address
/// embedded in it (a branch target, or the callee address of a call) is at
/// most `bound`.
pub open spec fn code_ok(c: Seq<u32>, bound: int) -> bool
    decreases c.len(),
{
    c.len() == 0 || {
        let w = instr_width(c[0]);
        &&& w <= c.len()
        &&& (is_branch(c[0]) ==> c[1] <= bound)
        &&& (c[0] == CALL ==> c[2] <= bound)
        &&& code_ok(c.subrange(w, c.len() as int), bound)
    }
}

/// Concatenating two well-formed code sequences yields a well-formed
/// sequence: instruction boundaries still line up, and no new address
/// appears.
pub proof fn lemma_code_ok_concat(a: Seq<u32>, b: Seq<u32>, bound: int)
    requires
        code_ok(a, bound),
        code_ok(b, bound),
    ensures
        code_ok(a + b, bound),
    decreases a.len(),
{
    if a.len() == 0 {
        assert(a + b =~= b);
    } else {
        let w = instr_width(a[0]);
        lemma_code_ok_concat(a.subrange(w, a.len() as int), b, bound);
        assert((a + b).subrange(w, (a + b).len() as int)
            =~= a.subrange(w, a.len() as int) + b);
        assert((a + b)[0] == a[0]);
        assert(w <= a.len() ==> forall|i: int| 0 <= i < w ==> (a + b)[i] == a[i]);
    }
}

/// A one-word instruction that embeds no address is well formed under any
/// bound.
pub proof fn lemma_code_ok_one(op: u32, bound: int)
    requires
        instr_width(op) == 1,
        !is_branch(op),
        op != CALL,
    ensures
        code_ok(seq![op], bound),
{
    let c = seq![op];
    assert(c.subrange(1, 1) =~= Seq::<u32>::empty());
    assert(code_ok(c.subrange(1, 1), bound));
}

/// A two-word instruction is well formed as long as a branch target
/// operand respects the bound.
pub proof fn lemma_code_ok_two(op: u32, x: u32, bound: int)
    requires
        instr_width(op) == 2,
        is_branch(op) ==> x <= bound,
        op != CALL,
    ensures
        code_ok(seq![op, x], bound),
{
    let c = seq![op, x];
    assert(c.subrange(2, 2) =~= Seq::<u32>::empty());
    assert(code_ok(c.subrange(2, 2), bound));
}

/// A call instruction is well formed when the callee address respects the
/// bound.
pub proof fn lemma_code_ok_call(argc: u32, addr: u32, bound: int)
    requires
        addr <= bound,
    ensures
        code_ok(seq![CALL, argc, addr], bound),
{
    let c = seq![CALL, argc, addr];
    assert(c.subrange(3, 3) =~= Seq::<u32>::empty());
    assert(code_ok(c.subrange(3, 3), bound));
}

} // verus!
