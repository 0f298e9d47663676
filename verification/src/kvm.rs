//! The Koala language virtual machine: a fetch-decode-execute loop over a
//! flat word array, with a data stack, a stack of call frames, and an
//! address-keyed global store.
//!
//! The behaviour of one instruction is given by [`step_spec`], a
//! mathematical transition function over [`MachineState`]; `execute`
//! performs exactly one such transition, and `run` iterates it until the
//! machine halts or faults.  The machine buffers everything it prints;
//! an embedder reads the text through `output`, or steps the machine
//! itself with `execute` and drains the text incrementally with
//! `take_output`, in emission order, with whatever was emitted before a
//! fault preserved.

pub mod memory;
pub mod processor;

use crate::decimal::{dec_rep_i32, i32_to_string, push_char};
use crate::instructions::{
    AND, BEQZ, BNEZ, CALL, END, EQ, FADD, FDIV, FMUL, FSUB, GLOBAL_ARR_LOAD, GLOBAL_ARR_STORE,
    GLOBAL_LOAD, GLOBAL_STORE, GT, GTE, IADD, IDIV, IMUL, ISUB, JUMP, LOCAL_ARR_LOAD,
    LOCAL_ARR_STORE, LOCAL_LOAD, LOCAL_STORE, LT, LTE, NEQ, OR, POP, PRINT, PUSH, RET,
};
use memory::Memory;
use processor::Processor;
use vstd::prelude::*;
use vstd::string::StringExecFns;

verus! {

/// A fatal runtime condition.  Execution stops on the first one; there is
/// no recovery within a machine instance.
#[derive(Clone, Copy, Debug, PartialEq, Eq, Structural)]
pub enum RuntimeError {
    /// A pop on an empty data or call stack.
    StackUnderflow,
    /// An integer division with divisor zero.
    DivisionByZero,
    /// A fetch from an address outside the loaded program.
    InvalidJumpTarget,
    /// A load of a global slot that no store ever reached.
    UninitializedGlobal,
    /// An access to a local slot outside the active frame's locals.
    UninitializedLocal,
    /// A character print of a value that is no Unicode scalar value.
    InvalidCharacterCode,
}

/// The runtime record of one active function invocation.
pub struct Frame {
    /// Address of the invoked function's first instruction.
    pub fn_addr: usize,
    /// The invocation's local slots; arrays occupy contiguous spans.
    pub locals: Vec<i32>,
    /// Address of the instruction to resume at after the return.
    pub return_addr: usize,
}

/// Mathematical model of a call frame.
#[verifier::ext_equal]
pub struct FrameModel {
    pub fn_addr: int,
    pub locals: Seq<i32>,
    pub return_addr: int,
}

impl View for Frame {
    type V = FrameModel;

    open spec fn view(&self) -> FrameModel {
        FrameModel {
            fn_addr: self.fn_addr as int,
            locals: self.locals@,
            return_addr: self.return_addr as int,
        }
    }
}

/// Mathematical model of the mutable machine state (the loaded code is
/// carried separately, since execution never changes it).
#[verifier::ext_equal]
pub struct MachineState {
    pub pc: int,
    pub stack: Seq<i32>,
    pub frames: Seq<FrameModel>,
    pub globals: Map<usize, i32>,
    pub output: Seq<char>,
}

/// Outcome of one instruction: continue, halt normally, or fault.
pub enum Step {
    Next(MachineState),
    Halt(MachineState),
    Fault(MachineState, RuntimeError),
}

pub open spec fn frames_view(cs: Seq<Frame>) -> Seq<FrameModel> {
    Seq::new(cs.len(), |i: int| cs[i]@)
}

/// The comparison and logical opcodes push 1 for true and 0 for false.
pub open spec fn bool_word(b: bool) -> i32 {
    if b {
        1
    } else {
        0
    }
}

pub open spec fn is_arith(op: u32) -> bool {
    op == IADD || op == ISUB || op == IMUL || op == IDIV || op == FADD || op == FSUB
        || op == FMUL || op == FDIV
}

pub open spec fn is_div(op: u32) -> bool {
    op == IDIV || op == FDIV
}

/// Result of an arithmetic opcode on the first-popped and second-popped
/// operands.  Addition, subtraction and multiplication truncate to 32
/// bits; division truncates toward zero, with the one overflowing
/// quotient wrapping back to `i32::MIN`.  The float variants share the
/// integer contract, as the machine stores only 32-bit words.
pub open spec fn arith_result(op: u32, first: i32, second: i32) -> i32 {
    if op == IADD || op == FADD {
        first.wrapping_add(second)
    } else if op == ISUB || op == FSUB {
        first.wrapping_sub(second)
    } else if op == IMUL || op == FMUL {
        first.wrapping_mul(second)
    } else {
        match first.checked_div(second) {
            Some(q) => q,
            None => i32::MIN,
        }
    }
}

pub open spec fn is_cmp(op: u32) -> bool {
    op == LT || op == LTE || op == GT || op == GTE || op == EQ || op == NEQ
}

pub open spec fn cmp_result(op: u32, first: i32, second: i32) -> i32 {
    bool_word(
        if op == LT {
            first < second
        } else if op == LTE {
            first <= second
        } else if op == GT {
            first > second
        } else if op == GTE {
            first >= second
        } else if op == EQ {
            first == second
        } else {
            first != second
        },
    )
}

pub open spec fn is_logic(op: u32) -> bool {
    op == OR || op == AND
}

pub open spec fn logic_result(op: u32, first: i32, second: i32) -> i32 {
    bool_word(
        if op == OR {
            first != 0 || second != 0
        } else {
            first != 0 && second != 0
        },
    )
}

/// Unicode scalar values: what a `PRINT` with mode other than 1 accepts.
pub open spec fn is_scalar(v: u32) -> bool {
    v < 0xD800 || (0xE000 <= v && v < 0x110000)
}

/// The effect of the instruction at `s.pc`: fetch the opcode word, fetch
/// its immediate operands, apply its effect.  Words that are no known
/// opcode are one-word no-ops.
pub open spec fn step_spec(code: Seq<u32>, s: MachineState) -> Step {
    if !(0 <= s.pc < code.len()) {
        Step::Fault(s, RuntimeError::InvalidJumpTarget)
    } else {
        let op = code[s.pc];
        let s1 = MachineState { pc: s.pc + 1, ..s };
        if op == END {
            Step::Halt(s1)
        } else if op == PUSH {
            if !(s1.pc < code.len()) {
                Step::Fault(s1, RuntimeError::InvalidJumpTarget)
            } else {
                Step::Next(
                    MachineState {
                        pc: s1.pc + 1,
                        stack: s1.stack.push(code[s1.pc] as i32),
                        ..s1
                    },
                )
            }
        } else if op == POP {
            if s1.stack.len() == 0 {
                Step::Fault(s1, RuntimeError::StackUnderflow)
            } else {
                Step::Next(MachineState { stack: s1.stack.drop_last(), ..s1 })
            }
        } else if is_arith(op) || is_cmp(op) || is_logic(op) {
            if s1.stack.len() < 2 {
                Step::Fault(s1, RuntimeError::StackUnderflow)
            } else {
                let first = s1.stack.last();
                let second = s1.stack.drop_last().last();
                let rest = s1.stack.drop_last().drop_last();
                if is_div(op) && second == 0 {
                    Step::Fault(s1, RuntimeError::DivisionByZero)
                } else {
                    let r = if is_arith(op) {
                        arith_result(op, first, second)
                    } else if is_cmp(op) {
                        cmp_result(op, first, second)
                    } else {
                        logic_result(op, first, second)
                    };
                    Step::Next(MachineState { stack: rest.push(r), ..s1 })
                }
            }
        } else if op == JUMP {
            if !(s1.pc < code.len()) {
                Step::Fault(s1, RuntimeError::InvalidJumpTarget)
            } else {
                Step::Next(MachineState { pc: code[s1.pc] as int, ..s1 })
            }
        } else if op == BEQZ || op == BNEZ {
            if !(s1.pc < code.len()) {
                Step::Fault(s1, RuntimeError::InvalidJumpTarget)
            } else {
                let addr = code[s1.pc];
                let s2 = MachineState { pc: s1.pc + 1, ..s1 };
                if s2.stack.len() == 0 {
                    Step::Fault(s2, RuntimeError::StackUnderflow)
                } else {
                    let v = s2.stack.last();
                    let s3 = MachineState { stack: s2.stack.drop_last(), ..s2 };
                    let taken = if op == BEQZ {
                        v == 0
                    } else {
                        v != 0
                    };
                    if taken {
                        Step::Next(MachineState { pc: addr as int, ..s3 })
                    } else {
                        Step::Next(s3)
                    }
                }
            }
        } else if op == CALL {
            if !(s1.pc < code.len()) {
                Step::Fault(s1, RuntimeError::InvalidJumpTarget)
            } else {
                let argc = code[s1.pc];
                let s2 = MachineState { pc: s1.pc + 1, ..s1 };
                if !(s2.pc < code.len()) {
                    Step::Fault(s2, RuntimeError::InvalidJumpTarget)
                } else {
                    let addr = code[s2.pc];
                    let s3 = MachineState { pc: s2.pc + 1, ..s2 };
                    if s3.stack.len() < argc {
                        Step::Fault(s3, RuntimeError::StackUnderflow)
                    } else {
                        let locals = Seq::new(
                            argc as nat,
                            |j: int| s3.stack[s3.stack.len() - 1 - j],
                        );
                        let frame = FrameModel {
                            fn_addr: addr as int,
                            locals,
                            return_addr: s3.pc,
                        };
                        Step::Next(
                            MachineState {
                                pc: addr as int,
                                stack: s3.stack.take(s3.stack.len() - argc),
                                frames: s3.frames.push(frame),
                                ..s3
                            },
                        )
                    }
                }
            }
        } else if op == RET {
            if s1.frames.len() == 0 {
                Step::Fault(s1, RuntimeError::StackUnderflow)
            } else {
                Step::Next(
                    MachineState {
                        pc: s1.frames.last().return_addr,
                        frames: s1.frames.drop_last(),
                        ..s1
                    },
                )
            }
        } else if op == PRINT {
            if !(s1.pc < code.len()) {
                Step::Fault(s1, RuntimeError::InvalidJumpTarget)
            } else {
                let mode = code[s1.pc];
                let s2 = MachineState { pc: s1.pc + 1, ..s1 };
                if s2.stack.len() == 0 {
                    Step::Fault(s2, RuntimeError::StackUnderflow)
                } else {
                    let v = s2.stack.last();
                    let s3 = MachineState { stack: s2.stack.drop_last(), ..s2 };
                    if mode == 1 {
                        Step::Next(MachineState { output: s3.output + dec_rep_i32(v), ..s3 })
                    } else if is_scalar(v as u32) {
                        Step::Next(
                            MachineState { output: s3.output + seq![(v as u32) as char], ..s3 },
                        )
                    } else {
                        Step::Fault(s3, RuntimeError::InvalidCharacterCode)
                    }
                }
            }
        } else if op == LOCAL_LOAD {
            if !(s1.pc < code.len()) {
                Step::Fault(s1, RuntimeError::InvalidJumpTarget)
            } else {
                let offset = code[s1.pc];
                let s2 = MachineState { pc: s1.pc + 1, ..s1 };
                if s2.frames.len() == 0 {
                    Step::Fault(s2, RuntimeError::StackUnderflow)
                } else if !(offset < s2.frames.last().locals.len()) {
                    Step::Fault(s2, RuntimeError::UninitializedLocal)
                } else {
                    Step::Next(
                        MachineState {
                            stack: s2.stack.push(s2.frames.last().locals[offset as int]),
                            ..s2
                        },
                    )
                }
            }
        } else if op == LOCAL_STORE {
            if !(s1.pc < code.len()) {
                Step::Fault(s1, RuntimeError::InvalidJumpTarget)
            } else {
                let offset = code[s1.pc];
                let s2 = MachineState { pc: s1.pc + 1, ..s1 };
                if s2.frames.len() == 0 {
                    Step::Fault(s2, RuntimeError::StackUnderflow)
                } else if !(offset <= s2.frames.last().locals.len()) {
                    Step::Fault(s2, RuntimeError::UninitializedLocal)
                } else if s2.stack.len() == 0 {
                    Step::Fault(s2, RuntimeError::StackUnderflow)
                } else {
                    let v = s2.stack.last();
                    let f = s2.frames.last();
                    let f2 = if offset == f.locals.len() {
                        FrameModel { locals: f.locals.push(v), ..f }
                    } else {
                        FrameModel { locals: f.locals.update(offset as int, v), ..f }
                    };
                    Step::Next(
                        MachineState {
                            stack: s2.stack.drop_last(),
                            frames: s2.frames.drop_last().push(f2),
                            ..s2
                        },
                    )
                }
            }
        } else if op == GLOBAL_LOAD {
            if !(s1.pc < code.len()) {
                Step::Fault(s1, RuntimeError::InvalidJumpTarget)
            } else {
                let offset = code[s1.pc];
                let s2 = MachineState { pc: s1.pc + 1, ..s1 };
                if !s2.globals.contains_key(offset as usize) {
                    Step::Fault(s2, RuntimeError::UninitializedGlobal)
                } else {
                    Step::Next(
                        MachineState { stack: s2.stack.push(s2.globals[offset as usize]), ..s2 },
                    )
                }
            }
        } else if op == GLOBAL_STORE {
            if !(s1.pc < code.len()) {
                Step::Fault(s1, RuntimeError::InvalidJumpTarget)
            } else {
                let offset = code[s1.pc];
                let s2 = MachineState { pc: s1.pc + 1, ..s1 };
                if s2.stack.len() == 0 {
                    Step::Fault(s2, RuntimeError::StackUnderflow)
                } else {
                    Step::Next(
                        MachineState {
                            stack: s2.stack.drop_last(),
                            globals: s2.globals.insert(offset as usize, s2.stack.last()),
                            ..s2
                        },
                    )
                }
            }
        } else if op == LOCAL_ARR_LOAD {
            if s1.stack.len() < 2 {
                Step::Fault(s1, RuntimeError::StackUnderflow)
            } else if s1.frames.len() == 0 {
                Step::Fault(s1, RuntimeError::StackUnderflow)
            } else {
                let index = s1.stack.last();
                let base = s1.stack.drop_last().last();
                let rest = s1.stack.drop_last().drop_last();
                let locals = s1.frames.last().locals;
                if 0 <= base && 0 <= index && base + index < locals.len() {
                    Step::Next(MachineState { stack: rest.push(locals[base + index]), ..s1 })
                } else {
                    Step::Fault(s1, RuntimeError::UninitializedLocal)
                }
            }
        } else if op == LOCAL_ARR_STORE {
            if s1.stack.len() < 3 {
                Step::Fault(s1, RuntimeError::StackUnderflow)
            } else if s1.frames.len() == 0 {
                Step::Fault(s1, RuntimeError::StackUnderflow)
            } else {
                let base = s1.stack.last();
                let index = s1.stack.drop_last().last();
                let v = s1.stack.drop_last().drop_last().last();
                let rest = s1.stack.drop_last().drop_last().drop_last();
                let f = s1.frames.last();
                if 0 <= base && 0 <= index && base + index < f.locals.len() {
                    let f2 = FrameModel { locals: f.locals.update(base + index, v), ..f };
                    Step::Next(
                        MachineState {
                            stack: rest,
                            frames: s1.frames.drop_last().push(f2),
                            ..s1
                        },
                    )
                } else {
                    Step::Fault(s1, RuntimeError::UninitializedLocal)
                }
            }
        } else if op == GLOBAL_ARR_LOAD {
            if s1.stack.len() < 2 {
                Step::Fault(s1, RuntimeError::StackUnderflow)
            } else {
                let index = s1.stack.last();
                let base = s1.stack.drop_last().last();
                let rest = s1.stack.drop_last().drop_last();
                if 0 <= base && 0 <= index && s1.globals.contains_key((base + index) as usize) {
                    Step::Next(
                        MachineState {
                            stack: rest.push(s1.globals[(base + index) as usize]),
                            ..s1
                        },
                    )
                } else {
                    Step::Fault(s1, RuntimeError::UninitializedGlobal)
                }
            }
        } else if op == GLOBAL_ARR_STORE {
            if s1.stack.len() < 3 {
                Step::Fault(s1, RuntimeError::StackUnderflow)
            } else {
                let base = s1.stack.last();
                let index = s1.stack.drop_last().last();
                let v = s1.stack.drop_last().drop_last().last();
                let rest = s1.stack.drop_last().drop_last().drop_last();
                if 0 <= base && 0 <= index {
                    Step::Next(
                        MachineState {
                            stack: rest,
                            globals: s1.globals.insert((base + index) as usize, v),
                            ..s1
                        },
                    )
                } else {
                    Step::Fault(s1, RuntimeError::UninitializedGlobal)
                }
            }
        } else {
            Step::Next(s1)
        }
    }
}

/// The machine state after `n` successful steps; a halt or fault absorbs
/// the remaining steps.
pub open spec fn reach(code: Seq<u32>, s: MachineState, n: nat) -> Step
    decreases n,
{
    if n == 0 {
        Step::Next(s)
    } else {
        match reach(code, s, (n - 1) as nat) {
            Step::Next(s2) => step_spec(code, s2),
            r => r,
        }
    }
}

/// Relies on char::from_u32: `Some` exactly for valid Unicode scalar
/// values, returning the char with that scalar value.
#[verifier::external_body]
fn char_from_u32(v: u32) -> (r: Option<char>)
    ensures
        r == (if is_scalar(v) {
            Some(v as char)
        } else {
            None::<char>
        }),
{
    char::from_u32(v)
}

/// Law: a bare return never underflows the caller's expected-value
/// consumption.  The code generator compiles `return` without an
/// expression to exactly `PUSH 0`, `RET` (an ensures of
/// `Statement::code_gen`); executing those words from any state with a
/// live call frame takes two steps, leaves exactly one defined zero above
/// the caller's stack, and resumes at the frame's return address.
pub proof fn lemma_bare_return(code: Seq<u32>, s: MachineState)
    requires
        0 <= s.pc,
        s.pc + 3 <= code.len(),
        code[s.pc] == PUSH,
        code[s.pc + 1] == 0,
        code[s.pc + 2] == RET,
        s.frames.len() > 0,
    ensures
        reach(code, s, 2) == Step::Next(
            MachineState {
                pc: s.frames.last().return_addr,
                stack: s.stack.push(0),
                frames: s.frames.drop_last(),
                ..s
            },
        ),
{
    let s1 = MachineState { pc: s.pc + 2, stack: s.stack.push(0), ..s };
    let st0 = step_spec(code, s);
    assert(st0 is Next);
    assert(st0->Next_0 =~= s1);
    let st1 = step_spec(code, s1);
    let s2 = MachineState {
        pc: s.frames.last().return_addr,
        frames: s.frames.drop_last(),
        ..s1
    };
    assert(st1 is Next);
    assert(st1->Next_0 =~= s2);
    assert(reach(code, s, 0) == Step::Next(s));
    assert(reach(code, s, 1) == Step::Next(s1));
    assert(reach(code, s, 2) == Step::Next(s2));
}

/// A sequence followed by anything has that sequence as a prefix.
proof fn lemma_prefix_append(a: Seq<char>, t: Seq<char>)
    ensures
        a.is_prefix_of(a + t),
{
    assert((a + t).subrange(0, a.len() as int) =~= a);
}

/// Law: execution only appends to the output.  Whatever one step does —
/// continue, halt normally, or fault — everything already emitted stays,
/// so a fault stops the stream but loses nothing printed before it.
pub proof fn lemma_output_preserved(code: Seq<u32>, s: MachineState)
    ensures
        match step_spec(code, s) {
            Step::Next(s2) => s.output.is_prefix_of(s2.output),
            Step::Halt(s2) => s.output.is_prefix_of(s2.output),
            Step::Fault(s2, _) => s.output.is_prefix_of(s2.output),
        },
{
    assert(s.output.is_prefix_of(s.output)) by {
        assert(s.output.subrange(0, s.output.len() as int) =~= s.output);
    }
    if 0 <= s.pc < code.len() {
        let op = code[s.pc];
        if op == PRINT && s.pc + 1 < code.len() && s.stack.len() > 0 {
            let v = s.stack.last();
            lemma_prefix_append(s.output, dec_rep_i32(v));
            lemma_prefix_append(s.output, seq![(v as u32) as char]);
        }
    }
}

/// The Koala language virtual machine.
pub struct VirtualMachine {
    pub processor: Processor,
    pub memory: Memory,
    code: Vec<u32>,
    running: bool,
    output: String,
}

impl VirtualMachine {
    /// The loaded program.
    pub closed spec fn code_view(&self) -> Seq<u32> {
        self.code@
    }

    /// Whether the machine is in its running state.
    pub closed spec fn is_running(&self) -> bool {
        self.running
    }

    /// The mutable machine state, as the step relation sees it.
    pub closed spec fn st(&self) -> MachineState {
        MachineState {
            pc: self.processor.pc as int,
            stack: self.memory.data_stack@,
            frames: frames_view(self.memory.call_stack@),
            globals: self.memory.globals(),
            output: self.output@,
        }
    }

    pub fn new() -> (vm: VirtualMachine)
        ensures
            vm.st() == (MachineState {
                pc: 0,
                stack: Seq::<i32>::empty(),
                frames: Seq::<FrameModel>::empty(),
                globals: Map::<usize, i32>::empty(),
                output: Seq::<char>::empty(),
            }),
            vm.code_view() == Seq::<u32>::empty(),
            !vm.is_running(),
    {
        let vm = VirtualMachine {
            processor: Processor::new(),
            memory: Memory::new(),
            code: Vec::new(),
            running: false,
            output: String::new(),
        };
        proof {
            assert(frames_view(vm.memory.call_stack@) =~= Seq::<FrameModel>::empty());
        }
        vm
    }

    /// Load a program into code memory, replacing any earlier one.
    pub fn load_code(&mut self, code: &[u32])
        ensures
            final(self).code_view() == code@,
            final(self).st() == old(self).st(),
            final(self).is_running() == old(self).is_running(),
    {
        let mut buf: Vec<u32> = Vec::new();
        let mut i: usize = 0;
        while i < code.len()
            invariant
                i <= code@.len(),
                buf@ == code@.take(i as int),
            decreases code@.len() - i,
        {
            buf.push(code[i]);
            assert(buf@ =~= code@.take(i + 1));
            i += 1;
        }
        assert(buf@ =~= code@);
        self.code = buf;
    }

    /// Everything the machine has printed so far, in emission order.
    pub fn output(&self) -> (s: &str)
        ensures
            s@ == self.st().output,
    {
        self.output.as_str()
    }

    /// Hand over everything printed so far and clear the buffer, so an
    /// embedder stepping the machine with `execute` can drain the text
    /// incrementally, in emission order.
    pub fn take_output(&mut self) -> (s: String)
        ensures
            s@ == old(self).st().output,
            final(self).st() == (MachineState { output: Seq::<char>::empty(), ..old(self).st() }),
            final(self).code_view() == old(self).code_view(),
            final(self).is_running() == old(self).is_running(),
    {
        let s = self.output.clone();
        self.output = String::new();
        s
    }

    /// Fetch the word at the program counter and advance past it.
    pub fn fetch(&mut self) -> (r: Result<u32, RuntimeError>)
        ensures
            final(self).code_view() == old(self).code_view(),
            final(self).is_running() == old(self).is_running(),
            if old(self).st().pc < old(self).code_view().len() {
                r == Ok::<u32, RuntimeError>(old(self).code_view()[old(self).st().pc])
                    && final(self).st() == (MachineState {
                    pc: old(self).st().pc + 1,
                    ..old(self).st()
                })
            } else {
                r == Err::<u32, RuntimeError>(RuntimeError::InvalidJumpTarget) && final(self).st()
                    == old(self).st()
            },
    {
        if self.processor.pc < self.code.len() {
            let w = self.code[self.processor.pc];
            self.processor.ir = w;
            self.processor.pc = self.processor.pc + 1;
            Ok(w)
        } else {
            Err(RuntimeError::InvalidJumpTarget)
        }
    }

    /// Perform one full instruction from the current state: fetch the
    /// opcode and its operands, apply its effect.  Callable from any
    /// state, so an embedder can step the machine itself; the machine
    /// leaves its running state exactly on `END` (a halt) or on a fault,
    /// which the result reports.
    #[verifier::rlimit(100)]
    #[verifier::spinoff_prover]
    pub fn execute(&mut self) -> (r: Result<(), RuntimeError>)
        ensures
            final(self).code_view() == old(self).code_view(),
            match step_spec(old(self).code_view(), old(self).st()) {
                Step::Next(s2) => r == Ok::<(), RuntimeError>(()) && final(self).is_running()
                    == old(self).is_running() && final(self).st() == s2,
                Step::Halt(s2) => r == Ok::<(), RuntimeError>(()) && !final(self).is_running()
                    && final(self).st() == s2,
                Step::Fault(s2, e) => r == Err::<(), RuntimeError>(e)
                    && !final(self).is_running() && final(self).st() == s2,
            },
    {
        let op = match self.fetch() {
            Ok(w) => w,
            Err(e) => {
                self.running = false;
                return Err(e);
            },
        };
        if op == END {
            self.running = false;
            return Ok(());
        }
        if op == PUSH {
            let imm = match self.fetch() {
                Ok(w) => w,
                Err(e) => {
                    self.running = false;
                    return Err(e);
                },
            };
            self.memory.data_stack.push(imm as i32);
            return Ok(());
        }
        if op == POP {
            if self.memory.data_stack.len() == 0 {
                self.running = false;
                return Err(RuntimeError::StackUnderflow);
            }
            self.memory.data_stack.pop().unwrap();
            return Ok(());
        }
        if op == IADD || op == ISUB || op == IMUL || op == IDIV || op == FADD || op == FSUB
            || op == FMUL || op == FDIV || op == LT || op == LTE || op == GT || op == GTE
            || op == EQ || op == NEQ || op == OR || op == AND {
            let n = self.memory.data_stack.len();
            if n < 2 {
                self.running = false;
                return Err(RuntimeError::StackUnderflow);
            }
            if (op == IDIV || op == FDIV) && self.memory.data_stack[n - 2] == 0 {
                self.running = false;
                return Err(RuntimeError::DivisionByZero);
            }
            let first = self.memory.data_stack.pop().unwrap();
            let second = self.memory.data_stack.pop().unwrap();
            let result: i32 = if op == IADD || op == FADD {
                first.wrapping_add(second)
            } else if op == ISUB || op == FSUB {
                first.wrapping_sub(second)
            } else if op == IMUL || op == FMUL {
                first.wrapping_mul(second)
            } else if op == IDIV || op == FDIV {
                match first.checked_div(second) {
                    Some(q) => q,
                    None => i32::MIN,
                }
            } else if op == LT {
                if first < second { 1 } else { 0 }
            } else if op == LTE {
                if first <= second { 1 } else { 0 }
            } else if op == GT {
                if first > second { 1 } else { 0 }
            } else if op == GTE {
                if first >= second { 1 } else { 0 }
            } else if op == EQ {
                if first == second { 1 } else { 0 }
            } else if op == NEQ {
                if first != second { 1 } else { 0 }
            } else if op == OR {
                if first != 0 || second != 0 { 1 } else { 0 }
            } else {
                if first != 0 && second != 0 { 1 } else { 0 }
            };
            self.memory.data_stack.push(result);
            return Ok(());
        }
        if op == JUMP {
            let addr = match self.fetch() {
                Ok(w) => w,
                Err(e) => {
                    self.running = false;
                    return Err(e);
                },
            };
            self.processor.pc = addr as usize;
            return Ok(());
        }
        if op == BEQZ || op == BNEZ {
            let addr = match self.fetch() {
                Ok(w) => w,
                Err(e) => {
                    self.running = false;
                    return Err(e);
                },
            };
            if self.memory.data_stack.len() == 0 {
                self.running = false;
                return Err(RuntimeError::StackUnderflow);
            }
            let v = self.memory.data_stack.pop().unwrap();
            let taken = if op == BEQZ { v == 0 } else { v != 0 };
            if taken {
                self.processor.pc = addr as usize;
            }
            return Ok(());
        }
        if op == CALL {
            let argcw = match self.fetch() {
                Ok(w) => w,
                Err(e) => {
                    self.running = false;
                    return Err(e);
                },
            };
            let addrw = match self.fetch() {
                Ok(w) => w,
                Err(e) => {
                    self.running = false;
                    return Err(e);
                },
            };
            let argc = argcw as usize;
            if self.memory.data_stack.len() < argc {
                self.running = false;
                return Err(RuntimeError::StackUnderflow);
            }
            let ghost stack0 = self.memory.data_stack@;
            let ghost pre = *self;
            let mut locals: Vec<i32> = Vec::new();
            let mut k: usize = 0;
            while k < argc
                invariant
                    k <= argc,
                    argc <= stack0.len(),
                    self.memory.data_stack@ == stack0.take(stack0.len() - k),
                    locals@ == Seq::new(k as nat, |j: int| stack0[stack0.len() - 1 - j]),
                    self.processor == pre.processor,
                    self.memory.call_stack == pre.memory.call_stack,
                    self.memory.global_storage == pre.memory.global_storage,
                    self.code == pre.code,
                    self.running == pre.running,
                    self.output == pre.output,
                decreases argc - k,
            {
                assert(self.memory.data_stack@.len() == stack0.len() - k);
                let v = self.memory.data_stack.pop().unwrap();
                locals.push(v);
                proof {
                    assert(self.memory.data_stack@ =~= stack0.take(stack0.len() - (k + 1)));
                    assert(locals@ =~= Seq::new(
                        (k + 1) as nat,
                        |j: int| stack0[stack0.len() - 1 - j],
                    ));
                }
                k += 1;
            }
            let frame = Frame {
                fn_addr: addrw as usize,
                locals,
                return_addr: self.processor.pc,
            };
            let ghost cs0 = self.memory.call_stack@;
            let ghost fm = frame@;
            self.memory.call_stack.push(frame);
            self.processor.pc = addrw as usize;
            proof {
                assert(frames_view(self.memory.call_stack@) =~= frames_view(cs0).push(fm));
            }
            return Ok(());
        }
        if op == RET {
            if self.memory.call_stack.len() == 0 {
                self.running = false;
                return Err(RuntimeError::StackUnderflow);
            }
            let ghost cs0 = self.memory.call_stack@;
            let fr = self.memory.call_stack.pop().unwrap();
            self.processor.pc = fr.return_addr;
            proof {
                assert(frames_view(cs0.drop_last()) =~= frames_view(cs0).drop_last());
            }
            return Ok(());
        }
        if op == PRINT {
            let mode = match self.fetch() {
                Ok(w) => w,
                Err(e) => {
                    self.running = false;
                    return Err(e);
                },
            };
            if self.memory.data_stack.len() == 0 {
                self.running = false;
                return Err(RuntimeError::StackUnderflow);
            }
            let v = self.memory.data_stack.pop().unwrap();
            if mode == 1 {
                let txt = i32_to_string(v);
                self.output.append(txt.as_str());
            } else {
                match char_from_u32(v as u32) {
                    Some(c) => push_char(&mut self.output, c),
                    None => {
                        self.running = false;
                        return Err(RuntimeError::InvalidCharacterCode);
                    },
                }
            }
            return Ok(());
        }
        if op == LOCAL_LOAD || op == LOCAL_STORE || op == GLOBAL_LOAD || op == GLOBAL_STORE
            || op == LOCAL_ARR_LOAD || op == LOCAL_ARR_STORE || op == GLOBAL_ARR_LOAD
            || op == GLOBAL_ARR_STORE {
            let ghost s0 = old(self).st();
            return self.execute_mem(op, Ghost(s0));
        }
        Ok(())
    }


    /// The variable- and array-access instructions: loads and stores
    /// against the active frame's locals or the global store.  `s0` is
    /// the state the opcode was fetched from; the effect is that state's
    /// full step.
    #[verifier::rlimit(100)]
    #[verifier::spinoff_prover]
    fn execute_mem(&mut self, op: u32, Ghost(s0): Ghost<MachineState>) -> (r: Result<
        (),
        RuntimeError,
    >)
        requires
            op == LOCAL_LOAD || op == LOCAL_STORE || op == GLOBAL_LOAD || op == GLOBAL_STORE
                || op == LOCAL_ARR_LOAD || op == LOCAL_ARR_STORE || op == GLOBAL_ARR_LOAD
                || op == GLOBAL_ARR_STORE,
            0 <= s0.pc < old(self).code_view().len(),
            old(self).code_view()[s0.pc] == op,
            old(self).st() == (MachineState { pc: s0.pc + 1, ..s0 }),
        ensures
            final(self).code_view() == old(self).code_view(),
            match step_spec(old(self).code_view(), s0) {
                Step::Next(s2) => r == Ok::<(), RuntimeError>(()) && final(self).is_running()
                    == old(self).is_running() && final(self).st() == s2,
                Step::Halt(s2) => r == Ok::<(), RuntimeError>(()) && !final(self).is_running()
                    && final(self).st() == s2,
                Step::Fault(s2, e) => r == Err::<(), RuntimeError>(e)
                    && !final(self).is_running() && final(self).st() == s2,
            },
    {
        if op == LOCAL_LOAD {
            let offw = match self.fetch() {
                Ok(w) => w,
                Err(e) => {
                    self.running = false;
                    return Err(e);
                },
            };
            let m = self.memory.call_stack.len();
            if m == 0 {
                self.running = false;
                return Err(RuntimeError::StackUnderflow);
            }
            if !((offw as usize) < self.memory.call_stack[m - 1].locals.len()) {
                self.running = false;
                return Err(RuntimeError::UninitializedLocal);
            }
            let v = self.memory.call_stack[m - 1].locals[offw as usize];
            self.memory.data_stack.push(v);
            return Ok(());
        }
        if op == LOCAL_STORE {
            let offw = match self.fetch() {
                Ok(w) => w,
                Err(e) => {
                    self.running = false;
                    return Err(e);
                },
            };
            let m = self.memory.call_stack.len();
            if m == 0 {
                self.running = false;
                return Err(RuntimeError::StackUnderflow);
            }
            if !((offw as usize) <= self.memory.call_stack[m - 1].locals.len()) {
                self.running = false;
                return Err(RuntimeError::UninitializedLocal);
            }
            if self.memory.data_stack.len() == 0 {
                self.running = false;
                return Err(RuntimeError::StackUnderflow);
            }
            let v = self.memory.data_stack.pop().unwrap();
            let ghost cs0 = self.memory.call_stack@;
            let mut fr = self.memory.call_stack.pop().unwrap();
            if offw as usize == fr.locals.len() {
                fr.locals.push(v);
            } else {
                fr.locals[offw as usize] = v;
            }
            let ghost fm = fr@;
            self.memory.call_stack.push(fr);
            proof {
                assert(frames_view(self.memory.call_stack@)
                    =~= frames_view(cs0).drop_last().push(fm));
            }
            return Ok(());
        }
        if op == GLOBAL_LOAD {
            let offw = match self.fetch() {
                Ok(w) => w,
                Err(e) => {
                    self.running = false;
                    return Err(e);
                },
            };
            match self.memory.read(offw as usize) {
                Some(v) => {
                    self.memory.data_stack.push(v);
                    return Ok(());
                },
                None => {
                    self.running = false;
                    return Err(RuntimeError::UninitializedGlobal);
                },
            }
        }
        if op == GLOBAL_STORE {
            let offw = match self.fetch() {
                Ok(w) => w,
                Err(e) => {
                    self.running = false;
                    return Err(e);
                },
            };
            if self.memory.data_stack.len() == 0 {
                self.running = false;
                return Err(RuntimeError::StackUnderflow);
            }
            let v = self.memory.data_stack.pop().unwrap();
            self.memory.write(offw as usize, v);
            return Ok(());
        }
        if op == LOCAL_ARR_LOAD {
            let n = self.memory.data_stack.len();
            if n < 2 {
                self.running = false;
                return Err(RuntimeError::StackUnderflow);
            }
            let m = self.memory.call_stack.len();
            if m == 0 {
                self.running = false;
                return Err(RuntimeError::StackUnderflow);
            }
            let index = self.memory.data_stack[n - 1];
            let base = self.memory.data_stack[n - 2];
            let flen = self.memory.call_stack[m - 1].locals.len();
            if !(base >= 0 && index >= 0 && (base as usize) + (index as usize) < flen) {
                self.running = false;
                return Err(RuntimeError::UninitializedLocal);
            }
            let v = self.memory.call_stack[m - 1].locals[(base as usize) + (index as usize)];
            self.memory.data_stack.pop().unwrap();
            self.memory.data_stack.pop().unwrap();
            self.memory.data_stack.push(v);
            return Ok(());
        }
        if op == LOCAL_ARR_STORE {
            let n = self.memory.data_stack.len();
            if n < 3 {
                self.running = false;
                return Err(RuntimeError::StackUnderflow);
            }
            let m = self.memory.call_stack.len();
            if m == 0 {
                self.running = false;
                return Err(RuntimeError::StackUnderflow);
            }
            let base = self.memory.data_stack[n - 1];
            let index = self.memory.data_stack[n - 2];
            let v = self.memory.data_stack[n - 3];
            let flen = self.memory.call_stack[m - 1].locals.len();
            if !(base >= 0 && index >= 0 && (base as usize) + (index as usize) < flen) {
                self.running = false;
                return Err(RuntimeError::UninitializedLocal);
            }
            self.memory.data_stack.pop().unwrap();
            self.memory.data_stack.pop().unwrap();
            self.memory.data_stack.pop().unwrap();
            let ghost cs0 = self.memory.call_stack@;
            let mut fr = self.memory.call_stack.pop().unwrap();
            fr.locals[(base as usize) + (index as usize)] = v;
            let ghost fm = fr@;
            self.memory.call_stack.push(fr);
            proof {
                assert(frames_view(self.memory.call_stack@)
                    =~= frames_view(cs0).drop_last().push(fm));
            }
            return Ok(());
        }
        if op == GLOBAL_ARR_LOAD {
            let n = self.memory.data_stack.len();
            if n < 2 {
                self.running = false;
                return Err(RuntimeError::StackUnderflow);
            }
            let index = self.memory.data_stack[n - 1];
            let base = self.memory.data_stack[n - 2];
            if !(base >= 0 && index >= 0) {
                self.running = false;
                return Err(RuntimeError::UninitializedGlobal);
            }
            match self.memory.read((base as usize) + (index as usize)) {
                Some(v) => {
                    self.memory.data_stack.pop().unwrap();
                    self.memory.data_stack.pop().unwrap();
                    self.memory.data_stack.push(v);
                    return Ok(());
                },
                None => {
                    self.running = false;
                    return Err(RuntimeError::UninitializedGlobal);
                },
            }
        }
        if op == GLOBAL_ARR_STORE {
            let n = self.memory.data_stack.len();
            if n < 3 {
                self.running = false;
                return Err(RuntimeError::StackUnderflow);
            }
            let base = self.memory.data_stack[n - 1];
            let index = self.memory.data_stack[n - 2];
            let v = self.memory.data_stack[n - 3];
            if !(base >= 0 && index >= 0) {
                self.running = false;
                return Err(RuntimeError::UninitializedGlobal);
            }
            self.memory.data_stack.pop().unwrap();
            self.memory.data_stack.pop().unwrap();
            self.memory.data_stack.pop().unwrap();
            self.memory.write((base as usize) + (index as usize), v);
            return Ok(());
        }
        proof {
            // the eight memory opcodes are all handled above
            assert(false);
        }
        Ok(())
    }

    /// Drive the fetch-execute loop until the machine halts on `END` or
    /// faults.  The result is the first fault, if one occurred; what was
    /// printed before it is preserved.  A step budget far beyond any
    /// practical execution bounds the loop; a program still running when
    /// it is spent is left in its running state after exactly that many
    /// steps.
    pub fn run(&mut self) -> (r: Result<(), RuntimeError>)
        ensures
            final(self).code_view() == old(self).code_view(),
            match r {
                Ok(_) => {
                    if final(self).is_running() {
                        reach(old(self).code_view(), old(self).st(), u64::MAX as nat)
                            == Step::Next(final(self).st())
                    } else {
                        exists|n: nat|
                            reach(old(self).code_view(), old(self).st(), n) == Step::Halt(
                                final(self).st(),
                            )
                    }
                },
                Err(e) => !final(self).is_running() && exists|n: nat|
                    reach(old(self).code_view(), old(self).st(), n) == Step::Fault(
                        final(self).st(),
                        e,
                    ),
            },
    {
        self.running = true;
        let ghost code0 = self.code@;
        let ghost s0 = self.st();
        let ghost mut n: nat = 0;
        let mut fuel: u64 = u64::MAX;
        while self.running && fuel > 0
            invariant
                self.code_view() == code0,
                code0 == old(self).code_view(),
                s0 == old(self).st(),
                n == u64::MAX - fuel,
                self.is_running() ==> reach(code0, s0, n) == Step::Next(self.st()),
                !self.is_running() ==> reach(code0, s0, n) == Step::Halt(self.st()),
            decreases fuel,
        {
            let res = self.execute();
            proof {
                n = n + 1;
            }
            fuel = fuel - 1;
            if let Err(e) = res {
                proof {
                    assert(reach(code0, s0, n) == Step::Fault(self.st(), e));
                }
                return Err(e);
            }
        }
        Ok(())
    }
}

} // verus!
