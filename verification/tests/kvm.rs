use koala::instructions::{
    CALL, END, GLOBAL_LOAD, IADD, IDIV, JUMP, LOCAL_LOAD, POP, PRINT, PUSH, RET,
};
use koala::kvm::{RuntimeError, VirtualMachine};

fn run_words(code: &[u32]) -> (Result<(), RuntimeError>, String) {
    let mut vm = VirtualMachine::new();
    vm.load_code(code);
    let r = vm.run();
    let out = vm.output().to_string();
    (r, out)
}

#[test]
fn kvm_output_callback_modify_values() {
    let code = &[PUSH, 0, PRINT, 1, END];

    let mut vm = VirtualMachine::new();
    vm.load_code(code);
    let r = vm.run();

    assert_eq!(r, Ok(()));
    assert_eq!(vm.output(), "0");
}

#[test]
fn kvn_stack_load_print() {
    let test_value = 1;

    let code = &[PUSH, test_value, PRINT, 1, END];

    let mut vm = VirtualMachine::new();
    vm.load_code(code);
    let r = vm.run();

    assert_eq!(r, Ok(()));
    assert_eq!(vm.output(), test_value.to_string());
}

#[test]
fn push_pop_leaves_no_output() {
    let (r, out) = run_words(&[PUSH, 7, POP, END]);
    assert_eq!(r, Ok(()));
    assert_eq!(out, "");
}

#[test]
fn pop_on_empty_stack_faults() {
    let (r, out) = run_words(&[POP, END]);
    assert_eq!(r, Err(RuntimeError::StackUnderflow));
    assert_eq!(out, "");
}

#[test]
fn division_by_zero_faults() {
    let (r, _) = run_words(&[PUSH, 0, PUSH, 5, IDIV, END]);
    assert_eq!(r, Err(RuntimeError::DivisionByZero));
}

#[test]
fn division_truncates_toward_zero() {
    // second operand 2 is pushed first; the first-popped operand is -7.
    let (r, out) = run_words(&[PUSH, 2, PUSH, (-7i32) as u32, IDIV, PRINT, 1, END]);
    assert_eq!(r, Ok(()));
    assert_eq!(out, "-3");
}

#[test]
fn addition_wraps_to_32_bits() {
    let (r, out) = run_words(&[PUSH, 0x7FFFFFFF, PUSH, 1, IADD, PRINT, 1, END]);
    assert_eq!(r, Ok(()));
    assert_eq!(out, "-2147483648");
}

#[test]
fn jump_outside_program_faults() {
    let (r, _) = run_words(&[JUMP, 99]);
    assert_eq!(r, Err(RuntimeError::InvalidJumpTarget));
}

#[test]
fn unset_global_load_faults() {
    let (r, _) = run_words(&[GLOBAL_LOAD, 0, END]);
    assert_eq!(r, Err(RuntimeError::UninitializedGlobal));
}

#[test]
fn unwritten_local_load_faults() {
    let (r, _) = run_words(&[CALL, 0, 4, END, LOCAL_LOAD, 0, RET]);
    assert_eq!(r, Err(RuntimeError::UninitializedLocal));
}

#[test]
fn print_of_invalid_scalar_faults() {
    let (r, _) = run_words(&[PUSH, 0xD800, PRINT, 2, END]);
    assert_eq!(r, Err(RuntimeError::InvalidCharacterCode));
}

#[test]
fn print_mode_two_emits_character() {
    let (r, out) = run_words(&[PUSH, 65, PRINT, 2, END]);
    assert_eq!(r, Ok(()));
    assert_eq!(out, "A");
}

#[test]
fn output_is_preserved_up_to_a_fault() {
    let (r, out) = run_words(&[PUSH, 1, PRINT, 1, POP]);
    assert_eq!(r, Err(RuntimeError::StackUnderflow));
    assert_eq!(out, "1");
}

#[test]
fn negative_word_prints_signed() {
    let (r, out) = run_words(&[PUSH, 0xFFFFFFFF, PRINT, 1, END]);
    assert_eq!(r, Ok(()));
    assert_eq!(out, "-1");
}

#[test]
fn call_copies_arguments_into_locals() {
    let code = &[PUSH, 42, CALL, 1, 6, END, LOCAL_LOAD, 0, PRINT, 1, RET];
    let (r, out) = run_words(code);
    assert_eq!(r, Ok(()));
    assert_eq!(out, "42");
}

#[test]
fn stepping_and_draining_incrementally() {
    let mut vm = VirtualMachine::new();
    vm.load_code(&[PUSH, 65, PRINT, 2, END]);
    assert_eq!(vm.execute(), Ok(()));
    assert_eq!(vm.output(), "");
    assert_eq!(vm.execute(), Ok(()));
    assert_eq!(vm.take_output(), "A");
    assert_eq!(vm.output(), "");
    assert_eq!(vm.execute(), Ok(()));
    assert_eq!(vm.take_output(), "");
}
