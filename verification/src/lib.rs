//! A small-language toolchain: a code generator that lowers a scoped
//! abstract syntax tree into flat, address-based bytecode, and a
//! stack-based virtual machine that executes that bytecode.
//!
//! The textual grammar and parser that produce the syntax tree are
//! external collaborators; this crate consumes the tree, emits the word
//! array, and runs it.

pub mod codec;
pub mod compiler;
pub mod decimal;
pub mod grammar;
pub mod instructions;
pub mod kvm;
