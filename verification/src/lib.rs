//! A small bytecode toolchain: a compiler that lowers an abstract syntax
//! tree into flat, address-addressed bytecode (structured control flow is
//! lowered by forward-jump backpatching), and a virtual machine that
//! executes that bytecode with a shared operand stack and an explicit
//! call-frame stack.
//!
//! Every executable function is specified against a mathematical model:
//! the compiler against a functional description of the code it emits,
//! and the machine against a fuel-bounded reference interpreter.

pub mod arith;
pub mod ast;
pub mod code;
pub mod compiler;
pub mod convert;
pub mod digits;
pub mod env;
pub mod error;
pub mod instr;
pub mod laws;
pub mod semantics;
pub mod text;
pub mod value;
pub mod vm;
