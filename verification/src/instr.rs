//! The bytecode instruction set: one operation per variant, operands
//! embedded directly in the variant, so each instruction is
//! self-describing and independently addressable by its index.

use vstd::prelude::*;

verus! {

/// A bytecode instruction.
///
/// Name operands (`LoadVariable`, `AssignVariable`, `CallFunction`,
/// `CallPrimitive`) are indices into the constant pool, where the name
/// is interned as a string constant. Jump operands are absolute
/// instruction indices.
#[derive(Debug, Clone, Copy, PartialEq, Eq, Structural)]
pub enum Instruction {
    /// Push the constant at the given pool index.
    LoadConst(usize),
    /// Push a builtin value: 0 is nothing, 1 is true, 2 is false.
    LoadBuiltinValue(u8),
    /// Push the value of the named variable.
    LoadVariable(usize),
    /// Pop one value and bind it to the name in the current frame.
    AssignVariable(usize),
    /// Continue at the given instruction index.
    Jump(usize),
    /// Pop one value; continue at the target when it is truthy.
    JumpIfTrue(usize),
    /// Pop one value; continue at the target when it is falsy.
    JumpIfFalse(usize),
    /// Call the named function with the given number of arguments.
    CallFunction(usize, usize),
    /// Call the primitive with the given table id and argument count.
    CallPrimitive(usize, usize),
    Add,
    Sub,
    Mul,
    Div,
    Mod,
    Pow,
    ShiftLeft,
    ShiftRight,
    Eq,
    Ne,
    Lt,
    Gt,
    Le,
    Ge,
    Not,
    Negate,
    Typeof,
    /// Pop the given number of values and push them as one array.
    BuildArray(usize),
    /// Pop one value and convert it to the given kind.
    ConvertTo(crate::value::TypeTag),
    /// Pop the return value and leave the current invocation.
    Return,
    /// Leave the current invocation with the nothing value.
    ReturnNone,
}

} // verus!
