//! Error kinds and diagnostic context.
//!
//! A `RuntimeError` is user-triggerable and aborts the whole machine
//! invocation; an `InternalError` marks a contract violation between
//! compiler and machine (malformed bytecode). Nothing is retried or
//! locally recovered.

use vstd::prelude::*;

use crate::digits::dec_digits;
use crate::digits::u64_to_string;
use crate::instr::Instruction;
use crate::value::TypeTag;

verus! {

/// An error a running program can trigger.
#[derive(Debug, PartialEq)]
pub enum RuntimeError {
    /// A name was found neither in the current frame nor among the
    /// globals.
    UnboundVariable(String),
    /// A called name resolved to no function.
    UnknownFunction(String),
    /// A function was called with the wrong number of arguments.
    ArityMismatch { expected: usize, got: usize },
    /// A binary operation was applied to kinds it is not defined on.
    UnsupportedOperation { op: Instruction, left: TypeTag, right: TypeTag },
    /// A unary operation was applied to a kind it is not defined on.
    UnsupportedUnary { op: Instruction, operand: TypeTag },
    /// A conversion between unsupported kinds.
    UnsupportedConversion { from: TypeTag, to: TypeTag },
    /// A string failed to parse as a number.
    ConversionFailure,
    /// Checked integer arithmetic left the representable range.
    IntegerOverflow,
    /// An integer division or remainder by zero.
    DivisionByZero,
    /// A string was repeated a negative number of times.
    NegativeRepeat,
}

/// A contract violation between compiler and machine: the bytecode is
/// malformed. A well-compiled program never raises one.
#[derive(Debug, Clone, Copy, PartialEq, Eq, Structural)]
pub enum InternalError {
    /// An instruction popped more values than the stack held.
    StackUnderflow,
    /// A constant-pool index lay outside the pool.
    BadConstantIndex,
    /// A name operand referred to a constant that is not a string.
    BadNameConstant,
    /// A builtin-value tag outside the defined range.
    BadBuiltinTag,
    /// A primitive id outside the primitive table.
    BadPrimitive,
}

/// The terminal error of a machine invocation.
#[derive(Debug, PartialEq)]
pub enum VmError {
    Runtime(RuntimeError),
    Internal(InternalError),
}

/// The model of a user-triggerable error: names become character
/// sequences.
pub enum ErrModel {
    UnboundVariable(Seq<char>),
    UnknownFunction(Seq<char>),
    ArityMismatch { expected: int, got: int },
    UnsupportedOperation { op: Instruction, left: TypeTag, right: TypeTag },
    UnsupportedUnary { op: Instruction, operand: TypeTag },
    UnsupportedConversion { from: TypeTag, to: TypeTag },
    ConversionFailure,
    IntegerOverflow,
    DivisionByZero,
    NegativeRepeat,
}

/// The model of a terminal machine error.
pub enum VmErrModel {
    Runtime(ErrModel),
    Internal(InternalError),
}

/// The model of a runtime error.
pub open spec fn rt_err_model(e: RuntimeError) -> ErrModel {
    match e {
        RuntimeError::UnboundVariable(n) => ErrModel::UnboundVariable(n@),
        RuntimeError::UnknownFunction(n) => ErrModel::UnknownFunction(n@),
        RuntimeError::ArityMismatch { expected, got } => ErrModel::ArityMismatch {
            expected: expected as int,
            got: got as int,
        },
        RuntimeError::UnsupportedOperation { op, left, right } => ErrModel::UnsupportedOperation {
            op,
            left,
            right,
        },
        RuntimeError::UnsupportedUnary { op, operand } => ErrModel::UnsupportedUnary {
            op,
            operand,
        },
        RuntimeError::UnsupportedConversion { from, to } => ErrModel::UnsupportedConversion {
            from,
            to,
        },
        RuntimeError::ConversionFailure => ErrModel::ConversionFailure,
        RuntimeError::IntegerOverflow => ErrModel::IntegerOverflow,
        RuntimeError::DivisionByZero => ErrModel::DivisionByZero,
        RuntimeError::NegativeRepeat => ErrModel::NegativeRepeat,
    }
}

/// The model of a terminal machine error.
pub open spec fn vm_err_model(e: VmError) -> VmErrModel {
    match e {
        VmError::Runtime(r) => VmErrModel::Runtime(rt_err_model(r)),
        VmError::Internal(i) => VmErrModel::Internal(i),
    }
}

impl View for RuntimeError {
    type V = ErrModel;

    open spec fn view(&self) -> ErrModel {
        rt_err_model(*self)
    }
}

impl View for VmError {
    type V = VmErrModel;

    open spec fn view(&self) -> VmErrModel {
        vm_err_model(*self)
    }
}

/// The source position a diagnostic points at: the offending line's
/// text, its index, and an optional column pointer.
pub struct Context {
    pub line: String,
    pub idx: usize,
    pub pointer: Option<usize>,
}

impl Context {
    /// Captures line `idx` of the source for a diagnostic.
    pub fn new(idx: usize, source: &Vec<String>, pointer: Option<usize>) -> (r: Context)
        requires
            idx < source@.len(),
        ensures
            r.line@ == source@[idx as int]@,
            r.idx == idx,
            r.pointer == pointer,
    {
        Context { line: source[idx].clone(), idx, pointer }
    }
}

/// The file-and-line prefix of a runtime diagnostic.
pub struct Data {
    pub error: String,
}

impl Data {
    /// Builds the `file:line` prefix for messages about the given
    /// source position.
    pub fn new(line: usize, filename: String) -> (r: Data)
        ensures
            r.error@ == filename@ + seq![':'] + dec_digits(line as nat),
    {
        let mut s = filename;
        crate::text::string_push(&mut s, ':');
        let digits = u64_to_string(line as u64);
        s.append(digits.as_str());
        Data { error: s }
    }
}

} // verus!
