//! The abstract syntax tree that the compiler consumes: a sequence of
//! statement nodes with a closed set of variants.

use vstd::prelude::*;

use crate::value::TypeTag;
use crate::value::Value;

verus! {

/// A unary operator.
#[derive(Debug, Clone, Copy, PartialEq, Eq, Structural)]
pub enum UnaryOp {
    Typeof,
    Negate,
    LogicalNot,
}

/// A binary operator.
#[derive(Debug, Clone, Copy, PartialEq, Eq, Structural)]
pub enum BinOp {
    Add,
    Sub,
    Mul,
    Div,
    Mod,
    Pow,
    ShiftLeft,
    ShiftRight,
    Eq,
    Ne,
    Lt,
    Gt,
    Le,
    Ge,
}

/// A formal parameter of a function declaration: a name and its
/// mutability flag.
#[derive(Debug, PartialEq)]
pub struct Param {
    pub name: String,
    pub mutable: bool,
}

/// An expression node. Lowering an expression always has a net stack
/// effect of one pushed value.
#[derive(Debug, PartialEq)]
pub enum Expr {
    /// A literal value.
    Literal(Value),
    /// A variable reference.
    Identifier(String),
    /// A unary operation.
    Unary(UnaryOp, Box<Expr>),
    /// A binary operation; operands are lowered left then right.
    Binary(BinOp, Box<Expr>, Box<Expr>),
    /// A call of a function or of a primitive, by name, with the
    /// arguments in source order.
    Call(String, Vec<Expr>),
    /// An array literal.
    ArrayLit(Vec<Expr>),
    /// An explicit conversion to the given kind.
    Convert(Box<Expr>, TypeTag),
}

/// A statement node.
#[derive(Debug, PartialEq)]
pub enum Stmt {
    /// An expression evaluated for its effect; its value stays on the
    /// operand stack.
    Expression(Expr),
    /// A declaration: evaluate and bind in the innermost scope.
    Let(String, Expr),
    /// An assignment; it also targets the innermost scope, so
    /// redeclaration simply overwrites.
    Assign(String, Expr),
    /// Return the value of the expression.
    Return(Expr),
    /// Return the nothing value.
    ReturnNone,
    /// A guarded chain: the `if` and `else if` arms in source order,
    /// then the `else` body, possibly empty.
    If { arms: Vec<IfArm>, else_body: Vec<Stmt> },
    /// A loop: re-test the condition before every iteration.
    While(Expr, Vec<Stmt>),
    /// A function declaration: compiled as a named child of the
    /// enclosing unit, it emits no instructions of its own.
    FnDecl { name: String, params: Vec<Param>, body: Vec<Stmt> },
}

/// One guarded arm of an `if` chain.
#[derive(Debug, PartialEq)]
pub struct IfArm {
    pub cond: Expr,
    pub body: Vec<Stmt>,
}

} // verus!
