//! Arithmetic, comparison and unary operation semantics: exact checked
//! integer arithmetic, string concatenation and repetition, structural
//! equality, and truthiness-based logic.

use vstd::prelude::*;

use crate::error::ErrModel;
use crate::error::RuntimeError;
use crate::instr::Instruction;
use crate::value::TypeTag;
use crate::value::Value;
use crate::value::ValueModel;
use crate::value::tag_of;
use crate::value::truthy;
use crate::value::value_eq;

verus! {

/// The name of a value kind, as the typeof operation reports it.
pub open spec fn tag_name(t: TypeTag) -> Seq<char> {
    match t {
        TypeTag::Integer => "integer"@,
        TypeTag::Str => "string"@,
        TypeTag::Bool => "bool"@,
        TypeTag::Array => "array"@,
        TypeTag::Nothing => "none"@,
    }
}

/// Builds the name of a value kind.
pub fn tag_name_string(t: TypeTag) -> (r: String)
    ensures
        r@ == tag_name(t),
{
    match t {
        TypeTag::Integer => String::from_str("integer"),
        TypeTag::Str => String::from_str("string"),
        TypeTag::Bool => String::from_str("bool"),
        TypeTag::Array => String::from_str("array"),
        TypeTag::Nothing => String::from_str("none"),
    }
}

/// `n` copies of `s`, back to back.
pub open spec fn repeat_seq(s: Seq<char>, n: nat) -> Seq<char>
    decreases n,
{
    if n == 0 {
        Seq::empty()
    } else {
        repeat_seq(s, (n - 1) as nat) + s
    }
}

/// Truncating division, as machine division behaves: the quotient is
/// rounded toward zero.
pub open spec fn tdiv(x: int, d: int) -> int {
    if x == 0 {
        0
    } else if x > 0 && d > 0 {
        x / d
    } else if x < 0 && d < 0 {
        (x * -1) / (d * -1)
    } else if x < 0 {
        ((x * -1) / d) * -1
    } else {
        (x / (d * -1)) * -1
    }
}

/// Truncating remainder, with the sign of the dividend.
pub open spec fn tmod(x: int, d: int) -> int {
    if x == 0 {
        0
    } else if x > 0 && d > 0 {
        x % d
    } else if x < 0 && d < 0 {
        ((x * -1) % (d * -1)) * -1
    } else if x < 0 {
        ((x * -1) % d) * -1
    } else {
        x % (d * -1)
    }
}

/// The result of `k` further checked multiplications of `ret` by
/// `num`, or nothing once one of them overflows.
pub open spec fn expo_iter(num: i64, ret: i64, k: int) -> Option<i64>
    decreases k,
{
    if k <= 0 {
        Option::Some(ret)
    } else {
        match ret.checked_mul(num) {
            Option::Some(next) => expo_iter(num, next, k - 1),
            Option::None => Option::None,
        }
    }
}

/// What exponentiation yields: starting from the base, one checked
/// multiplication per step up to the exponent; an exponent below two
/// leaves the base unchanged.
pub open spec fn expo_spec(num: i64, exp: i64) -> Option<i64> {
    expo_iter(num, num, exp - 1)
}

/// Exponentiation by repeated checked multiplication; nothing when an
/// intermediate product overflows.
pub fn exponentiate(num: i64, exp: i64) -> (r: Option<i64>)
    ensures
        r == expo_spec(num, exp),
{
    let mut ret: i64 = num;
    let mut k: i64 = 1;
    while k < exp
        invariant
            expo_iter(num, ret, exp - k) == expo_spec(num, exp),
            k >= 1,
            k <= exp || k == 1,
        decreases exp - k,
    {
        match ret.checked_mul(num) {
            Option::Some(next) => {
                ret = next;
            },
            Option::None => {
                return Option::None;
            },
        }
        k = k + 1;
    }
    Option::Some(ret)
}

/// The unsupported-operation error for a binary operation on the given
/// operand models.
pub open spec fn unsupported(op: Instruction, a: ValueModel, b: ValueModel) -> ErrModel {
    ErrModel::UnsupportedOperation { op, left: tag_of(a), right: tag_of(b) }
}

/// Whether an instruction is a binary operation the machine evaluates
/// by popping two operands.
pub open spec fn is_binop(op: Instruction) -> bool {
    match op {
        Instruction::Add
        | Instruction::Sub
        | Instruction::Mul
        | Instruction::Div
        | Instruction::Mod
        | Instruction::Pow
        | Instruction::ShiftLeft
        | Instruction::ShiftRight
        | Instruction::Eq
        | Instruction::Ne
        | Instruction::Lt
        | Instruction::Gt
        | Instruction::Le
        | Instruction::Ge => true,
        _ => false,
    }
}

/// The exact semantics of every binary operation. Integer arithmetic
/// is checked: leaving the 64-bit signed range is an overflow error,
/// never a silent wraparound. Strings concatenate under addition and
/// repeat under multiplication by a nonnegative integer. Equality is
/// structural across all kinds; ordering is defined on integers only.
pub open spec fn binop_model(op: Instruction, a: ValueModel, b: ValueModel) -> Result<
    ValueModel,
    ErrModel,
> {
    match op {
        Instruction::Add => match (a, b) {
            (ValueModel::Int(x), ValueModel::Int(y)) => if i64::MIN <= x + y <= i64::MAX {
                Result::Ok(ValueModel::Int(x + y))
            } else {
                Result::Err(ErrModel::IntegerOverflow)
            },
            (ValueModel::Str(x), ValueModel::Str(y)) => Result::Ok(ValueModel::Str(x + y)),
            _ => Result::Err(unsupported(op, a, b)),
        },
        Instruction::Sub => match (a, b) {
            (ValueModel::Int(x), ValueModel::Int(y)) => if i64::MIN <= x - y <= i64::MAX {
                Result::Ok(ValueModel::Int(x - y))
            } else {
                Result::Err(ErrModel::IntegerOverflow)
            },
            _ => Result::Err(unsupported(op, a, b)),
        },
        Instruction::Mul => match (a, b) {
            (ValueModel::Int(x), ValueModel::Int(y)) => if i64::MIN <= x * y <= i64::MAX {
                Result::Ok(ValueModel::Int(x * y))
            } else {
                Result::Err(ErrModel::IntegerOverflow)
            },
            (ValueModel::Str(x), ValueModel::Int(n)) => if n < 0 {
                Result::Err(ErrModel::NegativeRepeat)
            } else {
                Result::Ok(ValueModel::Str(repeat_seq(x, n as nat)))
            },
            _ => Result::Err(unsupported(op, a, b)),
        },
        Instruction::Div => match (a, b) {
            (ValueModel::Int(x), ValueModel::Int(y)) => if y == 0 {
                Result::Err(ErrModel::DivisionByZero)
            } else if i64::MIN <= tdiv(x, y) <= i64::MAX {
                Result::Ok(ValueModel::Int(tdiv(x, y)))
            } else {
                Result::Err(ErrModel::IntegerOverflow)
            },
            _ => Result::Err(unsupported(op, a, b)),
        },
        Instruction::Mod => match (a, b) {
            (ValueModel::Int(x), ValueModel::Int(y)) => if y == 0 {
                Result::Err(ErrModel::DivisionByZero)
            } else if x == i64::MIN && y == -1 {
                Result::Err(ErrModel::IntegerOverflow)
            } else {
                Result::Ok(ValueModel::Int(tmod(x, y)))
            },
            _ => Result::Err(unsupported(op, a, b)),
        },
        Instruction::Pow => match (a, b) {
            (ValueModel::Int(x), ValueModel::Int(y)) => if i64::MIN <= x <= i64::MAX && i64::MIN
                <= y <= i64::MAX {
                match expo_spec(x as i64, y as i64) {
                    Option::Some(z) => Result::Ok(ValueModel::Int(z as int)),
                    Option::None => Result::Err(ErrModel::IntegerOverflow),
                }
            } else {
                Result::Err(ErrModel::IntegerOverflow)
            },
            _ => Result::Err(unsupported(op, a, b)),
        },
        Instruction::ShiftLeft => match (a, b) {
            (ValueModel::Int(x), ValueModel::Int(y)) => if 0 <= y < 64 {
                Result::Ok(ValueModel::Int(((x as i64) << (y as i64)) as int))
            } else {
                Result::Err(ErrModel::IntegerOverflow)
            },
            _ => Result::Err(unsupported(op, a, b)),
        },
        Instruction::ShiftRight => match (a, b) {
            (ValueModel::Int(x), ValueModel::Int(y)) => if 0 <= y < 64 {
                Result::Ok(ValueModel::Int(((x as i64) >> (y as i64)) as int))
            } else {
                Result::Err(ErrModel::IntegerOverflow)
            },
            _ => Result::Err(unsupported(op, a, b)),
        },
        Instruction::Eq => Result::Ok(ValueModel::Bool(a == b)),
        Instruction::Ne => Result::Ok(ValueModel::Bool(a != b)),
        Instruction::Lt => match (a, b) {
            (ValueModel::Int(x), ValueModel::Int(y)) => Result::Ok(ValueModel::Bool(x < y)),
            _ => Result::Err(unsupported(op, a, b)),
        },
        Instruction::Gt => match (a, b) {
            (ValueModel::Int(x), ValueModel::Int(y)) => Result::Ok(ValueModel::Bool(x > y)),
            _ => Result::Err(unsupported(op, a, b)),
        },
        Instruction::Le => match (a, b) {
            (ValueModel::Int(x), ValueModel::Int(y)) => Result::Ok(ValueModel::Bool(x <= y)),
            _ => Result::Err(unsupported(op, a, b)),
        },
        Instruction::Ge => match (a, b) {
            (ValueModel::Int(x), ValueModel::Int(y)) => Result::Ok(ValueModel::Bool(x >= y)),
            _ => Result::Err(unsupported(op, a, b)),
        },
        _ => Result::Err(unsupported(op, a, b)),
    }
}

/// Whether an instruction is a unary operation.
pub open spec fn is_unop(op: Instruction) -> bool {
    match op {
        Instruction::Not | Instruction::Negate | Instruction::Typeof => true,
        _ => false,
    }
}

/// The exact semantics of every unary operation: logical complement of
/// truthiness, checked negation of integers, and the kind name.
pub open spec fn unop_model(op: Instruction, a: ValueModel) -> Result<ValueModel, ErrModel> {
    match op {
        Instruction::Not => Result::Ok(ValueModel::Bool(!truthy(a))),
        Instruction::Negate => match a {
            ValueModel::Int(x) => if i64::MIN <= -x <= i64::MAX {
                Result::Ok(ValueModel::Int(-x))
            } else {
                Result::Err(ErrModel::IntegerOverflow)
            },
            _ => Result::Err(ErrModel::UnsupportedUnary { op, operand: tag_of(a) }),
        },
        Instruction::Typeof => Result::Ok(ValueModel::Str(tag_name(tag_of(a)))),
        _ => Result::Err(ErrModel::UnsupportedUnary { op, operand: tag_of(a) }),
    }
}

/// The model of an operation's outcome.
pub open spec fn op_res_model(r: Result<Value, RuntimeError>) -> Result<ValueModel, ErrModel> {
    match r {
        Result::Ok(v) => Result::Ok(v@),
        Result::Err(e) => Result::Err(e@),
    }
}

/// `n` copies of the string, back to back.
fn repeat_string(s: &String, n: i64) -> (r: String)
    requires
        n >= 0,
    ensures
        r@ == repeat_seq(s@, n as nat),
{
    let mut out = String::new();
    let mut i: i64 = 0;
    while i < n
        invariant
            0 <= i <= n,
            out@ == repeat_seq(s@, i as nat),
        decreases n - i,
    {
        out.append(s.as_str());
        i = i + 1;
    }
    out
}

/// Evaluates one binary operation on two operand values, exactly as
/// `binop_model` describes.
pub fn operate(a: &Value, b: &Value, op: Instruction) -> (r: Result<Value, RuntimeError>)
    requires
        is_binop(op),
    ensures
        op_res_model(r) == binop_model(op, a@, b@),
{
    match op {
        Instruction::Add => match (a, b) {
            (Value::Integer(x), Value::Integer(y)) => match x.checked_add(*y) {
                Option::Some(z) => Result::Ok(Value::Integer(z)),
                Option::None => Result::Err(RuntimeError::IntegerOverflow),
            },
            (Value::Str(x), Value::Str(y)) => {
                let joined = x.clone().concat(y.as_str());
                Result::Ok(Value::Str(joined))
            },
            _ => Result::Err(RuntimeError::UnsupportedOperation {
                op,
                left: a.kind(),
                right: b.kind(),
            }),
        },
        Instruction::Sub => match (a, b) {
            (Value::Integer(x), Value::Integer(y)) => match x.checked_sub(*y) {
                Option::Some(z) => Result::Ok(Value::Integer(z)),
                Option::None => Result::Err(RuntimeError::IntegerOverflow),
            },
            _ => Result::Err(RuntimeError::UnsupportedOperation {
                op,
                left: a.kind(),
                right: b.kind(),
            }),
        },
        Instruction::Mul => match (a, b) {
            (Value::Integer(x), Value::Integer(y)) => match x.checked_mul(*y) {
                Option::Some(z) => Result::Ok(Value::Integer(z)),
                Option::None => Result::Err(RuntimeError::IntegerOverflow),
            },
            (Value::Str(x), Value::Integer(n)) => {
                if *n < 0 {
                    Result::Err(RuntimeError::NegativeRepeat)
                } else {
                    Result::Ok(Value::Str(repeat_string(x, *n)))
                }
            },
            _ => Result::Err(RuntimeError::UnsupportedOperation {
                op,
                left: a.kind(),
                right: b.kind(),
            }),
        },
        Instruction::Div => match (a, b) {
            (Value::Integer(x), Value::Integer(y)) => {
                if *y == 0 {
                    Result::Err(RuntimeError::DivisionByZero)
                } else {
                    match x.checked_div(*y) {
                        Option::Some(z) => Result::Ok(Value::Integer(z)),
                        Option::None => Result::Err(RuntimeError::IntegerOverflow),
                    }
                }
            },
            _ => Result::Err(RuntimeError::UnsupportedOperation {
                op,
                left: a.kind(),
                right: b.kind(),
            }),
        },
        Instruction::Mod => match (a, b) {
            (Value::Integer(x), Value::Integer(y)) => {
                if *y == 0 {
                    Result::Err(RuntimeError::DivisionByZero)
                } else {
                    match x.checked_rem(*y) {
                        Option::Some(z) => Result::Ok(Value::Integer(z)),
                        Option::None => Result::Err(RuntimeError::IntegerOverflow),
                    }
                }
            },
            _ => Result::Err(RuntimeError::UnsupportedOperation {
                op,
                left: a.kind(),
                right: b.kind(),
            }),
        },
        Instruction::Pow => match (a, b) {
            (Value::Integer(x), Value::Integer(y)) => match exponentiate(*x, *y) {
                Option::Some(z) => Result::Ok(Value::Integer(z)),
                Option::None => Result::Err(RuntimeError::IntegerOverflow),
            },
            _ => Result::Err(RuntimeError::UnsupportedOperation {
                op,
                left: a.kind(),
                right: b.kind(),
            }),
        },
        Instruction::ShiftLeft => match (a, b) {
            (Value::Integer(x), Value::Integer(y)) => {
                if 0 <= *y && *y < 64 {
                    Result::Ok(Value::Integer(*x << *y))
                } else {
                    Result::Err(RuntimeError::IntegerOverflow)
                }
            },
            _ => Result::Err(RuntimeError::UnsupportedOperation {
                op,
                left: a.kind(),
                right: b.kind(),
            }),
        },
        Instruction::ShiftRight => match (a, b) {
            (Value::Integer(x), Value::Integer(y)) => {
                if 0 <= *y && *y < 64 {
                    Result::Ok(Value::Integer(*x >> *y))
                } else {
                    Result::Err(RuntimeError::IntegerOverflow)
                }
            },
            _ => Result::Err(RuntimeError::UnsupportedOperation {
                op,
                left: a.kind(),
                right: b.kind(),
            }),
        },
        Instruction::Eq => Result::Ok(Value::Bool(value_eq(a, b))),
        Instruction::Ne => Result::Ok(Value::Bool(!value_eq(a, b))),
        Instruction::Lt => match (a, b) {
            (Value::Integer(x), Value::Integer(y)) => Result::Ok(Value::Bool(*x < *y)),
            _ => Result::Err(RuntimeError::UnsupportedOperation {
                op,
                left: a.kind(),
                right: b.kind(),
            }),
        },
        Instruction::Gt => match (a, b) {
            (Value::Integer(x), Value::Integer(y)) => Result::Ok(Value::Bool(*x > *y)),
            _ => Result::Err(RuntimeError::UnsupportedOperation {
                op,
                left: a.kind(),
                right: b.kind(),
            }),
        },
        Instruction::Le => match (a, b) {
            (Value::Integer(x), Value::Integer(y)) => Result::Ok(Value::Bool(*x <= *y)),
            _ => Result::Err(RuntimeError::UnsupportedOperation {
                op,
                left: a.kind(),
                right: b.kind(),
            }),
        },
        // by the precondition, the remaining binary operation is Ge
        _ => match (a, b) {
            (Value::Integer(x), Value::Integer(y)) => Result::Ok(Value::Bool(*x >= *y)),
            _ => Result::Err(RuntimeError::UnsupportedOperation {
                op,
                left: a.kind(),
                right: b.kind(),
            }),
        },
    }
}

/// Evaluates one unary operation on an operand value, exactly as
/// `unop_model` describes.
pub fn apply_unary(a: &Value, op: Instruction) -> (r: Result<Value, RuntimeError>)
    requires
        is_unop(op),
    ensures
        op_res_model(r) == unop_model(op, a@),
{
    match op {
        Instruction::Not => Result::Ok(Value::Bool(!a.istruthy())),
        Instruction::Negate => match a {
            Value::Integer(x) => {
                if *x == i64::MIN {
                    Result::Err(RuntimeError::IntegerOverflow)
                } else {
                    Result::Ok(Value::Integer(-*x))
                }
            },
            _ => Result::Err(RuntimeError::UnsupportedUnary { op, operand: a.kind() }),
        },
        // by the precondition, the remaining unary operation is Typeof
        _ => Result::Ok(Value::Str(tag_name_string(a.kind()))),
    }
}

} // verus!
