//! Unit tests for the building blocks: decimal text, values, checked
//! arithmetic, the constant pool, environments and diagnostics.

use lace::arith::exponentiate;
use lace::code::CodeObject;
use lace::compiler::get_operator_opcode;
use lace::ast::BinOp;
use lace::digits::{i64_to_string, parse_i64, u64_to_string};
use lace::env::Locals;
use lace::error::{Context, Data};
use lace::instr::Instruction;
use lace::value::{value_eq, Value};

#[test]
fn decimal_rendering() {
    assert_eq!(u64_to_string(0), "0");
    assert_eq!(u64_to_string(907), "907");
    assert_eq!(u64_to_string(u64::MAX), "18446744073709551615");
    assert_eq!(i64_to_string(-5), "-5");
    assert_eq!(i64_to_string(i64::MIN), "-9223372036854775808");
    assert_eq!(i64_to_string(i64::MAX), "9223372036854775807");
}

#[test]
fn decimal_parsing() {
    assert_eq!(parse_i64("123"), Some(123));
    assert_eq!(parse_i64("+123"), Some(123));
    assert_eq!(parse_i64("-123"), Some(-123));
    assert_eq!(parse_i64("0"), Some(0));
    assert_eq!(parse_i64("-9223372036854775808"), Some(i64::MIN));
    assert_eq!(parse_i64("9223372036854775807"), Some(i64::MAX));
    assert_eq!(parse_i64("9223372036854775808"), None);
    assert_eq!(parse_i64("-9223372036854775809"), None);
    assert_eq!(parse_i64(""), None);
    assert_eq!(parse_i64("-"), None);
    assert_eq!(parse_i64("12 3"), None);
    assert_eq!(parse_i64("x12"), None);
}

#[test]
fn exponentiate_mirrors_repeated_multiplication() {
    assert_eq!(exponentiate(2, 10), Some(1024));
    assert_eq!(exponentiate(3, 3), Some(27));
    // an exponent below two leaves the base unchanged
    assert_eq!(exponentiate(5, 1), Some(5));
    assert_eq!(exponentiate(5, 0), Some(5));
    assert_eq!(exponentiate(5, -3), Some(5));
    assert_eq!(exponentiate(2, 63), None);
    assert_eq!(exponentiate(-2, 3), Some(-8));
}

#[test]
fn value_equality_is_structural() {
    let a = Value::Array(vec![
        Value::Integer(1),
        Value::Str("x".to_string()),
        Value::Array(vec![Value::Bool(true)]),
    ]);
    let b = Value::Array(vec![
        Value::Integer(1),
        Value::Str("x".to_string()),
        Value::Array(vec![Value::Bool(true)]),
    ]);
    assert!(value_eq(&a, &b));
    let c = Value::Array(vec![
        Value::Integer(1),
        Value::Str("x".to_string()),
        Value::Array(vec![Value::Bool(false)]),
    ]);
    assert!(!value_eq(&a, &c));
    assert!(!value_eq(&Value::Integer(1), &Value::Str("1".to_string())));
    assert!(value_eq(&Value::Nothing, &Value::Nothing));
}

#[test]
fn truthiness() {
    assert!(Value::Integer(-3).istruthy());
    assert!(!Value::Integer(0).istruthy());
    assert!(Value::Str("a".to_string()).istruthy());
    assert!(!Value::Str(String::new()).istruthy());
    assert!(!Value::Nothing.istruthy());
    assert!(Value::Array(vec![Value::Nothing]).istruthy());
    assert!(!Value::Array(vec![]).istruthy());
}

#[test]
fn clone_is_deep() {
    let a = Value::Array(vec![Value::Str("s".to_string()), Value::Integer(2)]);
    let b = a.clone();
    assert!(value_eq(&a, &b));
}

#[test]
fn constant_pool_returns_existing_index() {
    let mut unit = CodeObject::new(Vec::new(), "t".to_string());
    let i0 = unit.add_constant(Value::Integer(5));
    let i1 = unit.add_constant(Value::Str("five".to_string()));
    let i2 = unit.add_constant(Value::Integer(5));
    assert_eq!(i0, 0);
    assert_eq!(i1, 1);
    assert_eq!(i2, 0);
    assert_eq!(unit.constants.len(), 2);
}

#[test]
fn operator_opcodes() {
    assert_eq!(get_operator_opcode(BinOp::Add), Instruction::Add);
    assert_eq!(get_operator_opcode(BinOp::Mod), Instruction::Mod);
    assert_eq!(get_operator_opcode(BinOp::Le), Instruction::Le);
}

#[test]
fn locals_overwrite_and_lookup() {
    let mut env = Locals::new();
    assert!(env.get(&"x".to_string()).is_none());
    env.insert("x".to_string(), Value::Integer(1));
    env.insert("y".to_string(), Value::Integer(2));
    env.insert("x".to_string(), Value::Integer(3));
    assert!(value_eq(env.get(&"x".to_string()).unwrap(), &Value::Integer(3)));
    assert!(value_eq(env.get(&"y".to_string()).unwrap(), &Value::Integer(2)));
    assert_eq!(env.entries.len(), 2);
}

#[test]
fn diagnostic_data_formats_position() {
    let d = Data::new(12, "main.lc".to_string());
    assert_eq!(d.error, "main.lc:12");
}

#[test]
fn diagnostic_context_captures_line() {
    let source = vec!["first".to_string(), "second".to_string()];
    let c = Context::new(1, &source, Some(3));
    assert_eq!(c.line, "second");
    assert_eq!(c.idx, 1);
    assert_eq!(c.pointer, Some(3));
}
