//! End-to-end tests: programs compiled from syntax trees and executed
//! by the machine.

use lace::ast::{BinOp, Expr, IfArm, Param, Stmt, UnaryOp};
use lace::code::CodeObject;
use lace::compiler::compile_program;
use lace::env::Locals;
use lace::error::{InternalError, RuntimeError, VmError};
use lace::instr::Instruction;
use lace::value::{TypeTag, Value};
use lace::vm::{run, Outcome};

const FUEL: u64 = 100_000;

fn lit(v: Value) -> Expr {
    Expr::Literal(v)
}

fn num(n: i64) -> Expr {
    lit(Value::Integer(n))
}

fn text(s: &str) -> Expr {
    lit(Value::Str(s.to_string()))
}

fn bin(op: BinOp, l: Expr, r: Expr) -> Expr {
    Expr::Binary(op, Box::new(l), Box::new(r))
}

fn ret(e: Expr) -> Stmt {
    Stmt::Return(e)
}

fn writeln_call(e: Expr) -> Stmt {
    Stmt::Expression(Expr::Call("writeln".to_string(), vec![e]))
}

fn exec(ast: Vec<Stmt>) -> (Outcome, Vec<String>) {
    let code = compile_program(&ast, Vec::new(), "test".to_string());
    run(&code, Locals::new(), None, FUEL)
}

#[test]
fn literal_integer_round_trips() {
    let (outcome, output) = exec(vec![ret(num(42))]);
    assert_eq!(outcome, Outcome::Done(Value::Integer(42)));
    assert!(output.is_empty());
}

#[test]
fn literal_string_round_trips() {
    let (outcome, _) = exec(vec![ret(text("hello"))]);
    assert_eq!(outcome, Outcome::Done(Value::Str("hello".to_string())));
}

#[test]
fn literal_bool_and_none_round_trip() {
    let (outcome, _) = exec(vec![ret(lit(Value::Bool(true)))]);
    assert_eq!(outcome, Outcome::Done(Value::Bool(true)));
    let (outcome, _) = exec(vec![ret(lit(Value::Nothing))]);
    assert_eq!(outcome, Outcome::Done(Value::Nothing));
}

#[test]
fn addition_evaluates() {
    let (outcome, _) = exec(vec![ret(bin(BinOp::Add, num(2), num(3)))]);
    assert_eq!(outcome, Outcome::Done(Value::Integer(5)));
}

#[test]
fn addition_overflow_faults() {
    let (outcome, _) = exec(vec![ret(bin(BinOp::Add, num(i64::MAX), num(1)))]);
    assert_eq!(
        outcome,
        Outcome::Fault(VmError::Runtime(RuntimeError::IntegerOverflow))
    );
}

#[test]
fn string_repetition() {
    let (outcome, _) = exec(vec![ret(bin(BinOp::Mul, text("ab"), num(3)))]);
    assert_eq!(outcome, Outcome::Done(Value::Str("ababab".to_string())));
}

#[test]
fn negative_repetition_faults() {
    let (outcome, _) = exec(vec![ret(bin(BinOp::Mul, text("x"), num(-1)))]);
    assert_eq!(
        outcome,
        Outcome::Fault(VmError::Runtime(RuntimeError::NegativeRepeat))
    );
}

#[test]
fn string_concatenation() {
    let (outcome, _) = exec(vec![ret(bin(BinOp::Add, text("foo"), text("bar")))]);
    assert_eq!(outcome, Outcome::Done(Value::Str("foobar".to_string())));
}

#[test]
fn guarded_chain_takes_exactly_one_branch() {
    // if false { .. return 1 } else if true { .. return 2 } else { .. return 3 }
    let ast = vec![Stmt::If {
        arms: vec![
            IfArm {
                cond: lit(Value::Bool(false)),
                body: vec![writeln_call(text("one")), ret(num(1))],
            },
            IfArm {
                cond: lit(Value::Bool(true)),
                body: vec![writeln_call(text("two")), ret(num(2))],
            },
        ],
        else_body: vec![writeln_call(text("three")), ret(num(3))],
    }];
    let (outcome, output) = exec(ast);
    assert_eq!(outcome, Outcome::Done(Value::Integer(2)));
    assert_eq!(output, vec!["two ".to_string()]);
}

#[test]
fn if_without_matching_arm_falls_through_to_else() {
    let ast = vec![Stmt::If {
        arms: vec![IfArm {
            cond: lit(Value::Bool(false)),
            body: vec![ret(num(1))],
        }],
        else_body: vec![ret(num(9))],
    }];
    let (outcome, _) = exec(ast);
    assert_eq!(outcome, Outcome::Done(Value::Integer(9)));
}

#[test]
fn empty_else_reconverges() {
    let ast = vec![
        Stmt::If {
            arms: vec![IfArm {
                cond: lit(Value::Bool(false)),
                body: vec![ret(num(1))],
            }],
            else_body: vec![],
        },
        ret(num(7)),
    ];
    let (outcome, _) = exec(ast);
    assert_eq!(outcome, Outcome::Done(Value::Integer(7)));
}

#[test]
fn while_false_never_runs_body() {
    let ast = vec![Stmt::While(
        lit(Value::Bool(false)),
        vec![writeln_call(text("never"))],
    )];
    let (outcome, output) = exec(ast);
    assert_eq!(outcome, Outcome::Done(Value::Nothing));
    assert!(output.is_empty());
}

#[test]
fn while_counts_down_exact_iterations() {
    // let i = 3; while i > 0 { writeln(i); i = i - 1; }
    let ast = vec![
        Stmt::Let("i".to_string(), num(3)),
        Stmt::While(
            bin(BinOp::Gt, Expr::Identifier("i".to_string()), num(0)),
            vec![
                writeln_call(Expr::Identifier("i".to_string())),
                Stmt::Assign(
                    "i".to_string(),
                    bin(BinOp::Sub, Expr::Identifier("i".to_string()), num(1)),
                ),
            ],
        ),
    ];
    let (outcome, output) = exec(ast);
    assert_eq!(outcome, Outcome::Done(Value::Nothing));
    assert_eq!(
        output,
        vec!["3 ".to_string(), "2 ".to_string(), "1 ".to_string()]
    );
}

#[test]
fn arity_mismatch_never_enters_callee() {
    // fn f(x) { writeln("in"); return x; }  f(1, 2)
    let ast = vec![
        Stmt::FnDecl {
            name: "f".to_string(),
            params: vec![Param {
                name: "x".to_string(),
                mutable: false,
            }],
            body: vec![
                writeln_call(text("in")),
                ret(Expr::Identifier("x".to_string())),
            ],
        },
        ret(Expr::Call("f".to_string(), vec![num(1), num(2)])),
    ];
    let (outcome, output) = exec(ast);
    assert_eq!(
        outcome,
        Outcome::Fault(VmError::Runtime(RuntimeError::ArityMismatch {
            expected: 1,
            got: 2
        }))
    );
    assert!(output.is_empty());
}

#[test]
fn function_call_binds_positionally() {
    // fn sub2(a, b) { return a - b; }  sub2(10, 4) == 6
    let ast = vec![
        Stmt::FnDecl {
            name: "sub2".to_string(),
            params: vec![
                Param {
                    name: "a".to_string(),
                    mutable: false,
                },
                Param {
                    name: "b".to_string(),
                    mutable: false,
                },
            ],
            body: vec![ret(bin(
                BinOp::Sub,
                Expr::Identifier("a".to_string()),
                Expr::Identifier("b".to_string()),
            ))],
        },
        ret(Expr::Call("sub2".to_string(), vec![num(10), num(4)])),
    ];
    let (outcome, _) = exec(ast);
    assert_eq!(outcome, Outcome::Done(Value::Integer(6)));
}

fn countdown_ast(n: i64) -> Vec<Stmt> {
    // fn rec(n) { if n > 0 { return rec(n - 1); } else { return n; } }
    vec![
        Stmt::FnDecl {
            name: "rec".to_string(),
            params: vec![Param {
                name: "n".to_string(),
                mutable: false,
            }],
            body: vec![Stmt::If {
                arms: vec![IfArm {
                    cond: bin(BinOp::Gt, Expr::Identifier("n".to_string()), num(0)),
                    body: vec![ret(Expr::Call(
                        "rec".to_string(),
                        vec![bin(
                            BinOp::Sub,
                            Expr::Identifier("n".to_string()),
                            num(1),
                        )],
                    ))],
                }],
                else_body: vec![ret(Expr::Identifier("n".to_string()))],
            }],
        },
        ret(Expr::Call("rec".to_string(), vec![num(n)])),
    ]
}

#[test]
fn nested_calls_restore_each_caller() {
    for depth in [1i64, 2, 10, 200] {
        let (outcome, _) = exec(countdown_ast(depth));
        assert_eq!(outcome, Outcome::Done(Value::Integer(0)));
    }
}

#[test]
fn compiling_twice_yields_identical_units() {
    let build = || countdown_ast(5);
    let c1 = compile_program(&build(), Vec::new(), "t".to_string());
    let c2 = compile_program(&build(), Vec::new(), "t".to_string());
    assert_eq!(c1, c2);
}

#[test]
fn constant_pool_deduplicates() {
    let ast = vec![ret(bin(BinOp::Add, num(7), num(7)))];
    let code = compile_program(&ast, Vec::new(), "t".to_string());
    assert_eq!(code.constants, vec![Value::Integer(7)]);
    assert_eq!(
        code.code,
        vec![
            Instruction::LoadConst(0),
            Instruction::LoadConst(0),
            Instruction::Add,
            Instruction::Return
        ]
    );
}

#[test]
fn unbound_variable_faults() {
    let (outcome, _) = exec(vec![ret(Expr::Identifier("nope".to_string()))]);
    assert_eq!(
        outcome,
        Outcome::Fault(VmError::Runtime(RuntimeError::UnboundVariable(
            "nope".to_string()
        )))
    );
}

#[test]
fn unknown_function_faults() {
    let (outcome, _) = exec(vec![ret(Expr::Call("ghost".to_string(), vec![]))]);
    assert_eq!(
        outcome,
        Outcome::Fault(VmError::Runtime(RuntimeError::UnknownFunction(
            "ghost".to_string()
        )))
    );
}

#[test]
fn division_by_zero_faults() {
    let (outcome, _) = exec(vec![ret(bin(BinOp::Div, num(1), num(0)))]);
    assert_eq!(
        outcome,
        Outcome::Fault(VmError::Runtime(RuntimeError::DivisionByZero))
    );
}

#[test]
fn unsupported_operation_reports_kinds() {
    let (outcome, _) = exec(vec![ret(bin(BinOp::Sub, lit(Value::Bool(true)), num(1)))]);
    assert_eq!(
        outcome,
        Outcome::Fault(VmError::Runtime(RuntimeError::UnsupportedOperation {
            op: Instruction::Sub,
            left: TypeTag::Bool,
            right: TypeTag::Integer
        }))
    );
}

#[test]
fn comparison_and_equality() {
    let (o, _) = exec(vec![ret(bin(BinOp::Lt, num(2), num(3)))]);
    assert_eq!(o, Outcome::Done(Value::Bool(true)));
    let (o, _) = exec(vec![ret(bin(BinOp::Eq, text("a"), text("a")))]);
    assert_eq!(o, Outcome::Done(Value::Bool(true)));
    // values of different kinds are simply unequal
    let (o, _) = exec(vec![ret(bin(BinOp::Eq, text("1"), num(1)))]);
    assert_eq!(o, Outcome::Done(Value::Bool(false)));
    let (o, _) = exec(vec![ret(bin(BinOp::Ne, num(1), num(2)))]);
    assert_eq!(o, Outcome::Done(Value::Bool(true)));
}

#[test]
fn typeof_names_the_kind() {
    let (o, _) = exec(vec![ret(Expr::Unary(UnaryOp::Typeof, Box::new(num(1))))]);
    assert_eq!(o, Outcome::Done(Value::Str("integer".to_string())));
    let (o, _) = exec(vec![ret(Expr::Unary(
        UnaryOp::Typeof,
        Box::new(text("s")),
    ))]);
    assert_eq!(o, Outcome::Done(Value::Str("string".to_string())));
}

#[test]
fn negation_and_not() {
    let (o, _) = exec(vec![ret(Expr::Unary(UnaryOp::Negate, Box::new(num(5))))]);
    assert_eq!(o, Outcome::Done(Value::Integer(-5)));
    let (o, _) = exec(vec![ret(Expr::Unary(
        UnaryOp::Negate,
        Box::new(num(i64::MIN)),
    ))]);
    assert_eq!(
        o,
        Outcome::Fault(VmError::Runtime(RuntimeError::IntegerOverflow))
    );
    let (o, _) = exec(vec![ret(Expr::Unary(UnaryOp::LogicalNot, Box::new(num(0))))]);
    assert_eq!(o, Outcome::Done(Value::Bool(true)));
}

#[test]
fn power_and_shifts() {
    let (o, _) = exec(vec![ret(bin(BinOp::Pow, num(2), num(10)))]);
    assert_eq!(o, Outcome::Done(Value::Integer(1024)));
    let (o, _) = exec(vec![ret(bin(BinOp::ShiftLeft, num(1), num(4)))]);
    assert_eq!(o, Outcome::Done(Value::Integer(16)));
    let (o, _) = exec(vec![ret(bin(BinOp::ShiftRight, num(16), num(2)))]);
    assert_eq!(o, Outcome::Done(Value::Integer(4)));
    let (o, _) = exec(vec![ret(bin(BinOp::ShiftLeft, num(1), num(64)))]);
    assert_eq!(
        o,
        Outcome::Fault(VmError::Runtime(RuntimeError::IntegerOverflow))
    );
}

#[test]
fn array_literal_builds_in_order() {
    let ast = vec![ret(Expr::ArrayLit(vec![num(1), num(2), num(3)]))];
    let (outcome, _) = exec(ast);
    assert_eq!(
        outcome,
        Outcome::Done(Value::Array(vec![
            Value::Integer(1),
            Value::Integer(2),
            Value::Integer(3)
        ]))
    );
}

#[test]
fn conversions() {
    let conv = |e: Expr, t: TypeTag| vec![ret(Expr::Convert(Box::new(e), t))];
    let (o, _) = exec(conv(text("123"), TypeTag::Integer));
    assert_eq!(o, Outcome::Done(Value::Integer(123)));
    let (o, _) = exec(conv(text("12x"), TypeTag::Integer));
    assert_eq!(
        o,
        Outcome::Fault(VmError::Runtime(RuntimeError::ConversionFailure))
    );
    let (o, _) = exec(conv(num(-42), TypeTag::Str));
    assert_eq!(o, Outcome::Done(Value::Str("-42".to_string())));
    let (o, _) = exec(conv(lit(Value::Bool(true)), TypeTag::Integer));
    assert_eq!(o, Outcome::Done(Value::Integer(1)));
    let (o, _) = exec(conv(num(0), TypeTag::Bool));
    assert_eq!(o, Outcome::Done(Value::Bool(false)));
    let (o, _) = exec(conv(
        Expr::ArrayLit(vec![num(1), num(2)]),
        TypeTag::Str,
    ));
    assert_eq!(o, Outcome::Done(Value::Str("[1, 2]".to_string())));
    let (o, _) = exec(conv(lit(Value::Nothing), TypeTag::Integer));
    assert_eq!(
        o,
        Outcome::Fault(VmError::Runtime(RuntimeError::UnsupportedConversion {
            from: TypeTag::Nothing,
            to: TypeTag::Integer
        }))
    );
}

#[test]
fn globals_are_visible_from_callees() {
    // let g = 5; fn f() { return g; } return f();
    let ast = vec![
        Stmt::Let("g".to_string(), num(5)),
        Stmt::FnDecl {
            name: "f".to_string(),
            params: vec![],
            body: vec![ret(Expr::Identifier("g".to_string()))],
        },
        ret(Expr::Call("f".to_string(), vec![])),
    ];
    let (outcome, _) = exec(ast);
    assert_eq!(outcome, Outcome::Done(Value::Integer(5)));
}

#[test]
fn preset_globals_are_read() {
    let code = compile_program(
        &vec![ret(Expr::Identifier("x".to_string()))],
        Vec::new(),
        "t".to_string(),
    );
    let mut globals = Locals::new();
    globals.insert("x".to_string(), Value::Integer(77));
    let (outcome, _) = run(&code, globals, None, FUEL);
    assert_eq!(outcome, Outcome::Done(Value::Integer(77)));
}

#[test]
fn assignment_overwrites_innermost() {
    let ast = vec![
        Stmt::Let("x".to_string(), num(1)),
        Stmt::Assign("x".to_string(), num(2)),
        ret(Expr::Identifier("x".to_string())),
    ];
    let (outcome, _) = exec(ast);
    assert_eq!(outcome, Outcome::Done(Value::Integer(2)));
}

#[test]
fn exit_primitive_halts() {
    let ast = vec![
        writeln_call(text("before")),
        Stmt::Expression(Expr::Call("exit".to_string(), vec![])),
        writeln_call(text("after")),
    ];
    let (outcome, output) = exec(ast);
    assert_eq!(outcome, Outcome::Done(Value::Nothing));
    assert_eq!(output, vec!["before ".to_string()]);
}

#[test]
fn infinite_loop_runs_out_of_fuel() {
    let ast = vec![Stmt::While(lit(Value::Bool(true)), vec![])];
    let code = compile_program(&ast, Vec::new(), "t".to_string());
    let (outcome, _) = run(&code, Locals::new(), None, 1000);
    assert_eq!(outcome, Outcome::OutOfFuel);
}

#[test]
fn malformed_bytecode_is_an_internal_error() {
    let mut unit = CodeObject::new(Vec::new(), "hand".to_string());
    unit.add_code(Instruction::CallPrimitive(7, 0));
    let (outcome, _) = run(&unit, Locals::new(), None, FUEL);
    assert_eq!(
        outcome,
        Outcome::Fault(VmError::Internal(InternalError::BadPrimitive))
    );
    let mut unit2 = CodeObject::new(Vec::new(), "hand".to_string());
    unit2.add_code(Instruction::LoadConst(3));
    let (outcome2, _) = run(&unit2, Locals::new(), None, FUEL);
    assert_eq!(
        outcome2,
        Outcome::Fault(VmError::Internal(InternalError::BadConstantIndex))
    );
}

#[test]
fn empty_program_yields_nothing() {
    let (outcome, output) = exec(vec![]);
    assert_eq!(outcome, Outcome::Done(Value::Nothing));
    assert!(output.is_empty());
}

#[test]
fn writeln_renders_each_argument_with_a_space() {
    let ast = vec![Stmt::Expression(Expr::Call(
        "writeln".to_string(),
        vec![num(1), text("a"), lit(Value::Bool(false))],
    ))];
    let (outcome, output) = exec(ast);
    assert_eq!(outcome, Outcome::Done(Value::Nothing));
    assert_eq!(output, vec!["1 a false ".to_string()]);
}

#[test]
fn writeln_renders_nested_arrays() {
    let ast = vec![Stmt::Expression(Expr::Call(
        "writeln".to_string(),
        vec![Expr::ArrayLit(vec![
            num(1),
            Expr::ArrayLit(vec![text("x"), lit(Value::Nothing)]),
        ])],
    ))];
    let (_, output) = exec(ast);
    assert_eq!(output, vec!["[1, [x, none]] ".to_string()]);
}

#[test]
fn duplicate_parameter_names_bind_the_last_argument() {
    let ast = vec![
        Stmt::FnDecl {
            name: "f".to_string(),
            params: vec![
                Param { name: "a".to_string(), mutable: false },
                Param { name: "a".to_string(), mutable: false },
            ],
            body: vec![ret(Expr::Identifier("a".to_string()))],
        },
        ret(Expr::Call("f".to_string(), vec![num(1), num(2)])),
    ];
    let (outcome, _) = exec(ast);
    assert_eq!(outcome, Outcome::Done(Value::Integer(2)));
}

#[test]
fn modulo_follows_the_dividend_sign() {
    let (o, _) = exec(vec![ret(bin(BinOp::Mod, num(-7), num(3)))]);
    assert_eq!(o, Outcome::Done(Value::Integer(-1)));
    let (o, _) = exec(vec![ret(bin(BinOp::Div, num(-7), num(2)))]);
    assert_eq!(o, Outcome::Done(Value::Integer(-3)));
}

#[test]
fn unsupported_unary_reports_kind() {
    let (o, _) = exec(vec![ret(Expr::Unary(UnaryOp::Negate, Box::new(text("s"))))]);
    assert_eq!(
        o,
        Outcome::Fault(VmError::Runtime(RuntimeError::UnsupportedUnary {
            op: Instruction::Negate,
            operand: TypeTag::Str
        }))
    );
}

#[test]
fn more_malformed_bytecode_faults() {
    // a binary operation on an empty stack
    let mut u = CodeObject::new(Vec::new(), "hand".to_string());
    u.add_code(Instruction::Add);
    let (o, _) = run(&u, Locals::new(), None, FUEL);
    assert_eq!(
        o,
        Outcome::Fault(VmError::Internal(InternalError::StackUnderflow))
    );
    // a name operand that refers to a non-string constant
    let mut u = CodeObject::new(Vec::new(), "hand".to_string());
    u.add_constant(Value::Integer(1));
    u.add_code(Instruction::LoadVariable(0));
    let (o, _) = run(&u, Locals::new(), None, FUEL);
    assert_eq!(
        o,
        Outcome::Fault(VmError::Internal(InternalError::BadNameConstant))
    );
    // a builtin-value tag outside the defined range
    let mut u = CodeObject::new(Vec::new(), "hand".to_string());
    u.add_code(Instruction::LoadBuiltinValue(9));
    let (o, _) = run(&u, Locals::new(), None, FUEL);
    assert_eq!(
        o,
        Outcome::Fault(VmError::Internal(InternalError::BadBuiltinTag))
    );
}

