//! Laws of the toolchain: properties that relate the compiler and the
//! machine, proved against their functional descriptions.

use vstd::prelude::*;

use crate::ast::BinOp;
use crate::ast::Expr;
use crate::ast::Stmt;
use crate::code::CodeModel;
use crate::code::ParamModel;
use crate::code::child_lookup;
use crate::compiler::compile_expr_spec;
use crate::compiler::compile_exprs_spec;
use crate::compiler::compile_stmt_spec;
use crate::compiler::compile_stmts_spec;
use crate::compiler::compile_unit_spec;
use crate::error::ErrModel;
use crate::error::VmErrModel;
use crate::instr::Instruction;
use crate::value::Value;
use crate::value::ValueModel;
use crate::value::value_model;
use crate::vm::FrameModel;
use crate::vm::RunModel;
use crate::vm::StepModel;
use crate::vm::VmModel;
use crate::vm::bind_acc;
use crate::vm::init_model;
use crate::vm::name_at;
use crate::vm::run_model;
use crate::vm::step_model;

verus! {

/// Compilation is deterministic: two units compiled from the same
/// tree, parameters and source tag have identical models — the same
/// instruction sequence, the same constant pool with the same
/// deduplicated indices, and the same children.
pub proof fn lemma_compile_deterministic(
    c1: crate::code::CodeObject,
    c2: crate::code::CodeObject,
    ast: Seq<Stmt>,
    params: Seq<ParamModel>,
    file: Seq<char>,
)
    requires
        c1@ == compile_unit_spec(ast, params, file),
        c2@ == compile_unit_spec(ast, params, file),
    ensures
        c1@ == c2@,
{
}

/// Compiling `return v;` for a literal `v` and running it yields `v`
/// unchanged, with no output.
pub proof fn lemma_literal_round_trip(v: Value, file: Seq<char>, fuel: u64)
    requires
        fuel >= 3,
    ensures
        ({
            let ast = seq![Stmt::Return(Expr::Literal(v))];
            let cm = compile_unit_spec(ast, Seq::empty(), file);
            run_model(init_model(cm, Seq::empty(), cm.children), fuel as nat)
                == RunModel::Done(value_model(v), Seq::empty())
        }),
{
    let ast = seq![Stmt::Return(Expr::Literal(v))];
    let cm = compile_unit_spec(ast, Seq::empty(), file);
    let m = value_model(v);
    let (c1, p1, ch1) = compile_stmt_spec(ast[0], 0, Seq::empty(), Seq::empty(), file);
    let (c2, p2, ch2) = compile_stmts_spec(ast, 1, c1.len() as int, p1, ch1, file);
    assert(c2 =~= Seq::<Instruction>::empty());
    assert(compile_stmts_spec(ast, 0, 0, Seq::empty(), Seq::empty(), file).0 =~= c1);
    let first: Instruction = match crate::compiler::builtin_tag(m) {
        Option::Some(t) => Instruction::LoadBuiltinValue(t),
        Option::None => Instruction::LoadConst(0),
    };
    assert(compile_expr_spec(Expr::Literal(v), Seq::empty()).0 == seq![first]);
    assert(cm.code =~= seq![first, Instruction::Return]);
    let st0 = init_model(cm, Seq::empty(), cm.children);
    let st1 = VmModel { stack: seq![m], ip: 1, ..st0 };
    assert(step_model(st0) == StepModel::Next(st1)) by {
        assert(cm.code[0] == first);
        match crate::compiler::builtin_tag(m) {
            Option::Some(t) => {
                assert(st0.stack.push(m) =~= seq![m]);
            },
            Option::None => {
                assert(cm.constants =~= seq![m]);
                assert(st0.stack.push(m) =~= seq![m]);
            },
        }
    }
    assert(step_model(st1) == StepModel::Done(m, st1.output)) by {
        assert(cm.code[1] == Instruction::Return);
        assert(st1.stack.last() == m);
        assert(st1.frames.len() == 1);
    }
    assert(run_model(st0, fuel as nat) == run_model(st1, (fuel - 1) as nat));
    assert(run_model(st1, (fuel - 1) as nat) == RunModel::Done(m, Seq::empty()));
}

/// Compiling `return a + b;` for integer literals and running it
/// yields their sum when it is representable, and an integer-overflow
/// error when it is not.
pub proof fn lemma_add_round_trip(a: i64, b: i64, file: Seq<char>, fuel: u64)
    requires
        fuel >= 4,
    ensures
        ({
            let ast = seq![
                Stmt::Return(
                    Expr::Binary(
                        BinOp::Add,
                        Box::new(Expr::Literal(Value::Integer(a))),
                        Box::new(Expr::Literal(Value::Integer(b))),
                    ),
                ),
            ];
            let cm = compile_unit_spec(ast, Seq::empty(), file);
            let r = run_model(init_model(cm, Seq::empty(), cm.children), fuel as nat);
            if i64::MIN <= a + b <= i64::MAX {
                r == RunModel::Done(ValueModel::Int(a + b), Seq::empty())
            } else {
                r == RunModel::Fault(
                    VmErrModel::Runtime(ErrModel::IntegerOverflow),
                    Seq::empty(),
                )
            }
        }),
{
    let e = Expr::Binary(
        BinOp::Add,
        Box::new(Expr::Literal(Value::Integer(a))),
        Box::new(Expr::Literal(Value::Integer(b))),
    );
    let ast = seq![Stmt::Return(e)];
    let cm = compile_unit_spec(ast, Seq::empty(), file);
    let ma = ValueModel::Int(a as int);
    let mb = ValueModel::Int(b as int);
    let (c1, p1, ch1) = compile_stmt_spec(ast[0], 0, Seq::empty(), Seq::empty(), file);
    let (c2, p2, ch2) = compile_stmts_spec(ast, 1, c1.len() as int, p1, ch1, file);
    assert(c2 =~= Seq::<Instruction>::empty());
    assert(compile_stmts_spec(ast, 0, 0, Seq::empty(), Seq::empty(), file).0 =~= c1);
    let (cl, pl) = compile_expr_spec(Expr::Literal(Value::Integer(a)), Seq::empty());
    assert(cl == seq![Instruction::LoadConst(0)]);
    assert(pl =~= seq![ma]);
    let (cr, pr) = compile_expr_spec(Expr::Literal(Value::Integer(b)), pl);
    let bidx: int = if a == b {
        0
    } else {
        1
    };
    assert(pl.len() == 1);
    assert(pl[0] == ma);
    if a == b {
        assert(crate::code::pool_idx_from(pl, mb, 0) == 0);
    } else {
        assert(crate::code::pool_idx_from(pl, mb, 1) == 1);
        assert(crate::code::pool_idx_from(pl, mb, 0) == 1);
    }
    assert(crate::code::pool_idx(pl, mb) == bidx);
    assert(cr == seq![Instruction::LoadConst(bidx as usize)]);
    assert(pr[bidx] == mb) by {
        if a != b {
            assert(crate::code::pool_add(pl, mb) == pl.push(mb));
        }
    }
    assert(cm.code =~= cl + cr.push(Instruction::Add) + seq![Instruction::Return]);
    assert(cm.constants == pr);
    assert(cm.code[0] == Instruction::LoadConst(0));
    assert(cm.code[1] == Instruction::LoadConst(bidx as usize));
    assert(cm.code[2] == Instruction::Add);
    assert(cm.code[3] == Instruction::Return);
    assert(cm.constants[0] == ma);
    let st0 = init_model(cm, Seq::empty(), cm.children);
    let st1 = VmModel { stack: seq![ma], ip: 1, ..st0 };
    let st2 = VmModel { stack: seq![ma, mb], ip: 2, ..st0 };
    assert(step_model(st0) == StepModel::Next(st1)) by {
        assert(st0.stack.push(ma) =~= seq![ma]);
    }
    assert(step_model(st1) == StepModel::Next(st2)) by {
        assert(st1.stack.push(mb) =~= seq![ma, mb]);
    }
    assert(run_model(st0, fuel as nat) == run_model(st1, (fuel - 1) as nat));
    assert(run_model(st1, (fuel - 1) as nat) == run_model(st2, (fuel - 2) as nat));
    if i64::MIN <= a + b <= i64::MAX {
        let st3 = VmModel { stack: seq![ValueModel::Int(a + b)], ip: 3, ..st0 };
        assert(step_model(st2) == StepModel::Next(st3)) by {
            assert(st2.stack[st2.stack.len() - 2] == ma);
            assert(st2.stack.last() == mb);
            assert(st2.stack.take(st2.stack.len() - 2).push(ValueModel::Int(a + b)) =~= seq![
                ValueModel::Int(a + b),
            ]);
        }
        assert(step_model(st3) == StepModel::Done(ValueModel::Int(a + b), st3.output)) by {
            assert(st3.stack.last() == ValueModel::Int(a + b));
            assert(st3.frames.len() == 1);
        }
        assert(run_model(st2, (fuel - 2) as nat) == run_model(st3, (fuel - 3) as nat));
        assert(run_model(st3, (fuel - 3) as nat) == RunModel::Done(
            ValueModel::Int(a + b),
            Seq::empty(),
        ));
    } else {
        assert(step_model(st2) == StepModel::Fault(
            VmErrModel::Runtime(ErrModel::IntegerOverflow),
            st2.output,
        )) by {
            assert(st2.stack[st2.stack.len() - 2] == ma);
            assert(st2.stack.last() == mb);
        }
        assert(run_model(st2, (fuel - 2) as nat) == RunModel::Fault(
            VmErrModel::Runtime(ErrModel::IntegerOverflow),
            Seq::empty(),
        ));
    }
}

/// Calling a function with the wrong number of arguments faults with
/// an arity mismatch in the very step that dispatches the call: the
/// callee never begins to execute and no state is carried over.
pub proof fn lemma_arity_mismatch_faults(st: VmModel, ni: usize, argc: usize, n: Seq<char>, callee: CodeModel)
    requires
        0 <= st.ip < st.program.code.len(),
        st.program.code[st.ip] == Instruction::CallFunction(ni, argc),
        name_at(st.program, ni as int) == Result::<Seq<char>, crate::error::InternalError>::Ok(n),
        st.stack.len() >= argc,
        child_lookup(st.program.children, n) == Option::Some(callee) || (child_lookup(
            st.program.children,
            n,
        ) == Option::<CodeModel>::None && child_lookup(st.global_fns, n) == Option::Some(callee)),
        callee.parameters.len() != argc,
    ensures
        step_model(st) == StepModel::Fault(
            VmErrModel::Runtime(
                ErrModel::ArityMismatch { expected: callee.parameters.len() as int, got: argc as int },
            ),
            st.output,
        ),
{
}

/// A matched call: dispatching a call pushes a frame that records the
/// caller's unit and its resume address, and enters the callee at its
/// first instruction with the arguments bound positionally.
pub proof fn lemma_call_saves_caller(st: VmModel, ni: usize, argc: usize, n: Seq<char>, callee: CodeModel)
    requires
        0 <= st.ip < st.program.code.len(),
        st.program.code[st.ip] == Instruction::CallFunction(ni, argc),
        name_at(st.program, ni as int) == Result::<Seq<char>, crate::error::InternalError>::Ok(n),
        st.stack.len() >= argc,
        child_lookup(st.program.children, n) == Option::Some(callee) || (child_lookup(
            st.program.children,
            n,
        ) == Option::<CodeModel>::None && child_lookup(st.global_fns, n) == Option::Some(callee)),
        callee.parameters.len() == argc,
    ensures
        step_model(st) == StepModel::Next(
            VmModel {
                program: callee,
                ip: 0,
                stack: st.stack.take(st.stack.len() - argc),
                frames: st.frames.push(
                    FrameModel {
                        locals: bind_acc(
                            callee.parameters,
                            st.stack.subrange(st.stack.len() - argc, st.stack.len() as int),
                            0,
                            Seq::empty(),
                        ),
                        ret_code: st.program,
                        ret_ip: st.ip + 1,
                    },
                ),
                ..st
            },
        ),
{
}

/// The matching return: leaving a callee pops exactly the frame its
/// call pushed, restores the caller's unit and resume address, and
/// hands the caller one result value on the operand stack. Together
/// with the call law, nested calls to any depth restore each caller's
/// program and instruction pointer, and leave the operand stack one
/// value deeper than before the arguments were pushed.
pub proof fn lemma_return_restores_caller(st: VmModel)
    requires
        0 <= st.ip < st.program.code.len(),
        st.program.code[st.ip] == Instruction::Return,
        st.stack.len() >= 1,
        st.frames.len() >= 2,
    ensures
        step_model(st) == StepModel::Next(
            VmModel {
                program: st.frames.last().ret_code,
                ip: st.frames.last().ret_ip,
                stack: st.stack.drop_last().push(st.stack.last()),
                frames: st.frames.drop_last(),
                ..st
            },
        ),
{
}


/// The step bound is an artifact, not part of the semantics: once a
/// run halts or faults within some bound, every larger bound yields
/// the same result and the same output.
pub proof fn lemma_fuel_monotone(st: VmModel, f1: nat, f2: nat)
    requires
        f1 <= f2,
        !(run_model(st, f1) matches RunModel::Out(_)),
    ensures
        run_model(st, f2) == run_model(st, f1),
    decreases f1,
{
    if f1 > 0 {
        match step_model(st) {
            StepModel::Next(st2) => {
                lemma_fuel_monotone(st2, (f1 - 1) as nat, (f2 - 1) as nat);
            },
            StepModel::Done(_, _) => {
            },
            StepModel::Fault(_, _) => {
            },
        }
    }
}


/// Whether pool `q` extends pool `p`: everything in `p` is still at
/// its position in `q`.
pub open spec fn pool_extends(q: Seq<ValueModel>, p: Seq<ValueModel>) -> bool {
    q.len() >= p.len() && q.take(p.len() as int) == p
}

proof fn lemma_extends_trans(c: Seq<ValueModel>, b: Seq<ValueModel>, a: Seq<ValueModel>)
    requires
        pool_extends(c, b),
        pool_extends(b, a),
    ensures
        pool_extends(c, a),
{
    assert(c.take(a.len() as int) =~= b.take(a.len() as int));
}

proof fn lemma_pool_add_extends(pool: Seq<ValueModel>, m: ValueModel)
    ensures
        pool_extends(crate::code::pool_add(pool, m), pool),
{
    assert(pool.take(pool.len() as int) =~= pool);
    assert(pool.push(m).take(pool.len() as int) =~= pool);
}

/// Lowering an expression only appends to the constant pool: every
/// constant interned before keeps its position and index.
pub proof fn lemma_expr_pool_extends(e: Expr, pool: Seq<ValueModel>)
    ensures
        pool_extends(compile_expr_spec(e, pool).1, pool),
    decreases e, 0int,
{
    assert(pool.take(pool.len() as int) =~= pool);
    match e {
        Expr::Literal(v) => {
            lemma_pool_add_extends(pool, value_model(v));
        },
        Expr::Identifier(name) => {
            lemma_pool_add_extends(pool, ValueModel::Str(name@));
        },
        Expr::Unary(_, inner) => {
            lemma_expr_pool_extends(*inner, pool);
        },
        Expr::Binary(_, l, r) => {
            lemma_expr_pool_extends(*l, pool);
            let p1 = compile_expr_spec(*l, pool).1;
            lemma_expr_pool_extends(*r, p1);
            lemma_extends_trans(compile_expr_spec(*r, p1).1, p1, pool);
        },
        Expr::Call(name, args) => {
            match crate::compiler::prim_id(name@) {
                Option::Some(_) => {
                    lemma_exprs_pool_extends(args@, 0, pool);
                },
                Option::None => {
                    lemma_pool_add_extends(pool, ValueModel::Str(name@));
                    let p0 = crate::code::pool_add(pool, ValueModel::Str(name@));
                    lemma_exprs_pool_extends(args@, 0, p0);
                    lemma_extends_trans(compile_exprs_spec(args@, 0, p0).1, p0, pool);
                },
            }
        },
        Expr::ArrayLit(elems) => {
            lemma_exprs_pool_extends(elems@, 0, pool);
        },
        Expr::Convert(inner, _) => {
            lemma_expr_pool_extends(*inner, pool);
        },
    }
}

/// Lowering an expression list only appends to the constant pool.
pub proof fn lemma_exprs_pool_extends(es: Seq<Expr>, i: int, pool: Seq<ValueModel>)
    ensures
        pool_extends(compile_exprs_spec(es, i, pool).1, pool),
    decreases es, es.len() - i,
{
    assert(pool.take(pool.len() as int) =~= pool);
    if 0 <= i < es.len() {
        lemma_expr_pool_extends(es[i], pool);
        let p1 = compile_expr_spec(es[i], pool).1;
        lemma_exprs_pool_extends(es, i + 1, p1);
        lemma_extends_trans(compile_exprs_spec(es, i + 1, p1).1, p1, pool);
    }
}

/// Lowering a statement only appends to the constant pool.
pub proof fn lemma_stmt_pool_extends(
    s: Stmt,
    at: int,
    pool: Seq<ValueModel>,
    children: Seq<(Seq<char>, CodeModel)>,
    file: Seq<char>,
)
    ensures
        pool_extends(compile_stmt_spec(s, at, pool, children, file).1, pool),
    decreases s, 0int,
{
    assert(pool.take(pool.len() as int) =~= pool);
    match s {
        Stmt::Expression(e) => {
            lemma_expr_pool_extends(e, pool);
        },
        Stmt::Let(name, e) => {
            lemma_expr_pool_extends(e, pool);
            let p1 = compile_expr_spec(e, pool).1;
            lemma_pool_add_extends(p1, ValueModel::Str(name@));
            lemma_extends_trans(crate::code::pool_add(p1, ValueModel::Str(name@)), p1, pool);
        },
        Stmt::Assign(name, e) => {
            lemma_expr_pool_extends(e, pool);
            let p1 = compile_expr_spec(e, pool).1;
            lemma_pool_add_extends(p1, ValueModel::Str(name@));
            lemma_extends_trans(crate::code::pool_add(p1, ValueModel::Str(name@)), p1, pool);
        },
        Stmt::Return(e) => {
            lemma_expr_pool_extends(e, pool);
        },
        Stmt::ReturnNone => {
        },
        Stmt::If { arms, else_body } => {
            lemma_if_arms_pool_extends(arms@, 0, at, pool, children, file);
            let (ac, p1, ch1, _) = crate::compiler::compile_if_arms_spec(
                arms@,
                0,
                at,
                pool,
                children,
                file,
            );
            lemma_stmts_pool_extends(else_body@, 0, at + ac.len(), p1, ch1, file);
            lemma_extends_trans(
                compile_stmts_spec(else_body@, 0, at + ac.len(), p1, ch1, file).1,
                p1,
                pool,
            );
        },
        Stmt::While(cond, body) => {
            lemma_expr_pool_extends(cond, pool);
            let (cc, p1) = compile_expr_spec(cond, pool);
            let bodystart = at + cc.len() + 2;
            lemma_stmts_pool_extends(body@, 0, bodystart, p1, children, file);
            lemma_extends_trans(
                compile_stmts_spec(body@, 0, bodystart, p1, children, file).1,
                p1,
                pool,
            );
        },
        Stmt::FnDecl { .. } => {
        },
    }
}

/// Lowering a statement list only appends to the constant pool.
pub proof fn lemma_stmts_pool_extends(
    ss: Seq<Stmt>,
    i: int,
    at: int,
    pool: Seq<ValueModel>,
    children: Seq<(Seq<char>, CodeModel)>,
    file: Seq<char>,
)
    ensures
        pool_extends(compile_stmts_spec(ss, i, at, pool, children, file).1, pool),
    decreases ss, ss.len() - i,
{
    assert(pool.take(pool.len() as int) =~= pool);
    if 0 <= i < ss.len() {
        lemma_stmt_pool_extends(ss[i], at, pool, children, file);
        let (c1, p1, ch1) = compile_stmt_spec(ss[i], at, pool, children, file);
        lemma_stmts_pool_extends(ss, i + 1, at + c1.len(), p1, ch1, file);
        lemma_extends_trans(
            compile_stmts_spec(ss, i + 1, at + c1.len(), p1, ch1, file).1,
            p1,
            pool,
        );
    }
}

proof fn lemma_if_arms_pool_extends(
    arms: Seq<crate::ast::IfArm>,
    i: int,
    at: int,
    pool: Seq<ValueModel>,
    children: Seq<(Seq<char>, CodeModel)>,
    file: Seq<char>,
)
    ensures
        pool_extends(crate::compiler::compile_if_arms_spec(arms, i, at, pool, children, file).1, pool),
    decreases arms, arms.len() - i,
{
    assert(pool.take(pool.len() as int) =~= pool);
    if 0 <= i < arms.len() {
        lemma_expr_pool_extends(arms[i].cond, pool);
        let (cc, p1) = compile_expr_spec(arms[i].cond, pool);
        let bodystart = at + cc.len() + 2;
        lemma_stmts_pool_extends(arms[i].body@, 0, bodystart, p1, children, file);
        let (cb, p2, ch1) = compile_stmts_spec(arms[i].body@, 0, bodystart, p1, children, file);
        let next = bodystart + cb.len() + 1;
        lemma_extends_trans(p2, p1, pool);
        lemma_if_arms_pool_extends(arms, i + 1, next, p2, ch1, file);
        lemma_extends_trans(
            crate::compiler::compile_if_arms_spec(arms, i + 1, next, p2, ch1, file).1,
            p2,
            pool,
        );
    }
}

} // verus!
