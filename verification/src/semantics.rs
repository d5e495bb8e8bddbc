//! The frame-local evaluation semantics of expressions, and the proof
//! that compiled expression code implements it: executing the code an
//! expression lowers to runs straight through it and pushes exactly
//! the expression's value, or faults with exactly the expression's
//! error, leaving the frames and the output untouched.
//!
//! Calls are outside this frame-local relation — their meaning is the
//! machine's step relation itself — so the theorem speaks of
//! expressions without calls.

use vstd::prelude::*;

use crate::arith::binop_model;
use crate::arith::unop_model;
use crate::ast::Expr;
use crate::code::pool_idx;
use crate::code::lemma_pool_add_member;
use crate::compiler::builtin_tag;
use crate::compiler::compile_expr_spec;
use crate::compiler::compile_exprs_spec;
use crate::compiler::compile_unit_spec;
use crate::compiler::op_instruction;
use crate::compiler::unop_instruction;
use crate::convert::convert_model;
use crate::env::env_lookup;
use crate::error::ErrModel;
use crate::error::VmErrModel;
use crate::instr::Instruction;
use crate::laws::lemma_expr_pool_extends;
use crate::laws::pool_extends;
use crate::value::ValueModel;
use crate::value::value_model;
use crate::vm::StepModel;
use crate::vm::VmModel;
use crate::vm::RunModel;
use crate::vm::run_model;
use crate::vm::step_model;

verus! {

broadcast use vstd::std_specs::vec::group_vec_axioms, vstd::seq::group_seq_axioms;

/// Whether an expression contains no call.
pub open spec fn call_free(e: Expr) -> bool
    decreases e, 0int,
{
    match e {
        Expr::Literal(_) => true,
        Expr::Identifier(_) => true,
        Expr::Unary(_, inner) => call_free(*inner),
        Expr::Binary(_, l, r) => call_free(*l) && call_free(*r),
        Expr::Call(_, _) => false,
        Expr::ArrayLit(elems) => calls_free(elems@, 0),
        Expr::Convert(inner, _) => call_free(*inner),
    }
}

/// Whether the expressions from position `i` on contain no call.
pub open spec fn calls_free(es: Seq<Expr>, i: int) -> bool
    decreases es, es.len() - i,
{
    if i < 0 || i >= es.len() {
        true
    } else {
        call_free(es[i]) && calls_free(es, i + 1)
    }
}

/// What a call-free expression evaluates to against a current and a
/// global environment: the value model, or the first error raised.
pub open spec fn eval_expr(
    e: Expr,
    cur: Seq<(Seq<char>, ValueModel)>,
    glob: Seq<(Seq<char>, ValueModel)>,
) -> Result<ValueModel, ErrModel>
    decreases e, 0int,
{
    match e {
        Expr::Literal(v) => Result::Ok(value_model(v)),
        Expr::Identifier(name) => match env_lookup(cur, name@) {
            Option::Some(v) => Result::Ok(v),
            Option::None => match env_lookup(glob, name@) {
                Option::Some(v) => Result::Ok(v),
                Option::None => Result::Err(ErrModel::UnboundVariable(name@)),
            },
        },
        Expr::Unary(op, inner) => match eval_expr(*inner, cur, glob) {
            Result::Ok(v) => unop_model(unop_instruction(op), v),
            Result::Err(err) => Result::Err(err),
        },
        Expr::Binary(op, l, r) => match eval_expr(*l, cur, glob) {
            Result::Ok(va) => match eval_expr(*r, cur, glob) {
                Result::Ok(vb) => binop_model(op_instruction(op), va, vb),
                Result::Err(err) => Result::Err(err),
            },
            Result::Err(err) => Result::Err(err),
        },
        Expr::Call(name, _) => Result::Err(ErrModel::UnknownFunction(name@)),
        Expr::ArrayLit(elems) => match eval_list(elems@, 0, cur, glob) {
            Result::Ok(vals) => Result::Ok(ValueModel::Arr(vals)),
            Result::Err(err) => Result::Err(err),
        },
        Expr::Convert(inner, tag) => match eval_expr(*inner, cur, glob) {
            Result::Ok(v) => convert_model(v, tag),
            Result::Err(err) => Result::Err(err),
        },
    }
}

/// What the expressions from position `i` on evaluate to, left to
/// right: their values in order, or the first error raised.
pub open spec fn eval_list(
    es: Seq<Expr>,
    i: int,
    cur: Seq<(Seq<char>, ValueModel)>,
    glob: Seq<(Seq<char>, ValueModel)>,
) -> Result<Seq<ValueModel>, ErrModel>
    decreases es, es.len() - i,
{
    if i < 0 || i >= es.len() {
        Result::Ok(Seq::empty())
    } else {
        match eval_expr(es[i], cur, glob) {
            Result::Ok(v) => match eval_list(es, i + 1, cur, glob) {
                Result::Ok(rest) => Result::Ok(seq![v] + rest),
                Result::Err(err) => Result::Err(err),
            },
            Result::Err(err) => Result::Err(err),
        }
    }
}

proof fn lemma_eval_list_len(
    es: Seq<Expr>,
    i: int,
    cur: Seq<(Seq<char>, ValueModel)>,
    glob: Seq<(Seq<char>, ValueModel)>,
)
    requires
        0 <= i <= es.len(),
    ensures
        match eval_list(es, i, cur, glob) {
            Result::Ok(vals) => vals.len() == es.len() - i,
            Result::Err(_) => true,
        },
    decreases es.len() - i,
{
    if i < es.len() {
        lemma_eval_list_len(es, i + 1, cur, glob);
    }
}

/// The machine after `k` more steps: the state reached when every one
/// of them continues, else the halt or fault the run stops at.
pub open spec fn advance(st: VmModel, k: nat) -> StepModel
    decreases k,
{
    if k == 0 {
        StepModel::Next(st)
    } else {
        match step_model(st) {
            StepModel::Next(s2) => advance(s2, (k - 1) as nat),
            StepModel::Done(v, o) => StepModel::Done(v, o),
            StepModel::Fault(e, o) => StepModel::Fault(e, o),
        }
    }
}

/// Advancing decomposes over sums of step counts.
pub proof fn lemma_advance_add(st: VmModel, a: nat, b: nat)
    ensures
        advance(st, a + b) == (match advance(st, a) {
            StepModel::Next(s) => advance(s, b),
            StepModel::Done(v, o) => StepModel::Done(v, o),
            StepModel::Fault(e, o) => StepModel::Fault(e, o),
        }),
    decreases a,
{
    if a > 0 {
        match step_model(st) {
            StepModel::Next(s2) => {
                lemma_advance_add(s2, (a - 1) as nat, b);
            },
            StepModel::Done(_, _) => {
            },
            StepModel::Fault(_, _) => {
            },
        }
    }
}

proof fn lemma_advance_one(st: VmModel)
    ensures
        advance(st, 1) == step_model(st),
{
    match step_model(st) {
        StepModel::Next(s2) => {
            assert(advance(s2, 0) == StepModel::Next(s2));
        },
        StepModel::Done(_, _) => {
        },
        StepModel::Fault(_, _) => {
        },
    }
}

/// A bounded run is the advance taken to its end: whatever `advance`
/// reaches within the fuel, the run reports.
pub proof fn lemma_advance_run(st: VmModel, k: nat, f: nat)
    requires
        k <= f,
    ensures
        match advance(st, k) {
            StepModel::Next(s) => run_model(st, f) == run_model(s, (f - k) as nat),
            StepModel::Done(v, o) => run_model(st, f) == RunModel::Done(v, o),
            StepModel::Fault(e, o) => run_model(st, f) == RunModel::Fault(e, o),
        },
    decreases k,
{
    if k > 0 {
        match step_model(st) {
            StepModel::Next(s2) => {
                lemma_advance_run(s2, (k - 1) as nat, (f - 1) as nat);
            },
            StepModel::Done(_, _) => {
            },
            StepModel::Fault(_, _) => {
            },
        }
    }
}

/// The code a call-free expression lowers to implements its
/// evaluation: started anywhere inside a program whose pool extends
/// the one the code was compiled against, the fragment runs straight
/// through, pushing exactly the expression's value — or faults with
/// exactly the expression's error — and leaves the instruction
/// pointer just past the fragment, the frames, the output and the
/// rest of the stack untouched.
#[verifier::rlimit(100)]
pub proof fn lemma_expr_code_runs(e: Expr, p: Seq<ValueModel>, st: VmModel)
    requires
        call_free(e),
        st.frames.len() >= 1,
        0 <= st.ip,
        st.ip + compile_expr_spec(e, p).0.len() <= st.program.code.len(),
        st.program.code.subrange(
            st.ip,
            st.ip + compile_expr_spec(e, p).0.len() as int,
        ) == compile_expr_spec(e, p).0,
        pool_extends(st.program.constants, compile_expr_spec(e, p).1),
        st.program.constants.len() <= usize::MAX,
    ensures
        ({
            let (c, p2) = compile_expr_spec(e, p);
            let cur = st.frames.last().locals;
            let glob = st.frames[0].locals;
            match eval_expr(e, cur, glob) {
                Result::Ok(v) => advance(st, c.len()) == StepModel::Next(
                    VmModel { ip: st.ip + c.len(), stack: st.stack.push(v), ..st },
                ),
                Result::Err(err) => advance(st, c.len()) == StepModel::Fault(
                    VmErrModel::Runtime(err),
                    st.output,
                ),
            }
        }),
    decreases e, 0int,
{
    let (c, p2) = compile_expr_spec(e, p);
    let cur = st.frames.last().locals;
    let glob = st.frames[0].locals;
    match e {
        Expr::Literal(v) => {
            let m = value_model(v);
            lemma_advance_one(st);
            assert(st.program.code[st.ip] == c[0]);
            match builtin_tag(m) {
                Option::Some(t) => {
                    assert(step_model(st) == StepModel::Next(
                        VmModel { ip: st.ip + 1, stack: st.stack.push(m), ..st },
                    ));
                },
                Option::None => {
                    let idx = pool_idx(p, m);
                    lemma_pool_add_member(p, m);
                    assert(p2[idx] == m);
                    assert(st.program.constants[idx] == m);
                    assert(step_model(st) == StepModel::Next(
                        VmModel { ip: st.ip + 1, stack: st.stack.push(m), ..st },
                    ));
                },
            }
        },
        Expr::Identifier(name) => {
            lemma_advance_one(st);
            let m = ValueModel::Str(name@);
            let idx = pool_idx(p, m);
            lemma_pool_add_member(p, m);
            assert(p2[idx] == m);
            assert(st.program.constants[idx] == m);
            assert(st.program.code[st.ip] == c[0]);
            assert(crate::vm::name_at(st.program, idx) == Result::<
                Seq<char>,
                crate::error::InternalError,
            >::Ok(name@));
        },
        Expr::Unary(op, inner) => {
            let (ci, p1) = compile_expr_spec(*inner, p);
            assert(p1 == p2);
            assert(st.program.code.subrange(st.ip, st.ip + ci.len() as int) =~= ci) by {
                assert(forall|j: int|
                    0 <= j < ci.len() ==> st.program.code.subrange(
                        st.ip,
                        st.ip + c.len() as int,
                    )[j] == #[trigger] c[j]);
            }
            lemma_expr_code_runs(*inner, p, st);
            match eval_expr(*inner, cur, glob) {
                Result::Err(err) => {
                    lemma_advance_add(st, ci.len(), 1);
                    assert(ci.len() + 1 == c.len());
                },
                Result::Ok(vi) => {
                    let st1 = VmModel { ip: st.ip + ci.len(), stack: st.stack.push(vi), ..st };
                    lemma_advance_one(st1);
                    assert(st.program.code[st1.ip] == c[c.len() - 1]);
                    assert(c[c.len() - 1] == unop_instruction(op));
                    let res = unop_model(unop_instruction(op), vi);
                    assert(st1.stack.last() == vi);
                    assert(st1.stack.drop_last() =~= st.stack);
                    match res {
                        Result::Ok(w) => {
                            assert(step_model(st1) == StepModel::Next(
                                VmModel {
                                    ip: st1.ip + 1,
                                    stack: st.stack.push(w),
                                    ..st
                                },
                            ));
                        },
                        Result::Err(err) => {
                            assert(step_model(st1) == StepModel::Fault(
                                VmErrModel::Runtime(err),
                                st.output,
                            ));
                        },
                    }
                    lemma_advance_add(st, ci.len(), 1);
                    assert(ci.len() + 1 == c.len());
                },
            }
        },
        Expr::Binary(op, l, r) => {
            let (cl, p1) = compile_expr_spec(*l, p);
            let (cr, pr2) = compile_expr_spec(*r, p1);
            assert(pr2 == p2);
            assert(c =~= cl + cr + seq![op_instruction(op)]) by {
                assert(c == cl + cr.push(op_instruction(op)));
            }
            assert(st.program.code.subrange(st.ip, st.ip + cl.len() as int) =~= cl) by {
                assert(forall|j: int|
                    0 <= j < c.len() ==> st.program.code.subrange(
                        st.ip,
                        st.ip + c.len() as int,
                    )[j] == #[trigger] c[j]);
            }
            lemma_expr_pool_extends(*r, p1);
            assert(pool_extends(st.program.constants, p1)) by {
                assert(st.program.constants.take(p1.len() as int) =~= p2.take(p1.len() as int));
            }
            lemma_expr_code_runs(*l, p, st);
            match eval_expr(*l, cur, glob) {
                Result::Err(err) => {
                    lemma_advance_add(st, cl.len(), (c.len() - cl.len()) as nat);
                },
                Result::Ok(va) => {
                    let st1 = VmModel { ip: st.ip + cl.len(), stack: st.stack.push(va), ..st };
                    assert(st1.program.code.subrange(st1.ip, st1.ip + cr.len() as int) =~= cr) by {
                        assert(forall|j: int|
                            0 <= j < c.len() ==> st.program.code.subrange(
                                st.ip,
                                st.ip + c.len() as int,
                            )[j] == #[trigger] c[j]);
                        assert(forall|j: int|
                            0 <= j < c.len() ==> st.program.code[st.ip + j] == #[trigger] c[j]);
                        assert(forall|j: int|
                            0 <= j < cr.len() ==> c[cl.len() + j] == #[trigger] cr[j]) by {
                            assert(forall|j: int|
                                0 <= j < cr.len() ==> (cl + cr + seq![op_instruction(op)])[
                                    cl.len() + j
                                ] == #[trigger] cr[j]);
                        }
                    }
                    lemma_expr_code_runs(*r, p1, st1);
                    match eval_expr(*r, cur, glob) {
                        Result::Err(err) => {
                            lemma_advance_add(st, cl.len(), cr.len());
                            lemma_advance_add(st, cl.len() + cr.len(), 1);
                            assert(cl.len() + cr.len() + 1 == c.len());
                        },
                        Result::Ok(vb) => {
                            let st2 = VmModel {
                                ip: st.ip + cl.len() + cr.len(),
                                stack: st.stack.push(va).push(vb),
                                ..st
                            };
                            lemma_advance_one(st2);
                            assert(st.program.code[st2.ip] == c[c.len() - 1]);
                            assert(c[c.len() - 1] == op_instruction(op));
                            assert(st2.stack.last() == vb);
                            assert(st2.stack[st2.stack.len() - 2] == va);
                            assert(st2.stack.take(st2.stack.len() - 2) =~= st.stack);
                            match binop_model(op_instruction(op), va, vb) {
                                Result::Ok(w) => {
                                    assert(step_model(st2) == StepModel::Next(
                                        VmModel {
                                            ip: st2.ip + 1,
                                            stack: st.stack.push(w),
                                            ..st
                                        },
                                    ));
                                },
                                Result::Err(err) => {
                                    assert(step_model(st2) == StepModel::Fault(
                                        VmErrModel::Runtime(err),
                                        st.output,
                                    ));
                                },
                            }
                            lemma_advance_add(st, cl.len(), cr.len());
                            lemma_advance_add(st, cl.len() + cr.len(), 1);
                            assert(cl.len() + cr.len() + 1 == c.len());
                        },
                    }
                },
            }
        },
        Expr::Call(_, _) => {
        },
        Expr::ArrayLit(elems) => {
            let (ca, p1) = compile_exprs_spec(elems@, 0, p);
            assert(elems@.len() <= usize::MAX) by {
                assert(vstd::std_specs::vec::spec_vec_len(&elems) == elems@.len());
            }
            assert(p1 == p2);
            assert(c =~= ca + seq![Instruction::BuildArray(elems@.len() as usize)]) by {
                assert(c == ca.push(Instruction::BuildArray(elems@.len() as usize)));
            }
            assert(st.program.code.subrange(st.ip, st.ip + ca.len() as int) =~= ca) by {
                assert(forall|j: int|
                    0 <= j < c.len() ==> st.program.code.subrange(
                        st.ip,
                        st.ip + c.len() as int,
                    )[j] == #[trigger] c[j]);
            }
            lemma_exprs_code_runs(elems@, 0, p, st);
            lemma_eval_list_len(elems@, 0, cur, glob);
            match eval_list(elems@, 0, cur, glob) {
                Result::Err(err) => {
                    lemma_advance_add(st, ca.len(), 1);
                    assert(ca.len() + 1 == c.len());
                },
                Result::Ok(vals) => {
                    let st1 = VmModel { ip: st.ip + ca.len(), stack: st.stack + vals, ..st };
                    lemma_advance_one(st1);
                    assert(st.program.code[st1.ip] == c[c.len() - 1]);
                    let n = elems@.len();
                    assert(vals.len() == n);
                    assert(st1.stack.len() >= n);
                    assert(st1.stack.subrange(st1.stack.len() - n, st1.stack.len() as int)
                        =~= vals);
                    assert(st1.stack.take(st1.stack.len() - n) =~= st.stack);
                    assert(step_model(st1) == StepModel::Next(
                        VmModel {
                            ip: st1.ip + 1,
                            stack: st.stack.push(ValueModel::Arr(vals)),
                            ..st
                        },
                    ));
                    lemma_advance_add(st, ca.len(), 1);
                    assert(ca.len() + 1 == c.len());
                },
            }
        },
        Expr::Convert(inner, tag) => {
            let (ci, p1) = compile_expr_spec(*inner, p);
            assert(p1 == p2);
            assert(st.program.code.subrange(st.ip, st.ip + ci.len() as int) =~= ci) by {
                assert(forall|j: int|
                    0 <= j < ci.len() ==> st.program.code.subrange(
                        st.ip,
                        st.ip + c.len() as int,
                    )[j] == #[trigger] c[j]);
            }
            lemma_expr_code_runs(*inner, p, st);
            match eval_expr(*inner, cur, glob) {
                Result::Err(err) => {
                    lemma_advance_add(st, ci.len(), 1);
                    assert(ci.len() + 1 == c.len());
                },
                Result::Ok(vi) => {
                    let st1 = VmModel { ip: st.ip + ci.len(), stack: st.stack.push(vi), ..st };
                    lemma_advance_one(st1);
                    assert(st.program.code[st1.ip] == c[c.len() - 1]);
                    assert(c[c.len() - 1] == Instruction::ConvertTo(tag));
                    assert(st1.stack.last() == vi);
                    assert(st1.stack.drop_last() =~= st.stack);
                    match convert_model(vi, tag) {
                        Result::Ok(w) => {
                            assert(step_model(st1) == StepModel::Next(
                                VmModel {
                                    ip: st1.ip + 1,
                                    stack: st.stack.push(w),
                                    ..st
                                },
                            ));
                        },
                        Result::Err(err) => {
                            assert(step_model(st1) == StepModel::Fault(
                                VmErrModel::Runtime(err),
                                st.output,
                            ));
                        },
                    }
                    lemma_advance_add(st, ci.len(), 1);
                    assert(ci.len() + 1 == c.len());
                },
            }
        },
    }
}

/// The code a call-free expression list lowers to pushes the values of
/// its expressions in order, or faults with the first error raised.
pub proof fn lemma_exprs_code_runs(es: Seq<Expr>, i: int, p: Seq<ValueModel>, st: VmModel)
    requires
        calls_free(es, i),
        0 <= i <= es.len(),
        st.frames.len() >= 1,
        0 <= st.ip,
        st.ip + compile_exprs_spec(es, i, p).0.len() <= st.program.code.len(),
        st.program.code.subrange(
            st.ip,
            st.ip + compile_exprs_spec(es, i, p).0.len() as int,
        ) == compile_exprs_spec(es, i, p).0,
        pool_extends(st.program.constants, compile_exprs_spec(es, i, p).1),
        st.program.constants.len() <= usize::MAX,
    ensures
        ({
            let (ca, p2) = compile_exprs_spec(es, i, p);
            let cur = st.frames.last().locals;
            let glob = st.frames[0].locals;
            match eval_list(es, i, cur, glob) {
                Result::Ok(vals) => advance(st, ca.len()) == StepModel::Next(
                    VmModel { ip: st.ip + ca.len(), stack: st.stack + vals, ..st },
                ),
                Result::Err(err) => advance(st, ca.len()) == StepModel::Fault(
                    VmErrModel::Runtime(err),
                    st.output,
                ),
            }
        }),
    decreases es, es.len() - i,
{
    let (ca, p2) = compile_exprs_spec(es, i, p);
    let cur = st.frames.last().locals;
    let glob = st.frames[0].locals;
    if i >= es.len() {
        assert(st.stack + Seq::<ValueModel>::empty() =~= st.stack);
    } else {
        let (c1, p1) = compile_expr_spec(es[i], p);
        let (c2, pn) = compile_exprs_spec(es, i + 1, p1);
        assert(pn == p2);
        assert(ca == c1 + c2);
        assert(st.program.code.subrange(st.ip, st.ip + c1.len() as int) =~= c1) by {
            assert(forall|j: int|
                0 <= j < ca.len() ==> st.program.code.subrange(
                    st.ip,
                    st.ip + ca.len() as int,
                )[j] == #[trigger] ca[j]);
        }
        crate::laws::lemma_exprs_pool_extends(es, i + 1, p1);
        assert(pool_extends(st.program.constants, p1)) by {
            assert(st.program.constants.take(p1.len() as int) =~= p2.take(p1.len() as int));
        }
        lemma_expr_code_runs(es[i], p, st);
        match eval_expr(es[i], cur, glob) {
            Result::Err(err) => {
                lemma_advance_add(st, c1.len(), c2.len());
            },
            Result::Ok(v) => {
                let st1 = VmModel { ip: st.ip + c1.len(), stack: st.stack.push(v), ..st };
                assert(st1.program.code.subrange(st1.ip, st1.ip + c2.len() as int) =~= c2) by {
                    assert(forall|j: int|
                        0 <= j < ca.len() ==> st.program.code.subrange(
                            st.ip,
                            st.ip + ca.len() as int,
                        )[j] == #[trigger] ca[j]);
                    assert(forall|j: int|
                        0 <= j < ca.len() ==> st.program.code[st.ip + j] == #[trigger] ca[j]);
                    assert(forall|j: int|
                        0 <= j < c2.len() ==> ca[c1.len() + j] == #[trigger] c2[j]) by {
                        assert(forall|j: int|
                            0 <= j < c2.len() ==> (c1 + c2)[c1.len() + j] == #[trigger] c2[j]);
                    }
                }
                lemma_exprs_code_runs(es, i + 1, p1, st1);
                lemma_advance_add(st, c1.len(), c2.len());
                match eval_list(es, i + 1, cur, glob) {
                    Result::Err(err) => {
                    },
                    Result::Ok(rest) => {
                        assert(st.stack.push(v) + rest =~= st.stack + (seq![v] + rest));
                    },
                }
            },
        }
    }
}


/// A loop whose condition evaluates falsy on first entry never
/// executes its body, whatever the body is: the program halts with
/// the nothing value and produces no output.
pub proof fn lemma_while_false_skips_body(cond: Expr, body: Vec<crate::ast::Stmt>, file: Seq<char>, fuel: u64)
    requires
        call_free(cond),
        (match eval_expr(cond, Seq::empty(), Seq::empty()) {
            Result::Ok(v) => !crate::value::truthy(v),
            Result::Err(_) => false,
        }),
        compile_unit_spec(
            seq![crate::ast::Stmt::While(cond, body)],
            Seq::empty(),
            file,
        ).code.len() <= usize::MAX,
        compile_unit_spec(
            seq![crate::ast::Stmt::While(cond, body)],
            Seq::empty(),
            file,
        ).constants.len() <= usize::MAX,
        fuel >= compile_expr_spec(cond, Seq::empty()).0.len() + 3,
    ensures
        ({
            let ast = seq![crate::ast::Stmt::While(cond, body)];
            let cm = compile_unit_spec(ast, Seq::empty(), file);
            run_model(crate::vm::init_model(cm, Seq::empty(), cm.children), fuel as nat)
                == RunModel::Done(ValueModel::Unit, Seq::empty())
        }),
{
    let ast = seq![crate::ast::Stmt::While(cond, body)];
    let cm = compile_unit_spec(ast, Seq::empty(), file);
    let (c1, p1s, ch1) = crate::compiler::compile_stmt_spec(
        ast[0],
        0,
        Seq::empty(),
        Seq::empty(),
        file,
    );
    let (c2, _, _) = crate::compiler::compile_stmts_spec(ast, 1, c1.len() as int, p1s, ch1, file);
    assert(c2 =~= Seq::<Instruction>::empty());
    assert(crate::compiler::compile_stmts_spec(ast, 0, 0, Seq::empty(), Seq::empty(), file).0
        =~= c1);
    let (cc, p1) = compile_expr_spec(cond, Seq::empty());
    let bodystart: int = cc.len() as int + 2;
    let (cb, p2, chb) = crate::compiler::compile_stmts_spec(
        body@,
        0,
        bodystart,
        p1,
        Seq::empty(),
        file,
    );
    let end: int = bodystart + cb.len() + 1;
    assert(cm.code =~= cc + seq![
        Instruction::Not,
        Instruction::JumpIfTrue(end as usize),
    ] + cb + seq![Instruction::Jump(0usize)]);
    assert(cm.code.len() == end);
    assert(end as usize as int == end);
    assert(cm.constants == p2);
    let st0 = crate::vm::init_model(cm, Seq::empty(), cm.children);
    assert(st0.program.code.subrange(0, cc.len() as int) =~= cc);
    crate::laws::lemma_stmts_pool_extends(body@, 0, bodystart, p1, Seq::empty(), file);
    assert(pool_extends(st0.program.constants, p1));
    assert(st0.frames.last().locals =~= Seq::<(Seq<char>, ValueModel)>::empty());
    assert(st0.frames[0].locals =~= Seq::<(Seq<char>, ValueModel)>::empty());
    lemma_expr_code_runs(cond, Seq::empty(), st0);
    let v = (match eval_expr(cond, Seq::empty(), Seq::empty()) {
        Result::Ok(v) => v,
        Result::Err(_) => ValueModel::Unit,
    });
    let st1 = VmModel { ip: cc.len() as int, stack: st0.stack.push(v), ..st0 };
    assert(advance(st0, cc.len()) == StepModel::Next(st1));
    lemma_advance_one(st1);
    assert(st0.program.code[st1.ip] == Instruction::Not);
    let st2 = VmModel { ip: st1.ip + 1, stack: seq![ValueModel::Bool(true)], ..st0 };
    assert(step_model(st1) == StepModel::Next(st2)) by {
        assert(st1.stack.last() == v);
        assert(!crate::value::truthy(v));
        assert(st1.stack.drop_last().push(ValueModel::Bool(true)) =~= seq![
            ValueModel::Bool(true),
        ]);
    }
    lemma_advance_one(st2);
    assert(st0.program.code[st2.ip] == Instruction::JumpIfTrue(end as usize));
    let st3 = VmModel { ip: end, stack: Seq::empty(), ..st0 };
    assert(step_model(st2) == StepModel::Next(st3)) by {
        assert(st2.stack.last() == ValueModel::Bool(true));
        assert(st2.stack.drop_last() =~= Seq::<ValueModel>::empty());
    }
    lemma_advance_one(st3);
    assert(step_model(st3) == StepModel::Done(ValueModel::Unit, st3.output)) by {
        assert(st3.ip >= st3.program.code.len());
        assert(st3.frames.len() == 1);
    }
    lemma_advance_add(st0, cc.len(), 3);
    lemma_advance_add(st1, 1, 2);
    lemma_advance_add(st2, 1, 1);
    assert(advance(st0, cc.len() + 3) == StepModel::Done(ValueModel::Unit, st0.output));
    lemma_advance_run(st0, cc.len() + 3, fuel as nat);
}


/// Compiling `return e;` for any call-free expression and running it
/// yields exactly the expression's value, or aborts with exactly the
/// expression's error, with no output either way.
pub proof fn lemma_return_evaluates(e: Expr, file: Seq<char>, fuel: u64)
    requires
        call_free(e),
        compile_unit_spec(
            seq![crate::ast::Stmt::Return(e)],
            Seq::empty(),
            file,
        ).constants.len() <= usize::MAX,
        fuel >= compile_expr_spec(e, Seq::empty()).0.len() + 1,
    ensures
        ({
            let ast = seq![crate::ast::Stmt::Return(e)];
            let cm = compile_unit_spec(ast, Seq::empty(), file);
            let r = run_model(crate::vm::init_model(cm, Seq::empty(), cm.children), fuel as nat);
            match eval_expr(e, Seq::empty(), Seq::empty()) {
                Result::Ok(v) => r == RunModel::Done(v, Seq::empty()),
                Result::Err(err) => r == RunModel::Fault(
                    VmErrModel::Runtime(err),
                    Seq::empty(),
                ),
            }
        }),
{
    let ast = seq![crate::ast::Stmt::Return(e)];
    let cm = compile_unit_spec(ast, Seq::empty(), file);
    let (c1, p1s, ch1) = crate::compiler::compile_stmt_spec(
        ast[0],
        0,
        Seq::empty(),
        Seq::empty(),
        file,
    );
    let (c2, _, _) = crate::compiler::compile_stmts_spec(ast, 1, c1.len() as int, p1s, ch1, file);
    assert(c2 =~= Seq::<Instruction>::empty());
    assert(crate::compiler::compile_stmts_spec(ast, 0, 0, Seq::empty(), Seq::empty(), file).0
        =~= c1);
    let (ce, pe) = compile_expr_spec(e, Seq::empty());
    assert(cm.code =~= ce + seq![Instruction::Return]);
    assert(cm.constants == pe);
    let st0 = crate::vm::init_model(cm, Seq::empty(), cm.children);
    assert(st0.program.code.subrange(0, ce.len() as int) =~= ce);
    assert(pool_extends(st0.program.constants, pe)) by {
        assert(pe.take(pe.len() as int) =~= pe);
    }
    assert(st0.frames.last().locals =~= Seq::<(Seq<char>, ValueModel)>::empty());
    assert(st0.frames[0].locals =~= Seq::<(Seq<char>, ValueModel)>::empty());
    lemma_expr_code_runs(e, Seq::empty(), st0);
    match eval_expr(e, Seq::empty(), Seq::empty()) {
        Result::Err(err) => {
            lemma_advance_run(st0, ce.len(), fuel as nat);
        },
        Result::Ok(v) => {
            let st1 = VmModel { ip: ce.len() as int, stack: st0.stack.push(v), ..st0 };
            assert(advance(st0, ce.len()) == StepModel::Next(st1));
            lemma_advance_one(st1);
            assert(st0.program.code[st1.ip] == Instruction::Return);
            assert(step_model(st1) == StepModel::Done(v, st1.output)) by {
                assert(st1.stack.last() == v);
                assert(st1.frames.len() == 1);
            }
            lemma_advance_add(st0, ce.len(), 1);
            lemma_advance_run(st0, ce.len() + 1, fuel as nat);
        },
    }
}

} // verus!
