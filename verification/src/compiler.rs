//! The compiler: lowers an abstract syntax tree into flat bytecode.
//!
//! Every executable entry point is proved to produce exactly the code,
//! constant pool and children table that the functional description
//! (`compile_expr_spec`, `compile_stmt_spec`, ...) yields. Structured
//! control flow is lowered by emitting placeholder jumps and rewriting
//! their targets once the join point's offset is known; the functional
//! description states the patched result directly.

use vstd::prelude::*;

use crate::ast::BinOp;
use crate::ast::Expr;
use crate::ast::IfArm;
use crate::ast::Param;
use crate::ast::Stmt;
use crate::ast::UnaryOp;
use crate::code::CodeModel;
use crate::code::CodeObject;
use crate::code::ParamModel;
use crate::code::child_insert;
use crate::code::params_model;
use crate::code::pool_add;
use crate::code::pool_idx;
use crate::instr::Instruction;
use crate::value::Value;
use crate::value::ValueModel;
use crate::value::value_model;

verus! {

broadcast use vstd::std_specs::vec::group_vec_axioms, vstd::seq::group_seq_axioms;

proof fn lemma_take_split<T>(s: Seq<T>, a: int, b: int)
    requires
        0 <= a,
        0 <= b,
        a + b <= s.len(),
    ensures
        s.take(a + b) == s.take(a) + s.skip(a).take(b),
{
    assert(s.take(a + b) =~= s.take(a) + s.skip(a).take(b));
}

proof fn lemma_skip_skip<T>(s: Seq<T>, a: int, b: int)
    requires
        0 <= a,
        0 <= b,
        a + b <= s.len(),
    ensures
        s.skip(a + b) == s.skip(a).skip(b),
{
    assert(s.skip(a + b) =~= s.skip(a).skip(b));
}

/// The opcode that evaluates a binary operator.
pub open spec fn op_instruction(op: BinOp) -> Instruction {
    match op {
        BinOp::Add => Instruction::Add,
        BinOp::Sub => Instruction::Sub,
        BinOp::Mul => Instruction::Mul,
        BinOp::Div => Instruction::Div,
        BinOp::Mod => Instruction::Mod,
        BinOp::Pow => Instruction::Pow,
        BinOp::ShiftLeft => Instruction::ShiftLeft,
        BinOp::ShiftRight => Instruction::ShiftRight,
        BinOp::Eq => Instruction::Eq,
        BinOp::Ne => Instruction::Ne,
        BinOp::Lt => Instruction::Lt,
        BinOp::Gt => Instruction::Gt,
        BinOp::Le => Instruction::Le,
        BinOp::Ge => Instruction::Ge,
    }
}

/// The opcode that evaluates a unary operator.
pub open spec fn unop_instruction(op: UnaryOp) -> Instruction {
    match op {
        UnaryOp::Typeof => Instruction::Typeof,
        UnaryOp::Negate => Instruction::Negate,
        UnaryOp::LogicalNot => Instruction::Not,
    }
}

/// Maps a binary operator to its opcode.
pub fn get_operator_opcode(op: BinOp) -> (r: Instruction)
    ensures
        r == op_instruction(op),
{
    match op {
        BinOp::Add => Instruction::Add,
        BinOp::Sub => Instruction::Sub,
        BinOp::Mul => Instruction::Mul,
        BinOp::Div => Instruction::Div,
        BinOp::Mod => Instruction::Mod,
        BinOp::Pow => Instruction::Pow,
        BinOp::ShiftLeft => Instruction::ShiftLeft,
        BinOp::ShiftRight => Instruction::ShiftRight,
        BinOp::Eq => Instruction::Eq,
        BinOp::Ne => Instruction::Ne,
        BinOp::Lt => Instruction::Lt,
        BinOp::Gt => Instruction::Gt,
        BinOp::Le => Instruction::Le,
        BinOp::Ge => Instruction::Ge,
    }
}

/// The id under which a name is registered in the fixed primitive
/// table, where it is. Calls of these names dispatch by id at run
/// time.
pub open spec fn prim_id(name: Seq<char>) -> Option<usize> {
    if name == "writeln"@ {
        Option::Some(0usize)
    } else if name == "exit"@ {
        Option::Some(1usize)
    } else {
        Option::None
    }
}

/// Resolves a name against the primitive table.
pub fn resolve_primitive(name: &String) -> (r: Option<usize>)
    ensures
        r == prim_id(name@),
{
    let w = String::from_str("writeln");
    if *name == w {
        return Option::Some(0);
    }
    let e = String::from_str("exit");
    if *name == e {
        return Option::Some(1);
    }
    Option::None
}

/// The builtin-value tag of a literal, for the literals that are
/// lowered without a pool entry: nothing, true and false.
pub open spec fn builtin_tag(m: ValueModel) -> Option<u8> {
    match m {
        ValueModel::Unit => Option::Some(0u8),
        ValueModel::Bool(b) => if b {
            Option::Some(1u8)
        } else {
            Option::Some(2u8)
        },
        _ => Option::None,
    }
}

/// The code a single expression lowers to against the given pool, and
/// the pool afterwards. Lowering an expression always pushes exactly
/// one value at run time.
pub open spec fn compile_expr_spec(e: Expr, pool: Seq<ValueModel>) -> (Seq<Instruction>, Seq<
    ValueModel,
>)
    decreases e, 0int,
{
    match e {
        Expr::Literal(v) => {
            let m = value_model(v);
            match builtin_tag(m) {
                Option::Some(t) => (seq![Instruction::LoadBuiltinValue(t)], pool),
                Option::None => (
                    seq![Instruction::LoadConst(pool_idx(pool, m) as usize)],
                    pool_add(pool, m),
                ),
            }
        },
        Expr::Identifier(name) => (
            seq![Instruction::LoadVariable(pool_idx(pool, ValueModel::Str(name@)) as usize)],
            pool_add(pool, ValueModel::Str(name@)),
        ),
        Expr::Unary(op, inner) => {
            let (c, p) = compile_expr_spec(*inner, pool);
            (c.push(unop_instruction(op)), p)
        },
        Expr::Binary(op, l, r) => {
            let (cl, p1) = compile_expr_spec(*l, pool);
            let (cr, p2) = compile_expr_spec(*r, p1);
            (cl + cr.push(op_instruction(op)), p2)
        },
        Expr::Call(name, args) => match prim_id(name@) {
            Option::Some(pid) => {
                let (ca, p1) = compile_exprs_spec(args@, 0, pool);
                (ca.push(Instruction::CallPrimitive(pid, args@.len() as usize)), p1)
            },
            Option::None => {
                let idx = pool_idx(pool, ValueModel::Str(name@));
                let p0 = pool_add(pool, ValueModel::Str(name@));
                let (ca, p1) = compile_exprs_spec(args@, 0, p0);
                (
                    ca.push(Instruction::CallFunction(idx as usize, args@.len() as usize)),
                    p1,
                )
            },
        },
        Expr::ArrayLit(elems) => {
            let (ca, p1) = compile_exprs_spec(elems@, 0, pool);
            (ca.push(Instruction::BuildArray(elems@.len() as usize)), p1)
        },
        Expr::Convert(inner, tag) => {
            let (c, p) = compile_expr_spec(*inner, pool);
            (c.push(Instruction::ConvertTo(tag)), p)
        },
    }
}

/// The code the expressions from position `i` on lower to, in order,
/// left to right, threading the pool through.
pub open spec fn compile_exprs_spec(es: Seq<Expr>, i: int, pool: Seq<ValueModel>) -> (Seq<
    Instruction,
>, Seq<ValueModel>)
    decreases es, es.len() - i,
{
    if i < 0 || i >= es.len() {
        (Seq::empty(), pool)
    } else {
        let (c1, p1) = compile_expr_spec(es[i], pool);
        let (c2, p2) = compile_exprs_spec(es, i + 1, p1);
        (c1 + c2, p2)
    }
}

/// Lowers one expression, appending its code and constants to `into`,
/// exactly as `compile_expr_spec` describes.
pub fn compile_expression(e: &Expr, into: &mut CodeObject)
    ensures
        ({
            let (c, p) = compile_expr_spec(*e, old(into)@.constants);
            final(into)@ == (CodeModel {
                code: old(into)@.code + c,
                constants: p,
                ..old(into)@
            })
        }),
    decreases *e, 1int,
{
    match e {
        Expr::Literal(v) => {
            match v {
                Value::Nothing => {
                    into.add_code(Instruction::LoadBuiltinValue(0));
                },
                Value::Bool(b) => {
                    if *b {
                        into.add_code(Instruction::LoadBuiltinValue(1));
                    } else {
                        into.add_code(Instruction::LoadBuiltinValue(2));
                    }
                },
                _ => {
                    let c = crate::value::clone_value(v);
                    let idx = into.add_constant(c);
                    into.add_code(Instruction::LoadConst(idx));
                },
            }
            assert(final(into)@.code =~= old(into)@.code + compile_expr_spec(
                *e,
                old(into)@.constants,
            ).0);
        },
        Expr::Identifier(name) => {
            let idx = into.add_constant(Value::Str(name.clone()));
            into.add_code(Instruction::LoadVariable(idx));
            assert(final(into)@.code =~= old(into)@.code + compile_expr_spec(
                *e,
                old(into)@.constants,
            ).0);
        },
        Expr::Unary(op, inner) => {
            compile_expression(inner, into);
            let ins = match op {
                UnaryOp::Typeof => Instruction::Typeof,
                UnaryOp::Negate => Instruction::Negate,
                UnaryOp::LogicalNot => Instruction::Not,
            };
            into.add_code(ins);
            assert(final(into)@.code =~= old(into)@.code + compile_expr_spec(
                *e,
                old(into)@.constants,
            ).0);
        },
        Expr::Binary(op, l, r) => {
            compile_expression(l, into);
            compile_expression(r, into);
            let ins = get_operator_opcode(*op);
            into.add_code(ins);
            assert(final(into)@.code =~= old(into)@.code + compile_expr_spec(
                *e,
                old(into)@.constants,
            ).0);
        },
        Expr::Call(name, args) => {
            match resolve_primitive(name) {
                Option::Some(pid) => {
                    compile_arguments(args, into);
                    into.add_code(Instruction::CallPrimitive(pid, args.len()));
                    assert(final(into)@.code =~= old(into)@.code + compile_expr_spec(
                        *e,
                        old(into)@.constants,
                    ).0);
                },
                Option::None => {
                    let idx = into.add_constant(Value::Str(name.clone()));
                    compile_arguments(args, into);
                    into.add_code(Instruction::CallFunction(idx, args.len()));
                    assert(final(into)@.code =~= old(into)@.code + compile_expr_spec(
                        *e,
                        old(into)@.constants,
                    ).0);
                },
            }
        },
        Expr::ArrayLit(elems) => {
            compile_arguments(elems, into);
            into.add_code(Instruction::BuildArray(elems.len()));
            assert(final(into)@.code =~= old(into)@.code + compile_expr_spec(
                *e,
                old(into)@.constants,
            ).0);
        },
        Expr::Convert(inner, tag) => {
            compile_expression(inner, into);
            into.add_code(Instruction::ConvertTo(*tag));
            assert(final(into)@.code =~= old(into)@.code + compile_expr_spec(
                *e,
                old(into)@.constants,
            ).0);
        },
    }
}

/// Lowers a list of expressions left to right, as `compile_exprs_spec`
/// describes.
fn compile_arguments(es: &Vec<Expr>, into: &mut CodeObject)
    ensures
        ({
            let (c, p) = compile_exprs_spec(es@, 0, old(into)@.constants);
            final(into)@ == (CodeModel {
                code: old(into)@.code + c,
                constants: p,
                ..old(into)@
            })
        }),
    decreases *es, 0int,
{
    let ghost total = compile_exprs_spec(es@, 0, into@.constants);
    let mut i: usize = 0;
    while i < es.len()
        invariant
            i <= es@.len(),
            total == compile_exprs_spec(es@, 0, old(into)@.constants),
            compile_exprs_spec(es@, i as int, into@.constants) == (
            total.0.skip(into@.code.len() - old(into)@.code.len()),
            total.1,
            ),
            into@.code.len() >= old(into)@.code.len(),
            into@.code.len() - old(into)@.code.len() <= total.0.len(),
            into@.code == old(into)@.code + total.0.take(
                into@.code.len() - old(into)@.code.len(),
            ),
            into@.parameters == old(into)@.parameters,
            into@.children == old(into)@.children,
            into@.file == old(into)@.file,
        decreases es@.len() - i,
    {
        let ghost pre = into@;
        let ghost k = into@.code.len() - old(into)@.code.len();
        compile_expression(&es[i], into);
        proof {
            let (c1, p1) = compile_expr_spec(es@[i as int], pre.constants);
            let (c2, p2) = compile_exprs_spec(es@, i + 1, p1);
            assert(total.0.skip(k) == c1 + c2);
            assert(total.0.skip(k).len() == total.0.len() - k);
            assert(k + c1.len() <= total.0.len());
            assert(c1 =~= total.0.skip(k).take(c1.len() as int));
            lemma_take_split(total.0, k, c1.len() as int);
            assert(total.0.take(k + c1.len()) =~= total.0.take(k) + c1);
            assert(into@.code =~= old(into)@.code + total.0.take(k + c1.len()));
            lemma_skip_skip(total.0, k, c1.len() as int);
            assert(total.0.skip(k + c1.len()) =~= c2);
        }
        i = i + 1;
    }
    proof {
        let k = into@.code.len() - old(into)@.code.len();
        assert(total.0.skip(k) =~= Seq::<Instruction>::empty());
        assert(total.0.skip(k).len() == total.0.len() - k);
        assert(total.0.len() == k);
        assert(total.0.take(k) =~= total.0);
        assert(final(into)@.code =~= old(into)@.code + total.0);
    }
}


/// The positions and targets of the end-of-chain jumps rewritten: the
/// instruction at each fixup position, taken relative to `base`,
/// becomes a jump to `end`.
pub open spec fn patch_ends(c: Seq<Instruction>, fixes: Seq<int>, base: int, end: int) -> Seq<
    Instruction,
>
    decreases fixes.len(),
{
    if fixes.len() == 0 {
        c
    } else {
        patch_ends(
            c.update(fixes[0] - base, Instruction::Jump(end as usize)),
            fixes.drop_first(),
            base,
            end,
        )
    }
}

proof fn lemma_patch_len(c: Seq<Instruction>, fixes: Seq<int>, base: int, end: int)
    requires
        forall|j: int| 0 <= j < fixes.len() ==> base <= #[trigger] fixes[j] < base + c.len(),
    ensures
        patch_ends(c, fixes, base, end).len() == c.len(),
    decreases fixes.len(),
{
    if fixes.len() > 0 {
        let c2 = c.update(fixes[0] - base, Instruction::Jump(end as usize));
        assert(c2.len() == c.len());
        assert(forall|j: int|
            0 <= j < fixes.drop_first().len() ==> base <= #[trigger] fixes.drop_first()[j]
                < base + c2.len()) by {
            assert(forall|j: int|
                0 <= j < fixes.len() - 1 ==> fixes.drop_first()[j] == #[trigger] fixes[j + 1]);
        }
        lemma_patch_len(c2, fixes.drop_first(), base, end);
    }
}

proof fn lemma_patch_snoc(c: Seq<Instruction>, fixes: Seq<int>, f: int, base: int, end: int)
    ensures
        patch_ends(c, fixes.push(f), base, end) == patch_ends(c, fixes, base, end).update(
            f - base,
            Instruction::Jump(end as usize),
        ),
    decreases fixes.len(),
{
    if fixes.len() == 0 {
        let c2 = c.update(f - base, Instruction::Jump(end as usize));
        assert(fixes.push(f).drop_first() =~= Seq::<int>::empty());
        assert(fixes.push(f)[0] == f);
        assert(patch_ends(c2, Seq::<int>::empty(), base, end) == c2);
        assert(patch_ends(c, Seq::<int>::empty(), base, end) == c);
        assert(patch_ends(c, fixes.push(f), base, end) == c2);
    } else {
        assert(fixes.push(f).drop_first() =~= fixes.drop_first().push(f));
        assert(fixes.push(f)[0] == fixes[0]);
        lemma_patch_snoc(
            c.update(fixes[0] - base, Instruction::Jump(end as usize)),
            fixes.drop_first(),
            f,
            base,
            end,
        );
    }
}

proof fn lemma_update_concat<T>(a: Seq<T>, b: Seq<T>, p: int, v: T)
    requires
        a.len() <= p < a.len() + b.len(),
    ensures
        (a + b).update(p, v) == a + b.update(p - a.len(), v),
{
    assert((a + b).update(p, v) =~= a + b.update(p - a.len(), v));
}

/// The code one statement lowers to at absolute offset `at`, with the
/// pool and the children table afterwards. `file` is the enclosing
/// unit's source tag, which compiled children inherit.
pub open spec fn compile_stmt_spec(
    s: Stmt,
    at: int,
    pool: Seq<ValueModel>,
    children: Seq<(Seq<char>, CodeModel)>,
    file: Seq<char>,
) -> (Seq<Instruction>, Seq<ValueModel>, Seq<(Seq<char>, CodeModel)>)
    decreases s, 0int,
{
    match s {
        Stmt::Expression(e) => {
            let (c, p) = compile_expr_spec(e, pool);
            (c, p, children)
        },
        Stmt::Let(name, e) => {
            let (c, p1) = compile_expr_spec(e, pool);
            let idx = pool_idx(p1, ValueModel::Str(name@));
            (
                c.push(Instruction::AssignVariable(idx as usize)),
                pool_add(p1, ValueModel::Str(name@)),
                children,
            )
        },
        Stmt::Assign(name, e) => {
            let (c, p1) = compile_expr_spec(e, pool);
            let idx = pool_idx(p1, ValueModel::Str(name@));
            (
                c.push(Instruction::AssignVariable(idx as usize)),
                pool_add(p1, ValueModel::Str(name@)),
                children,
            )
        },
        Stmt::Return(e) => {
            let (c, p) = compile_expr_spec(e, pool);
            (c.push(Instruction::Return), p, children)
        },
        Stmt::ReturnNone => (seq![Instruction::ReturnNone], pool, children),
        Stmt::If { arms, else_body } => {
            let (ac, p1, ch1, fixes) = compile_if_arms_spec(arms@, 0, at, pool, children, file);
            let (ec, p2, ch2) = compile_stmts_spec(
                else_body@,
                0,
                at + ac.len(),
                p1,
                ch1,
                file,
            );
            let end = at + ac.len() + ec.len();
            (patch_ends(ac + ec, fixes, at, end), p2, ch2)
        },
        Stmt::While(cond, body) => {
            let (cc, p1) = compile_expr_spec(cond, pool);
            let bodystart = at + cc.len() + 2;
            let (cb, p2, ch2) = compile_stmts_spec(body@, 0, bodystart, p1, children, file);
            let end = bodystart + cb.len() + 1;
            (
                cc + seq![Instruction::Not, Instruction::JumpIfTrue(end as usize)] + cb + seq![
                    Instruction::Jump(at as usize),
                ],
                p2,
                ch2,
            )
        },
        Stmt::FnDecl { name, params, body } => (
            Seq::empty(),
            pool,
            child_insert(
                children,
                name@,
                compile_unit_spec(body@, params_model(params@), file),
            ),
        ),
    }
}

/// The code the statements from position `i` on lower to, in order,
/// each at the offset the previous ones end at.
pub open spec fn compile_stmts_spec(
    ss: Seq<Stmt>,
    i: int,
    at: int,
    pool: Seq<ValueModel>,
    children: Seq<(Seq<char>, CodeModel)>,
    file: Seq<char>,
) -> (Seq<Instruction>, Seq<ValueModel>, Seq<(Seq<char>, CodeModel)>)
    decreases ss, ss.len() - i,
{
    if i < 0 || i >= ss.len() {
        (Seq::empty(), pool, children)
    } else {
        let (c1, p1, ch1) = compile_stmt_spec(ss[i], at, pool, children, file);
        let (c2, p2, ch2) = compile_stmts_spec(ss, i + 1, at + c1.len(), p1, ch1, file);
        (c1 + c2, p2, ch2)
    }
}

/// The code the guarded arms from position `i` on lower to: for each
/// arm its condition, the negation, a jump to the next candidate when
/// the negated condition is true, the body, and a placeholder jump to
/// the join point. The join-point positions come back as fixups, to be
/// rewritten once the join point is known.
pub open spec fn compile_if_arms_spec(
    arms: Seq<IfArm>,
    i: int,
    at: int,
    pool: Seq<ValueModel>,
    children: Seq<(Seq<char>, CodeModel)>,
    file: Seq<char>,
) -> (Seq<Instruction>, Seq<ValueModel>, Seq<(Seq<char>, CodeModel)>, Seq<int>)
    decreases arms, arms.len() - i,
{
    if i < 0 || i >= arms.len() {
        (Seq::empty(), pool, children, Seq::empty())
    } else {
        let (cc, p1) = compile_expr_spec(arms[i].cond, pool);
        let bodystart = at + cc.len() + 2;
        let (cb, p2, ch1) = compile_stmts_spec(arms[i].body@, 0, bodystart, p1, children, file);
        let next = bodystart + cb.len() + 1;
        let armcode = cc + seq![
            Instruction::Not,
            Instruction::JumpIfTrue(next as usize),
        ] + cb + seq![Instruction::Jump(0usize)];
        let (rest, p3, ch2, fixes) = compile_if_arms_spec(arms, i + 1, next, p2, ch1, file);
        (armcode + rest, p3, ch2, seq![bodystart + cb.len()] + fixes)
    }
}

/// A guarded chain records exactly one join-point fixup per remaining
/// arm.
proof fn lemma_if_arms_count(
    arms: Seq<IfArm>,
    i: int,
    at: int,
    pool: Seq<ValueModel>,
    children: Seq<(Seq<char>, CodeModel)>,
    file: Seq<char>,
)
    requires
        0 <= i <= arms.len(),
    ensures
        compile_if_arms_spec(arms, i, at, pool, children, file).3.len() == arms.len() - i,
    decreases arms.len() - i,
{
    if i < arms.len() {
        let (cc, p1) = compile_expr_spec(arms[i].cond, pool);
        let bodystart = at + cc.len() + 2;
        let (cb, p2, ch1) = compile_stmts_spec(arms[i].body@, 0, bodystart, p1, children, file);
        let next = bodystart + cb.len() + 1;
        lemma_if_arms_count(arms, i + 1, next, p2, ch1, file);
    }
}

/// The unit a function body compiles into from scratch: its code,
/// constants and children built starting from nothing, with the given
/// parameters and source tag.
pub open spec fn compile_unit_spec(
    body: Seq<Stmt>,
    params: Seq<ParamModel>,
    file: Seq<char>,
) -> CodeModel
    decreases body, body.len() + 1,
{
    let (c, p, ch) = compile_stmts_spec(body, 0, 0, Seq::empty(), Seq::empty(), file);
    CodeModel { code: c, constants: p, parameters: params, children: ch, file }
}


/// Clones a parameter list; the clone equals the original.
fn clone_params(ps: &Vec<Param>) -> (r: Vec<Param>)
    ensures
        r@ == ps@,
{
    let mut out: Vec<Param> = Vec::new();
    let mut i: usize = 0;
    while i < ps.len()
        invariant
            i <= ps@.len(),
            out@ == ps@.take(i as int),
        decreases ps@.len() - i,
    {
        let p = Param { name: ps[i].name.clone(), mutable: ps[i].mutable };
        assert(p == ps@[i as int]);
        out.push(p);
        assert(out@ =~= ps@.take(i + 1));
        i = i + 1;
    }
    assert(ps@.take(ps@.len() as int) =~= ps@);
    out
}

/// Lowers an assignment or declaration: the value's code, then one
/// instruction binding the interned name.
fn compile_assign(name: &String, e: &Expr, into: &mut CodeObject)
    ensures
        ({
            let (c, p1) = compile_expr_spec(*e, old(into)@.constants);
            let idx = pool_idx(p1, ValueModel::Str(name@));
            final(into)@ == (CodeModel {
                code: old(into)@.code + c.push(Instruction::AssignVariable(idx as usize)),
                constants: pool_add(p1, ValueModel::Str(name@)),
                ..old(into)@
            })
        }),
    decreases *e, 2int,
{
    compile_expression(e, into);
    let idx = into.add_constant(Value::Str(name.clone()));
    into.add_code(Instruction::AssignVariable(idx));
    proof {
        let (c, p1) = compile_expr_spec(*e, old(into)@.constants);
        assert(final(into)@.code =~= old(into)@.code + c.push(
            Instruction::AssignVariable(idx as usize),
        ));
    }
}

/// Lowers one statement at the current end of `into`, exactly as
/// `compile_stmt_spec` describes.
pub fn compile_statement(s: &Stmt, into: &mut CodeObject)
    ensures
        ({
            let (c, p, ch) = compile_stmt_spec(
                *s,
                old(into)@.code.len() as int,
                old(into)@.constants,
                old(into)@.children,
                old(into)@.file,
            );
            final(into)@ == (CodeModel {
                code: old(into)@.code + c,
                constants: p,
                children: ch,
                ..old(into)@
            })
        }),
    decreases *s, 3int,
{
    match s {
        Stmt::Expression(e) => {
            compile_expression(e, into);
        },
        Stmt::Let(name, e) => {
            compile_assign(name, e, into);
        },
        Stmt::Assign(name, e) => {
            compile_assign(name, e, into);
        },
        Stmt::Return(e) => {
            compile_expression(e, into);
            into.add_code(Instruction::Return);
            proof {
                let (c, p) = compile_expr_spec(*e, old(into)@.constants);
                assert(final(into)@.code =~= old(into)@.code + c.push(Instruction::Return));
            }
        },
        Stmt::ReturnNone => {
            into.add_code(Instruction::ReturnNone);
            proof {
                assert(final(into)@.code =~= old(into)@.code + seq![Instruction::ReturnNone]);
            }
        },
        Stmt::While(cond, body) => {
            let start = into.code.len();
            compile_expression(cond, into);
            into.add_code(Instruction::Not);
            let jmp_pos = into.code.len();
            into.add_code(Instruction::JumpIfTrue(0));
            let ghost mid = into@;
            compile(body, into);
            into.add_code(Instruction::Jump(start));
            let end = into.code.len();
            into.code.set(jmp_pos, Instruction::JumpIfTrue(end));
            proof {
                let at = old(into)@.code.len() as int;
                let (cc, p1) = compile_expr_spec(*cond, old(into)@.constants);
                let bodystart = at + cc.len() + 2;
                let (cb, p2, ch2) = compile_stmts_spec(
                    body@,
                    0,
                    bodystart,
                    p1,
                    old(into)@.children,
                    old(into)@.file,
                );
                assert(mid.code.len() == bodystart);
                assert(mid.constants == p1);
                assert(final(into)@.code =~= old(into)@.code + (cc + seq![
                    Instruction::Not,
                    Instruction::JumpIfTrue((bodystart + cb.len() + 1) as usize),
                ] + cb + seq![Instruction::Jump(at as usize)]));
                assert(final(into)@.constants == p2);
                assert(final(into)@.children == ch2);
            }
        },
        Stmt::If { arms, else_body } => {
            let base_len = into.code.len();
            let ghost at0 = into@.code.len() as int;
            let ghost pool0 = into@.constants;
            let ghost ch0 = into@.children;
            let ghost file = into@.file;
            let ghost total = compile_if_arms_spec(arms@, 0, at0, pool0, ch0, file);
            proof {
                lemma_if_arms_count(arms@, 0, at0, pool0, ch0, file);
            }
            let mut fixups: Vec<usize> = Vec::new();
            let mut i: usize = 0;
            while i < arms.len()
                invariant
                    (match *s {
                        Stmt::If { arms: a, else_body: eb } => a == *arms && eb == *else_body,
                        _ => false,
                    }),
                    i <= arms@.len(),
                    at0 == base_len as int,
                    base_len == old(into)@.code.len(),
                    pool0 == old(into)@.constants,
                    ch0 == old(into)@.children,
                    file == old(into)@.file,
                    total == compile_if_arms_spec(arms@, 0, at0, pool0, ch0, file),
                    into@.code.len() >= base_len,
                    into@.code.len() - base_len <= total.0.len(),
                    into@.code == old(into)@.code + total.0.take(
                        into@.code.len() - base_len,
                    ),
                    compile_if_arms_spec(
                        arms@,
                        i as int,
                        into@.code.len() as int,
                        into@.constants,
                        into@.children,
                        file,
                    ) == (
                    total.0.skip(into@.code.len() - base_len),
                    total.1,
                    total.2,
                    total.3.skip(i as int),
                    ),
                    into@.parameters == old(into)@.parameters,
                    into@.file == old(into)@.file,
                    fixups@.len() == i,
                    total.3.len() == arms@.len(),
                    forall|j: int|
                        0 <= j < i ==> (#[trigger] total.3[j]) == fixups@[j] as int && at0
                            <= total.3[j] < into@.code.len(),
                decreases arms@.len() - i,
            {
                let ghost pre = into@;
                let ghost k = into@.code.len() - base_len;
                compile_expression(&arms[i].cond, into);
                into.add_code(Instruction::Not);
                let jmp_pos = into.code.len();
                into.add_code(Instruction::JumpIfTrue(0));
                let ghost mid = into@;
                compile(&arms[i].body, into);
                let fix_pos = into.code.len();
                into.add_code(Instruction::Jump(0));
                let next = into.code.len();
                into.code.set(jmp_pos, Instruction::JumpIfTrue(next));
                fixups.push(fix_pos);
                proof {
                    let (cc, p1) = compile_expr_spec(arms@[i as int].cond, pre.constants);
                    let bodystart: int = pre.code.len() as int + cc.len() as int + 2;
                    let (cb, p2, ch1) = compile_stmts_spec(
                        arms@[i as int].body@,
                        0,
                        bodystart,
                        p1,
                        pre.children,
                        file,
                    );
                    let armcode = cc + seq![
                        Instruction::Not,
                        Instruction::JumpIfTrue((bodystart + cb.len() + 1) as usize),
                    ] + cb + seq![Instruction::Jump(0usize)];
                    assert(mid.code.len() == bodystart);
                    assert(mid.constants == p1);
                    assert(next == bodystart + cb.len() + 1);
                    assert(fix_pos == bodystart + cb.len());
                    assert(into@.code =~= pre.code + armcode);
                    assert(total.0.skip(k) == armcode + total.0.skip(
                        into@.code.len() - base_len,
                    ));
                    assert(total.0.skip(k).len() == total.0.len() - k);
                    assert(k + armcode.len() <= total.0.len());
                    assert(armcode =~= total.0.skip(k).take(armcode.len() as int));
                    lemma_take_split(total.0, k, armcode.len() as int);
                    assert(total.0.take(k + armcode.len()) =~= total.0.take(k) + armcode);
                    assert(into@.code =~= old(into)@.code + total.0.take(
                        k + armcode.len(),
                    ));
                    lemma_skip_skip(total.0, k, armcode.len() as int);
                    let rest = compile_if_arms_spec(arms@, i + 1, next as int, p2, ch1, file);
                    lemma_if_arms_count(arms@, i + 1, next as int, p2, ch1, file);
                    assert(total.3.skip(i as int) == seq![fix_pos as int] + rest.3);
                    assert(total.3.skip(i as int)[0] == total.3[i as int]);
                    assert(total.3[i as int] == fix_pos as int);
                    assert(total.3.skip(i + 1) =~= total.3.skip(i as int).drop_first());
                    assert(total.3.skip(i + 1) =~= rest.3);
                }
                i = i + 1;
            }
            proof {
                let k = into@.code.len() - base_len;
                assert(total.0.skip(k) =~= Seq::<Instruction>::empty());
                assert(total.0.skip(k).len() == total.0.len() - k);
                assert(total.0.take(k) =~= total.0);
                assert(total.3.len() == i);
            }
            let ghost before_else = into@;
            compile(else_body, into);
            let end = into.code.len();
            let ghost ec = compile_stmts_spec(
                else_body@,
                0,
                before_else.code.len() as int,
                before_else.constants,
                before_else.children,
                file,
            ).0;
            let ghost full = total.0 + ec;
            proof {
                assert(into@.code =~= old(into)@.code + full);
                assert(end as int == at0 + full.len());
            }
            let mut j: usize = 0;
            while j < fixups.len()
                invariant
                    j <= fixups@.len(),
                    fixups@.len() == total.3.len(),
                    at0 == base_len as int,
                    base_len == old(into)@.code.len(),
                    end as int == at0 + full.len(),
                    forall|j2: int|
                        0 <= j2 < total.3.len() ==> (#[trigger] total.3[j2]) == fixups@[j2] as int
                            && at0 <= total.3[j2] < at0 + full.len(),
                    into@.code == old(into)@.code + patch_ends(
                        full,
                        total.3.take(j as int),
                        at0,
                        end as int,
                    ),
                    into@.parameters == old(into)@.parameters,
                    into@.file == old(into)@.file,
                    ({
                        let (c_, p_, ch_) = compile_stmt_spec(
                            *s,
                            at0,
                            old(into)@.constants,
                            old(into)@.children,
                            old(into)@.file,
                        );
                        into@.constants == p_ && into@.children == ch_ && c_ == patch_ends(
                            full,
                            total.3,
                            at0,
                            end as int,
                        )
                    }),
                decreases fixups@.len() - j,
            {
                let ghost prepatch = patch_ends(full, total.3.take(j as int), at0, end as int);
                proof {
                    assert(forall|j2: int|
                        0 <= j2 < total.3.take(j as int).len() ==> at0 <= #[trigger] total.3.take(
                            j as int,
                        )[j2] < at0 + full.len());
                    lemma_patch_len(full, total.3.take(j as int), at0, end as int);
                    assert((total.3[j as int]) == fixups@[j as int] as int);
                    assert(at0 <= total.3[j as int] < at0 + full.len());
                }
                let pos = fixups[j];
                into.code.set(pos, Instruction::Jump(end));
                proof {
                    lemma_update_concat(
                        old(into)@.code,
                        prepatch,
                        pos as int,
                        Instruction::Jump(end as usize),
                    );
                    lemma_patch_snoc(full, total.3.take(j as int), total.3[j as int], at0, end as int);
                    assert(total.3.take(j + 1) =~= total.3.take(j as int).push(
                        total.3[j as int],
                    ));
                    assert(prepatch.update(pos - at0, Instruction::Jump(end as usize))
                        == patch_ends(full, total.3.take(j + 1), at0, end as int));
                }
                j = j + 1;
            }
            proof {
                assert(total.3.take(total.3.len() as int) =~= total.3);
            }
        },
        Stmt::FnDecl { name, params, body } => {
            let ps = clone_params(params);
            let tag = into.file.clone();
            let mut child = CodeObject::new(ps, tag);
            compile(body, &mut child);
            proof {
                let (c, p, ch) = compile_stmts_spec(
                    body@,
                    0,
                    0,
                    Seq::empty(),
                    Seq::empty(),
                    old(into)@.file,
                );
                assert(Seq::<Instruction>::empty() + c =~= c);
                assert(child@ == compile_unit_spec(
                    body@,
                    params_model(params@),
                    old(into)@.file,
                ));
            }
            into.add_child(name.clone(), child);
            proof {
                assert(final(into)@.code =~= old(into)@.code + Seq::<Instruction>::empty());
            }
        },
    }
}

/// Lowers a whole statement list in order, exactly as
/// `compile_stmts_spec` describes: this is the compiler's entry point
/// for a body that extends an existing unit.
pub fn compile(ast: &Vec<Stmt>, into: &mut CodeObject)
    ensures
        ({
            let (c, p, ch) = compile_stmts_spec(
                ast@,
                0,
                old(into)@.code.len() as int,
                old(into)@.constants,
                old(into)@.children,
                old(into)@.file,
            );
            final(into)@ == (CodeModel {
                code: old(into)@.code + c,
                constants: p,
                children: ch,
                ..old(into)@
            })
        }),
    decreases *ast, 0int,
{
    let ghost file = into@.file;
    let ghost total = compile_stmts_spec(
        ast@,
        0,
        into@.code.len() as int,
        into@.constants,
        into@.children,
        file,
    );
    let mut i: usize = 0;
    while i < ast.len()
        invariant
            i <= ast@.len(),
            file == old(into)@.file,
            total == compile_stmts_spec(
                ast@,
                0,
                old(into)@.code.len() as int,
                old(into)@.constants,
                old(into)@.children,
                file,
            ),
            into@.code.len() >= old(into)@.code.len(),
            into@.code.len() - old(into)@.code.len() <= total.0.len(),
            into@.code == old(into)@.code + total.0.take(
                into@.code.len() - old(into)@.code.len(),
            ),
            compile_stmts_spec(
                ast@,
                i as int,
                into@.code.len() as int,
                into@.constants,
                into@.children,
                file,
            ) == (
            total.0.skip(into@.code.len() - old(into)@.code.len()),
            total.1,
            total.2,
            ),
            into@.parameters == old(into)@.parameters,
            into@.file == old(into)@.file,
        decreases ast@.len() - i,
    {
        let ghost pre = into@;
        let ghost k = into@.code.len() - old(into)@.code.len();
        compile_statement(&ast[i], into);
        proof {
            let (c1, p1, ch1) = compile_stmt_spec(
                ast@[i as int],
                pre.code.len() as int,
                pre.constants,
                pre.children,
                file,
            );
            assert(total.0.skip(k) == c1 + compile_stmts_spec(
                ast@,
                i + 1,
                pre.code.len() + c1.len() as int,
                p1,
                ch1,
                file,
            ).0);
            assert(total.0.skip(k).len() == total.0.len() - k);
            assert(k + c1.len() <= total.0.len());
            assert(c1 =~= total.0.skip(k).take(c1.len() as int));
            lemma_take_split(total.0, k, c1.len() as int);
            assert(total.0.take(k + c1.len()) =~= total.0.take(k) + c1);
            assert(into@.code =~= old(into)@.code + total.0.take(k + c1.len()));
            lemma_skip_skip(total.0, k, c1.len() as int);
        }
        i = i + 1;
    }
    proof {
        let k = into@.code.len() - old(into)@.code.len();
        assert(total.0.skip(k) =~= Seq::<Instruction>::empty());
        assert(total.0.skip(k).len() == total.0.len() - k);
        assert(total.0.take(k) =~= total.0);
        assert(final(into)@.code =~= old(into)@.code + total.0);
    }
}

/// Compiles a whole program body into a fresh unit with the given
/// parameters and source tag. The result is a function of the tree
/// alone: compiling the same tree twice yields identical units.
pub fn compile_program(ast: &Vec<Stmt>, parameters: Vec<Param>, file: String) -> (r: CodeObject)
    ensures
        r@ == compile_unit_spec(ast@, params_model(parameters@), file@),
{
    let mut unit = CodeObject::new(parameters, file);
    compile(ast, &mut unit);
    proof {
        let (c, p, ch) = compile_stmts_spec(ast@, 0, 0, Seq::empty(), Seq::empty(), unit@.file);
        assert(Seq::<Instruction>::empty() + c =~= c);
    }
    unit
}

} // verus!
