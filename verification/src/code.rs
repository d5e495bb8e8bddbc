//! The compiled program unit: an ordered constant pool, an instruction
//! sequence, the formal parameter list, and a table of nested named
//! sub-programs. A unit is built once by the compiler and immutable
//! thereafter.

use vstd::prelude::*;

use crate::ast::Param;
use crate::instr::Instruction;
use crate::value::Value;
use crate::value::ValueModel;
use crate::value::value_model;
use crate::value::value_eq;

verus! {

broadcast use vstd::std_specs::vec::group_vec_axioms, vstd::seq::group_seq_axioms;

/// A named nested program unit.
#[derive(Debug, PartialEq)]
pub struct FnEntry {
    pub name: String,
    pub code: CodeObject,
}

/// A compiled program unit.
#[derive(Debug, PartialEq)]
pub struct CodeObject {
    /// The instruction sequence.
    pub code: Vec<Instruction>,
    /// The constant pool, deduplicated by structural equality.
    pub constants: Vec<Value>,
    /// The formal parameters, in declaration order.
    pub parameters: Vec<Param>,
    /// The nested function definitions, resolved by name at call time.
    pub children: Vec<FnEntry>,
    /// The source tag carried into diagnostics.
    pub file: String,
}

/// The model of a formal parameter.
pub struct ParamModel {
    pub name: Seq<char>,
    pub mutable: bool,
}

/// The model of a program unit.
pub struct CodeModel {
    pub code: Seq<Instruction>,
    pub constants: Seq<ValueModel>,
    pub parameters: Seq<ParamModel>,
    pub children: Seq<(Seq<char>, CodeModel)>,
    pub file: Seq<char>,
}

/// The models of the constants of `s` from position `i` on.
pub open spec fn pool_from(s: Seq<Value>, i: int) -> Seq<ValueModel>
    decreases s.len() - i,
{
    if i < 0 || i >= s.len() {
        Seq::empty()
    } else {
        seq![value_model(s[i])] + pool_from(s, i + 1)
    }
}

/// The models of a constant pool.
pub open spec fn pool_model(s: Seq<Value>) -> Seq<ValueModel> {
    pool_from(s, 0)
}

proof fn lemma_pool_from(s: Seq<Value>, i: int)
    requires
        0 <= i <= s.len(),
    ensures
        pool_from(s, i).len() == s.len() - i,
        forall|j: int| i <= j < s.len() ==> pool_from(s, i)[j - i] == value_model(s[j]),
    decreases s.len() - i,
{
    if i < s.len() {
        lemma_pool_from(s, i + 1);
    }
}

/// A pool's model has one element per constant, the model of that
/// constant.
pub broadcast proof fn lemma_pool_model(s: Seq<Value>)
    ensures
        (#[trigger] pool_model(s)).len() == s.len(),
        forall|j: int| 0 <= j < s.len() ==> pool_model(s)[j] == value_model(s[j]),
{
    lemma_pool_from(s, 0);
}

/// The models of the parameters of a unit.
pub open spec fn params_model(s: Seq<Param>) -> Seq<ParamModel> {
    Seq::new(s.len(), |i: int| ParamModel { name: s[i].name@, mutable: s[i].mutable })
}

/// The models of the children of `s` from position `i` on.
pub open spec fn children_from(s: Seq<FnEntry>, i: int) -> Seq<(Seq<char>, CodeModel)>
    decreases s, s.len() - i,
{
    if i < 0 || i >= s.len() {
        Seq::empty()
    } else {
        seq![(s[i].name@, code_model(s[i].code))] + children_from(s, i + 1)
    }
}

/// The model of a program unit.
pub open spec fn code_model(c: CodeObject) -> CodeModel
    decreases c, 0int,
{
    CodeModel {
        code: c.code@,
        constants: pool_model(c.constants@),
        parameters: params_model(c.parameters@),
        children: children_from(c.children@, 0),
        file: c.file@,
    }
}

/// The model of a children table.
pub open spec fn children_model(s: Seq<FnEntry>) -> Seq<(Seq<char>, CodeModel)> {
    children_from(s, 0)
}

proof fn lemma_children_from(s: Seq<FnEntry>, i: int)
    requires
        0 <= i <= s.len(),
    ensures
        children_from(s, i).len() == s.len() - i,
        forall|j: int|
            i <= j < s.len() ==> children_from(s, i)[j - i] == (
            s[j].name@,
            code_model(s[j].code),
            ),
    decreases s.len() - i,
{
    if i < s.len() {
        lemma_children_from(s, i + 1);
    }
}

/// A children table's model has one entry per child, the child's name
/// and model.
pub broadcast proof fn lemma_children_model(s: Seq<FnEntry>)
    ensures
        (#[trigger] children_model(s)).len() == s.len(),
        forall|j: int|
            0 <= j < s.len() ==> children_model(s)[j] == (
            s[j].name@,
            code_model(s[j].code),
            ),
{
    lemma_children_from(s, 0);
}

impl View for CodeObject {
    type V = CodeModel;

    open spec fn view(&self) -> CodeModel {
        code_model(*self)
    }
}

/// The first position of `m` in the pool from position `i` on, or the
/// pool's length when it does not occur.
pub open spec fn pool_idx_from(pool: Seq<ValueModel>, m: ValueModel, i: int) -> int
    decreases pool.len() - i,
{
    if i < 0 || i >= pool.len() {
        pool.len() as int
    } else if pool[i] == m {
        i
    } else {
        pool_idx_from(pool, m, i + 1)
    }
}

/// The index `add_constant` yields for `m` against the given pool: the
/// first equal constant's position, or the position one past the end
/// where it is appended.
pub open spec fn pool_idx(pool: Seq<ValueModel>, m: ValueModel) -> int {
    pool_idx_from(pool, m, 0)
}

/// The pool after interning `m`: unchanged when an equal constant is
/// already present, extended by `m` otherwise.
pub open spec fn pool_add(pool: Seq<ValueModel>, m: ValueModel) -> Seq<ValueModel> {
    if pool_idx(pool, m) < pool.len() {
        pool
    } else {
        pool.push(m)
    }
}

/// The first position of name `n` in a children table from `i` on, or
/// the table's length when absent.
pub open spec fn child_idx_from(cs: Seq<(Seq<char>, CodeModel)>, n: Seq<char>, i: int) -> int
    decreases cs.len() - i,
{
    if i < 0 || i >= cs.len() {
        cs.len() as int
    } else if cs[i].0 == n {
        i
    } else {
        child_idx_from(cs, n, i + 1)
    }
}

/// What looking a name up in a children table yields: the model of the
/// first entry with that name.
pub open spec fn child_lookup(cs: Seq<(Seq<char>, CodeModel)>, n: Seq<char>) -> Option<CodeModel> {
    let i = child_idx_from(cs, n, 0);
    if i < cs.len() {
        Option::Some(cs[i].1)
    } else {
        Option::None
    }
}

/// The children table after registering `m` under `n`: the first entry
/// of that name is replaced, or a new entry is appended.
pub open spec fn child_insert(
    cs: Seq<(Seq<char>, CodeModel)>,
    n: Seq<char>,
    m: CodeModel,
) -> Seq<(Seq<char>, CodeModel)> {
    let i = child_idx_from(cs, n, 0);
    if i < cs.len() {
        cs.update(i, (n, m))
    } else {
        cs.push((n, m))
    }
}

impl CodeObject {
    /// A fresh, empty unit for the given parameters and source tag.
    pub fn new(parameters: Vec<Param>, file: String) -> (r: CodeObject)
        ensures
            r@ == (CodeModel {
                code: Seq::<Instruction>::empty(),
                constants: Seq::<ValueModel>::empty(),
                parameters: params_model(parameters@),
                children: Seq::<(Seq<char>, CodeModel)>::empty(),
                file: file@,
            }),
    {
        let r = CodeObject {
            code: Vec::new(),
            constants: Vec::new(),
            parameters,
            children: Vec::new(),
            file,
        };
        proof {
            assert(r@.code =~= Seq::<Instruction>::empty());
            assert(r@.constants =~= Seq::<ValueModel>::empty());
            assert(r@.children =~= Seq::<(Seq<char>, CodeModel)>::empty());
        }
        r
    }

    /// Appends one instruction.
    pub fn add_code(&mut self, ins: Instruction)
        ensures
            final(self)@ == (CodeModel { code: old(self)@.code.push(ins), ..old(self)@ }),
    {
        proof {
            broadcast use lemma_pool_model, lemma_children_model;

        }
        self.code.push(ins);
        proof {
            assert(children_from(self.children@, 0) =~= children_from(
                old(self).children@,
                0,
            ));
            assert(final(self)@.code =~= old(self)@.code.push(ins));
        }
    }

    /// Interns a constant: yields the position of the first equal
    /// constant already in the pool, else appends the value and yields
    /// its new position. Deduplication makes constant indices a
    /// deterministic function of the values interned so far.
    pub fn add_constant(&mut self, v: Value) -> (idx: usize)
        ensures
            idx == pool_idx(old(self)@.constants, value_model(v)),
            final(self)@ == (CodeModel {
                constants: pool_add(old(self)@.constants, value_model(v)),
                ..old(self)@
            }),
            idx < final(self)@.constants.len(),
            final(self)@.constants[idx as int] == value_model(v),
    {
        broadcast use lemma_pool_model, lemma_children_model;

        let ghost pool = pool_model(self.constants@);
        let ghost m = value_model(v);
        let mut i: usize = 0;
        while i < self.constants.len()
            invariant
                i <= self.constants@.len(),
                pool == pool_model(self.constants@),
                m == value_model(v),
                *self == *old(self),
                pool_idx(pool, m) == pool_idx_from(pool, m, i as int),
            decreases self.constants@.len() - i,
        {
            broadcast use lemma_pool_model;

            if value_eq(&self.constants[i], &v) {
                assert(pool_idx_from(pool, m, i as int) == i);
                return i;
            }
            i = i + 1;
        }
        assert(pool_idx(pool, m) == pool.len());
        let idx = self.constants.len();
        self.constants.push(v);
        proof {
            assert(pool_model(self.constants@) =~= pool.push(m));
            assert(children_from(self.children@, 0) =~= children_from(
                old(self).children@,
                0,
            ));
        }
        idx
    }

    /// Registers a compiled child unit under its name, replacing any
    /// previous child of that name.
    pub fn add_child(&mut self, name: String, child: CodeObject)
        ensures
            final(self)@ == (CodeModel {
                children: child_insert(old(self)@.children, name@, child@),
                ..old(self)@
            }),
    {
        broadcast use lemma_pool_model, lemma_children_model;

        let ghost cs = children_model(self.children@);
        let mut i: usize = 0;
        while i < self.children.len()
            invariant
                i <= self.children@.len(),
                cs == children_model(self.children@),
                *self == *old(self),
                child_idx_from(cs, name@, 0) == child_idx_from(cs, name@, i as int),
            decreases self.children@.len() - i,
        {
            broadcast use lemma_children_model;

            if self.children[i].name == name {
                assert(child_idx_from(cs, name@, i as int) == i);
                let entry = FnEntry { name, code: child };
                self.children.set(i, entry);
                proof {
                    assert(children_model(self.children@) =~= cs.update(
                        i as int,
                        (name@, child@),
                    ));
                    assert(pool_model(self.constants@) =~= pool_model(
                        old(self).constants@,
                    ));
                }
                return;
            }
            i = i + 1;
        }
        assert(child_idx_from(cs, name@, 0) == cs.len());
        let entry = FnEntry { name, code: child };
        self.children.push(entry);
        proof {
            assert(children_model(self.children@) =~= cs.push((name@, child@)));
            assert(pool_model(self.constants@) =~= pool_model(old(self).constants@));
        }
    }

    /// Looks a name up among this unit's children.
    pub fn find_child(&self, name: &String) -> (r: Option<&CodeObject>)
        ensures
            match r {
                Option::Some(c) => child_lookup(self@.children, name@) == Option::Some(c@),
                Option::None => child_lookup(self@.children, name@) == Option::<CodeModel>::None,
            },
    {
        broadcast use lemma_children_model;

        let ghost cs = children_model(self.children@);
        let mut i: usize = 0;
        while i < self.children.len()
            invariant
                i <= self.children@.len(),
                cs == children_model(self.children@),
                child_idx_from(cs, name@, 0) == child_idx_from(cs, name@, i as int),
            decreases self.children@.len() - i,
        {
            broadcast use lemma_children_model;

            if self.children[i].name == *name {
                assert(child_idx_from(cs, name@, i as int) == i);
                return Option::Some(&self.children[i].code);
            }
            i = i + 1;
        }
        assert(child_idx_from(cs, name@, 0) == cs.len());
        Option::None
    }
}

/// Looks a name up in a free-standing function table.
pub fn table_find<'a>(table: &'a Vec<FnEntry>, name: &String) -> (r: Option<&'a CodeObject>)
    ensures
        match r {
            Option::Some(c) => child_lookup(children_model(table@), name@) == Option::Some(c@),
            Option::None => child_lookup(children_model(table@), name@)
                == Option::<CodeModel>::None,
        },
{
    broadcast use lemma_children_model;

    let ghost cs = children_model(table@);
    let mut i: usize = 0;
    while i < table.len()
        invariant
            i <= table@.len(),
            cs == children_model(table@),
            child_idx_from(cs, name@, 0) == child_idx_from(cs, name@, i as int),
        decreases table@.len() - i,
    {
        broadcast use lemma_children_model;

        if table[i].name == *name {
            assert(child_idx_from(cs, name@, i as int) == i);
            return Option::Some(&table[i].code);
        }
        i = i + 1;
    }
    assert(child_idx_from(cs, name@, 0) == cs.len());
    Option::None
}


/// A deep copy of a program unit, with the same model as the
/// original.
pub fn clone_code(c: &CodeObject) -> (r: CodeObject)
    ensures
        r@ == c@,
    decreases *c,
{
    broadcast use lemma_pool_model, lemma_children_model;

    let mut code: Vec<Instruction> = Vec::new();
    let mut i: usize = 0;
    while i < c.code.len()
        invariant
            i <= c.code@.len(),
            code@ == c.code@.take(i as int),
        decreases c.code@.len() - i,
    {
        code.push(c.code[i]);
        assert(code@ =~= c.code@.take(i + 1));
        i = i + 1;
    }
    assert(code@ =~= c.code@);
    let mut constants: Vec<Value> = Vec::new();
    let mut j: usize = 0;
    while j < c.constants.len()
        invariant
            j <= c.constants@.len(),
            constants@.len() == j,
            forall|x: int|
                0 <= x < j ==> value_model(#[trigger] constants@[x]) == value_model(
                    c.constants@[x],
                ),
        decreases c.constants@.len() - j,
    {
        let v = crate::value::clone_value(&c.constants[j]);
        constants.push(v);
        j = j + 1;
    }
    assert(pool_model(constants@) =~= pool_model(c.constants@));
    let mut parameters: Vec<Param> = Vec::new();
    let mut k: usize = 0;
    while k < c.parameters.len()
        invariant
            k <= c.parameters@.len(),
            parameters@ == c.parameters@.take(k as int),
        decreases c.parameters@.len() - k,
    {
        let p = Param { name: c.parameters[k].name.clone(), mutable: c.parameters[k].mutable };
        assert(p == c.parameters@[k as int]);
        parameters.push(p);
        assert(parameters@ =~= c.parameters@.take(k + 1));
        k = k + 1;
    }
    assert(parameters@ =~= c.parameters@);
    let mut children: Vec<FnEntry> = Vec::new();
    let mut n: usize = 0;
    while n < c.children.len()
        invariant
            n <= c.children@.len(),
            code_model(*c).children == children_from(c.children@, 0),
            children@.len() == n,
            forall|x: int|
                0 <= x < n ==> (#[trigger] children@[x]).name@ == c.children@[x].name@
                    && code_model(children@[x].code) == code_model(c.children@[x].code),
        decreases c.children@.len() - n,
    {
        let entry = FnEntry {
            name: c.children[n].name.clone(),
            code: clone_code(&c.children[n].code),
        };
        children.push(entry);
        n = n + 1;
    }
    assert(children_model(children@) =~= children_model(c.children@));
    let file = c.file.clone();
    let r = CodeObject { code, constants, parameters, children, file };
    r
}


/// Interning never disturbs the pool: every constant already present
/// keeps its position and its index, which is what makes constant
/// indices deterministic as compilation proceeds.
pub proof fn lemma_pool_add_stable(pool: Seq<ValueModel>, x: ValueModel)
    ensures
        pool_add(pool, x).len() >= pool.len(),
        forall|j: int| 0 <= j < pool.len() ==> pool_add(pool, x)[j] == #[trigger] pool[j],
        pool_idx(pool_add(pool, x), x) == pool_idx(pool, x),
{
    let i = pool_idx(pool, x);
    lemma_pool_idx_bounds(pool, x, 0);
    if i < pool.len() {
    } else {
        lemma_pool_idx_push(pool, x, 0);
    }
}

proof fn lemma_pool_idx_bounds(pool: Seq<ValueModel>, x: ValueModel, i: int)
    requires
        0 <= i <= pool.len(),
    ensures
        i <= pool_idx_from(pool, x, i) <= pool.len(),
    decreases pool.len() - i,
{
    if i < pool.len() && pool[i] != x {
        lemma_pool_idx_bounds(pool, x, i + 1);
    }
}

proof fn lemma_pool_idx_push(pool: Seq<ValueModel>, x: ValueModel, i: int)
    requires
        0 <= i <= pool.len(),
        pool_idx_from(pool, x, i) == pool.len(),
    ensures
        pool_idx_from(pool.push(x), x, i) == pool.len(),
    decreases pool.len() - i,
{
    if i < pool.len() {
        assert(pool.push(x)[i] == pool[i]);
        lemma_pool_idx_push(pool, x, i + 1);
    } else {
        assert(pool.push(x)[i] == x);
    }
}


/// Interning puts the value where its index says: after `pool_add`,
/// the index `add_constant` yields refers to an equal constant.
pub proof fn lemma_pool_add_member(pool: Seq<ValueModel>, m: ValueModel)
    ensures
        0 <= pool_idx(pool, m) < pool_add(pool, m).len(),
        pool_add(pool, m)[pool_idx(pool, m)] == m,
{
    lemma_pool_idx_bounds(pool, m, 0);
    lemma_pool_idx_found(pool, m, 0);
    if pool_idx(pool, m) == pool.len() {
        assert(pool_add(pool, m) == pool.push(m));
    }
}

proof fn lemma_pool_idx_found(pool: Seq<ValueModel>, x: ValueModel, i: int)
    requires
        0 <= i <= pool.len(),
    ensures
        pool_idx_from(pool, x, i) < pool.len() ==> pool[pool_idx_from(pool, x, i)] == x,
    decreases pool.len() - i,
{
    if i < pool.len() && pool[i] != x {
        lemma_pool_idx_found(pool, x, i + 1);
    }
}

} // verus!
