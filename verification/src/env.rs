//! A call frame's variable environment: an association of names to
//! values where binding a name again overwrites its value.

use vstd::prelude::*;

use crate::value::Value;
use crate::value::ValueModel;
use crate::value::value_model;

verus! {

broadcast use vstd::std_specs::vec::group_vec_axioms, vstd::seq::group_seq_axioms;

/// One name bound to one value.
#[derive(Debug, PartialEq)]
pub struct Binding {
    pub name: String,
    pub value: Value,
}

/// The locals of one call frame.
#[derive(Debug, PartialEq)]
pub struct Locals {
    pub entries: Vec<Binding>,
}

/// The models of the bindings of `s` from position `i` on.
pub open spec fn env_from(s: Seq<Binding>, i: int) -> Seq<(Seq<char>, ValueModel)>
    decreases s.len() - i,
{
    if i < 0 || i >= s.len() {
        Seq::empty()
    } else {
        seq![(s[i].name@, value_model(s[i].value))] + env_from(s, i + 1)
    }
}

/// The model of an environment: its bindings, in order.
pub open spec fn env_model(s: Seq<Binding>) -> Seq<(Seq<char>, ValueModel)> {
    env_from(s, 0)
}

proof fn lemma_env_from(s: Seq<Binding>, i: int)
    requires
        0 <= i <= s.len(),
    ensures
        env_from(s, i).len() == s.len() - i,
        forall|j: int|
            i <= j < s.len() ==> env_from(s, i)[j - i] == (
            s[j].name@,
            value_model(s[j].value),
            ),
    decreases s.len() - i,
{
    if i < s.len() {
        lemma_env_from(s, i + 1);
    }
}

/// An environment's model has one entry per binding.
pub broadcast proof fn lemma_env_model(s: Seq<Binding>)
    ensures
        (#[trigger] env_model(s)).len() == s.len(),
        forall|j: int|
            0 <= j < s.len() ==> env_model(s)[j] == (s[j].name@, value_model(s[j].value)),
{
    lemma_env_from(s, 0);
}

/// The first position of name `n` in an environment from `i` on, or
/// the environment's length when absent.
pub open spec fn env_idx_from(m: Seq<(Seq<char>, ValueModel)>, n: Seq<char>, i: int) -> int
    decreases m.len() - i,
{
    if i < 0 || i >= m.len() {
        m.len() as int
    } else if m[i].0 == n {
        i
    } else {
        env_idx_from(m, n, i + 1)
    }
}

/// What looking a name up yields: the value of its first binding.
pub open spec fn env_lookup(m: Seq<(Seq<char>, ValueModel)>, n: Seq<char>) -> Option<ValueModel> {
    let i = env_idx_from(m, n, 0);
    if i < m.len() {
        Option::Some(m[i].1)
    } else {
        Option::None
    }
}

/// The environment after binding `n` to `v`: the first binding of that
/// name is overwritten, or a new binding is appended.
pub open spec fn env_insert(
    m: Seq<(Seq<char>, ValueModel)>,
    n: Seq<char>,
    v: ValueModel,
) -> Seq<(Seq<char>, ValueModel)> {
    let i = env_idx_from(m, n, 0);
    if i < m.len() {
        m.update(i, (n, v))
    } else {
        m.push((n, v))
    }
}

impl View for Locals {
    type V = Seq<(Seq<char>, ValueModel)>;

    open spec fn view(&self) -> Seq<(Seq<char>, ValueModel)> {
        env_model(self.entries@)
    }
}

impl Locals {
    /// An empty environment.
    pub fn new() -> (r: Locals)
        ensures
            r@ == Seq::<(Seq<char>, ValueModel)>::empty(),
    {
        let r = Locals { entries: Vec::new() };
        proof {
            assert(env_model(r.entries@) =~= Seq::<(Seq<char>, ValueModel)>::empty());
        }
        r
    }

    /// Binds a name, overwriting any previous binding of it.
    pub fn insert(&mut self, name: String, value: Value)
        ensures
            final(self)@ == env_insert(old(self)@, name@, value_model(value)),
    {
        broadcast use lemma_env_model;

        let ghost m = env_model(self.entries@);
        let mut i: usize = 0;
        while i < self.entries.len()
            invariant
                i <= self.entries@.len(),
                m == env_model(self.entries@),
                *self == *old(self),
                env_idx_from(m, name@, 0) == env_idx_from(m, name@, i as int),
            decreases self.entries@.len() - i,
        {
            broadcast use lemma_env_model;

            if self.entries[i].name == name {
                assert(env_idx_from(m, name@, i as int) == i);
                let b = Binding { name, value };
                self.entries.set(i, b);
                proof {
                    assert(env_model(self.entries@) =~= m.update(
                        i as int,
                        (b.name@, value_model(b.value)),
                    ));
                }
                return;
            }
            i = i + 1;
        }
        assert(env_idx_from(m, name@, 0) == m.len());
        let b = Binding { name, value };
        self.entries.push(b);
        proof {
            assert(env_model(self.entries@) =~= m.push((b.name@, value_model(b.value))));
        }
    }

    /// Looks a name up.
    pub fn get(&self, name: &String) -> (r: Option<&Value>)
        ensures
            match r {
                Option::Some(v) => env_lookup(self@, name@) == Option::Some(value_model(*v)),
                Option::None => env_lookup(self@, name@) == Option::<ValueModel>::None,
            },
    {
        broadcast use lemma_env_model;

        let ghost m = env_model(self.entries@);
        let mut i: usize = 0;
        while i < self.entries.len()
            invariant
                i <= self.entries@.len(),
                m == env_model(self.entries@),
                env_idx_from(m, name@, 0) == env_idx_from(m, name@, i as int),
            decreases self.entries@.len() - i,
        {
            broadcast use lemma_env_model;

            if self.entries[i].name == *name {
                assert(env_idx_from(m, name@, i as int) == i);
                return Option::Some(&self.entries[i].value);
            }
            i = i + 1;
        }
        assert(env_idx_from(m, name@, 0) == m.len());
        Option::None
    }
}

} // verus!
