//! The runtime value model: a closed tagged union of the values the
//! machine manipulates, together with its mathematical model.
//!
//! Values are immutable once constructed; composite values are passed by
//! value and never mutated through an alias.

use vstd::prelude::*;

verus! {

broadcast use vstd::std_specs::vec::group_vec_axioms, vstd::seq::group_seq_axioms;

/// A runtime value.
#[derive(Debug, PartialEq)]
pub enum Value {
    Integer(i64),
    Str(String),
    Bool(bool),
    Array(Vec<Value>),
    Nothing,
}

/// The mathematical model of a runtime value: machine strings become
/// character sequences and arrays become sequences of models.
pub enum ValueModel {
    Int(int),
    Str(Seq<char>),
    Bool(bool),
    Arr(Seq<ValueModel>),
    Unit,
}

/// The kind of a value, as used by conversion instructions and by
/// error reports.
#[derive(Debug, Clone, Copy, PartialEq, Eq, Structural)]
pub enum TypeTag {
    Integer,
    Str,
    Bool,
    Array,
    Nothing,
}

/// The model of a runtime value.
pub open spec fn value_model(v: Value) -> ValueModel
    decreases v, 0int,
{
    match v {
        Value::Integer(i) => ValueModel::Int(i as int),
        Value::Str(s) => ValueModel::Str(s@),
        Value::Bool(b) => ValueModel::Bool(b),
        Value::Array(vs) => ValueModel::Arr(models_from(vs@, 0)),
        Value::Nothing => ValueModel::Unit,
    }
}

/// The models of the values of `s` from position `i` on.
pub open spec fn models_from(s: Seq<Value>, i: int) -> Seq<ValueModel>
    decreases s, s.len() - i,
{
    if i < 0 || i >= s.len() {
        Seq::empty()
    } else {
        seq![value_model(s[i])] + models_from(s, i + 1)
    }
}

/// The models of a sequence of values, element by element.
pub open spec fn arr_model(s: Seq<Value>) -> Seq<ValueModel> {
    models_from(s, 0)
}

proof fn lemma_models_from(s: Seq<Value>, i: int)
    requires
        0 <= i <= s.len(),
    ensures
        models_from(s, i).len() == s.len() - i,
        forall|j: int|
            i <= j < s.len() ==> models_from(s, i)[j - i] == value_model(s[j]),
    decreases s.len() - i,
{
    if i < s.len() {
        lemma_models_from(s, i + 1);
    }
}

/// An array's model has one element per value, the model of that value.
pub broadcast proof fn lemma_arr_model(s: Seq<Value>)
    ensures
        (#[trigger] arr_model(s)).len() == s.len(),
        forall|j: int| 0 <= j < s.len() ==> arr_model(s)[j] == value_model(s[j]),
{
    lemma_models_from(s, 0);
}

impl View for Value {
    type V = ValueModel;

    open spec fn view(&self) -> ValueModel {
        value_model(*self)
    }
}

/// The kind of a modelled value.
pub open spec fn tag_of(m: ValueModel) -> TypeTag {
    match m {
        ValueModel::Int(_) => TypeTag::Integer,
        ValueModel::Str(_) => TypeTag::Str,
        ValueModel::Bool(_) => TypeTag::Bool,
        ValueModel::Arr(_) => TypeTag::Array,
        ValueModel::Unit => TypeTag::Nothing,
    }
}

/// Truthiness: booleans stand for themselves, numbers are true when
/// nonzero, strings and arrays when nonempty, and nothing is false.
pub open spec fn truthy(m: ValueModel) -> bool {
    match m {
        ValueModel::Bool(b) => b,
        ValueModel::Int(i) => i != 0,
        ValueModel::Str(s) => s.len() != 0,
        ValueModel::Arr(a) => a.len() != 0,
        ValueModel::Unit => false,
    }
}

impl Value {
    /// The kind of this value.
    pub fn kind(&self) -> (t: TypeTag)
        ensures
            t == tag_of(self@),
    {
        match self {
            Value::Integer(_) => TypeTag::Integer,
            Value::Str(_) => TypeTag::Str,
            Value::Bool(_) => TypeTag::Bool,
            Value::Array(_) => TypeTag::Array,
            Value::Nothing => TypeTag::Nothing,
        }
    }

    /// Whether this value counts as true in a condition.
    pub fn istruthy(&self) -> (r: bool)
        ensures
            r == truthy(self@),
    {
        proof {
            broadcast use lemma_arr_model;

        }
        match self {
            Value::Bool(b) => *b,
            Value::Integer(i) => *i != 0,
            Value::Str(s) => s.as_str().unicode_len() != 0,
            Value::Array(a) => a.len() != 0,
            Value::Nothing => false,
        }
    }
}

/// A deep copy of a value, with the same model as the original.
pub fn clone_value(v: &Value) -> (res: Value)
    ensures
        value_model(res) == value_model(*v),
    decreases *v,
{
    broadcast use lemma_arr_model;

    match v {
        Value::Integer(i) => Value::Integer(*i),
        Value::Str(s) => Value::Str(s.clone()),
        Value::Bool(b) => Value::Bool(*b),
        Value::Array(vs) => {
            let mut out: Vec<Value> = Vec::new();
            let mut i: usize = 0;
            while i < vs.len()
                invariant
                    *v == Value::Array(*vs),
                    v@ == ValueModel::Arr(arr_model(vs@)),
                    i <= vs@.len(),
                    out@.len() == i,
                    forall|j: int|
                        0 <= j < i ==> value_model(#[trigger] out@[j])
                            == value_model(vs@[j]),
                decreases vs@.len() - i,
            {
                let c = clone_value(&vs[i]);
                out.push(c);
                i = i + 1;
            }
            let r = Value::Array(out);
            proof {
                assert(arr_model(out@) =~= arr_model(vs@));
            }
            r
        },
        Value::Nothing => Value::Nothing,
    }
}

impl Clone for Value {
    /// A clone has the same model as the original.
    fn clone(&self) -> (res: Self)
        ensures
            value_model(res) == value_model(*self),
    {
        clone_value(self)
    }
}

/// Structural equality of two values: equality of their models. Values
/// of different kinds are simply unequal.
pub fn value_eq(a: &Value, b: &Value) -> (r: bool)
    ensures
        r == (a@ == b@),
    decreases *a,
{
    broadcast use lemma_arr_model;

    match (a, b) {
        (Value::Integer(x), Value::Integer(y)) => *x == *y,
        (Value::Str(x), Value::Str(y)) => *x == *y,
        (Value::Bool(x), Value::Bool(y)) => *x == *y,
        (Value::Nothing, Value::Nothing) => true,
        (Value::Array(xs), Value::Array(ys)) => {
            if xs.len() != ys.len() {
                assert(arr_model(xs@).len() != arr_model(ys@).len());
                return false;
            }
            let mut i: usize = 0;
            while i < xs.len()
                invariant
                    *a == Value::Array(*xs),
                    i <= xs@.len(),
                    xs@.len() == ys@.len(),
                    a@ == ValueModel::Arr(arr_model(xs@)),
                    b@ == ValueModel::Arr(arr_model(ys@)),
                    forall|j: int|
                        0 <= j < i ==> value_model(#[trigger] xs@[j])
                            == value_model(ys@[j]),
                decreases xs@.len() - i,
            {
                broadcast use lemma_arr_model;

                if !value_eq(&xs[i], &ys[i]) {
                    assert(arr_model(xs@)[i as int] != arr_model(ys@)[i as int]);
                    return false;
                }
                i = i + 1;
            }
            proof {
                assert(arr_model(xs@) =~= arr_model(ys@));
            }
            true
        },
        _ => {
            assert(tag_of(a@) != tag_of(b@));
            false
        },
    }
}

} // verus!
