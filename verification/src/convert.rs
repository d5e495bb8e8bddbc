//! Explicit conversions between value kinds, and the textual rendering
//! of values that both conversion to string and the printing primitive
//! use.

use vstd::prelude::*;

use crate::digits::int_digits;
use crate::digits::i64_to_string;
use crate::digits::parse_i64;
use crate::digits::parse_i64_spec;
use crate::error::ErrModel;
use crate::error::RuntimeError;
use crate::arith::op_res_model;
use crate::value::TypeTag;
use crate::value::Value;
use crate::value::ValueModel;
use crate::value::value_model;
use crate::value::arr_model;
use crate::value::lemma_arr_model;

verus! {

broadcast use vstd::std_specs::vec::group_vec_axioms, vstd::seq::group_seq_axioms;

/// The textual rendering of a value: digits for integers, the string
/// itself, `true`/`false`, `none`, and arrays in brackets with
/// comma-separated elements.
pub open spec fn render(m: ValueModel) -> Seq<char>
    decreases m, 0int,
{
    match m {
        ValueModel::Int(i) => int_digits(i),
        ValueModel::Str(s) => s,
        ValueModel::Bool(b) => if b {
            "true"@
        } else {
            "false"@
        },
        ValueModel::Unit => "none"@,
        ValueModel::Arr(a) => "["@ + render_items(a, 0) + "]"@,
    }
}

/// The renderings of the elements from position `i` on, joined with
/// commas.
pub open spec fn render_items(a: Seq<ValueModel>, i: int) -> Seq<char>
    decreases a, a.len() - i,
{
    if i < 0 || i >= a.len() {
        Seq::empty()
    } else if i == a.len() - 1 {
        render(a[i])
    } else {
        render(a[i]) + ", "@ + render_items(a, i + 1)
    }
}

/// The renderings of the first `i` elements, each followed by a comma
/// separator except the last element of the whole sequence.
pub open spec fn render_prefix(a: Seq<ValueModel>, i: int) -> Seq<char>
    decreases i,
{
    if i <= 0 {
        Seq::empty()
    } else {
        render_prefix(a, i - 1) + render(a[i - 1]) + if i < a.len() {
            ", "@
        } else {
            Seq::empty()
        }
    }
}

/// The rendered prefix and the rendered rest together form the whole
/// joined rendering.
proof fn lemma_render_prefix(a: Seq<ValueModel>, i: int)
    requires
        0 <= i <= a.len(),
    ensures
        render_prefix(a, i) + render_items(a, i) == render_items(a, 0),
    decreases i,
{
    if i == 0 {
        assert(render_prefix(a, 0) + render_items(a, 0) =~= render_items(a, 0));
    } else {
        lemma_render_prefix(a, i - 1);
        if i < a.len() {
            assert(render_prefix(a, i) + render_items(a, i) =~= render_prefix(a, i - 1)
                + render_items(a, i - 1));
        } else {
            assert(render_items(a, i) =~= Seq::<char>::empty());
            assert(render_prefix(a, i) + render_items(a, i) =~= render_prefix(a, i - 1)
                + render_items(a, i - 1));
        }
    }
}

/// Renders a value as text.
pub fn render_value(v: &Value) -> (r: String)
    ensures
        r@ == render(v@),
    decreases *v,
{
    broadcast use lemma_arr_model;

    match v {
        Value::Integer(i) => i64_to_string(*i),
        Value::Str(s) => s.clone(),
        Value::Bool(b) => {
            if *b {
                String::from_str("true")
            } else {
                String::from_str("false")
            }
        },
        Value::Nothing => String::from_str("none"),
        Value::Array(vs) => {
            let mut out = String::from_str("[");
            let ghost items = arr_model(vs@);
            let mut i: usize = 0;
            while i < vs.len()
                invariant
                    *v == Value::Array(*vs),
                    v@ == ValueModel::Arr(arr_model(vs@)),
                    items == arr_model(vs@),
                    i <= vs@.len(),
                    out@ == "["@ + render_prefix(items, i as int),
                decreases vs@.len() - i,
            {
                broadcast use lemma_arr_model;

                let ghost pre = out@;
                let piece = render_value(&vs[i]);
                out.append(piece.as_str());
                if i + 1 < vs.len() {
                    out.append(", ");
                    assert(out@ =~= "["@ + render_prefix(items, i + 1)) by {
                        assert(out@ =~= pre + render(items[i as int]) + ", "@);
                        assert("["@ + render_prefix(items, i + 1) =~= ("["@
                            + render_prefix(items, i as int)) + render(items[i as int])
                            + ", "@);
                    }
                } else {
                    assert(out@ =~= "["@ + render_prefix(items, i + 1)) by {
                        assert(out@ =~= pre + render(items[i as int]));
                        assert("["@ + render_prefix(items, i + 1) =~= ("["@
                            + render_prefix(items, i as int)) + render(items[i as int]));
                    }
                }
                i = i + 1;
            }
            proof {
                lemma_render_prefix(items, items.len() as int);
                assert(render_items(items, items.len() as int) =~= Seq::<char>::empty());
                assert(render_prefix(items, items.len() as int) =~= render_items(items, 0));
            }
            out.append("]");
            assert(out@ =~= "["@ + render_items(items, 0) + "]"@);
            out
        },
    }
}

/// What converting a value to the given kind yields. String-to-integer
/// conversion parses a decimal literal and fails with a conversion
/// error when the text does not parse; arrays convert only to their
/// textual rendering; the nothing value converts to nothing at all.
pub open spec fn convert_model(m: ValueModel, to: TypeTag) -> Result<ValueModel, ErrModel> {
    match m {
        ValueModel::Int(i) => match to {
            TypeTag::Integer => Result::Ok(ValueModel::Int(i)),
            TypeTag::Str => Result::Ok(ValueModel::Str(int_digits(i))),
            TypeTag::Array => Result::Ok(ValueModel::Arr(seq![ValueModel::Int(i)])),
            TypeTag::Bool => Result::Ok(ValueModel::Bool(i > 0)),
            TypeTag::Nothing => Result::Err(ErrModel::UnsupportedConversion {
                from: TypeTag::Integer,
                to,
            }),
        },
        ValueModel::Str(s) => match to {
            TypeTag::Str => Result::Ok(ValueModel::Str(s)),
            TypeTag::Integer => match parse_i64_spec(s) {
                Option::Some(n) => Result::Ok(ValueModel::Int(n as int)),
                Option::None => Result::Err(ErrModel::ConversionFailure),
            },
            TypeTag::Array => Result::Ok(ValueModel::Arr(seq![ValueModel::Str(s)])),
            TypeTag::Bool => Result::Ok(ValueModel::Bool(s.len() > 0)),
            TypeTag::Nothing => Result::Err(ErrModel::UnsupportedConversion {
                from: TypeTag::Str,
                to,
            }),
        },
        ValueModel::Bool(b) => match to {
            TypeTag::Str => Result::Ok(ValueModel::Str(
                if b {
                    "true"@
                } else {
                    "false"@
                },
            )),
            TypeTag::Integer => Result::Ok(ValueModel::Int(
                if b {
                    1
                } else {
                    0
                },
            )),
            TypeTag::Array => Result::Ok(ValueModel::Arr(seq![ValueModel::Bool(b)])),
            TypeTag::Bool => Result::Ok(ValueModel::Bool(b)),
            TypeTag::Nothing => Result::Err(ErrModel::UnsupportedConversion {
                from: TypeTag::Bool,
                to,
            }),
        },
        ValueModel::Arr(a) => match to {
            TypeTag::Str => Result::Ok(ValueModel::Str(render(ValueModel::Arr(a)))),
            _ => Result::Err(ErrModel::UnsupportedConversion { from: TypeTag::Array, to }),
        },
        ValueModel::Unit => Result::Err(ErrModel::UnsupportedConversion {
            from: TypeTag::Nothing,
            to,
        }),
    }
}

/// Converts a value to the given kind, exactly as `convert_model`
/// describes.
pub fn convert(v: &Value, to: TypeTag) -> (r: Result<Value, RuntimeError>)
    ensures
        op_res_model(r) == convert_model(v@, to),
{
    broadcast use lemma_arr_model;

    match v {
        Value::Integer(i) => match to {
            TypeTag::Integer => Result::Ok(Value::Integer(*i)),
            TypeTag::Str => Result::Ok(Value::Str(i64_to_string(*i))),
            TypeTag::Array => {
                let mut vs: Vec<Value> = Vec::new();
                vs.push(Value::Integer(*i));
                let r = Value::Array(vs);
                proof {
                    assert(arr_model(vs@) =~= seq![ValueModel::Int(*i as int)]);
                }
                Result::Ok(r)
            },
            TypeTag::Bool => Result::Ok(Value::Bool(*i > 0)),
            TypeTag::Nothing => Result::Err(RuntimeError::UnsupportedConversion {
                from: TypeTag::Integer,
                to,
            }),
        },
        Value::Str(s) => match to {
            TypeTag::Str => Result::Ok(Value::Str(s.clone())),
            TypeTag::Integer => match parse_i64(s.as_str()) {
                Option::Some(n) => Result::Ok(Value::Integer(n)),
                Option::None => Result::Err(RuntimeError::ConversionFailure),
            },
            TypeTag::Array => {
                let mut vs: Vec<Value> = Vec::new();
                vs.push(Value::Str(s.clone()));
                let r = Value::Array(vs);
                proof {
                    assert(arr_model(vs@) =~= seq![ValueModel::Str(s@)]);
                }
                Result::Ok(r)
            },
            TypeTag::Bool => Result::Ok(Value::Bool(s.as_str().unicode_len() > 0)),
            TypeTag::Nothing => Result::Err(RuntimeError::UnsupportedConversion {
                from: TypeTag::Str,
                to,
            }),
        },
        Value::Bool(b) => match to {
            TypeTag::Str => {
                if *b {
                    Result::Ok(Value::Str(String::from_str("true")))
                } else {
                    Result::Ok(Value::Str(String::from_str("false")))
                }
            },
            TypeTag::Integer => {
                if *b {
                    Result::Ok(Value::Integer(1))
                } else {
                    Result::Ok(Value::Integer(0))
                }
            },
            TypeTag::Array => {
                let mut vs: Vec<Value> = Vec::new();
                vs.push(Value::Bool(*b));
                let r = Value::Array(vs);
                proof {
                    assert(arr_model(vs@) =~= seq![ValueModel::Bool(*b)]);
                }
                Result::Ok(r)
            },
            TypeTag::Bool => Result::Ok(Value::Bool(*b)),
            TypeTag::Nothing => Result::Err(RuntimeError::UnsupportedConversion {
                from: TypeTag::Bool,
                to,
            }),
        },
        Value::Array(_) => match to {
            TypeTag::Str => Result::Ok(Value::Str(render_value(v))),
            _ => Result::Err(RuntimeError::UnsupportedConversion {
                from: TypeTag::Array,
                to,
            }),
        },
        Value::Nothing => Result::Err(RuntimeError::UnsupportedConversion {
            from: TypeTag::Nothing,
            to,
        }),
    }
}

} // verus!
