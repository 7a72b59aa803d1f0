use vstd::prelude::*;
use crate::invariants::lemma_infer_wf;
use crate::laws::lemma_infer_never_free;
use crate::merge::{merge_shapes, merge_types};
use crate::props::{fields_sorted, insert_field};
use crate::types::{Fields, InferredType, PrimitiveType, PropertyDefinition, PropertyMap, Shape};

verus! {

broadcast use {
    vstd::std_specs::vec::axiom_vec_index_decreases,
    vstd::std_specs::vec::axiom_vec_decreases_to_view,
    vstd::seq::axiom_seq_index_decreases,
    vstd::seq::axiom_seq_subrange_decreases,
};

/// A decoded JSON value, holding what inference reads of it: the kind of
/// each scalar, the elements of each array and the members of each object.
pub enum JsonValue {
    Null,
    Bool(bool),
    Number,
    Str(String),
    Array(Vec<JsonValue>),
    Object(Vec<(String, JsonValue)>),
}

/// The primitive kind of a scalar value; `None` for arrays and objects.
pub open spec fn primitive_kind(v: JsonValue) -> Option<PrimitiveType> {
    match v {
        JsonValue::Null => Some(PrimitiveType::Null),
        JsonValue::Bool(_) => Some(PrimitiveType::Boolean),
        JsonValue::Number => Some(PrimitiveType::Number),
        JsonValue::Str(_) => Some(PrimitiveType::String),
        _ => None,
    }
}

/// How many of `vs` are scalars of kind `p`.
pub open spec fn count_kind(vs: Seq<JsonValue>, p: PrimitiveType) -> nat
    decreases vs.len(),
{
    if vs.len() == 0 {
        0
    } else {
        count_kind(vs.drop_last(), p) + if primitive_kind(vs.last()) == Some(p) {
            1nat
        } else {
            0nat
        }
    }
}

/// The kinds of the scalars `vs`, sorted in the fixed order.
pub open spec fn sorted_kinds(vs: Seq<JsonValue>) -> Seq<PrimitiveType> {
    Seq::new(count_kind(vs, PrimitiveType::String), |_i| PrimitiveType::String)
        + Seq::new(count_kind(vs, PrimitiveType::Number), |_i| PrimitiveType::Number)
        + Seq::new(count_kind(vs, PrimitiveType::Boolean), |_i| PrimitiveType::Boolean)
        + Seq::new(count_kind(vs, PrimitiveType::Null), |_i| PrimitiveType::Null)
}

/// Whether every element is a scalar.
pub open spec fn all_scalars(vs: Seq<JsonValue>) -> bool {
    forall|i: int| 0 <= i < vs.len() ==> (#[trigger] primitive_kind(vs[i])) is Some
}

/// The shape of a single JSON value.
pub open spec fn infer_shape(v: JsonValue) -> Shape
    decreases v,
{
    match v {
        JsonValue::Null => Shape::Prim(PrimitiveType::Null),
        JsonValue::Bool(_) => Shape::Prim(PrimitiveType::Boolean),
        JsonValue::Number => Shape::Prim(PrimitiveType::Number),
        JsonValue::Str(_) => Shape::Prim(PrimitiveType::String),
        JsonValue::Array(items) => if all_scalars(items@) {
            Shape::Tuple(sorted_kinds(items@))
        } else {
            Shape::Array(Box::new(fold_items(items@)))
        },
        JsonValue::Object(entries) => Shape::Object(entry_fields(entries@)),
    }
}

/// The shapes of `vs` merged from left to right, starting from `Never`.
pub open spec fn fold_items(vs: Seq<JsonValue>) -> Shape
    decreases vs,
{
    if vs.len() == 0 {
        Shape::Never
    } else {
        merge_shapes(fold_items(vs.subrange(0, vs.len() - 1)), infer_shape(vs[vs.len() - 1]))
    }
}

/// The members of an object, each with its inferred shape and not optional,
/// inserted in order (a repeated key keeps its last value).
pub open spec fn entry_fields(es: Seq<(String, JsonValue)>) -> Fields
    decreases es,
{
    if es.len() == 0 {
        Fields::Nil
    } else {
        insert_field(
            entry_fields(es.subrange(0, es.len() - 1)),
            es[es.len() - 1].0@,
            infer_shape(es[es.len() - 1].1),
            false,
        )
    }
}

fn scalar_kind(v: &JsonValue) -> (r: Option<PrimitiveType>)
    ensures
        r == primitive_kind(*v),
{
    match v {
        JsonValue::Null => Some(PrimitiveType::Null),
        JsonValue::Bool(_) => Some(PrimitiveType::Boolean),
        JsonValue::Number => Some(PrimitiveType::Number),
        JsonValue::Str(_) => Some(PrimitiveType::String),
        _ => None,
    }
}

fn push_repeat(r: &mut Vec<PrimitiveType>, p: PrimitiveType, n: usize)
    ensures
        final(r)@ == old(r)@ + Seq::new(n as nat, |_i| p),
{
    let mut j: usize = 0;
    while j < n
        invariant
            j <= n,
            r@ == old(r)@ + Seq::new(j as nat, |_i| p),
        decreases n - j,
    {
        r.push(p);
        j = j + 1;
        assert(r@ =~= old(r)@ + Seq::new(j as nat, |_i| p));
    }
}

fn tuple_kinds(items: &Vec<JsonValue>) -> (r: Vec<PrimitiveType>)
    ensures
        r@ == sorted_kinds(items@),
{
    let mut cs: usize = 0;
    let mut cn: usize = 0;
    let mut cb: usize = 0;
    let mut cl: usize = 0;
    let mut i: usize = 0;
    while i < items.len()
        invariant
            i <= items.len(),
            cs == count_kind(items@.subrange(0, i as int), PrimitiveType::String),
            cn == count_kind(items@.subrange(0, i as int), PrimitiveType::Number),
            cb == count_kind(items@.subrange(0, i as int), PrimitiveType::Boolean),
            cl == count_kind(items@.subrange(0, i as int), PrimitiveType::Null),
            cs <= i,
            cn <= i,
            cb <= i,
            cl <= i,
        decreases items.len() - i,
    {
        assert(items@.subrange(0, i + 1).drop_last() =~= items@.subrange(0, i as int));
        match scalar_kind(&items[i]) {
            Some(PrimitiveType::String) => cs = cs + 1,
            Some(PrimitiveType::Number) => cn = cn + 1,
            Some(PrimitiveType::Boolean) => cb = cb + 1,
            Some(PrimitiveType::Null) => cl = cl + 1,
            None => {},
        }
        i = i + 1;
    }
    assert(items@.subrange(0, items.len() as int) =~= items@);
    let mut r: Vec<PrimitiveType> = Vec::new();
    push_repeat(&mut r, PrimitiveType::String, cs);
    push_repeat(&mut r, PrimitiveType::Number, cn);
    push_repeat(&mut r, PrimitiveType::Boolean, cb);
    push_repeat(&mut r, PrimitiveType::Null, cl);
    assert(r@ =~= sorted_kinds(items@));
    r
}

fn scalars_only(items: &Vec<JsonValue>) -> (r: bool)
    ensures
        r == all_scalars(items@),
{
    let mut i: usize = 0;
    while i < items.len()
        invariant
            i <= items.len(),
            forall|j: int| 0 <= j < i ==> (#[trigger] primitive_kind(items@[j])) is Some,
        decreases items.len() - i,
    {
        if scalar_kind(&items[i]).is_none() {
            return false;
        }
        i = i + 1;
    }
    true
}

pub(crate) fn infer_ref(value: &JsonValue) -> (r: InferredType)
    ensures
        r.shape() == infer_shape(*value),
        r.shape().wf(),
    decreases value,
{
    proof {
        lemma_infer_wf(*value);
    }
    match value {
        JsonValue::Null => InferredType::Primitive(PrimitiveType::Null),
        JsonValue::Bool(_) => InferredType::Primitive(PrimitiveType::Boolean),
        JsonValue::Number => InferredType::Primitive(PrimitiveType::Number),
        JsonValue::Str(_) => InferredType::Primitive(PrimitiveType::String),
        JsonValue::Array(items) => {
            if scalars_only(items) {
                InferredType::PrimitiveTuple(tuple_kinds(items))
            } else {
                let mut acc = InferredType::Never;
                let mut i: usize = 0;
                while i < items.len()
                    invariant
                        i <= items.len(),
                        *value == JsonValue::Array(*items),
                        acc.shape() == fold_items(items@.subrange(0, i as int)),
                        acc.shape().wf(),
                    decreases items.len() - i,
                {
                    assert(items@.subrange(0, i + 1).subrange(0, i as int) =~= items@.subrange(
                        0,
                        i as int,
                    ));
                    proof {
                        assert(decreases_to!(*value => (*value)->Array_0));
                        assert(decreases_to!(*items => items[i as int]));
                        assert(decreases_to!(*value => items[i as int]));
                    }
                    let t = infer_ref(&items[i]);
                    acc = merge_types(acc, t);
                    i = i + 1;
                }
                assert(items@.subrange(0, items.len() as int) =~= items@);
                InferredType::Array(Box::new(acc))
            }
        },
        JsonValue::Object(entries) => {
            let mut m = PropertyMap::new();
            let mut i: usize = 0;
            while i < entries.len()
                invariant
                    i <= entries.len(),
                    *value == JsonValue::Object(*entries),
                    m.fields() == entry_fields(entries@.subrange(0, i as int)),
                    fields_sorted(m.fields()),
                decreases entries.len() - i,
            {
                assert(entries@.subrange(0, i + 1).subrange(0, i as int) =~= entries@.subrange(
                    0,
                    i as int,
                ));
                proof {
                    assert(decreases_to!(*value => (*value)->Object_0));
                    assert(decreases_to!(*entries => entries[i as int]));
                    assert(decreases_to!(entries[i as int] => entries[i as int].1));
                    assert(decreases_to!(*value => entries[i as int].1));
                }
                let t = infer_ref(&entries[i].1);
                m.insert(entries[i].0.clone(), PropertyDefinition { ty: t, optional: false });
                i = i + 1;
            }
            assert(entries@.subrange(0, entries.len() as int) =~= entries@);
            InferredType::Object(m)
        },
    }
}

/// Infers the structural type of one JSON value.
pub fn infer_type_from_value(value: JsonValue) -> (r: InferredType)
    ensures
        r.shape() == infer_shape(value),
        r.shape().wf(),
        r.shape().never_free(),
{
    proof {
        lemma_infer_wf(value);
        lemma_infer_never_free(value);
    }
    infer_ref(&value)
}

} // verus!
