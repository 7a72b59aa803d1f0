use vstd::prelude::*;
use crate::invariants::{lemma_kinds_shape_wf, lemma_merge_wf};
use crate::laws::law_merge_idempotent;
use crate::keys::{compare_keys, key_lt};
use crate::types::{Fields, InferredType, PrimitiveType, PropertyDefinition, PropertyMap, Shape};

verus! {

/// Whether kind `p` occurs in `a` or in `b`.
pub open spec fn has_kind(a: Seq<PrimitiveType>, b: Seq<PrimitiveType>, p: PrimitiveType) -> bool {
    a.contains(p) || b.contains(p)
}

/// The kinds that occur in `a` or `b`, each once, in the fixed order.
pub open spec fn ordered_kinds(a: Seq<PrimitiveType>, b: Seq<PrimitiveType>) -> Seq<PrimitiveType> {
    (if has_kind(a, b, PrimitiveType::String) { seq![PrimitiveType::String] } else { seq![] })
        + (if has_kind(a, b, PrimitiveType::Number) { seq![PrimitiveType::Number] } else { seq![] })
        + (if has_kind(a, b, PrimitiveType::Boolean) { seq![PrimitiveType::Boolean] } else { seq![] })
        + (if has_kind(a, b, PrimitiveType::Null) { seq![PrimitiveType::Null] } else { seq![] })
}

/// The single kind, or the union of kinds, that occur in `a` or `b`.
pub open spec fn kinds_shape(a: Seq<PrimitiveType>, b: Seq<PrimitiveType>) -> Shape {
    let ks = ordered_kinds(a, b);
    if ks.len() == 1 {
        Shape::Prim(ks[0])
    } else {
        Shape::Union(ks)
    }
}

/// Every entry marked optional.
pub open spec fn mark_optional(f: Fields) -> Fields
    decreases f,
{
    match f {
        Fields::Nil => Fields::Nil,
        Fields::Cons(k, t, _, rest) => Fields::Cons(k, t, true, Box::new(mark_optional(*rest))),
    }
}

/// `m`, or null: a nullable `m`, except that `Any` already covers null.
pub open spec fn nullable_of(m: Shape) -> Shape {
    match m {
        Shape::Any => Shape::Any,
        _ => Shape::Nullable(Box::new(m)),
    }
}

/// Merges two shapes into one that covers both.
///
/// Null with an object, array or tuple gives a nullable of it. A nullable
/// shape merged with an object, array, tuple or nullable merges the inner
/// shapes, and becomes `Any` where they are incompatible. Anything else
/// incompatible gives `Any`. So a nullable shape only ever wraps an object,
/// array or tuple, and merging is associative (see `assoc`).
///
/// A nullable shape whose inner merge is `Any` is `Any` itself, not a
/// nullable `Any`: `Any` already covers null, and keeping the wrapper would
/// make the result depend on the order of merging. A tuple seen with null
/// stays a tuple under the nullable wrapper: turning it into an array would
/// leave the empty tuple with nothing to become, and would again make the
/// result depend on the order of merging.
pub open spec fn merge_shapes(a: Shape, b: Shape) -> Shape
    decreases a.size() + b.size(),
{
    match (a, b) {
        (Shape::Any, _) => Shape::Any,
        (_, Shape::Any) => Shape::Any,
        (Shape::Never, _) => b,
        (_, Shape::Never) => a,
        (Shape::Prim(p), Shape::Prim(q)) => if p == q {
            a
        } else {
            Shape::Union(ordered_kinds(seq![p], seq![q]))
        },
        (Shape::Prim(p), Shape::Union(s)) => Shape::Union(ordered_kinds(seq![p], s)),
        (Shape::Union(s), Shape::Prim(p)) => Shape::Union(ordered_kinds(s, seq![p])),
        (Shape::Union(s), Shape::Union(t)) => Shape::Union(ordered_kinds(s, t)),
        (Shape::Tuple(s), Shape::Tuple(t)) => if s == t {
            a
        } else {
            Shape::Array(Box::new(kinds_shape(s, t)))
        },
        (Shape::Tuple(s), Shape::Array(i)) => if s.len() == 0 {
            b
        } else {
            Shape::Array(Box::new(merge_shapes(kinds_shape(s, seq![]), *i)))
        },
        (Shape::Array(i), Shape::Tuple(s)) => if s.len() == 0 {
            a
        } else {
            Shape::Array(Box::new(merge_shapes(kinds_shape(s, seq![]), *i)))
        },
        (Shape::Array(i), Shape::Array(j)) => Shape::Array(Box::new(merge_shapes(*i, *j))),
        (Shape::Object(f), Shape::Object(g)) => Shape::Object(merge_fields(f, g)),
        (Shape::Prim(PrimitiveType::Null), Shape::Object(_)) => Shape::Nullable(Box::new(b)),
        (Shape::Prim(PrimitiveType::Null), Shape::Array(_)) => Shape::Nullable(Box::new(b)),
        (Shape::Prim(PrimitiveType::Null), Shape::Tuple(_)) => Shape::Nullable(Box::new(b)),
        (Shape::Object(_), Shape::Prim(PrimitiveType::Null)) => Shape::Nullable(Box::new(a)),
        (Shape::Array(_), Shape::Prim(PrimitiveType::Null)) => Shape::Nullable(Box::new(a)),
        (Shape::Tuple(_), Shape::Prim(PrimitiveType::Null)) => Shape::Nullable(Box::new(a)),
        (Shape::Prim(PrimitiveType::Null), Shape::Nullable(_)) => b,
        (Shape::Nullable(_), Shape::Prim(PrimitiveType::Null)) => a,
        (Shape::Nullable(i), Shape::Nullable(j)) => nullable_of(merge_shapes(*i, *j)),
        (Shape::Nullable(i), Shape::Object(_)) => nullable_of(merge_shapes(*i, b)),
        (Shape::Nullable(i), Shape::Array(_)) => nullable_of(merge_shapes(*i, b)),
        (Shape::Nullable(i), Shape::Tuple(_)) => nullable_of(merge_shapes(*i, b)),
        (Shape::Object(_), Shape::Nullable(j)) => nullable_of(merge_shapes(*j, a)),
        (Shape::Array(_), Shape::Nullable(j)) => nullable_of(merge_shapes(*j, a)),
        (Shape::Tuple(_), Shape::Nullable(j)) => nullable_of(merge_shapes(*j, a)),
        _ => Shape::Any,
    }
}

/// Key-wise merge of two property lists: a key on both sides gets the merged
/// type and is optional if either side was; a key on one side only becomes
/// optional.
pub open spec fn merge_fields(f: Fields, g: Fields) -> Fields
    decreases f.size() + g.size(),
{
    match (f, g) {
        (Fields::Nil, _) => mark_optional(g),
        (_, Fields::Nil) => mark_optional(f),
        (Fields::Cons(k1, t1, o1, r1), Fields::Cons(k2, t2, o2, r2)) => if key_lt(k1, k2) {
            Fields::Cons(k1, t1, true, Box::new(merge_fields(*r1, g)))
        } else if key_lt(k2, k1) {
            Fields::Cons(k2, t2, true, Box::new(merge_fields(f, *r2)))
        } else {
            Fields::Cons(
                k1,
                Box::new(merge_shapes(*t1, *t2)),
                o1 || o2,
                Box::new(merge_fields(*r1, *r2)),
            )
        },
    }
}

fn contains_kind(v: &Vec<PrimitiveType>, p: PrimitiveType) -> (r: bool)
    ensures
        r == v@.contains(p),
{
    let mut i: usize = 0;
    while i < v.len()
        invariant
            i <= v.len(),
            forall|j: int| 0 <= j < i ==> v@[j] != p,
        decreases v.len() - i,
    {
        if v[i] == p {
            return true;
        }
        i = i + 1;
    }
    false
}

/// The kinds of `a` and `b` together, each once, in the fixed order.
pub fn union_kinds(a: &Vec<PrimitiveType>, b: &Vec<PrimitiveType>) -> (r: Vec<PrimitiveType>)
    ensures
        r@ == ordered_kinds(a@, b@),
{
    let mut r: Vec<PrimitiveType> = Vec::new();
    if contains_kind(a, PrimitiveType::String) || contains_kind(b, PrimitiveType::String) {
        r.push(PrimitiveType::String);
    }
    if contains_kind(a, PrimitiveType::Number) || contains_kind(b, PrimitiveType::Number) {
        r.push(PrimitiveType::Number);
    }
    if contains_kind(a, PrimitiveType::Boolean) || contains_kind(b, PrimitiveType::Boolean) {
        r.push(PrimitiveType::Boolean);
    }
    if contains_kind(a, PrimitiveType::Null) || contains_kind(b, PrimitiveType::Null) {
        r.push(PrimitiveType::Null);
    }
    assert(r@ =~= ordered_kinds(a@, b@));
    r
}

fn kinds_type(a: &Vec<PrimitiveType>, b: &Vec<PrimitiveType>) -> (r: InferredType)
    ensures
        r.shape() == kinds_shape(a@, b@),
{
    let ks = union_kinds(a, b);
    if ks.len() == 1 {
        InferredType::Primitive(ks[0])
    } else {
        InferredType::PrimitiveUnion(ks)
    }
}

fn mark_all_optional(m: PropertyMap) -> (r: PropertyMap)
    ensures
        r.fields() == mark_optional(m.fields()),
    decreases m,
{
    match m {
        PropertyMap::Empty => PropertyMap::Empty,
        PropertyMap::Entry(k, d, rest) => {
            let PropertyDefinition { ty, optional: _ } = *d;
            PropertyMap::Entry(
                k,
                Box::new(PropertyDefinition { ty, optional: true }),
                Box::new(mark_all_optional(*rest)),
            )
        },
    }
}

fn merge_props(f: PropertyMap, g: PropertyMap) -> (r: PropertyMap)
    requires
        f.fields().wf(),
        g.fields().wf(),
    ensures
        r.fields() == merge_fields(f.fields(), g.fields()),
    decreases f.fields().size() + g.fields().size(),
{
    match f {
        PropertyMap::Empty => mark_all_optional(g),
        PropertyMap::Entry(k1, d1, r1) => match g {
            PropertyMap::Empty => mark_all_optional(PropertyMap::Entry(k1, d1, r1)),
            PropertyMap::Entry(k2, d2, r2) => {
                let c = compare_keys(k1.as_str(), k2.as_str());
                if c < 0 {
                    let PropertyDefinition { ty, optional: _ } = *d1;
                    let rest = merge_props(*r1, PropertyMap::Entry(k2, d2, r2));
                    PropertyMap::Entry(
                        k1,
                        Box::new(PropertyDefinition { ty, optional: true }),
                        Box::new(rest),
                    )
                } else if c > 0 {
                    let PropertyDefinition { ty, optional: _ } = *d2;
                    let rest = merge_props(PropertyMap::Entry(k1, d1, r1), *r2);
                    PropertyMap::Entry(
                        k2,
                        Box::new(PropertyDefinition { ty, optional: true }),
                        Box::new(rest),
                    )
                } else {
                    let PropertyDefinition { ty: t1, optional: o1 } = *d1;
                    let PropertyDefinition { ty: t2, optional: o2 } = *d2;
                    let t = merge_types(t1, t2);
                    let rest = merge_props(*r1, *r2);
                    PropertyMap::Entry(
                        k1,
                        Box::new(PropertyDefinition { ty: t, optional: o1 || o2 }),
                        Box::new(rest),
                    )
                }
            },
        },
    }
}

/// Merges two well-formed inferred types into one that describes the values
/// of both; equal inputs come back unchanged.
pub fn merge_types(type1: InferredType, type2: InferredType) -> (r: InferredType)
    requires
        type1.shape().wf(),
        type2.shape().wf(),
    ensures
        r.shape() == merge_shapes(type1.shape(), type2.shape()),
        r.shape().wf(),
        type1.shape() == type2.shape() ==> r.shape() == type1.shape(),
    decreases type1.shape().size() + type2.shape().size(),
{
    let ghost (s1, s2) = (type1.shape(), type2.shape());
    let r = match (type1, type2) {
        (InferredType::Any, _) => InferredType::Any,
        (_, InferredType::Any) => InferredType::Any,
        (InferredType::Never, t) => t,
        (t, InferredType::Never) => t,
        (InferredType::Primitive(p), InferredType::Primitive(q)) => if p == q {
            InferredType::Primitive(p)
        } else {
            let (vp, vq) = (vec![p], vec![q]);
            assert(vp@ =~= seq![p] && vq@ =~= seq![q]);
            InferredType::PrimitiveUnion(union_kinds(&vp, &vq))
        },
        (InferredType::Primitive(p), InferredType::PrimitiveUnion(s)) => {
            let vp = vec![p];
            assert(vp@ =~= seq![p]);
            InferredType::PrimitiveUnion(union_kinds(&vp, &s))
        },
        (InferredType::PrimitiveUnion(s), InferredType::Primitive(p)) => {
            let vp = vec![p];
            assert(vp@ =~= seq![p]);
            InferredType::PrimitiveUnion(union_kinds(&s, &vp))
        },
        (InferredType::PrimitiveUnion(s), InferredType::PrimitiveUnion(t)) => {
            InferredType::PrimitiveUnion(union_kinds(&s, &t))
        },
        (InferredType::PrimitiveTuple(s), InferredType::PrimitiveTuple(t)) => {
            if same_kinds(&s, &t) {
                InferredType::PrimitiveTuple(s)
            } else {
                InferredType::Array(Box::new(kinds_type(&s, &t)))
            }
        },
        (InferredType::PrimitiveTuple(s), InferredType::Array(i)) => {
            if s.len() == 0 {
                InferredType::Array(i)
            } else {
                let e: Vec<PrimitiveType> = Vec::new();
                let k = kinds_type(&s, &e);
                proof {
                    lemma_kinds_shape_wf(s@, e@);
                }
                InferredType::Array(Box::new(merge_types(k, *i)))
            }
        },
        (InferredType::Array(i), InferredType::PrimitiveTuple(s)) => {
            if s.len() == 0 {
                InferredType::Array(i)
            } else {
                let e: Vec<PrimitiveType> = Vec::new();
                let k = kinds_type(&s, &e);
                proof {
                    lemma_kinds_shape_wf(s@, e@);
                }
                InferredType::Array(Box::new(merge_types(k, *i)))
            }
        },
        (InferredType::Array(i), InferredType::Array(j)) => {
            InferredType::Array(Box::new(merge_types(*i, *j)))
        },
        (InferredType::Object(f), InferredType::Object(g)) => {
            InferredType::Object(merge_props(f, g))
        },
        (InferredType::Primitive(PrimitiveType::Null), InferredType::Object(g)) => {
            InferredType::NullableObj(Box::new(InferredType::Object(g)))
        },
        (InferredType::Primitive(PrimitiveType::Null), InferredType::Array(j)) => {
            InferredType::NullableObj(Box::new(InferredType::Array(j)))
        },
        (InferredType::Primitive(PrimitiveType::Null), InferredType::PrimitiveTuple(t)) => {
            InferredType::NullableObj(Box::new(InferredType::PrimitiveTuple(t)))
        },
        (InferredType::Object(f), InferredType::Primitive(PrimitiveType::Null)) => {
            InferredType::NullableObj(Box::new(InferredType::Object(f)))
        },
        (InferredType::Array(i), InferredType::Primitive(PrimitiveType::Null)) => {
            InferredType::NullableObj(Box::new(InferredType::Array(i)))
        },
        (InferredType::PrimitiveTuple(t), InferredType::Primitive(PrimitiveType::Null)) => {
            InferredType::NullableObj(Box::new(InferredType::PrimitiveTuple(t)))
        },
        (InferredType::Primitive(PrimitiveType::Null), InferredType::NullableObj(j)) => {
            InferredType::NullableObj(j)
        },
        (InferredType::NullableObj(i), InferredType::Primitive(PrimitiveType::Null)) => {
            InferredType::NullableObj(i)
        },
        (InferredType::NullableObj(i), InferredType::NullableObj(j)) => {
            nullable_type(merge_types(*i, *j))
        },
        (InferredType::NullableObj(i), InferredType::Object(g)) => {
            nullable_type(merge_types(*i, InferredType::Object(g)))
        },
        (InferredType::NullableObj(i), InferredType::Array(j)) => {
            nullable_type(merge_types(*i, InferredType::Array(j)))
        },
        (InferredType::NullableObj(i), InferredType::PrimitiveTuple(t)) => {
            nullable_type(merge_types(*i, InferredType::PrimitiveTuple(t)))
        },
        (InferredType::Object(f), InferredType::NullableObj(j)) => {
            nullable_type(merge_types(*j, InferredType::Object(f)))
        },
        (InferredType::Array(i), InferredType::NullableObj(j)) => {
            nullable_type(merge_types(*j, InferredType::Array(i)))
        },
        (InferredType::PrimitiveTuple(t), InferredType::NullableObj(j)) => {
            nullable_type(merge_types(*j, InferredType::PrimitiveTuple(t)))
        },
        _ => InferredType::Any,
    };
    proof {
        lemma_merge_wf(s1, s2);
        if s1 == s2 {
            law_merge_idempotent(s1);
        }
    }
    r
}

fn nullable_type(m: InferredType) -> (r: InferredType)
    ensures
        r.shape() == nullable_of(m.shape()),
{
    match m {
        InferredType::Any => InferredType::Any,
        other => InferredType::NullableObj(Box::new(other)),
    }
}

fn same_kinds(a: &Vec<PrimitiveType>, b: &Vec<PrimitiveType>) -> (r: bool)
    ensures
        r == (a@ == b@),
{
    if a.len() != b.len() {
        return false;
    }
    let mut i: usize = 0;
    while i < a.len()
        invariant
            i <= a.len(),
            a.len() == b.len(),
            forall|j: int| 0 <= j < i ==> a@[j] == b@[j],
        decreases a.len() - i,
    {
        if a[i] != b[i] {
            return false;
        }
        i = i + 1;
    }
    assert(a@ =~= b@);
    true
}

} // verus!
