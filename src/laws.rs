use vstd::prelude::*;
use crate::formatting::render;
use crate::inference::{entry_fields, fold_items, infer_shape, JsonValue};
use crate::invariants::{lemma_ordered_kinds_contains, lemma_ordered_kinds_sorted, lemma_sorted_kinds_unique};
use crate::keys::{key_lt, lemma_key_order};
use crate::merge::{has_kind, mark_optional, merge_fields, merge_shapes, ordered_kinds};
use crate::props::{
    fields_sorted, insert_field, lemma_all_after_lookup, lemma_insert_field,
    lemma_sorted_all_after, lookup,
};
use crate::types::{Fields, PrimitiveType, Shape};

verus! {

broadcast use {
    vstd::std_specs::vec::axiom_vec_index_decreases,
    vstd::std_specs::vec::axiom_vec_decreases_to_view,
    vstd::seq::axiom_seq_index_decreases,
    vstd::seq::axiom_seq_subrange_decreases,
};

proof fn lemma_mark_optional_never_free(f: Fields)
    requires
        f.never_free(),
    ensures
        mark_optional(f).never_free(),
    decreases f,
{
    if let Fields::Cons(_, _, _, rest) = f {
        lemma_mark_optional_never_free(*rest);
    }
}

/// Merging two shapes without `Never` inside gives a shape without `Never`.
pub proof fn lemma_merge_never_free(a: Shape, b: Shape)
    requires
        a.never_free(),
        b.never_free(),
    ensures
        merge_shapes(a, b).never_free(),
    decreases a.size() + b.size(),
{
    match (a, b) {
        (Shape::Any, _) => {},
        (_, Shape::Any) => {},
        (Shape::Tuple(s), Shape::Array(i)) => {
            if s.len() != 0 {
                lemma_merge_never_free(crate::merge::kinds_shape(s, seq![]), *i);
            }
        },
        (Shape::Array(i), Shape::Tuple(s)) => {
            if s.len() != 0 {
                lemma_merge_never_free(crate::merge::kinds_shape(s, seq![]), *i);
            }
        },
        (Shape::Tuple(s), Shape::Tuple(t)) => {
            assert(crate::merge::kinds_shape(s, t).never_free());
        },
        (Shape::Array(i), Shape::Array(j)) => lemma_merge_never_free(*i, *j),
        (Shape::Object(f), Shape::Object(g)) => lemma_merge_fields_never_free(f, g),
        (Shape::Prim(crate::types::PrimitiveType::Null), Shape::Nullable(_)) => {},
        (Shape::Nullable(_), Shape::Prim(crate::types::PrimitiveType::Null)) => {},
        (Shape::Nullable(i), Shape::Nullable(j)) => lemma_merge_never_free(*i, *j),
        (Shape::Nullable(i), _) => lemma_merge_never_free(*i, b),
        (_, Shape::Nullable(j)) => lemma_merge_never_free(*j, a),
        _ => {},
    }
}

proof fn lemma_merge_fields_never_free(f: Fields, g: Fields)
    requires
        f.never_free(),
        g.never_free(),
    ensures
        merge_fields(f, g).never_free(),
    decreases f.size() + g.size(),
{
    match (f, g) {
        (Fields::Nil, _) => lemma_mark_optional_never_free(g),
        (_, Fields::Nil) => lemma_mark_optional_never_free(f),
        (Fields::Cons(k1, t1, _, r1), Fields::Cons(k2, t2, _, r2)) => {
            if key_lt(k1, k2) {
                lemma_merge_fields_never_free(*r1, g);
            } else if key_lt(k2, k1) {
                lemma_merge_fields_never_free(f, *r2);
            } else {
                lemma_merge_never_free(*t1, *t2);
                lemma_merge_fields_never_free(*r1, *r2);
            }
        },
    }
}

proof fn lemma_insert_never_free(f: Fields, k: Seq<char>, t: Shape, o: bool)
    requires
        f.never_free(),
        t.never_free(),
    ensures
        insert_field(f, k, t, o).never_free(),
    decreases f,
{
    if let Fields::Cons(k1, _, _, rest) = f {
        if !key_lt(k, k1) && k != k1 {
            lemma_insert_never_free(*rest, k, t, o);
        }
    }
}

/// The shape inferred from a JSON value has no `Never` inside.
pub proof fn lemma_infer_never_free(v: JsonValue)
    ensures
        infer_shape(v).never_free(),
    decreases v,
{
    match v {
        JsonValue::Array(items) => {
            if !crate::inference::all_scalars(items@) {
                lemma_fold_never_free(items@);
            }
        },
        JsonValue::Object(entries) => lemma_entry_fields_never_free(entries@),
        _ => {},
    }
}

proof fn lemma_fold_never_free(vs: Seq<JsonValue>)
    requires
        vs.len() > 0,
    ensures
        fold_items(vs).never_free(),
    decreases vs,
{
    let pre = vs.subrange(0, vs.len() - 1);
    lemma_infer_never_free(vs[vs.len() - 1]);
    if pre.len() > 0 {
        lemma_fold_never_free(pre);
        lemma_merge_never_free(fold_items(pre), infer_shape(vs[vs.len() - 1]));
    }
}

proof fn lemma_entry_fields_never_free(es: Seq<(String, JsonValue)>)
    ensures
        entry_fields(es).never_free(),
    decreases es,
{
    if es.len() > 0 {
        let pre = es.subrange(0, es.len() - 1);
        lemma_entry_fields_never_free(pre);
        lemma_infer_never_free(es[es.len() - 1].1);
        lemma_insert_never_free(
            entry_fields(pre),
            es[es.len() - 1].0@,
            infer_shape(es[es.len() - 1].1),
            false,
        );
    }
}

/// Merging is commutative: `merge(a, b) == merge(b, a)` for all shapes.
pub proof fn law_merge_commutative(a: Shape, b: Shape)
    ensures
        merge_shapes(a, b) == merge_shapes(b, a),
    decreases a.size() + b.size(),
{
    match (a, b) {
        (Shape::Array(i), Shape::Array(j)) => law_merge_commutative(*i, *j),
        (Shape::Object(f), Shape::Object(g)) => lemma_merge_fields_commutative(f, g),
        (Shape::Nullable(i), Shape::Nullable(j)) => law_merge_commutative(*i, *j),
        _ => {},
    }
}

/// Key-wise merging of property lists is commutative.
pub proof fn lemma_merge_fields_commutative(f: Fields, g: Fields)
    ensures
        merge_fields(f, g) == merge_fields(g, f),
    decreases f.size() + g.size(),
{
    match (f, g) {
        (Fields::Cons(k1, t1, _, r1), Fields::Cons(k2, t2, _, r2)) => {
            lemma_key_order(k1, k2);
            if key_lt(k1, k2) {
                lemma_merge_fields_commutative(*r1, g);
            } else if key_lt(k2, k1) {
                lemma_merge_fields_commutative(f, *r2);
            } else {
                law_merge_commutative(*t1, *t2);
                lemma_merge_fields_commutative(*r1, *r2);
            }
        },
        _ => {},
    }
}

/// `Never` is the identity of merging and `Any` absorbs everything:
/// `merge(Never, x) == x` and `merge(Any, x) == Any`, on either side.
pub proof fn law_merge_never_identity_any_absorbing(x: Shape)
    ensures
        merge_shapes(Shape::Never, x) == x,
        merge_shapes(x, Shape::Never) == x,
        merge_shapes(Shape::Any, x) == Shape::Any,
        merge_shapes(x, Shape::Any) == Shape::Any,
{
}

/// Two sorted property lists that record the same definition under every key
/// are the same list.
pub proof fn lemma_sorted_fields_determined(f: Fields, g: Fields)
    requires
        fields_sorted(f),
        fields_sorted(g),
        forall|k: Seq<char>| lookup(f, k) == lookup(g, k),
    ensures
        f == g,
    decreases f,
{
    match (f, g) {
        (Fields::Nil, Fields::Nil) => {},
        (Fields::Nil, Fields::Cons(k2, _, _, _)) => {
            assert(lookup(g, k2) is Some);
        },
        (Fields::Cons(k1, _, _, _), Fields::Nil) => {
            assert(lookup(f, k1) is Some);
        },
        (Fields::Cons(k1, t1, o1, r1), Fields::Cons(k2, t2, o2, r2)) => {
            lemma_key_order(k1, k2);
            if key_lt(k1, k2) {
                lemma_sorted_all_after(g, k1);
                lemma_all_after_lookup(g, k1);
                assert(lookup(f, k1) is Some);
            } else if key_lt(k2, k1) {
                lemma_sorted_all_after(f, k2);
                lemma_all_after_lookup(f, k2);
                assert(lookup(g, k2) is Some);
            } else {
                assert(lookup(f, k1) == Some((*t1, o1)));
                lemma_sorted_all_after(*r1, k1);
                lemma_all_after_lookup(*r1, k1);
                lemma_sorted_all_after(*r2, k1);
                lemma_all_after_lookup(*r2, k1);
                assert forall|k: Seq<char>| lookup(*r1, k) == lookup(*r2, k) by {
                    if k != k1 {
                        assert(lookup(f, k) == lookup(*r1, k));
                        assert(lookup(g, k) == lookup(*r2, k));
                    }
                }
                lemma_sorted_fields_determined(*r1, *r2);
            }
        },
    }
}

/// The rendering of an object depends only on which definition each key
/// has, never on the order in which properties were added: properties are
/// always listed in key order.
pub proof fn law_object_render_independent_of_order(f: Fields, g: Fields)
    requires
        fields_sorted(f),
        fields_sorted(g),
        forall|k: Seq<char>| lookup(f, k) == lookup(g, k),
    ensures
        render(Shape::Object(f)) == render(Shape::Object(g)),
{
    lemma_sorted_fields_determined(f, g);
}

/// Adding two properties with different keys in either order gives the same
/// object, hence the same rendering.
pub proof fn law_insertion_order_irrelevant(
    f: Fields,
    k1: Seq<char>,
    t1: Shape,
    o1: bool,
    k2: Seq<char>,
    t2: Shape,
    o2: bool,
)
    requires
        fields_sorted(f),
        k1 != k2,
    ensures
        insert_field(insert_field(f, k1, t1, o1), k2, t2, o2) == insert_field(
            insert_field(f, k2, t2, o2),
            k1,
            t1,
            o1,
        ),
        render(Shape::Object(insert_field(insert_field(f, k1, t1, o1), k2, t2, o2))) == render(
            Shape::Object(insert_field(insert_field(f, k2, t2, o2), k1, t1, o1)),
        ),
{
    let a1 = insert_field(f, k1, t1, o1);
    let b1 = insert_field(f, k2, t2, o2);
    lemma_insert_field(f, k1, t1, o1);
    lemma_insert_field(f, k2, t2, o2);
    lemma_insert_field(a1, k2, t2, o2);
    lemma_insert_field(b1, k1, t1, o1);
    let a = insert_field(a1, k2, t2, o2);
    let b = insert_field(b1, k1, t1, o1);
    assert forall|k: Seq<char>| lookup(a, k) == lookup(b, k) by {
        if k == k1 {
            assert(lookup(a, k) == lookup(a1, k));
            assert(lookup(a1, k) == Some((t1, o1)));
            assert(lookup(b, k) == Some((t1, o1)));
        } else if k == k2 {
            assert(lookup(b, k) == lookup(b1, k));
            assert(lookup(b1, k) == Some((t2, o2)));
            assert(lookup(a, k) == Some((t2, o2)));
        } else {
            assert(lookup(a, k) == lookup(a1, k));
            assert(lookup(b, k) == lookup(b1, k));
            assert(lookup(a1, k) == lookup(f, k));
            assert(lookup(b1, k) == lookup(f, k));
        }
    }
    lemma_sorted_fields_determined(a, b);
}

/// A shape made of primitive kinds only: a kind, a union of kinds, `Any` or
/// `Never`.
pub open spec fn is_scalar_shape(s: Shape) -> bool {
    match s {
        Shape::Prim(_) | Shape::Union(_) | Shape::Any | Shape::Never => true,
        _ => false,
    }
}

/// The kinds a scalar shape stands for.
spec fn scalar_kinds(s: Shape) -> Seq<PrimitiveType> {
    match s {
        Shape::Prim(p) => seq![p],
        Shape::Union(ks) => ks,
        _ => seq![],
    }
}

proof fn lemma_scalar_merge(a: Shape, b: Shape)
    requires
        a is Prim || a is Union,
        b is Prim || b is Union,
    ensures
        merge_shapes(a, b) is Prim || merge_shapes(a, b) is Union,
        forall|p: PrimitiveType|
            #[trigger] scalar_kinds(merge_shapes(a, b)).contains(p) <==> has_kind(
                scalar_kinds(a),
                scalar_kinds(b),
                p,
            ),
        merge_shapes(a, b) is Prim <==> (a is Prim && b is Prim && a == b),
{
    lemma_ordered_kinds_contains(scalar_kinds(a), scalar_kinds(b));
    if a is Prim && b is Prim && a == b {
        assert forall|p: PrimitiveType|
            #[trigger] scalar_kinds(merge_shapes(a, b)).contains(p) <==> has_kind(
                scalar_kinds(a),
                scalar_kinds(b),
                p,
            ) by {
            if scalar_kinds(a).contains(p) {
                assert(scalar_kinds(a)[0] == p);
            }
        }
    } else {
        assert(merge_shapes(a, b) == Shape::Union(ordered_kinds(scalar_kinds(a), scalar_kinds(b))));
    }
}

proof fn lemma_same_kinds_same_union(s: Seq<PrimitiveType>, t: Seq<PrimitiveType>, u: Seq<PrimitiveType>, v: Seq<PrimitiveType>)
    requires
        forall|p: PrimitiveType| has_kind(s, t, p) <==> has_kind(u, v, p),
    ensures
        ordered_kinds(s, t) == ordered_kinds(u, v),
{
    assert(has_kind(s, t, PrimitiveType::String) == has_kind(u, v, PrimitiveType::String));
    assert(has_kind(s, t, PrimitiveType::Number) == has_kind(u, v, PrimitiveType::Number));
    assert(has_kind(s, t, PrimitiveType::Boolean) == has_kind(u, v, PrimitiveType::Boolean));
    assert(has_kind(s, t, PrimitiveType::Null) == has_kind(u, v, PrimitiveType::Null));
}

/// On shapes made of primitive kinds only (kinds, unions, `Any`, `Never`),
/// merging is associative: `merge(merge(a, b), c) == merge(a, merge(b, c))`.
/// With commutativity, folding such shapes gives the same result in any
/// order and under any grouping.
pub proof fn law_merge_associative_on_scalars(a: Shape, b: Shape, c: Shape)
    requires
        is_scalar_shape(a),
        is_scalar_shape(b),
        is_scalar_shape(c),
    ensures
        merge_shapes(merge_shapes(a, b), c) == merge_shapes(a, merge_shapes(b, c)),
{
    if !(a is Any || b is Any || c is Any || a is Never || b is Never || c is Never) {
        lemma_scalar_merge(a, b);
        lemma_scalar_merge(b, c);
        let ab = merge_shapes(a, b);
        let bc = merge_shapes(b, c);
        lemma_scalar_merge(ab, c);
        lemma_scalar_merge(a, bc);
        let l = merge_shapes(ab, c);
        let r = merge_shapes(a, bc);
        if l is Prim {
            assert(r is Prim);
        } else {
            assert(l == Shape::Union(ordered_kinds(scalar_kinds(ab), scalar_kinds(c))));
            assert(r == Shape::Union(ordered_kinds(scalar_kinds(a), scalar_kinds(bc))));
            lemma_same_kinds_same_union(scalar_kinds(ab), scalar_kinds(c), scalar_kinds(a), scalar_kinds(bc));
        }
    }
}

/// Merging a well-formed shape with itself returns it unchanged.
pub proof fn law_merge_idempotent(a: Shape)
    requires
        a.wf(),
    ensures
        merge_shapes(a, a) == a,
    decreases a.size(),
{
    match a {
        Shape::Union(s) => {
            lemma_ordered_kinds_contains(s, s);
            lemma_ordered_kinds_sorted(s, s);
            lemma_sorted_kinds_unique(ordered_kinds(s, s), s);
        },
        Shape::Array(i) => law_merge_idempotent(*i),
        Shape::Object(f) => lemma_merge_fields_idempotent(f),
        Shape::Nullable(i) => law_merge_idempotent(*i),
        _ => {},
    }
}

proof fn lemma_merge_fields_idempotent(f: Fields)
    requires
        f.wf(),
    ensures
        merge_fields(f, f) == f,
    decreases f.size(),
{
    if let Fields::Cons(k, t, o, rest) = f {
        lemma_key_order(k, k);
        law_merge_idempotent(*t);
        lemma_merge_fields_idempotent(*rest);
    }
}

} // verus!
