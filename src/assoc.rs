use vstd::prelude::*;
use crate::invariants::{
    lemma_kinds_shape_wf, lemma_merge_fields_wf, lemma_ordered_kinds_contains,
    lemma_ordered_kinds_sorted, lemma_sorted_kinds_unique,
};
use crate::keys::{key_lt, lemma_key_order, lemma_key_trans};
use crate::laws::{
    law_merge_associative_on_scalars, law_merge_commutative, law_merge_idempotent,
    lemma_merge_fields_commutative,
};
use crate::invariants::lemma_merge_wf;
use crate::merge::{has_kind, kinds_shape, mark_optional, merge_fields, merge_shapes, ordered_kinds};
use crate::types::{Fields, PrimitiveType, Shape};

verus! {

/// The kinds of a scalar shape.
spec fn kinds_of(s: Shape) -> Seq<PrimitiveType> {
    match s {
        Shape::Prim(p) => seq![p],
        Shape::Union(ks) => ks,
        _ => seq![],
    }
}

/// The kinds shape of a tuple's kinds.
spec fn tuple_kinds(s: Seq<PrimitiveType>) -> Shape {
    kinds_shape(s, seq![])
}

proof fn lemma_kinds_shape_facts(a: Seq<PrimitiveType>, b: Seq<PrimitiveType>)
    requires
        a.len() > 0 || b.len() > 0,
    ensures
        kinds_shape(a, b).wf(),
        kinds_shape(a, b) is Prim || kinds_shape(a, b) is Union,
        forall|p: PrimitiveType| #[trigger] kinds_of(kinds_shape(a, b)).contains(p) <==> has_kind(a, b, p),
{
    lemma_kinds_shape_wf(a, b);
    lemma_ordered_kinds_contains(a, b);
    let ks = ordered_kinds(a, b);
    if ks.len() == 1 {
        assert forall|p: PrimitiveType| #[trigger] kinds_of(kinds_shape(a, b)).contains(p) <==> has_kind(a, b, p) by {
            if ks.contains(p) {
                let i = choose|i: int| 0 <= i < ks.len() && ks[i] == p;
                assert(i == 0);
                assert(seq![ks[0]][0] == p);
            }
            if seq![ks[0]].contains(p) {
                let i = choose|i: int| 0 <= i < 1 && seq![ks[0]][i] == p;
                assert(ks[0] == p);
            }
        }
        assert(ks.contains(ks[0]));
    }
}

/// Merging two kinds shapes gives the kinds shape of all their kinds.
#[verifier::rlimit(50)]
#[verifier::spinoff_prover]
proof fn lemma_kinds_merge(
    a: Seq<PrimitiveType>,
    b: Seq<PrimitiveType>,
    c: Seq<PrimitiveType>,
    d: Seq<PrimitiveType>,
    x: Seq<PrimitiveType>,
    y: Seq<PrimitiveType>,
)
    requires
        a.len() > 0 || b.len() > 0,
        c.len() > 0 || d.len() > 0,
        forall|p: PrimitiveType| has_kind(x, y, p) <==> (has_kind(a, b, p) || has_kind(c, d, p)),
    ensures
        merge_shapes(kinds_shape(a, b), kinds_shape(c, d)) == kinds_shape(x, y),
{
    let k1 = kinds_shape(a, b);
    let k2 = kinds_shape(c, d);
    lemma_kinds_shape_facts(a, b);
    lemma_kinds_shape_facts(c, d);
    assert(x.len() > 0 || y.len() > 0) by {
        let p = if a.len() > 0 { a[0] } else { b[0] };
        assert(has_kind(a, b, p));
    }
    lemma_kinds_shape_facts(x, y);
    let kx = kinds_shape(x, y);
    lemma_ordered_kinds_contains(kinds_of(k1), kinds_of(k2));
    if k1 is Prim && k2 is Prim && k1 == k2 {
        let p = k1->Prim_0;
        assert(kinds_of(k1).contains(p)) by {
            assert(kinds_of(k1)[0] == p);
        }
        assert(kx is Prim) by {
            if kx is Union {
                let ks = ordered_kinds(x, y);
                let q = if ks[0] == p { ks[1] } else { ks[0] };
                assert(crate::types::rank(ks[0]) < crate::types::rank(ks[1]));
                assert(ks.contains(q));
                assert(kinds_of(kx).contains(q));
                assert(has_kind(a, b, q) || has_kind(c, d, q));
                assert(kinds_of(k1).contains(q) || kinds_of(k2).contains(q));
                let i = choose|i: int| 0 <= i < kinds_of(k1).len() && kinds_of(k1)[i] == q;
                assert(q == p);
            }
        }
        assert(kinds_of(kx).contains(p));
        let q = kx->Prim_0;
        assert(kinds_of(kx)[0] == q);
        assert(kinds_of(kx).contains(q));
        assert(kinds_of(k1).contains(q) || kinds_of(k2).contains(q));
        let i = choose|i: int| 0 <= i < kinds_of(k1).len() && kinds_of(k1)[i] == q;
    } else {
        let u = ordered_kinds(kinds_of(k1), kinds_of(k2));
        assert(merge_shapes(k1, k2) == Shape::Union(u));
        lemma_ordered_kinds_sorted(kinds_of(k1), kinds_of(k2));
        lemma_ordered_kinds_sorted(x, y);
        lemma_ordered_kinds_contains(x, y);
        lemma_sorted_kinds_unique(u, ordered_kinds(x, y));
        assert(kx is Union) by {
            if kx is Prim {
                let p = kx->Prim_0;
                assert(kinds_of(kx)[0] == p);
                if k1 is Union {
                    let s = k1->Union_0;
                    assert(crate::types::rank(s[0]) < crate::types::rank(s[1]));
                    assert(s.contains(s[0]) && s.contains(s[1]));
                    assert(kinds_of(kx).contains(s[0]) && kinds_of(kx).contains(s[1]));
                    let i = choose|i: int| 0 <= i < 1 && kinds_of(kx)[i] == s[0];
                    let j = choose|j: int| 0 <= j < 1 && kinds_of(kx)[j] == s[1];
                } else if k2 is Union {
                    let s = k2->Union_0;
                    assert(crate::types::rank(s[0]) < crate::types::rank(s[1]));
                    assert(s.contains(s[0]) && s.contains(s[1]));
                    assert(kinds_of(kx).contains(s[0]) && kinds_of(kx).contains(s[1]));
                    let i = choose|i: int| 0 <= i < 1 && kinds_of(kx)[i] == s[0];
                    let j = choose|j: int| 0 <= j < 1 && kinds_of(kx)[j] == s[1];
                } else {
                    let p1 = k1->Prim_0;
                    let p2 = k2->Prim_0;
                    assert(kinds_of(k1)[0] == p1 && kinds_of(k2)[0] == p2);
                    assert(kinds_of(k1).contains(p1) && kinds_of(k2).contains(p2));
                    assert(kinds_of(kx).contains(p1) && kinds_of(kx).contains(p2));
                    let i = choose|i: int| 0 <= i < 1 && kinds_of(kx)[i] == p1;
                    let j = choose|j: int| 0 <= j < 1 && kinds_of(kx)[j] == p2;
                }
            }
        }
    }
}

proof fn lemma_ks_same(a: Seq<PrimitiveType>, b: Seq<PrimitiveType>, x: Seq<PrimitiveType>, y: Seq<PrimitiveType>)
    requires
        forall|p: PrimitiveType| has_kind(a, b, p) <==> has_kind(x, y, p),
    ensures
        kinds_shape(a, b) == kinds_shape(x, y),
{
    assert(has_kind(a, b, PrimitiveType::String) == has_kind(x, y, PrimitiveType::String));
    assert(has_kind(a, b, PrimitiveType::Number) == has_kind(x, y, PrimitiveType::Number));
    assert(has_kind(a, b, PrimitiveType::Boolean) == has_kind(x, y, PrimitiveType::Boolean));
    assert(has_kind(a, b, PrimitiveType::Null) == has_kind(x, y, PrimitiveType::Null));
}

proof fn lemma_mark_twice(f: Fields)
    ensures
        mark_optional(mark_optional(f)) == mark_optional(f),
    decreases f,
{
    if let Fields::Cons(_, _, _, rest) = f {
        lemma_mark_twice(*rest);
    }
}

proof fn lemma_merge_mark_left(g: Fields, h: Fields)
    ensures
        merge_fields(mark_optional(g), h) == mark_optional(merge_fields(g, h)),
    decreases g.size() + h.size(),
{
    match (g, h) {
        (Fields::Nil, _) => lemma_mark_twice(h),
        (_, Fields::Nil) => lemma_mark_twice(g),
        (Fields::Cons(k1, _, _, r1), Fields::Cons(k2, _, _, r2)) => {
            lemma_key_order(k1, k2);
            if key_lt(k1, k2) {
                lemma_merge_mark_left(*r1, h);
            } else if key_lt(k2, k1) {
                lemma_merge_mark_left(g, *r2);
            } else {
                lemma_merge_mark_left(*r1, *r2);
            }
        },
    }
}

proof fn lemma_merge_mark_right(f: Fields, h: Fields)
    ensures
        merge_fields(f, mark_optional(h)) == mark_optional(merge_fields(f, h)),
{
    lemma_merge_fields_commutative(f, mark_optional(h));
    lemma_merge_mark_left(h, f);
    lemma_merge_fields_commutative(h, f);
}

proof fn lemma_fields_assoc(f: Fields, g: Fields, h: Fields)
    requires
        f.wf(),
        g.wf(),
        h.wf(),
    ensures
        merge_fields(merge_fields(f, g), h) == merge_fields(f, merge_fields(g, h)),
    decreases f.size() + g.size() + h.size(), 0nat,
{
    if f is Nil {
        lemma_merge_mark_left(g, h);
    } else if g is Nil {
        lemma_merge_mark_left(f, h);
        lemma_merge_mark_right(f, h);
    } else if h is Nil {
        lemma_merge_mark_right(f, g);
    } else {
        let (k1, t1, o1, r1) = (f->Cons_0, f->Cons_1, f->Cons_2, f->Cons_3);
        let (k2, t2, o2, r2) = (g->Cons_0, g->Cons_1, g->Cons_2, g->Cons_3);
        let (k3, t3, o3, r3) = (h->Cons_0, h->Cons_1, h->Cons_2, h->Cons_3);
        lemma_key_order(k1, k2);
        lemma_key_order(k2, k3);
        lemma_key_order(k1, k3);
        lemma_merge_fields_wf(g, h);
        lemma_merge_fields_wf(*r1, g);
        lemma_merge_fields_wf(f, *r2);
        let gh = merge_fields(g, h);
        if key_lt(k1, k2) {
            if key_lt(k1, k3) {
                lemma_fields_assoc(*r1, g, h);
            } else if key_lt(k3, k1) {
                lemma_key_trans(k3, k1, k2);
                lemma_fields_assoc(f, g, *r3);
            } else {
                lemma_fields_assoc(*r1, g, *r3);
            }
        } else if key_lt(k2, k1) {
            if key_lt(k2, k3) {
                lemma_fields_assoc(f, *r2, h);
            } else if key_lt(k3, k2) {
                lemma_key_trans(k3, k2, k1);
                lemma_fields_assoc(f, g, *r3);
            } else {
                lemma_fields_assoc(f, *r2, *r3);
            }
        } else {
            if key_lt(k1, k3) {
                lemma_fields_assoc(*r1, *r2, h);
            } else if key_lt(k3, k1) {
                lemma_fields_assoc(f, g, *r3);
            } else {
                law_merge_associative(*t1, *t2, *t3);
                lemma_fields_assoc(*r1, *r2, *r3);
            }
        }
    }
}

/// Null and nullable shapes, objects, arrays and tuples: the shapes that
/// split into a null flag and a core.
spec fn nullish(s: Shape) -> bool {
    s == Shape::Prim(PrimitiveType::Null) || s.structured() || s is Nullable
}

/// Whether the shape admits null.
spec fn null_flag(s: Shape) -> bool {
    s == Shape::Prim(PrimitiveType::Null) || s is Nullable
}

/// The shape without null: `Never` for null itself.
spec fn core_of(s: Shape) -> Shape {
    match s {
        Shape::Nullable(i) => *i,
        Shape::Prim(PrimitiveType::Null) => Shape::Never,
        _ => s,
    }
}

/// Puts a null flag and a core back together.
spec fn compose(f: bool, m: Shape) -> Shape {
    if m is Any {
        Shape::Any
    } else if !f {
        m
    } else if m is Never {
        Shape::Prim(PrimitiveType::Null)
    } else {
        Shape::Nullable(Box::new(m))
    }
}

/// On null, nullable and structured shapes, merging merges the cores and
/// admits null where either side does.
proof fn lemma_decompose(a: Shape, b: Shape)
    requires
        a.wf(),
        b.wf(),
        nullish(a),
        nullish(b),
    ensures
        merge_shapes(a, b) == compose(null_flag(a) || null_flag(b), merge_shapes(core_of(a), core_of(b))),
        core_of(a) is Never || core_of(a).structured(),
        core_of(a).wf(),
{
    let null = Shape::Prim(PrimitiveType::Null);
    let m = merge_shapes(core_of(a), core_of(b));
    if a == null && b == null {
    } else if a == null {
        assert(m == core_of(b));
    } else if b == null {
        assert(m == core_of(a));
    } else {
        assert(!(m is Never));
        match (a, b) {
            (Shape::Nullable(i), Shape::Nullable(j)) => {},
            (Shape::Nullable(i), _) => assert(m == merge_shapes(*i, b)),
            (_, Shape::Nullable(j)) => {
                law_merge_commutative(*j, a);
            },
            _ => {},
        }
    }
}

proof fn lemma_compose_parts(f: bool, m: Shape)
    requires
        m is Never || m.structured(),
        m is Never ==> f,
        m.wf(),
    ensures
        nullish(compose(f, m)),
        null_flag(compose(f, m)) == f,
        core_of(compose(f, m)) == m,
        compose(f, m).wf(),
{
}

/// Associativity on cores: `Never`, objects, arrays and tuples.
proof fn lemma_core_assoc(a: Shape, b: Shape, c: Shape)
    requires
        a.wf(),
        b.wf(),
        c.wf(),
        a is Never || a.structured(),
        b is Never || b.structured(),
        c is Never || c.structured(),
    ensures
        merge_shapes(merge_shapes(a, b), c) == merge_shapes(a, merge_shapes(b, c)),
        merge_shapes(a, b) is Never || merge_shapes(a, b).structured() || merge_shapes(a, b) is Any,
        merge_shapes(a, b) is Never ==> a is Never && b is Never,
    decreases a.size() + b.size() + c.size(), 1nat,
{
    let list_a = a is Tuple || a is Array;
    let list_b = b is Tuple || b is Array;
    let list_c = c is Tuple || c is Array;
    if a is Never || b is Never || c is Never {
    } else if a is Object && b is Object && c is Object {
        lemma_fields_assoc(a->Object_0, b->Object_0, c->Object_0);
    } else if list_a && list_b && list_c {
        lemma_lists_assoc(a, b, c);
    }
}

/// Merging is associative on well-formed shapes:
/// `merge(merge(a, b), c) == merge(a, merge(b, c))`. With commutativity,
/// folding shapes gives the same result in any order and under any grouping.
pub proof fn law_merge_associative(a: Shape, b: Shape, c: Shape)
    requires
        a.wf(),
        b.wf(),
        c.wf(),
    ensures
        merge_shapes(merge_shapes(a, b), c) == merge_shapes(a, merge_shapes(b, c)),
    decreases a.size() + b.size() + c.size(), 2nat,
{
    let scalar_a = a is Prim || a is Union;
    let scalar_b = b is Prim || b is Union;
    let scalar_c = c is Prim || c is Union;
    if a is Any || b is Any || c is Any || a is Never || b is Never || c is Never {
    } else if scalar_a && scalar_b && scalar_c {
        law_merge_associative_on_scalars(a, b, c);
    } else if nullish(a) && nullish(b) && nullish(c) {
        let (ca, cb, cc) = (core_of(a), core_of(b), core_of(c));
        lemma_decompose(a, b);
        lemma_decompose(b, c);
        lemma_core_assoc(ca, cb, cc);
        lemma_core_assoc(cb, cc, ca);
        let mab = merge_shapes(ca, cb);
        let mbc = merge_shapes(cb, cc);
        lemma_merge_wf(ca, cb);
        lemma_merge_wf(cb, cc);
        let fa = null_flag(a);
        let fb = null_flag(b);
        let fc = null_flag(c);
        if !(mab is Any) {
            lemma_compose_parts(fa || fb, mab);
            lemma_decompose(merge_shapes(a, b), c);
        }
        if !(mbc is Any) {
            lemma_compose_parts(fb || fc, mbc);
            lemma_decompose(a, merge_shapes(b, c));
        }
    }
}

proof fn lemma_tuple_kinds_facts(s: Seq<PrimitiveType>)
    requires
        s.len() > 0,
    ensures
        tuple_kinds(s).wf(),
        tuple_kinds(s).size() == 1,
{
    lemma_kinds_shape_facts(s, seq![]);
}

#[verifier::rlimit(100)]
#[verifier::spinoff_prover]
proof fn lemma_lists_assoc(a: Shape, b: Shape, c: Shape)
    requires
        a.wf(),
        b.wf(),
        c.wf(),
        a is Tuple || a is Array,
        b is Tuple || b is Array,
        c is Tuple || c is Array,
    ensures
        merge_shapes(merge_shapes(a, b), c) == merge_shapes(a, merge_shapes(b, c)),
    decreases a.size() + b.size() + c.size(), 0nat,
{
    let e: Seq<PrimitiveType> = seq![];
    match (a, b, c) {
        (Shape::Array(i), Shape::Array(j), Shape::Array(k)) => {
            law_merge_associative(*i, *j, *k);
        },
        (Shape::Tuple(s), Shape::Array(j), Shape::Array(k)) => {
            if s.len() > 0 {
                lemma_tuple_kinds_facts(s);
                law_merge_associative(tuple_kinds(s), *j, *k);
            }
        },
        (Shape::Array(i), Shape::Tuple(s), Shape::Array(k)) => {
            if s.len() > 0 {
                lemma_tuple_kinds_facts(s);
                law_merge_commutative(tuple_kinds(s), *i);
                law_merge_associative(*i, tuple_kinds(s), *k);
            }
        },
        (Shape::Array(i), Shape::Array(j), Shape::Tuple(u)) => {
            if u.len() > 0 {
                lemma_tuple_kinds_facts(u);
                law_merge_associative(tuple_kinds(u), *i, *j);
                law_merge_commutative(tuple_kinds(u), *i);
                law_merge_associative(*i, tuple_kinds(u), *j);
            }
        },
        (Shape::Tuple(s), Shape::Tuple(t), Shape::Array(k)) => {
            if t.len() == 0 {
                assert(t =~= e);
                if s.len() == 0 {
                    assert(s =~= t);
                } else {
                    assert(kinds_shape(s, t) == tuple_kinds(s));
                }
            } else if s == t {
                lemma_tuple_kinds_facts(s);
                law_merge_associative(tuple_kinds(s), tuple_kinds(s), *k);
                law_merge_idempotent(tuple_kinds(s));
            } else if s.len() == 0 {
                lemma_ks_same(s, t, t, e);
            } else {
                lemma_tuple_kinds_facts(s);
                lemma_tuple_kinds_facts(t);
                law_merge_associative(tuple_kinds(s), tuple_kinds(t), *k);
                lemma_kinds_merge(s, e, t, e, s, t);
            }
        },
        (Shape::Tuple(s), Shape::Array(j), Shape::Tuple(u)) => {
            if s.len() > 0 && u.len() > 0 {
                lemma_tuple_kinds_facts(s);
                lemma_tuple_kinds_facts(u);
                law_merge_associative(tuple_kinds(u), tuple_kinds(s), *j);
                law_merge_commutative(tuple_kinds(u), tuple_kinds(s));
                law_merge_associative(tuple_kinds(s), tuple_kinds(u), *j);
            }
        },
        (Shape::Array(i), Shape::Tuple(t), Shape::Tuple(u)) => {
            if t == u {
                if t.len() > 0 {
                    lemma_tuple_kinds_facts(t);
                    law_merge_associative(tuple_kinds(t), tuple_kinds(t), *i);
                    law_merge_idempotent(tuple_kinds(t));
                }
            } else if t.len() == 0 {
                assert(u.len() > 0) by {
                    if u.len() == 0 {
                        assert(t =~= u);
                    }
                }
                lemma_ks_same(t, u, u, e);
                lemma_tuple_kinds_facts(u);
                law_merge_commutative(*i, tuple_kinds(u));
            } else if u.len() == 0 {
                assert(u =~= e);
                lemma_tuple_kinds_facts(t);
                law_merge_commutative(*i, tuple_kinds(t));
            } else {
                lemma_tuple_kinds_facts(t);
                lemma_tuple_kinds_facts(u);
                law_merge_associative(tuple_kinds(u), tuple_kinds(t), *i);
                lemma_kinds_merge(u, e, t, e, t, u);
                law_merge_commutative(*i, kinds_shape(t, u));
            }
        },
        (Shape::Tuple(s), Shape::Tuple(t), Shape::Tuple(u)) => {
            if s == t && t == u {
            } else if s == t {
                if s.len() > 0 {
                    lemma_kinds_merge(s, e, t, u, s, u);
                }
            } else if t == u {
                if u.len() > 0 {
                    lemma_kinds_merge(u, e, s, t, s, t);
                }
            } else if s.len() == 0 && u.len() == 0 {
                assert(s =~= e && u =~= e);
                lemma_ks_same(s, t, t, u);
            } else if s.len() == 0 {
                assert(t.len() > 0) by {
                    if t.len() == 0 {
                        assert(s =~= t);
                    }
                }
                lemma_kinds_merge(u, e, s, t, t, u);
            } else if u.len() == 0 {
                assert(u =~= e);
                assert(t.len() > 0) by {
                    if t.len() == 0 {
                        assert(t =~= u);
                    }
                }
                lemma_kinds_merge(s, e, t, u, s, t);
            } else if t.len() == 0 {
                assert(t =~= e);
                lemma_ks_same(t, u, u, e);
                lemma_tuple_kinds_facts(s);
                lemma_tuple_kinds_facts(u);
                law_merge_commutative(tuple_kinds(u), tuple_kinds(s));
            } else {
                lemma_kinds_merge(s, e, t, e, s, t);
                lemma_kinds_merge(t, e, u, e, t, u);
                lemma_kinds_shape_facts(s, e);
                lemma_kinds_shape_facts(t, e);
                lemma_kinds_shape_facts(u, e);
                law_merge_commutative(tuple_kinds(u), merge_shapes(tuple_kinds(s), tuple_kinds(t)));
                law_merge_associative_on_scalars(tuple_kinds(s), tuple_kinds(t), tuple_kinds(u));
            }
        },
        _ => {},
    }
}

/// Shapes merged from left to right, starting from `Never`.
pub open spec fn fold_shapes(ss: Seq<Shape>) -> Shape
    decreases ss.len(),
{
    if ss.len() == 0 {
        Shape::Never
    } else {
        merge_shapes(fold_shapes(ss.drop_last()), ss.last())
    }
}

/// Every shape is well formed.
pub open spec fn all_wf(ss: Seq<Shape>) -> bool {
    forall|i: int| 0 <= i < ss.len() ==> (#[trigger] ss[i]).wf()
}

proof fn lemma_fold_wf(ss: Seq<Shape>)
    requires
        all_wf(ss),
    ensures
        fold_shapes(ss).wf(),
    decreases ss.len(),
{
    if ss.len() > 0 {
        let d = ss.drop_last();
        assert(all_wf(d)) by {
            assert forall|i: int| 0 <= i < d.len() implies (#[trigger] d[i]).wf() by {
                assert(d[i] == ss[i]);
            }
        }
        lemma_fold_wf(d);
        assert(ss.last() == ss[ss.len() - 1]);
        lemma_merge_wf(fold_shapes(d), ss.last());
    }
}

proof fn lemma_remove_wf(ss: Seq<Shape>, i: int)
    requires
        all_wf(ss),
        0 <= i < ss.len(),
    ensures
        all_wf(ss.remove(i)),
{
    let r = ss.remove(i);
    assert forall|j: int| 0 <= j < r.len() implies (#[trigger] r[j]).wf() by {
        if j < i {
            assert(r[j] == ss[j]);
        } else {
            assert(r[j] == ss[j + 1]);
        }
    }
}

/// Folding gives the same as folding without element `i` and merging it in
/// last.
proof fn lemma_fold_extract(ss: Seq<Shape>, i: int)
    requires
        all_wf(ss),
        0 <= i < ss.len(),
    ensures
        fold_shapes(ss) == merge_shapes(fold_shapes(ss.remove(i)), ss[i]),
    decreases ss.len(),
{
    let n = ss.len() - 1;
    if i == n {
        assert(ss.remove(i) =~= ss.drop_last());
    } else {
        let d = ss.drop_last();
        lemma_remove_wf(ss, n);
        assert(ss.remove(n) =~= d);
        lemma_fold_extract(d, i);
        lemma_remove_wf(d, i);
        let f = fold_shapes(d.remove(i));
        lemma_fold_wf(d.remove(i));
        let x = ss[i];
        let last = ss.last();
        assert(d[i] == x);
        assert(ss[n] == last);
        assert(ss.remove(i).drop_last() =~= d.remove(i));
        assert(ss.remove(i).last() == last);
        law_merge_associative(f, x, last);
        law_merge_commutative(x, last);
        law_merge_associative(f, last, x);
    }
}

/// On well-formed shapes, folding with merge gives the same
/// shape whatever the order of the shapes: two sequences holding the same
/// shapes, each as often, fold to the same result.
pub proof fn law_fold_order_independent(ss: Seq<Shape>, tt: Seq<Shape>)
    requires
        all_wf(ss),
        ss.to_multiset() == tt.to_multiset(),
    ensures
        fold_shapes(ss) == fold_shapes(tt),
    decreases ss.len(),
{
    broadcast use vstd::seq_lib::group_to_multiset_ensures;

    if tt.len() == 0 {
        assert(ss.to_multiset().len() == 0);
    } else {
        let n = tt.len() - 1;
        let x = tt[n];
        assert(tt.contains(x));
        assert(ss.to_multiset().count(x) > 0);
        assert(ss.contains(x));
        let i = choose|i: int| 0 <= i < ss.len() && ss[i] == x;
        lemma_fold_extract(ss, i);
        lemma_remove_wf(ss, i);
        assert(tt.remove(n) =~= tt.drop_last());
        assert(ss.remove(i).to_multiset() == tt.drop_last().to_multiset());
        law_fold_order_independent(ss.remove(i), tt.drop_last());
    }
}

} // verus!
