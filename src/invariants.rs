use vstd::prelude::*;
use crate::keys::{key_lt, lemma_key_order, lemma_key_trans};
use crate::merge::{has_kind, kinds_shape, mark_optional, merge_fields, merge_shapes, ordered_kinds};
use crate::inference::{all_scalars, count_kind, entry_fields, fold_items, infer_shape, sorted_kinds, JsonValue};
use crate::props::insert_field;
use crate::types::{kinds_sorted, kinds_strictly_sorted, rank, Fields, PrimitiveType, Shape};

verus! {

broadcast use {
    vstd::std_specs::vec::axiom_vec_index_decreases,
    vstd::std_specs::vec::axiom_vec_decreases_to_view,
    vstd::seq::axiom_seq_index_decreases,
    vstd::seq::axiom_seq_subrange_decreases,
};

/// A kind occurs in `ordered_kinds(a, b)` exactly when it occurs in `a` or
/// `b`.
pub proof fn lemma_ordered_kinds_contains(a: Seq<PrimitiveType>, b: Seq<PrimitiveType>)
    ensures
        forall|p: PrimitiveType|
            #[trigger] ordered_kinds(a, b).contains(p) <==> has_kind(a, b, p),
{
    let s1: Seq<PrimitiveType> = if has_kind(a, b, PrimitiveType::String) {
        seq![PrimitiveType::String]
    } else {
        seq![]
    };
    let s2: Seq<PrimitiveType> = if has_kind(a, b, PrimitiveType::Number) {
        seq![PrimitiveType::Number]
    } else {
        seq![]
    };
    let s3: Seq<PrimitiveType> = if has_kind(a, b, PrimitiveType::Boolean) {
        seq![PrimitiveType::Boolean]
    } else {
        seq![]
    };
    let s4: Seq<PrimitiveType> = if has_kind(a, b, PrimitiveType::Null) {
        seq![PrimitiveType::Null]
    } else {
        seq![]
    };
    let ks = ordered_kinds(a, b);
    assert(ks =~= s1 + s2 + s3 + s4);
    assert forall|p: PrimitiveType| #[trigger] ks.contains(p) <==> has_kind(a, b, p) by {
        if has_kind(a, b, p) {
            match p {
                PrimitiveType::String => assert(ks[0] == p),
                PrimitiveType::Number => assert(ks[s1.len() as int] == p),
                PrimitiveType::Boolean => assert(ks[(s1.len() + s2.len()) as int] == p),
                PrimitiveType::Null => assert(ks[(s1.len() + s2.len() + s3.len()) as int] == p),
            }
        }
        if ks.contains(p) {
            let i = choose|i: int| 0 <= i < ks.len() && ks[i] == p;
            assert(ks[i] == p);
        }
    }
}

/// `ordered_kinds` lists kinds in strictly increasing order.
pub proof fn lemma_ordered_kinds_sorted(a: Seq<PrimitiveType>, b: Seq<PrimitiveType>)
    ensures
        kinds_strictly_sorted(ordered_kinds(a, b)),
{
    let s1: Seq<PrimitiveType> = if has_kind(a, b, PrimitiveType::String) {
        seq![PrimitiveType::String]
    } else {
        seq![]
    };
    let s2: Seq<PrimitiveType> = if has_kind(a, b, PrimitiveType::Number) {
        seq![PrimitiveType::Number]
    } else {
        seq![]
    };
    let s3: Seq<PrimitiveType> = if has_kind(a, b, PrimitiveType::Boolean) {
        seq![PrimitiveType::Boolean]
    } else {
        seq![]
    };
    let s4: Seq<PrimitiveType> = if has_kind(a, b, PrimitiveType::Null) {
        seq![PrimitiveType::Null]
    } else {
        seq![]
    };
    let ks = ordered_kinds(a, b);
    assert(ks =~= s1 + s2 + s3 + s4);
    let n1 = s1.len() as int;
    let n2 = n1 + s2.len();
    let n3 = n2 + s3.len();
    assert forall|i: int| 0 <= i < ks.len() implies {
        &&& i < n1 ==> rank(#[trigger] ks[i]) == 0
        &&& n1 <= i < n2 ==> rank(ks[i]) == 1
        &&& n2 <= i < n3 ==> rank(ks[i]) == 2
        &&& n3 <= i ==> rank(ks[i]) == 3
    } by {}
}

/// A sequence holding two different kinds has at least two elements.
pub proof fn lemma_two_kinds_len(ks: Seq<PrimitiveType>, p: PrimitiveType, q: PrimitiveType)
    requires
        ks.contains(p),
        ks.contains(q),
        p != q,
    ensures
        ks.len() >= 2,
{
    let i = choose|i: int| 0 <= i < ks.len() && ks[i] == p;
    let j = choose|j: int| 0 <= j < ks.len() && ks[j] == q;
    assert(i != j);
}

/// Two strictly sorted sequences of kinds with the same members are equal.
pub proof fn lemma_sorted_kinds_unique(x: Seq<PrimitiveType>, y: Seq<PrimitiveType>)
    requires
        kinds_strictly_sorted(x),
        kinds_strictly_sorted(y),
        forall|p: PrimitiveType| x.contains(p) <==> y.contains(p),
    ensures
        x == y,
    decreases x.len(),
{
    if x.len() == 0 {
        if y.len() > 0 {
            assert(y.contains(y[0]));
        }
        assert(x =~= y);
    } else {
        assert(x.contains(x[0]));
        let j = choose|j: int| 0 <= j < y.len() && y[j] == x[0];
        assert(y.contains(y[0]));
        let i = choose|i: int| 0 <= i < x.len() && x[i] == y[0];
        if j > 0 {
            assert(rank(y[0]) < rank(y[j]));
            if i > 0 {
                assert(rank(x[0]) < rank(x[i]));
            }
            assert(false);
        }
        let x1 = x.drop_first();
        let y1 = y.drop_first();
        assert forall|p: PrimitiveType| x1.contains(p) <==> y1.contains(p) by {
            if x1.contains(p) {
                let a = choose|a: int| 0 <= a < x1.len() && x1[a] == p;
                assert(x[a + 1] == p);
                assert(rank(x[0]) < rank(x[a + 1]));
                assert(y.contains(p));
                let b = choose|b: int| 0 <= b < y.len() && y[b] == p;
                assert(b != 0);
                assert(y1[b - 1] == p);
            }
            if y1.contains(p) {
                let a = choose|a: int| 0 <= a < y1.len() && y1[a] == p;
                assert(y[a + 1] == p);
                assert(rank(y[0]) < rank(y[a + 1]));
                assert(x.contains(p));
                let b = choose|b: int| 0 <= b < x.len() && x[b] == p;
                assert(b != 0);
                assert(x1[b - 1] == p);
            }
        }
        lemma_sorted_kinds_unique(x1, y1);
        assert(y[0] == x[0]);
        assert(x =~= seq![x[0]] + x1);
        assert(y =~= seq![y[0]] + y1);
    }
}

/// A union built by `ordered_kinds` from two different kinds is well formed.
proof fn lemma_union_wf(a: Seq<PrimitiveType>, b: Seq<PrimitiveType>, p: PrimitiveType, q: PrimitiveType)
    requires
        has_kind(a, b, p),
        has_kind(a, b, q),
        p != q,
    ensures
        Shape::Union(ordered_kinds(a, b)).wf(),
{
    lemma_ordered_kinds_contains(a, b);
    lemma_ordered_kinds_sorted(a, b);
    lemma_two_kinds_len(ordered_kinds(a, b), p, q);
}

/// The kinds shape of a non-empty list of kinds is well formed.
pub proof fn lemma_kinds_shape_wf(a: Seq<PrimitiveType>, b: Seq<PrimitiveType>)
    requires
        a.len() > 0 || b.len() > 0,
    ensures
        kinds_shape(a, b).wf(),
{
    lemma_ordered_kinds_contains(a, b);
    lemma_ordered_kinds_sorted(a, b);
    let p = if a.len() > 0 { a[0] } else { b[0] };
    assert(has_kind(a, b, p));
    assert(ordered_kinds(a, b).contains(p));
}

/// The first key of `r`, if any, is the first key of `f` or of `g`.
pub open spec fn first_key_from(r: Fields, f: Fields, g: Fields) -> bool {
    match r {
        Fields::Nil => true,
        Fields::Cons(k, _, _, _) => (f is Cons && k == f->Cons_0) || (g is Cons && k == g->Cons_0),
    }
}

/// Every key of the list comes after `k`, as far as its first key shows.
pub open spec fn starts_after(f: Fields, k: Seq<char>) -> bool {
    match f {
        Fields::Nil => true,
        Fields::Cons(k1, _, _, _) => key_lt(k, k1),
    }
}

proof fn lemma_mark_optional_wf(f: Fields)
    requires
        f.wf(),
    ensures
        mark_optional(f).wf(),
        first_key_from(mark_optional(f), f, f),
    decreases f,
{
    if let Fields::Cons(_, _, _, rest) = f {
        lemma_mark_optional_wf(*rest);
    }
}

/// Merging well-formed shapes gives a well-formed shape.
pub proof fn lemma_merge_wf(a: Shape, b: Shape)
    requires
        a.wf(),
        b.wf(),
    ensures
        merge_shapes(a, b).wf(),
    decreases a.size() + b.size(),
{
    match (a, b) {
        (Shape::Any, _) => {},
        (_, Shape::Any) => {},
        (Shape::Never, _) => {},
        (_, Shape::Never) => {},
        (Shape::Prim(p), Shape::Prim(q)) => {
            if p != q {
                assert(seq![p][0] == p && seq![q][0] == q);
                assert(seq![p].contains(p) && seq![q].contains(q));
                lemma_union_wf(seq![p], seq![q], p, q);
            }
        },
        (Shape::Prim(p), Shape::Union(s)) => {
            assert(rank(s[0]) < rank(s[1]));
            lemma_union_wf(seq![p], s, s[0], s[1]);
        },
        (Shape::Union(s), Shape::Prim(p)) => {
            assert(rank(s[0]) < rank(s[1]));
            lemma_union_wf(s, seq![p], s[0], s[1]);
        },
        (Shape::Union(s), Shape::Union(t)) => {
            assert(rank(s[0]) < rank(s[1]));
            lemma_union_wf(s, t, s[0], s[1]);
        },
        (Shape::Tuple(s), Shape::Tuple(t)) => {
            if s != t {
                if s.len() == 0 && t.len() == 0 {
                    assert(s =~= t);
                }
                lemma_kinds_shape_wf(s, t);
            }
        },
        (Shape::Tuple(s), Shape::Array(i)) => {
            if s.len() != 0 {
                lemma_kinds_shape_wf(s, seq![]);
                lemma_merge_wf(kinds_shape(s, seq![]), *i);
            }
        },
        (Shape::Array(i), Shape::Tuple(s)) => {
            if s.len() != 0 {
                lemma_kinds_shape_wf(s, seq![]);
                lemma_merge_wf(kinds_shape(s, seq![]), *i);
            }
        },
        (Shape::Array(i), Shape::Array(j)) => lemma_merge_wf(*i, *j),
        (Shape::Object(f), Shape::Object(g)) => lemma_merge_fields_wf(f, g),
        (Shape::Prim(PrimitiveType::Null), Shape::Nullable(_)) => {},
        (Shape::Nullable(_), Shape::Prim(PrimitiveType::Null)) => {},
        (Shape::Nullable(i), Shape::Nullable(j)) => lemma_merge_wf(*i, *j),
        (Shape::Nullable(i), _) => lemma_merge_wf(*i, b),
        (_, Shape::Nullable(j)) => lemma_merge_wf(*j, a),
        _ => {},
    }
}

/// Merging well-formed property lists gives a well-formed list whose first
/// key is the first key of one of them.
pub proof fn lemma_merge_fields_wf(f: Fields, g: Fields)
    requires
        f.wf(),
        g.wf(),
    ensures
        merge_fields(f, g).wf(),
        first_key_from(merge_fields(f, g), f, g),
    decreases f.size() + g.size(),
{
    match (f, g) {
        (Fields::Nil, _) => lemma_mark_optional_wf(g),
        (_, Fields::Nil) => lemma_mark_optional_wf(f),
        (Fields::Cons(k1, t1, _, r1), Fields::Cons(k2, t2, _, r2)) => {
            lemma_key_order(k1, k2);
            if key_lt(k1, k2) {
                lemma_merge_fields_wf(*r1, g);
            } else if key_lt(k2, k1) {
                lemma_merge_fields_wf(f, *r2);
            } else {
                lemma_merge_wf(*t1, *t2);
                lemma_merge_fields_wf(*r1, *r2);
            }
        },
    }
}

/// Inserting a well-formed type into a well-formed list keeps it well
/// formed; the first key becomes the new key or stays.
pub proof fn lemma_insert_wf(f: Fields, k: Seq<char>, t: Shape, o: bool)
    requires
        f.wf(),
        t.wf(),
    ensures
        insert_field(f, k, t, o).wf(),
        match insert_field(f, k, t, o) {
            Fields::Nil => false,
            Fields::Cons(k0, _, _, _) => k0 == k || (f is Cons && k0 == f->Cons_0),
        },
    decreases f,
{
    if let Fields::Cons(k1, t1, o1, rest) = f {
        lemma_key_order(k, k1);
        if !key_lt(k, k1) && k != k1 {
            lemma_insert_wf(*rest, k, t, o);
        }
    }
}

proof fn lemma_sorted_kinds_sorted(vs: Seq<JsonValue>)
    ensures
        kinds_sorted(sorted_kinds(vs)),
{
    let s1 = Seq::new(count_kind(vs, PrimitiveType::String), |_i| PrimitiveType::String);
    let s2 = Seq::new(count_kind(vs, PrimitiveType::Number), |_i| PrimitiveType::Number);
    let s3 = Seq::new(count_kind(vs, PrimitiveType::Boolean), |_i| PrimitiveType::Boolean);
    let s4 = Seq::new(count_kind(vs, PrimitiveType::Null), |_i| PrimitiveType::Null);
    let ks = sorted_kinds(vs);
    assert(ks =~= s1 + s2 + s3 + s4);
    let n1 = s1.len() as int;
    let n2 = n1 + s2.len();
    let n3 = n2 + s3.len();
    assert forall|i: int| 0 <= i < ks.len() implies {
        &&& i < n1 ==> rank(#[trigger] ks[i]) == 0
        &&& n1 <= i < n2 ==> rank(ks[i]) == 1
        &&& n2 <= i < n3 ==> rank(ks[i]) == 2
        &&& n3 <= i ==> rank(ks[i]) == 3
    } by {}
}

/// The shape inferred from a JSON value is well formed.
pub proof fn lemma_infer_wf(v: JsonValue)
    ensures
        infer_shape(v).wf(),
    decreases v,
{
    match v {
        JsonValue::Array(items) => {
            if all_scalars(items@) {
                lemma_sorted_kinds_sorted(items@);
            } else {
                lemma_fold_wf(items@);
            }
        },
        JsonValue::Object(entries) => lemma_entry_fields_wf(entries@),
        _ => {},
    }
}

proof fn lemma_fold_wf(vs: Seq<JsonValue>)
    ensures
        fold_items(vs).wf(),
    decreases vs,
{
    if vs.len() > 0 {
        let pre = vs.subrange(0, vs.len() - 1);
        lemma_fold_wf(pre);
        lemma_infer_wf(vs[vs.len() - 1]);
        lemma_merge_wf(fold_items(pre), infer_shape(vs[vs.len() - 1]));
    }
}

proof fn lemma_entry_fields_wf(es: Seq<(String, JsonValue)>)
    ensures
        entry_fields(es).wf(),
    decreases es,
{
    if es.len() > 0 {
        let pre = es.subrange(0, es.len() - 1);
        lemma_entry_fields_wf(pre);
        lemma_infer_wf(es[es.len() - 1].1);
        lemma_insert_wf(entry_fields(pre), es[es.len() - 1].0@, infer_shape(es[es.len() - 1].1), false);
    }
}

} // verus!
