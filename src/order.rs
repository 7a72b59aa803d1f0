use vstd::prelude::*;
use vstd::multiset::Multiset;
use crate::assoc::{all_wf, fold_shapes, law_fold_order_independent};
use crate::generation::{
    add_sample, group_all, input_pairs, next_state, output_text, start_state, GroupState,
};
use crate::inference::{infer_shape, JsonValue};
use crate::invariants::lemma_infer_wf;
use crate::keys::{key_lt, lemma_key_order, lemma_key_trans};
use crate::laws::{law_merge_commutative, law_merge_never_identity_any_absorbing};
use crate::assoc::law_merge_associative;
use crate::merge::merge_shapes;
use crate::types::InputData;
use crate::types::Shape;

verus! {

/// Every sample is of category `k` and decoded.
pub open spec fn all_valid_in(ps: Seq<(Seq<char>, Result<JsonValue, Seq<char>>)>, k: Seq<char>) -> bool {
    forall|i: int| 0 <= i < ps.len() ==> (#[trigger] ps[i]).0 == k && ps[i].1 is Ok
}

/// The shapes inferred from the decoded samples, in order.
pub open spec fn sample_shapes(ps: Seq<(Seq<char>, Result<JsonValue, Seq<char>>)>) -> Seq<Shape> {
    ps.map_values(|p: (Seq<char>, Result<JsonValue, Seq<char>>)| infer_shape(p.1->Ok_0))
}

/// The samples of one category, all decoded, form one group whose type is
/// their shapes folded with merge.
proof fn lemma_single_group(ps: Seq<(Seq<char>, Result<JsonValue, Seq<char>>)>, k: Seq<char>)
    requires
        ps.len() > 0,
        all_valid_in(ps, k),
    ensures
        group_all(ps) == seq![(k, GroupState::Typed(fold_shapes(sample_shapes(ps))))],
    decreases ps.len(),
{
    let d = ps.drop_last();
    let x = ps.last();
    assert(x == ps[ps.len() - 1]);
    assert(sample_shapes(ps).drop_last() =~= sample_shapes(d));
    assert(sample_shapes(ps).last() == infer_shape(x.1->Ok_0));
    if d.len() == 0 {
        assert(group_all(d) =~= seq![]);
        assert(sample_shapes(d) =~= seq![]);
    } else {
        assert(all_valid_in(d, k)) by {
            assert forall|i: int| 0 <= i < d.len() implies (#[trigger] d[i]).0 == k && d[i].1 is Ok by {
                assert(d[i] == ps[i]);
            }
        }
        lemma_single_group(d, k);
        let g = group_all(d);
        assert(g[0].0 == k);
        assert(g.drop_first() =~= seq![]);
        lemma_key_order(k, k);
        assert(add_sample(g, k, x.1) == seq![(k, next_state(g[0].1, x.1))] + g.drop_first());
    }
}

proof fn lemma_multiset_put_back<A>(m: Multiset<A>, a: A)
    requires
        m.count(a) > 0,
    ensures
        m.remove(a).insert(a) == m,
{
    assert(m.remove(a).insert(a) =~= m);
}

/// Sequences holding the same elements, each as often, still do so after
/// mapping each element.
proof fn lemma_map_multiset<A, B>(ps: Seq<A>, qs: Seq<A>, f: spec_fn(A) -> B)
    requires
        ps.to_multiset() == qs.to_multiset(),
    ensures
        ps.map_values(f).to_multiset() == qs.map_values(f).to_multiset(),
    decreases ps.len(),
{
    broadcast use vstd::seq_lib::group_to_multiset_ensures;

    if qs.len() == 0 {
        assert(ps.to_multiset().len() == 0);
        assert(ps.len() == 0);
        assert(ps.map_values(f) =~= qs.map_values(f));
    } else {
        let n = qs.len() - 1;
        let x = qs[n];
        assert(qs.contains(x));
        assert(ps.to_multiset().count(x) > 0);
        assert(ps.contains(x));
        let i = choose|i: int| 0 <= i < ps.len() && ps[i] == x;
        assert(qs.remove(n) =~= qs.drop_last());
        lemma_map_multiset(ps.remove(i), qs.drop_last(), f);
        let sp = ps.map_values(f);
        let sq = qs.map_values(f);
        assert(ps.remove(i).map_values(f) =~= sp.remove(i));
        assert(qs.drop_last().map_values(f) =~= sq.remove(n));
        assert(sp[i] == sq[n]);
        assert(sp.contains(sp[i]));
        assert(sq.contains(sq[n]));
        lemma_multiset_put_back(sp.to_multiset(), sp[i]);
        lemma_multiset_put_back(sq.to_multiset(), sq[n]);
    }
}

/// For one category whose samples all decode, the generated text does not
/// depend on the order of the samples: two sequences holding the same
/// samples, each as often, give the same groups and so the same output.
pub proof fn law_single_category_order_independent(
    ps: Seq<(Seq<char>, Result<JsonValue, Seq<char>>)>,
    qs: Seq<(Seq<char>, Result<JsonValue, Seq<char>>)>,
    k: Seq<char>,
    root: Seq<char>,
)
    requires
        ps.len() > 0,
        all_valid_in(ps, k),
        ps.to_multiset() == qs.to_multiset(),
    ensures
        group_all(ps) == group_all(qs),
        output_text(group_all(ps), root) == output_text(group_all(qs), root),
{
    broadcast use vstd::seq_lib::group_to_multiset_ensures;

    ps.to_multiset_ensures();
    qs.to_multiset_ensures();
    assert(all_valid_in(qs, k)) by {
        assert forall|j: int| 0 <= j < qs.len() implies (#[trigger] qs[j]).0 == k && qs[j].1 is Ok by {
            assert(qs.contains(qs[j]));
            assert(ps.to_multiset().count(qs[j]) > 0);
            assert(ps.contains(qs[j]));
        }
    }
    lemma_single_group(ps, k);
    lemma_single_group(qs, k);
    lemma_map_multiset(
        ps,
        qs,
        |p: (Seq<char>, Result<JsonValue, Seq<char>>)| infer_shape(p.1->Ok_0),
    );
    let sp = sample_shapes(ps);
    assert(all_wf(sp)) by {
        assert forall|i: int| 0 <= i < sp.len() implies (#[trigger] sp[i]).wf() by {
            lemma_infer_wf(ps[i].1->Ok_0);
        }
    }
    law_fold_order_independent(sp, sample_shapes(qs));
}

/// A decoded sample: (category, decoded value or raw text).
pub type Sample = (Seq<char>, Result<JsonValue, Seq<char>>);

/// Two invalid samples of one category carry the same raw text, so which of
/// them is kept does not matter.
pub open spec fn same_raw_per_category(ps: Seq<Sample>) -> bool {
    forall|a: int, b: int|
        0 <= a < ps.len() && 0 <= b < ps.len() && (#[trigger] ps[a]).0 == (#[trigger] ps[b]).0
            && ps[a].1 is Err && ps[b].1 is Err ==> ps[a].1 == ps[b].1
}

spec fn state_wf(st: GroupState) -> bool {
    match st {
        GroupState::Typed(t) => t.wf(),
        GroupState::Invalid(_) => true,
    }
}

spec fn states_wf(gs: Seq<(Seq<char>, GroupState)>) -> bool {
    forall|i: int| 0 <= i < gs.len() ==> state_wf(#[trigger] gs[i].1)
}

proof fn lemma_start_wf(c: Result<JsonValue, Seq<char>>)
    ensures
        state_wf(start_state(c)),
{
    if let Ok(v) = c {
        lemma_infer_wf(v);
        law_merge_never_identity_any_absorbing(infer_shape(v));
    }
}

proof fn lemma_next_wf(st: GroupState, c: Result<JsonValue, Seq<char>>)
    requires
        state_wf(st),
    ensures
        state_wf(next_state(st, c)),
{
    if let (GroupState::Typed(t), Ok(v)) = (st, c) {
        lemma_infer_wf(v);
        crate::invariants::lemma_merge_wf(t, infer_shape(v));
    }
}

proof fn lemma_add_wf(gs: Seq<(Seq<char>, GroupState)>, k: Seq<char>, c: Result<JsonValue, Seq<char>>)
    requires
        states_wf(gs),
    ensures
        states_wf(add_sample(gs, k, c)),
    decreases gs.len(),
{
    lemma_start_wf(c);
    if gs.len() > 0 {
        lemma_next_wf(gs[0].1, c);
        lemma_add_wf(gs.drop_first(), k, c);
        let r = add_sample(gs, k, c);
        assert forall|i: int| 0 <= i < r.len() implies state_wf(#[trigger] r[i].1) by {
            if i > 0 && !key_lt(k, gs[0].0) && k != gs[0].0 {
                assert(r[i] == add_sample(gs.drop_first(), k, c)[i - 1]);
            } else if i > 0 && key_lt(k, gs[0].0) {
                assert(r[i] == gs[i - 1]);
            } else if i > 0 {
                assert(r[i] == gs.drop_first()[i - 1]);
            }
        }
    }
}

proof fn lemma_group_all_wf(ps: Seq<Sample>)
    ensures
        states_wf(group_all(ps)),
    decreases ps.len(),
{
    if ps.len() > 0 {
        lemma_group_all_wf(ps.drop_last());
        lemma_add_wf(group_all(ps.drop_last()), ps.last().0, ps.last().1);
    }
}

/// Two samples of one category reach the same state in either order.
proof fn lemma_states_commute(st: GroupState, c1: Result<JsonValue, Seq<char>>, c2: Result<JsonValue, Seq<char>>)
    requires
        state_wf(st),
        c1 is Err && c2 is Err ==> c1 == c2,
    ensures
        next_state(next_state(st, c1), c2) == next_state(next_state(st, c2), c1),
        next_state(start_state(c1), c2) == next_state(start_state(c2), c1),
{
    if let (Ok(v1), Ok(v2)) = (c1, c2) {
        let (s1, s2) = (infer_shape(v1), infer_shape(v2));
        lemma_infer_wf(v1);
        lemma_infer_wf(v2);
        law_merge_never_identity_any_absorbing(s1);
        law_merge_never_identity_any_absorbing(s2);
        law_merge_commutative(s1, s2);
        if let GroupState::Typed(t) = st {
            law_merge_associative(t, s1, s2);
            law_merge_associative(t, s2, s1);
        }
    }
}

/// Adding two samples gives the same groups in either order.
proof fn lemma_add_commute(
    gs: Seq<(Seq<char>, GroupState)>,
    k1: Seq<char>,
    c1: Result<JsonValue, Seq<char>>,
    k2: Seq<char>,
    c2: Result<JsonValue, Seq<char>>,
)
    requires
        states_wf(gs),
        k1 == k2 && c1 is Err && c2 is Err ==> c1 == c2,
    ensures
        add_sample(add_sample(gs, k1, c1), k2, c2) == add_sample(add_sample(gs, k2, c2), k1, c1),
    decreases gs.len(),
{
    lemma_key_order(k1, k2);
    lemma_start_wf(c1);
    if k1 == k2 {
        lemma_key_order(k1, k1);
    }
    if gs.len() == 0 {
        assert(seq![(k1, start_state(c1))].drop_first() =~= seq![]);
        assert(seq![(k2, start_state(c2))].drop_first() =~= seq![]);
        assert(add_sample(seq![], k1, c1).drop_first() =~= seq![]);
        if k1 == k2 {
            lemma_states_commute(start_state(c1), c1, c2);
        } else if key_lt(k1, k2) {
            let s1 = seq![(k1, start_state(c1))];
            let s2 = seq![(k2, start_state(c2))];
            assert(add_sample(s1, k2, c2) == s1 + add_sample(s1.drop_first(), k2, c2));
            assert(add_sample(s1, k2, c2) =~= s1 + s2);
            assert(add_sample(s2, k1, c1) =~= s1 + s2);
        }
    } else {
        let h = gs[0];
        let rest = gs.drop_first();
        lemma_key_order(k1, h.0);
        lemma_key_order(k2, h.0);
        if key_lt(k2, k1) && key_lt(k1, h.0) {
            lemma_key_trans(k2, k1, h.0);
        }
        if key_lt(k1, k2) && key_lt(k2, h.0) {
            lemma_key_trans(k1, k2, h.0);
        }
        if k1 == k2 {
            lemma_states_commute(h.1, c1, c2);
            lemma_states_commute(start_state(c1), c1, c2);
        }
        assert(states_wf(rest)) by {
            assert forall|i: int| 0 <= i < rest.len() implies state_wf(#[trigger] rest[i].1) by {
                assert(rest[i] == gs[i + 1]);
            }
        }
        lemma_add_commute(rest, k1, c1, k2, c2);
        assert((seq![(k1, start_state(c1))] + gs).drop_first() =~= gs);
        assert((seq![(k2, start_state(c2))] + gs).drop_first() =~= gs);
        assert((seq![h] + add_sample(rest, k1, c1)).drop_first() =~= add_sample(rest, k1, c1));
        assert((seq![h] + add_sample(rest, k2, c2)).drop_first() =~= add_sample(rest, k2, c2));
        assert((seq![(k1, next_state(h.1, c1))] + rest).drop_first() =~= rest);
        assert((seq![(k2, next_state(h.1, c2))] + rest).drop_first() =~= rest);
    }
}

proof fn lemma_same_raw_remove(ps: Seq<Sample>, i: int)
    requires
        same_raw_per_category(ps),
        0 <= i < ps.len(),
    ensures
        same_raw_per_category(ps.remove(i)),
{
    let r = ps.remove(i);
    assert forall|a: int, b: int|
        0 <= a < r.len() && 0 <= b < r.len() && (#[trigger] r[a]).0 == (#[trigger] r[b]).0
            && r[a].1 is Err && r[b].1 is Err implies r[a].1 == r[b].1 by {
        let a0 = if a < i { a } else { a + 1 };
        let b0 = if b < i { b } else { b + 1 };
        assert(r[a] == ps[a0]);
        assert(r[b] == ps[b0]);
    }
}

/// Grouping gives the same as grouping without sample `i` and adding it last.
proof fn lemma_group_extract(ps: Seq<Sample>, i: int)
    requires
        same_raw_per_category(ps),
        0 <= i < ps.len(),
    ensures
        group_all(ps) == add_sample(group_all(ps.remove(i)), ps[i].0, ps[i].1),
    decreases ps.len(),
{
    let n = ps.len() - 1;
    if i == n {
        assert(ps.remove(i) =~= ps.drop_last());
    } else {
        let d = ps.drop_last();
        lemma_same_raw_remove(ps, n);
        assert(ps.remove(n) =~= d);
        lemma_group_extract(d, i);
        let g = group_all(d.remove(i));
        lemma_group_all_wf(d.remove(i));
        let x = ps[i];
        let last = ps.last();
        assert(d[i] == x);
        assert(ps[n] == last);
        assert(ps.remove(i).drop_last() =~= d.remove(i));
        assert(ps.remove(i).last() == last);
        lemma_add_commute(g, x.0, x.1, last.0, last.1);
    }
}

/// Grouping does not depend on the order of the samples, as long as two
/// invalid samples of one category carry the same raw text: two sequences
/// holding the same samples, each as often, give the same groups.
pub proof fn law_grouping_order_independent(ps: Seq<Sample>, qs: Seq<Sample>)
    requires
        same_raw_per_category(ps),
        ps.to_multiset() == qs.to_multiset(),
    ensures
        group_all(ps) == group_all(qs),
    decreases ps.len(),
{
    broadcast use vstd::seq_lib::group_to_multiset_ensures;

    if qs.len() == 0 {
        assert(ps.to_multiset().len() == 0);
        assert(ps.len() == 0);
    } else {
        let n = qs.len() - 1;
        let x = qs[n];
        assert(qs.contains(x));
        assert(ps.to_multiset().count(x) > 0);
        assert(ps.contains(x));
        let i = choose|i: int| 0 <= i < ps.len() && ps[i] == x;
        lemma_group_extract(ps, i);
        lemma_same_raw_remove(ps, i);
        assert(qs.remove(n) =~= qs.drop_last());
        law_grouping_order_independent(ps.remove(i), qs.drop_last());
    }
}

/// The generated text does not depend on the order of the input samples, as
/// long as two invalid samples of one category have the same content: two
/// inputs holding the same samples, each as often, give the same text.
pub proof fn law_generation_order_independent(s1: Seq<InputData>, s2: Seq<InputData>, root: Seq<char>)
    requires
        s1.to_multiset() == s2.to_multiset(),
        same_raw_per_category(input_pairs(s1)),
    ensures
        output_text(group_all(input_pairs(s1)), root) == output_text(group_all(input_pairs(s2)), root),
{
    lemma_map_multiset(
        s1,
        s2,
        |d: InputData| (d.category@, crate::generation::decode_content(d.content@)),
    );
    assert(input_pairs(s1) == s1.map_values(
        |d: InputData| (d.category@, crate::generation::decode_content(d.content@)),
    ));
    assert(input_pairs(s2) == s2.map_values(
        |d: InputData| (d.category@, crate::generation::decode_content(d.content@)),
    ));
    law_grouping_order_independent(input_pairs(s1), input_pairs(s2));
}

} // verus!
