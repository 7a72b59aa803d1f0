use vstd::prelude::*;
use vstd::string::StrSliceExecFns;

verus! {

/// Lexicographic order on keys, by code point, looking from position `i` on.
pub open spec fn key_lt_from(a: Seq<char>, b: Seq<char>, i: int) -> bool
    decreases a.len() - i,
{
    if a.len() <= i {
        i < b.len()
    } else if b.len() <= i {
        false
    } else if a[i] != b[i] {
        (a[i] as int) < (b[i] as int)
    } else {
        key_lt_from(a, b, i + 1)
    }
}

/// Strict lexicographic order on keys (the order of `str`'s `Ord`).
pub open spec fn key_lt(a: Seq<char>, b: Seq<char>) -> bool {
    key_lt_from(a, b, 0)
}

proof fn lemma_key_order_from(a: Seq<char>, b: Seq<char>, i: int)
    requires
        0 <= i,
        forall|j: int| 0 <= j < i && j < a.len() && j < b.len() ==> a[j] == b[j],
        i <= a.len() && i <= b.len(),
    ensures
        key_lt_from(a, b, i) ==> !key_lt_from(b, a, i),
        !key_lt_from(a, b, i) && !key_lt_from(b, a, i) ==> a =~= b,
    decreases a.len() - i,
{
    if i < a.len() && i < b.len() {
        if a[i] == b[i] {
            lemma_key_order_from(a, b, i + 1);
        } else {
            assert((a[i] as int) != (b[i] as int));
        }
    } else if a.len() == b.len() {
        assert(a =~= b);
    }
}

/// `key_lt` is a strict total order: asymmetric, and two keys that neither
/// precedes are equal.
pub proof fn lemma_key_order(a: Seq<char>, b: Seq<char>)
    ensures
        key_lt(a, b) ==> !key_lt(b, a),
        !key_lt(a, b) && !key_lt(b, a) ==> a == b,
{
    lemma_key_order_from(a, b, 0);
}

proof fn lemma_key_trans_from(a: Seq<char>, b: Seq<char>, c: Seq<char>, i: int)
    requires
        0 <= i,
        forall|j: int| 0 <= j < i && j < a.len() ==> j < b.len() && j < c.len() && a[j] == b[j]
            && b[j] == c[j],
        i <= a.len(),
        key_lt_from(a, b, i),
        key_lt_from(b, c, i),
    ensures
        key_lt_from(a, c, i),
    decreases a.len() - i,
{
    if i < a.len() && i < b.len() && i < c.len() && a[i] == b[i] && b[i] == c[i] {
        lemma_key_trans_from(a, b, c, i + 1);
    }
}

/// `key_lt` is transitive.
pub proof fn lemma_key_trans(a: Seq<char>, b: Seq<char>, c: Seq<char>)
    requires
        key_lt(a, b),
        key_lt(b, c),
    ensures
        key_lt(a, c),
{
    lemma_key_trans_from(a, b, c, 0);
}

/// Compares two keys: negative when `a` comes first, positive when `b` does,
/// zero when they are equal.
pub fn compare_keys(a: &str, b: &str) -> (r: i8)
    ensures
        r < 0 <==> key_lt(a@, b@),
        r > 0 <==> key_lt(b@, a@),
        r == 0 <==> a@ == b@,
{
    let la = a.unicode_len();
    let lb = b.unicode_len();
    let mut i: usize = 0;
    while i < la && i < lb
        invariant
            i <= la,
            i <= lb,
            la == a@.len(),
            lb == b@.len(),
            forall|j: int| 0 <= j < i ==> a@[j] == b@[j],
            key_lt(a@, b@) == key_lt_from(a@, b@, i as int),
            key_lt(b@, a@) == key_lt_from(b@, a@, i as int),
        decreases la - i,
    {
        let ca = a.get_char(i);
        let cb = b.get_char(i);
        if ca != cb {
            if (ca as u32) < (cb as u32) {
                return -1;
            } else {
                return 1;
            }
        }
        i = i + 1;
    }
    if la < lb {
        -1
    } else if lb < la {
        1
    } else {
        assert(a@ =~= b@);
        0
    }
}

} // verus!
