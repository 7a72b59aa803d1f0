use vstd::prelude::*;
use crate::invariants::lemma_insert_wf;
use crate::keys::{compare_keys, key_lt, lemma_key_order, lemma_key_trans};
use crate::types::{Fields, PropertyDefinition, PropertyMap, Shape};

verus! {

/// Keys strictly increasing along the list.
pub open spec fn fields_sorted(f: Fields) -> bool
    decreases f,
{
    match f {
        Fields::Nil => true,
        Fields::Cons(k, _, _, rest) => fields_sorted(*rest) && match *rest {
            Fields::Nil => true,
            Fields::Cons(k2, _, _, _) => key_lt(k, k2),
        },
    }
}

/// Every key of the list comes after `k`.
pub open spec fn all_after(f: Fields, k: Seq<char>) -> bool
    decreases f,
{
    match f {
        Fields::Nil => true,
        Fields::Cons(k1, _, _, rest) => key_lt(k, k1) && all_after(*rest, k),
    }
}

/// The type and optionality recorded under `k`, if any.
pub open spec fn lookup(f: Fields, k: Seq<char>) -> Option<(Shape, bool)>
    decreases f,
{
    match f {
        Fields::Nil => None,
        Fields::Cons(k1, t, o, rest) => if k1 == k {
            Some((*t, o))
        } else {
            lookup(*rest, k)
        },
    }
}

/// Number of entries.
pub open spec fn fields_len(f: Fields) -> nat
    decreases f,
{
    match f {
        Fields::Nil => 0,
        Fields::Cons(_, _, _, rest) => 1 + fields_len(*rest),
    }
}

/// `f` with `(k, t, o)` put in key order, replacing an entry under `k`.
pub open spec fn insert_field(f: Fields, k: Seq<char>, t: Shape, o: bool) -> Fields
    decreases f,
{
    match f {
        Fields::Nil => Fields::Cons(k, Box::new(t), o, Box::new(Fields::Nil)),
        Fields::Cons(k1, t1, o1, rest) => if key_lt(k, k1) {
            Fields::Cons(k, Box::new(t), o, Box::new(f))
        } else if k == k1 {
            Fields::Cons(k, Box::new(t), o, rest)
        } else {
            Fields::Cons(k1, t1, o1, Box::new(insert_field(*rest, k, t, o)))
        },
    }
}

/// In a sorted list, the first key comes before all the others.
pub proof fn lemma_sorted_all_after(f: Fields, k: Seq<char>)
    requires
        fields_sorted(f),
        match f {
            Fields::Nil => true,
            Fields::Cons(k1, _, _, _) => key_lt(k, k1),
        },
    ensures
        all_after(f, k),
    decreases f,
{
    if let Fields::Cons(k1, _, _, rest) = f {
        if let Fields::Cons(k2, _, _, _) = *rest {
            lemma_key_trans(k, k1, k2);
        }
        lemma_sorted_all_after(*rest, k);
    }
}

/// Keys after `k` are all different from `k`, so `k` is not found there.
pub proof fn lemma_all_after_lookup(f: Fields, k: Seq<char>)
    requires
        all_after(f, k),
    ensures
        lookup(f, k) is None,
    decreases f,
{
    if let Fields::Cons(k1, _, _, rest) = f {
        lemma_key_order(k, k1);
        lemma_all_after_lookup(*rest, k);
    }
}

/// Inserting keeps the list sorted, and records the new entry.
pub proof fn lemma_insert_field(f: Fields, k: Seq<char>, t: Shape, o: bool)
    requires
        fields_sorted(f),
    ensures
        fields_sorted(insert_field(f, k, t, o)),
        lookup(insert_field(f, k, t, o), k) == Some((t, o)),
        forall|k2: Seq<char>| k2 != k ==> lookup(insert_field(f, k, t, o), k2) == lookup(f, k2),
        match insert_field(f, k, t, o) {
            Fields::Nil => false,
            Fields::Cons(k0, _, _, _) => match f {
                Fields::Nil => k0 == k,
                Fields::Cons(k1, _, _, _) => k0 == k || k0 == k1,
            },
        },
    decreases f,
{
    if let Fields::Cons(k1, t1, o1, rest) = f {
        lemma_key_order(k, k1);
        if !key_lt(k, k1) && k != k1 {
            lemma_insert_field(*rest, k, t, o);
            if let Fields::Cons(k2, _, _, _) = *rest {
                lemma_key_order(k, k2);
            }
        }
        assert forall|k2: Seq<char>| k2 != k implies lookup(insert_field(f, k, t, o), k2) == lookup(
            f,
            k2,
        ) by {
            if key_lt(k, k1) {
                assert(insert_field(f, k, t, o) == Fields::Cons(k, Box::new(t), o, Box::new(f)));
            } else if k == k1 {
                assert(insert_field(f, k, t, o) == Fields::Cons(k, Box::new(t), o, rest));
            } else {
                lemma_insert_field(*rest, k, t, o);
                let r2 = insert_field(*rest, k, t, o);
                assert(insert_field(f, k, t, o) == Fields::Cons(k1, t1, o1, Box::new(r2)));
                assert(lookup(r2, k2) == lookup(*rest, k2));
            }
        }
    }
}

impl PropertyMap {
    /// An empty property map.
    pub fn new() -> (r: PropertyMap)
        ensures
            r.fields() == Fields::Nil,
    {
        PropertyMap::Empty
    }

    /// Number of properties.
    pub fn len(&self) -> (r: usize)
        requires
            fields_len(self.fields()) <= usize::MAX,
        ensures
            r == fields_len(self.fields()),
        decreases self,
    {
        match self {
            PropertyMap::Empty => 0,
            PropertyMap::Entry(_, _, rest) => 1 + rest.len(),
        }
    }

    /// Whether the map has no properties.
    pub fn is_empty(&self) -> (r: bool)
        ensures
            r == (self.fields() == Fields::Nil),
    {
        match self {
            PropertyMap::Empty => true,
            PropertyMap::Entry(_, _, _) => false,
        }
    }

    /// The definition recorded under `key`.
    pub fn get(&self, key: &str) -> (r: Option<&PropertyDefinition>)
        ensures
            r is Some <==> lookup(self.fields(), key@) is Some,
            r matches Some(d) ==> lookup(self.fields(), key@) == Some((d.ty.shape(), d.optional)),
        decreases self,
    {
        match self {
            PropertyMap::Empty => None,
            PropertyMap::Entry(k, d, rest) => {
                if compare_keys(k.as_str(), key) == 0 {
                    Some(&**d)
                } else {
                    rest.get(key)
                }
            },
        }
    }

    /// Sets the definition under `key`, keeping keys in order.
    pub fn insert(&mut self, key: String, def: PropertyDefinition)
        requires
            fields_sorted(old(self).fields()),
        ensures
            fields_sorted(final(self).fields()),
            final(self).fields() == insert_field(
                old(self).fields(),
                key@,
                def.ty.shape(),
                def.optional,
            ),
            old(self).fields().wf() && def.ty.shape().wf() ==> final(self).fields().wf(),
    {
        proof {
            if self.fields().wf() && def.ty.shape().wf() {
                lemma_insert_wf(self.fields(), key@, def.ty.shape(), def.optional);
            }
        }
        let mut taken = PropertyMap::Empty;
        std::mem::swap(self, &mut taken);
        *self = taken.inserted(key, def);
    }

    /// This map with the definition under `key` set.
    pub fn inserted(self, key: String, def: PropertyDefinition) -> (r: PropertyMap)
        requires
            fields_sorted(self.fields()),
        ensures
            fields_sorted(r.fields()),
            r.fields() == insert_field(self.fields(), key@, def.ty.shape(), def.optional),
        decreases self,
    {
        proof {
            lemma_insert_field(self.fields(), key@, def.ty.shape(), def.optional);
        }
        match self {
            PropertyMap::Empty => PropertyMap::Entry(
                key,
                Box::new(def),
                Box::new(PropertyMap::Empty),
            ),
            PropertyMap::Entry(k1, d1, rest) => {
                let c = compare_keys(key.as_str(), k1.as_str());
                if c < 0 {
                    PropertyMap::Entry(key, Box::new(def), Box::new(PropertyMap::Entry(k1, d1, rest)))
                } else if c == 0 {
                    PropertyMap::Entry(key, Box::new(def), rest)
                } else {
                    PropertyMap::Entry(k1, d1, Box::new((*rest).inserted(key, def)))
                }
            },
        }
    }
}

} // verus!
