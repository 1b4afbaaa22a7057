//! A map from strings to values that keeps its entries in insertion order.
//!
//! Each key occurs at most once; inserting a present key replaces its value
//! in place. Its model is the ordered sequence of `(key, value)` pairs; two
//! maps are equal when they hold the same keys with equal values, whatever
//! the order.

use vstd::prelude::*;

use vstd::std_specs::cmp::PartialEqSpec;

use crate::text::str_eq;

verus! {

/// The keys of a sequence of pairs, in order.
pub open spec fn keys_of<T>(pairs: Seq<(Seq<char>, T)>) -> Seq<Seq<char>> {
    pairs.map_values(|e: (Seq<char>, T)| e.0)
}

/// Whether some pair has key `k`.
pub open spec fn has_key<T>(pairs: Seq<(Seq<char>, T)>, k: Seq<char>) -> bool {
    exists|i: int| 0 <= i < pairs.len() && #[trigger] pairs[i].0 == k
}

/// No two pairs share a key.
pub open spec fn distinct_keys<T>(pairs: Seq<(Seq<char>, T)>) -> bool {
    forall|i: int, j: int|
        0 <= i < pairs.len() && 0 <= j < pairs.len() && i != j ==> #[trigger] pairs[i].0
            != #[trigger] pairs[j].0
}

/// The position of key `k` (meaningful when `has_key(pairs, k)`).
pub open spec fn key_index<T>(pairs: Seq<(Seq<char>, T)>, k: Seq<char>) -> int {
    choose|i: int| 0 <= i < pairs.len() && #[trigger] pairs[i].0 == k
}

/// The value stored under `k`, if any.
pub open spec fn lookup<T>(pairs: Seq<(Seq<char>, T)>, k: Seq<char>) -> Option<T> {
    if has_key(pairs, k) {
        Some(pairs[key_index(pairs, k)].1)
    } else {
        None
    }
}

/// The pairs after inserting `(k, v)`: a present key has its value replaced
/// where it stands, a new key is appended.
pub open spec fn insert_pair<T>(pairs: Seq<(Seq<char>, T)>, k: Seq<char>, v: T) -> Seq<
    (Seq<char>, T),
> {
    if has_key(pairs, k) {
        pairs.update(key_index(pairs, k), (k, v))
    } else {
        pairs.push((k, v))
    }
}

/// Map equality: both hold the same number of entries, and each key of `a`
/// is a key of `b` whose value equals (by `T`'s `==`) the one in `a`. With
/// distinct keys this means the same keys with equal values, in any order.
pub open spec fn same_entries<T: PartialEqSpec>(a: Seq<(Seq<char>, T)>, b: Seq<(Seq<char>, T)>) -> bool {
    &&& a.len() == b.len()
    &&& forall|i: int|
        0 <= i < a.len() ==> has_key(b, #[trigger] a[i].0) && a[i].1.eq_spec(
            &b[key_index(b, a[i].0)].1,
        )
}

/// Equal maps hold the same keys: when `a` equals `b`, a key is in `a`
/// exactly when it is in `b`.
pub proof fn lemma_equal_maps_same_keys<T: PartialEqSpec>(
    a: Seq<(Seq<char>, T)>,
    b: Seq<(Seq<char>, T)>,
    k: Seq<char>,
)
    requires
        distinct_keys(a),
        distinct_keys(b),
        same_entries(a, b),
    ensures
        has_key(a, k) == has_key(b, k),
{
    let ka = keys_of(a);
    let kb = keys_of(b);
    assert(ka.no_duplicates()) by {
        assert forall|i: int, j: int|
            0 <= i < ka.len() && 0 <= j < ka.len() && i != j implies ka[i] != ka[j] by {
            assert(a[i].0 != a[j].0);
        }
    }
    assert(kb.no_duplicates()) by {
        assert forall|i: int, j: int|
            0 <= i < kb.len() && 0 <= j < kb.len() && i != j implies kb[i] != kb[j] by {
            assert(b[i].0 != b[j].0);
        }
    }
    ka.unique_seq_to_set();
    kb.unique_seq_to_set();
    assert(ka.to_set().subset_of(kb.to_set())) by {
        assert forall|x: Seq<char>| ka.to_set().contains(x) implies kb.to_set().contains(x) by {
            let i = choose|i: int| 0 <= i < ka.len() && ka[i] == x;
            assert(has_key(b, a[i].0));
            let j = choose|j: int| 0 <= j < b.len() && #[trigger] b[j].0 == a[i].0;
            assert(kb[j] == x);
        }
    }
    vstd::set_lib::lemma_subset_equality(ka.to_set(), kb.to_set());
    if has_key(a, k) {
        let i = choose|i: int| 0 <= i < a.len() && #[trigger] a[i].0 == k;
        assert(has_key(b, a[i].0));
    }
    if has_key(b, k) {
        let j = choose|j: int| 0 <= j < b.len() && #[trigger] b[j].0 == k;
        assert(kb[j] == k);
        assert(kb.to_set().contains(k));
        assert(ka.to_set().contains(k));
        let i = choose|i: int| 0 <= i < ka.len() && ka[i] == k;
        assert(a[i].0 == k);
    }
}

/// A read after a write: after inserting `(k, v)` the map gives back `v` for
/// `k`, every other key keeps its value, keys stay distinct, and the map
/// grows by one entry exactly when `k` was new.
pub proof fn lemma_lookup_after_insert<T>(p: Seq<(Seq<char>, T)>, k: Seq<char>, v: T, other: Seq<char>)
    requires
        distinct_keys(p),
    ensures
        lookup(insert_pair(p, k, v), k) == Some(v),
        other != k ==> lookup(insert_pair(p, k, v), other) == lookup(p, other),
        distinct_keys(insert_pair(p, k, v)),
        insert_pair(p, k, v).len() == if has_key(p, k) {
            p.len()
        } else {
            p.len() + 1
        },
{
    let q = insert_pair(p, k, v);
    if has_key(p, k) {
        let i = key_index(p, k);
        assert(q[i].0 == k);
        assert(has_key(q, k));
        assert(key_index(q, k) == i);
        if has_key(p, other) && other != k {
            let j = key_index(p, other);
            assert(q[j].0 == other);
            assert(key_index(q, other) == j);
        }
        if has_key(q, other) && other != k {
            let j = key_index(q, other);
            assert(p[j].0 == other);
        }
    } else {
        let n = p.len() as int;
        assert(q[n].0 == k);
        assert(has_key(q, k));
        assert(key_index(q, k) == n);
        if has_key(p, other) {
            let j = key_index(p, other);
            assert(q[j].0 == other);
            assert(key_index(q, other) == j);
        }
        if has_key(q, other) && other != k {
            let j = key_index(q, other);
            assert(p[j].0 == other);
        }
        assert forall|a: int, b: int|
            0 <= a < q.len() && 0 <= b < q.len() && a != b implies #[trigger] q[a].0
                != #[trigger] q[b].0 by {
            if a == n {
                assert(p[b].0 != k);
            } else if b == n {
                assert(p[a].0 != k);
            }
        }
    }
}

/// An insertion-ordered map keyed by strings.
#[derive(Debug)]
pub struct StrMap<T> {
    entries: Vec<(String, T)>,
}

impl<T> StrMap<T> {
    /// The entries of the map as `(key, value)` pairs, in insertion order.
    pub closed spec fn pairs(&self) -> Seq<(Seq<char>, T)> {
        self.entries@.map_values(|e: (String, T)| (e.0@, e.1))
    }

    /// Every map holds each key at most once.
    #[verifier::type_invariant]
    pub open spec fn keys_distinct(&self) -> bool {
        distinct_keys(self.pairs())
    }

    /// Creates an empty map.
    pub fn new() -> (r: Self)
        ensures
            r.pairs() == Seq::<(Seq<char>, T)>::empty(),
    {
        let r = StrMap { entries: Vec::new() };
        assert(r.pairs() =~= Seq::<(Seq<char>, T)>::empty());
        r
    }

    /// The number of entries.
    pub fn len(&self) -> (r: usize)
        ensures
            r == self.pairs().len(),
    {
        self.entries.len()
    }

    /// Whether the map has no entries.
    pub fn is_empty(&self) -> (r: bool)
        ensures
            r == (self.pairs().len() == 0),
    {
        self.entries.len() == 0
    }

    /// The position of `key` among the entries, if present.
    fn find(&self, key: &str) -> (r: Option<usize>)
        ensures
            match r {
                Some(i) => i < self.pairs().len() && self.pairs()[i as int].0 == key@,
                None => !has_key(self.pairs(), key@),
            },
    {
        let mut i: usize = 0;
        while i < self.entries.len()
            invariant
                i <= self.entries.len(),
                forall|j: int| 0 <= j < i ==> self.pairs()[j].0 != key@,
            decreases self.entries.len() - i,
        {
            if str_eq(self.entries[i].0.as_str(), key) {
                return Some(i);
            }
            i = i + 1;
        }
        None
    }

    /// Whether `key` has an entry.
    pub fn contains_key(&self, key: &str) -> (r: bool)
        ensures
            r == has_key(self.pairs(), key@),
            r == exists|i: int| 0 <= i < self.pairs().len() && #[trigger] self.pairs()[i].0 == key@,
    {
        self.find(key).is_some()
    }

    /// The value stored under `key`, if any.
    pub fn get(&self, key: &str) -> (r: Option<&T>)
        ensures
            match r {
                Some(v) => lookup(self.pairs(), key@) == Some(*v),
                None => lookup(self.pairs(), key@) is None,
            },
            match r {
                Some(v) => exists|i: int|
                    0 <= i < self.pairs().len() && #[trigger] self.pairs()[i].0 == key@
                        && self.pairs()[i].1 == *v,
                None => forall|i: int|
                    0 <= i < self.pairs().len() ==> #[trigger] self.pairs()[i].0 != key@,
            },
    {
        proof { use_type_invariant(self); }
        match self.find(key) {
            Some(i) => {
                assert(key_index(self.pairs(), key@) == i as int);
                Some(&self.entries[i].1)
            },
            None => None,
        }
    }

    /// The key of the entry at position `i`.
    pub fn key_at(&self, i: usize) -> (r: &String)
        requires
            i < self.pairs().len(),
        ensures
            r@ == self.pairs()[i as int].0,
    {
        &self.entries[i].0
    }

    /// The value of the entry at position `i`.
    pub fn value_at(&self, i: usize) -> (r: &T)
        requires
            i < self.pairs().len(),
        ensures
            *r == self.pairs()[i as int].1,
    {
        &self.entries[i].1
    }

    /// Stores `value` under `key`, replacing the value of a present key in
    /// place and appending a new key at the end.
    pub fn insert(&mut self, key: String, value: T)
        ensures
            final(self).pairs() == insert_pair(old(self).pairs(), key@, value),
    {
        proof { use_type_invariant(&*self); }
        let ghost k = key@;
        match self.find(key.as_str()) {
            Some(i) => {
                assert(key_index(self.pairs(), k) == i as int);
                let mut entries = Vec::new();
                std::mem::swap(&mut entries, &mut self.entries);
                entries.set(i, (key, value));
                assert(entries@.map_values(|e: (String, T)| (e.0@, e.1)) =~= insert_pair(old(self).pairs(), k, value));
                self.entries = entries;
            },
            None => {
                let mut entries = Vec::new();
                std::mem::swap(&mut entries, &mut self.entries);
                entries.push((key, value));
                assert(entries@.map_values(|e: (String, T)| (e.0@, e.1)) =~= insert_pair(old(self).pairs(), k, value));
                self.entries = entries;
            },
        }
    }
}

impl<T: PartialEq> PartialEq for StrMap<T> {
    /// Compares as maps: the order of the entries does not matter.
    fn eq(&self, other: &Self) -> (r: bool) {
        proof {
            use_type_invariant(self);
            use_type_invariant(other);
        }
        if self.entries.len() != other.entries.len() {
            return false;
        }
        let mut i: usize = 0;
        while i < self.entries.len()
            invariant
                i <= self.pairs().len(),
                self.pairs().len() == other.pairs().len(),
                distinct_keys(other.pairs()),
                T::obeys_eq_spec() ==> forall|j: int|
                    0 <= j < i ==> has_key(other.pairs(), #[trigger] self.pairs()[j].0)
                        && self.pairs()[j].1.eq_spec(
                        &other.pairs()[key_index(other.pairs(), self.pairs()[j].0)].1,
                    ),
            decreases self.pairs().len() - i,
        {
            let key = self.entries[i].0.as_str();
            match other.find(key) {
                None => {
                    assert(self.pairs()[i as int].0 == key@);
                    assert(!same_entries(self.pairs(), other.pairs()));
                    return false;
                },
                Some(k) => {
                    assert(self.pairs()[i as int].0 == key@);
                    assert(other.pairs()[k as int].0 == key@);
                    assert(key_index(other.pairs(), key@) == k as int);
                    let a = &self.entries[i].1;
                    let b = &other.entries[k].1;
                    assert(*a == self.pairs()[i as int].1 && *b == other.pairs()[k as int].1);
                    let same = a.eq(b);
                    if !same {
                        assert(T::obeys_eq_spec() ==> !self.pairs()[i as int].1.eq_spec(
                            &other.pairs()[k as int].1,
                        ));
                        assert(T::obeys_eq_spec() ==> !same_entries(self.pairs(), other.pairs()));
                        return false;
                    }
                },
            }
            i = i + 1;
        }
        true
    }
}

impl<T: Eq> Eq for StrMap<T> {}

impl<T: PartialEq> vstd::std_specs::cmp::PartialEqSpecImpl for StrMap<T> {
    open spec fn obeys_eq_spec() -> bool {
        T::obeys_eq_spec()
    }

    open spec fn eq_spec(&self, other: &StrMap<T>) -> bool {
        same_entries(self.pairs(), other.pairs())
    }
}

impl<T: Clone> Clone for StrMap<T> {
    /// Copies the map: the same keys in the same order, each value cloned.
    fn clone(&self) -> (r: Self)
        ensures
            keys_of(r.pairs()) == keys_of(self.pairs()),
            forall|i: int|
                0 <= i < self.pairs().len() ==> cloned::<T>(
                    self.pairs()[i].1,
                    #[trigger] r.pairs()[i].1,
                ),
    {
        proof { use_type_invariant(self); }
        let mut entries: Vec<(String, T)> = Vec::new();
        let mut i: usize = 0;
        while i < self.entries.len()
            invariant
                i <= self.entries.len(),
                entries@.len() == i,
                forall|j: int| 0 <= j < i ==> #[trigger] entries@[j].0@ == self.entries@[j].0@,
                forall|j: int|
                    0 <= j < i ==> cloned::<T>(self.entries@[j].1, #[trigger] entries@[j].1),
            decreases self.entries.len() - i,
        {
            let k = self.entries[i].0.clone();
            let v = self.entries[i].1.clone();
            entries.push((k, v));
            i = i + 1;
        }
        let ghost new_pairs = entries@.map_values(|e: (String, T)| (e.0@, e.1));
        assert(forall|j: int| 0 <= j < self.entries@.len() ==> new_pairs[j].0 == #[trigger] self.pairs()[j].0);
        assert(distinct_keys(new_pairs)) by {
            assert forall|a: int, b: int|
                0 <= a < new_pairs.len() && 0 <= b < new_pairs.len() && a != b implies #[trigger] new_pairs[a].0
                    != #[trigger] new_pairs[b].0 by {
                assert(self.pairs()[a].0 != self.pairs()[b].0);
            }
        }
        let r = StrMap { entries };
        assert(keys_of(r.pairs()) =~= keys_of(self.pairs()));
        r
    }
}

} // verus!
