//! An insertion-ordered map with string keys.
//!
//! [`OrderedMap`] keeps an [`IndexMap`] from each key to its position and the
//! values in a vector beside it, so the order of first insertion and the
//! uniqueness of keys come from `indexmap`, and everything about the values is
//! proved here.

use crate::data::Duplicate;
use indexmap::IndexMap;
use vstd::prelude::*;

verus! {

/// The entries of a map in order, as contracts speak of them.
pub type Entries<T> = Seq<(Seq<char>, T)>;

/// `k` is a key of `m`.
pub open spec fn has_key<T>(m: Entries<T>, k: Seq<char>) -> bool {
    exists|i: int| 0 <= i < m.len() && (#[trigger] m[i]).0 == k
}

/// A position at which `k` stands in `m` (the only one where keys are distinct).
pub open spec fn key_index<T>(m: Entries<T>, k: Seq<char>) -> int {
    choose|i: int| 0 <= i < m.len() && (#[trigger] m[i]).0 == k
}

/// The value stored under `k`.
pub open spec fn value_of<T>(m: Entries<T>, k: Seq<char>) -> Option<T> {
    if has_key(m, k) {
        Some(m[key_index(m, k)].1)
    } else {
        None
    }
}

/// `m` with `v` under `k`: in place where `k` is a key, else as the last entry.
pub open spec fn put<T>(m: Entries<T>, k: Seq<char>, v: T) -> Entries<T> {
    if has_key(m, k) {
        m.update(key_index(m, k), (k, v))
    } else {
        m.push((k, v))
    }
}

/// `m` without `k`; the entries behind it move up.
pub open spec fn without<T>(m: Entries<T>, k: Seq<char>) -> Entries<T> {
    if has_key(m, k) {
        m.remove(key_index(m, k))
    } else {
        m
    }
}

/// No key stands twice in `m`.
pub open spec fn distinct<T>(m: Entries<T>) -> bool {
    forall|i: int, j: int| 0 <= i < j < m.len() ==> (#[trigger] m[i]).0 != (#[trigger] m[j]).0
}

/// Where keys are distinct, each entry is found under its own key.
pub proof fn lemma_found<T>(m: Entries<T>, i: int)
    requires
        distinct(m),
        0 <= i < m.len(),
    ensures
        has_key(m, m[i].0),
        key_index(m, m[i].0) == i,
        value_of(m, m[i].0) == Some(m[i].1),
{
    assert(m[i].0 == m[i].0);
    let j = key_index(m, m[i].0);
    assert(0 <= j < m.len() && m[j].0 == m[i].0);
}

/// What is put is found under its key, and every other key is left alone.
pub proof fn law_put<T>(m: Entries<T>, k: Seq<char>, v: T, other: Seq<char>)
    requires
        distinct(m),
    ensures
        distinct(put(m, k, v)),
        value_of(put(m, k, v), k) == Some(v),
        other != k ==> value_of(put(m, k, v), other) == value_of(m, other),
{
    let p = put(m, k, v);
    let at = if has_key(m, k) {
        key_index(m, k)
    } else {
        m.len() as int
    };
    assert(0 <= at < p.len() && p[at] == (k, v));
    assert forall|i: int, j: int| 0 <= i < j < p.len() implies (#[trigger] p[i]).0 != (
    #[trigger] p[j]).0 by {
        if i != at && j != at {
            assert(m[i].0 != m[j].0);
        } else if i == at {
            if has_key(m, k) {
                assert(m[i].0 != m[j].0);
            }
        } else {
            assert(m[i].0 == p[i].0);
            if has_key(m, k) {
                assert(m[i].0 != m[j].0);
            }
        }
    }
    lemma_found(p, at);
    if other != k {
        if has_key(m, other) {
            let i = key_index(m, other);
            assert(0 <= i < m.len() && m[i].0 == other);
            assert(p[i] == m[i]);
            lemma_found(m, i);
            lemma_found(p, i);
        } else if has_key(p, other) {
            let i = key_index(p, other);
            assert(0 <= i < p.len() && p[i].0 == other);
            assert(m[i].0 == other);
        }
    }
}

/// What is taken out is gone, and every other key is left alone.
pub proof fn law_without<T>(m: Entries<T>, k: Seq<char>, other: Seq<char>)
    requires
        distinct(m),
    ensures
        distinct(without(m, k)),
        !has_key(without(m, k), k),
        other != k ==> value_of(without(m, k), other) == value_of(m, other),
{
    let p = without(m, k);
    if has_key(m, k) {
        let at = key_index(m, k);
        assert(0 <= at < m.len() && m[at].0 == k);
        assert forall|i: int| 0 <= i < p.len() implies #[trigger] p[i] == m[if i < at {
            i
        } else {
            i + 1
        }] by {}
        assert(distinct(p)) by {
            assert forall|i: int, j: int| 0 <= i < j < p.len() implies (#[trigger] p[i]).0 != (
            #[trigger] p[j]).0 by {
                let a = if i < at {
                    i
                } else {
                    i + 1
                };
                let b = if j < at {
                    j
                } else {
                    j + 1
                };
                assert(p[i] == m[a] && p[j] == m[b]);
                assert(m[a].0 != m[b].0);
            }
        }
        assert forall|i: int| 0 <= i < p.len() implies (#[trigger] p[i]).0 != k by {
            let a = if i < at {
                i
            } else {
                i + 1
            };
            assert(p[i] == m[a]);
            assert(m[a].0 != m[at].0);
        }
        if other != k {
            if has_key(m, other) {
                let i = key_index(m, other);
                assert(0 <= i < m.len() && m[i].0 == other);
                lemma_found(m, i);
                let a = if i < at {
                    i
                } else {
                    i - 1
                };
                assert(p[a] == m[i]);
                lemma_found(p, a);
            } else if has_key(p, other) {
                let i = key_index(p, other);
                assert(0 <= i < p.len() && p[i].0 == other);
                let a = if i < at {
                    i
                } else {
                    i + 1
                };
                assert(m[a].0 == other);
            }
        }
    }
}

/// Of two values put under one key the second stays.
pub proof fn lemma_put_put<T>(m: Entries<T>, k: Seq<char>, v: T, w: T)
    requires
        distinct(m),
    ensures
        put(put(m, k, v), k, w) == put(m, k, w),
{
    law_put(m, k, v, k);
    let p = put(m, k, v);
    let at = if has_key(m, k) {
        key_index(m, k)
    } else {
        m.len() as int
    };
    assert(p[at].0 == k);
    lemma_found(p, at);
    assert(put(p, k, w) =~= put(m, k, w));
}

/// Putting the value that a key has changes nothing.
pub proof fn lemma_put_same<T>(m: Entries<T>, k: Seq<char>)
    requires
        distinct(m),
        has_key(m, k),
    ensures
        put(m, k, value_of(m, k)->0) == m,
{
    let at = key_index(m, k);
    assert(0 <= at < m.len() && m[at].0 == k);
    assert(put(m, k, m[at].1) =~= m);
}

/// Taking out a new key undoes putting it in.
pub proof fn lemma_without_put<T>(m: Entries<T>, k: Seq<char>, v: T)
    requires
        distinct(m),
        !has_key(m, k),
    ensures
        without(put(m, k, v), k) == m,
{
    law_put(m, k, v, k);
    let p = put(m, k, v);
    lemma_found(p, m.len() as int);
    assert(p.remove(m.len() as int) =~= m);
}

/// `indexmap::IndexMap`, a hash map that keeps its entries in order.
#[verifier::external_type_specification]
#[verifier::external_body]
#[verifier::reject_recursive_types(K)]
#[verifier::reject_recursive_types(V)]
#[verifier::reject_recursive_types(S)]
pub struct ExIndexMap<K, V, S>(IndexMap<K, V, S>);

/// What an index map holds: its entries, first to last.
pub uninterp spec fn slot_entries(m: IndexMap<String, usize>) -> Seq<(Seq<char>, usize)>;

/// `IndexMap::new`: a map without entries.
#[verifier::external_body]
fn slots_new() -> (m: IndexMap<String, usize>)
    ensures
        slot_entries(m) == Seq::<(Seq<char>, usize)>::empty(),
{
    IndexMap::new()
}

/// `IndexMap::get`: the value of the entry with this key, if there is one.
#[verifier::external_body]
fn slots_get(m: &IndexMap<String, usize>, key: &str) -> (r: Option<usize>)
    ensures
        match r {
            Some(v) => exists|i: int|
                0 <= i < slot_entries(*m).len() && #[trigger] slot_entries(*m)[i] == (key@, v),
            None => !has_key(slot_entries(*m), key@),
        },
{
    m.get(key).copied()
}

/// `IndexMap::get_index`: the key of the entry at a position.
#[verifier::external_body]
fn slots_key(m: &IndexMap<String, usize>, at: usize) -> (r: Option<&String>)
    ensures
        match r {
            Some(k) => at < slot_entries(*m).len() && k@ == slot_entries(*m)[at as int].0,
            None => at >= slot_entries(*m).len(),
        },
{
    m.get_index(at).map(|e| e.0)
}

/// `IndexMap::insert`: sets the value in place where the key is present, else
/// appends the entry.
#[verifier::external_body]
fn slots_insert(m: &mut IndexMap<String, usize>, key: String, value: usize)
    ensures
        slot_entries(*final(m)) == put(slot_entries(*old(m)), key@, value),
{
    m.insert(key, value);
}

/// `IndexMap::shift_remove`: removes the entry with this key, keeping the order
/// of the others.
#[verifier::external_body]
fn slots_remove(m: &mut IndexMap<String, usize>, key: &str)
    ensures
        slot_entries(*final(m)) == without(slot_entries(*old(m)), key@),
{
    m.shift_remove(key);
}

/// A map from strings to `V` in order of first insertion.
#[derive(Debug)]
pub struct OrderedMap<V> {
    slots: IndexMap<String, usize>,
    values: Vec<V>,
}

impl<V: DeepView> DeepView for OrderedMap<V> {
    type V = Entries<V::V>;

    closed spec fn deep_view(&self) -> Entries<V::V> {
        Seq::new(
            self.values@.len(),
            |i: int| (slot_entries(self.slots)[i].0, self.values@[i].deep_view()),
        )
    }
}

impl<V> OrderedMap<V> {
    /// Position and value line up: the entry at `i` has slot `i`, and no key
    /// stands twice.
    #[verifier::type_invariant]
    pub closed spec fn wf(&self) -> bool {
        &&& slot_entries(self.slots).len() == self.values@.len()
        &&& forall|i: int|
            0 <= i < self.values@.len() ==> (#[trigger] slot_entries(self.slots)[i]).1 == i
        &&& distinct(slot_entries(self.slots))
    }
}

impl<V: DeepView> Default for OrderedMap<V> {
    fn default() -> (m: Self)
        ensures
            m.deep_view() == Seq::<(Seq<char>, V::V)>::empty(),
    {
        OrderedMap::new()
    }
}

impl<V: Duplicate> Clone for OrderedMap<V> {
    fn clone(&self) -> (m: Self)
        ensures
            m.deep_view() == self.deep_view(),
    {
        self.duplicate()
    }
}

impl<V: DeepView> OrderedMap<V> {
    /// The keys of a well-formed map are distinct.
    pub proof fn lemma_distinct(&self)
        requires
            self.wf(),
        ensures
            distinct(self.deep_view()),
    {
        assert forall|i: int, j: int| 0 <= i < j < self.deep_view().len() implies (
        #[trigger] self.deep_view()[i]).0 != (#[trigger] self.deep_view()[j]).0 by {
            assert(slot_entries(self.slots)[i].0 != slot_entries(self.slots)[j].0);
        }
    }

    /// The empty map.
    pub fn new() -> (m: Self)
        ensures
            m.deep_view() == Seq::<(Seq<char>, V::V)>::empty(),
    {
        let m = OrderedMap { slots: slots_new(), values: Vec::new() };
        assert(m.deep_view() =~= Seq::<(Seq<char>, V::V)>::empty());
        m
    }

    /// The number of entries.
    pub fn len(&self) -> (n: usize)
        ensures
            n == self.deep_view().len(),
            distinct(self.deep_view()),
    {
        proof {
            use_type_invariant(self);
            self.lemma_distinct();
        }
        self.values.len()
    }

    /// True where there is no entry.
    pub fn is_empty(&self) -> (b: bool)
        ensures
            b == (self.deep_view().len() == 0),
    {
        self.values.len() == 0
    }

    /// The position of a key.
    pub fn index_of(&self, key: &str) -> (r: Option<usize>)
        ensures
            distinct(self.deep_view()),
            match r {
                Some(i) => {
                    &&& i < self.deep_view().len()
                    &&& has_key(self.deep_view(), key@)
                    &&& key_index(self.deep_view(), key@) == i
                    &&& self.deep_view()[i as int].0 == key@
                },
                None => !has_key(self.deep_view(), key@),
            },
    {
        proof {
            use_type_invariant(self);
            self.lemma_distinct();
        }
        let r = slots_get(&self.slots, key);
        proof {
            let d = self.deep_view();
            let e = slot_entries(self.slots);
            match r {
                Some(v) => {
                    let i = choose|i: int| 0 <= i < e.len() && #[trigger] e[i] == (key@, v);
                    assert(d[i].0 == key@);
                    lemma_found(d, i);
                },
                None => {
                    assert forall|i: int| 0 <= i < d.len() implies (#[trigger] d[i]).0 != key@ by {
                        assert(e[i].0 != key@);
                    }
                },
            }
        }
        r
    }

    /// True where `key` is present.
    pub fn contains_key(&self, key: &str) -> (b: bool)
        ensures
            b == has_key(self.deep_view(), key@),
    {
        match self.index_of(key) {
            Some(_) => true,
            None => false,
        }
    }

    /// The value under a key.
    pub fn get(&self, key: &str) -> (r: Option<&V>)
        ensures
            r.deep_view() == value_of(self.deep_view(), key@),
    {
        match self.index_of(key) {
            Some(i) => Some(&self.values[i]),
            None => None,
        }
    }

    /// The key at a position.
    pub fn key_at(&self, at: usize) -> (k: &String)
        requires
            at < self.deep_view().len(),
        ensures
            k@ == self.deep_view()[at as int].0,
    {
        proof {
            use_type_invariant(self);
        }
        slots_key(&self.slots, at).unwrap()
    }

    /// The value at a position.
    pub fn value_at(&self, at: usize) -> (v: &V)
        requires
            at < self.deep_view().len(),
        ensures
            v.deep_view() == self.deep_view()[at as int].1,
    {
        &self.values[at]
    }

    /// Sets the value under `key`: in place where the key is present, else as
    /// the last entry.
    pub fn insert(&mut self, key: String, value: V)
        ensures
            final(self).deep_view() == put(old(self).deep_view(), key@, value.deep_view()),
    {
        let found = self.index_of(key.as_str());
        let ghost before = self.deep_view();
        let mut m = OrderedMap::new();
        std::mem::swap(self, &mut m);
        proof {
            use_type_invariant(&m);
        }
        let OrderedMap { mut slots, mut values } = m;
        let ghost e = slot_entries(slots);
        match found {
            Some(i) => {
                values.set(i, value);
            },
            None => {
                let n: usize = values.len();
                proof {
                    assert forall|i: int| 0 <= i < e.len() implies (#[trigger] e[i]).0 != key@ by {
                        assert(before[i].0 == e[i].0);
                    }
                }
                slots_insert(&mut slots, key, n);
                values.push(value);
            },
        }
        *self = OrderedMap { slots, values };
        assert(self.deep_view() =~= put(before, key@, value.deep_view()));
    }

    /// Removes `key`; the entries behind it keep their order.
    pub fn shift_remove(&mut self, key: &str) -> (r: Option<V>)
        ensures
            r.deep_view() == value_of(old(self).deep_view(), key@),
            final(self).deep_view() == without(old(self).deep_view(), key@),
    {
        let at = match self.index_of(key) {
            Some(i) => i,
            None => {
                return None;
            },
        };
        let ghost before = self.deep_view();
        let mut m = OrderedMap::new();
        std::mem::swap(self, &mut m);
        proof {
            use_type_invariant(&m);
        }
        let OrderedMap { mut slots, mut values } = m;
        let ghost e = slot_entries(slots);
        proof {
            assert(before[at as int].0 == e[at as int].0);
            lemma_found(e, at as int);
        }
        slots_remove(&mut slots, key);
        let v = values.remove(at);
        let ghost mid = slot_entries(slots);
        let n: usize = values.len();
        let mut j: usize = at;
        while j < n
            invariant
                at <= j <= n,
                n == values@.len(),
                slot_entries(slots).len() == n,
                mid.len() == n,
                distinct(mid),
                forall|i: int|
                    0 <= i < n ==> (#[trigger] slot_entries(slots)[i]).0 == mid[i].0,
                forall|i: int| 0 <= i < j ==> (#[trigger] slot_entries(slots)[i]).1 == i,
            decreases n - j,
        {
            let k = slots_key(&slots, j).unwrap().clone();
            let ghost cur = slot_entries(slots);
            proof {
                assert(distinct(cur)) by {
                    assert forall|a: int, b: int| 0 <= a < b < cur.len() implies (
                    #[trigger] cur[a]).0 != (#[trigger] cur[b]).0 by {
                        assert(mid[a].0 != mid[b].0);
                    }
                }
                lemma_found(cur, j as int);
            }
            slots_insert(&mut slots, k, j);
            j += 1;
        }
        proof {
            assert(distinct(slot_entries(slots))) by {
                let cur = slot_entries(slots);
                assert forall|a: int, b: int| 0 <= a < b < cur.len() implies (
                #[trigger] cur[a]).0 != (#[trigger] cur[b]).0 by {
                    assert(mid[a].0 != mid[b].0);
                }
            }
        }
        *self = OrderedMap { slots, values };
        assert(self.deep_view() =~= before.remove(at as int));
        Some(v)
    }
}

} // verus!
