//! Copies of plain data.

use crate::ordered::OrderedMap;
use vstd::prelude::*;

verus! {

/// Data that can be copied: the copy means the same.
pub trait Duplicate: DeepView + Sized {
    fn duplicate(&self) -> (r: Self)
        ensures
            r.deep_view() == self.deep_view(),
    ;
}

impl Duplicate for bool {
    fn duplicate(&self) -> (r: Self) {
        *self
    }
}

impl Duplicate for u64 {
    fn duplicate(&self) -> (r: Self) {
        *self
    }
}

impl Duplicate for u8 {
    fn duplicate(&self) -> (r: Self) {
        *self
    }
}

impl Duplicate for String {
    fn duplicate(&self) -> (r: Self) {
        self.clone()
    }
}

impl<T: Duplicate> Duplicate for Option<T> {
    fn duplicate(&self) -> (r: Self) {
        match self {
            Some(v) => Some(v.duplicate()),
            None => None,
        }
    }
}

impl<T: Duplicate> Duplicate for Vec<T> {
    fn duplicate(&self) -> (r: Self) {
        let mut out: Vec<T> = Vec::new();
        let mut i: usize = 0;
        while i < self.len()
            invariant
                i <= self@.len(),
                out@.len() == i,
                forall|j: int|
                    0 <= j < i ==> (#[trigger] out@[j]).deep_view() == self@[j].deep_view(),
            decreases self@.len() - i,
        {
            out.push(self[i].duplicate());
            i += 1;
        }
        assert(out.deep_view() =~= self.deep_view());
        out
    }
}

impl<A: Duplicate, B: Duplicate> Duplicate for (A, B) {
    fn duplicate(&self) -> (r: Self) {
        (self.0.duplicate(), self.1.duplicate())
    }
}

impl<V: Duplicate> Duplicate for OrderedMap<V> {
    fn duplicate(&self) -> (r: Self) {
        let mut out: OrderedMap<V> = OrderedMap::new();
        let n: usize = self.len();
        let mut i: usize = 0;
        let ghost d = self.deep_view();
        while i < n
            invariant
                d == self.deep_view(),
                i <= n == d.len(),
                crate::ordered::distinct(d),
                out.deep_view() == d.take(i as int),
            decreases n - i,
        {
            proof {
                assert forall|j: int| 0 <= j < i implies (#[trigger] d.take(i as int)[j]).0
                    != d[i as int].0 by {
                    assert(d[j].0 != d[i as int].0);
                }
            }
            out.insert(self.key_at(i).clone(), self.value_at(i).duplicate());
            assert(d.take(i + 1) =~= d.take(i as int).push(d[i as int]));
            i += 1;
        }
        assert(d.take(n as int) =~= d);
        out
    }
}

/// The elements of `s` as a vector.
pub fn to_vec<T: Duplicate>(s: &[T]) -> (r: Vec<T>)
    ensures
        r.deep_view() == Seq::new(s@.len(), |i: int| s@[i].deep_view()),
{
    let mut out: Vec<T> = Vec::new();
    let mut i: usize = 0;
    while i < s.len()
        invariant
            i <= s@.len(),
            out@.len() == i,
            forall|j: int| 0 <= j < i ==> (#[trigger] out@[j]).deep_view() == s@[j].deep_view(),
        decreases s@.len() - i,
    {
        out.push(s[i].duplicate());
        i += 1;
    }
    assert(out.deep_view() =~= Seq::new(s@.len(), |i: int| s@[i].deep_view()));
    out
}

/// Appends copies of all of `more` to `out`.
pub fn extend<T: Duplicate>(out: &mut Vec<T>, more: &Vec<T>)
    ensures
        final(out).deep_view() == old(out).deep_view() + more.deep_view(),
{
    let ghost before = out.deep_view();
    let mut i: usize = 0;
    assert(out.deep_view() =~= before + more.deep_view().take(0));
    while i < more.len()
        invariant
            i <= more@.len(),
            out.deep_view() == before + more.deep_view().take(i as int),
        decreases more@.len() - i,
    {
        let ghost cur = out.deep_view();
        out.push(more[i].duplicate());
        assert(out.deep_view() =~= cur.push(more@[i as int].deep_view()));
        i += 1;
        assert(out.deep_view() =~= before + more.deep_view().take(i as int));
    }
    assert(more.deep_view().take(more@.len() as int) =~= more.deep_view());
}

} // verus!
