//! Stable sorting.

use vstd::prelude::*;

verus! {

/// `x` put behind every element of `s` that may stand before it, as far to the
/// right as `le` allows.
pub open spec fn inserted<T>(s: Seq<T>, x: T, le: spec_fn(T, T) -> bool) -> Seq<T>
    decreases s.len(),
{
    if s.len() == 0 || le(s.last(), x) {
        s.push(x)
    } else {
        inserted(s.drop_last(), x, le).push(s.last())
    }
}

/// `s` in order; elements of which each may stand before the other keep the
/// order they had.
pub open spec fn sorted<T>(s: Seq<T>, le: spec_fn(T, T) -> bool) -> Seq<T>
    decreases s.len(),
{
    if s.len() == 0 {
        s
    } else {
        inserted(sorted(s.drop_last(), le), s.last(), le)
    }
}

/// `le` is a total preorder.
pub open spec fn total<T>(le: spec_fn(T, T) -> bool) -> bool {
    &&& forall|a: T, b: T| #[trigger] le(a, b) || le(b, a)
    &&& forall|a: T, b: T, c: T| #[trigger] le(a, b) && #[trigger] le(b, c) ==> le(a, c)
}

/// Each element may stand before all that follow it.
pub open spec fn in_order<T>(s: Seq<T>, le: spec_fn(T, T) -> bool) -> bool {
    forall|i: int, j: int| 0 <= i <= j < s.len() ==> le(#[trigger] s[i], #[trigger] s[j])
}

proof fn lemma_inserted<T>(s: Seq<T>, x: T, le: spec_fn(T, T) -> bool)
    requires
        total(le),
        in_order(s, le),
    ensures
        in_order(inserted(s, x, le), le),
        inserted(s, x, le).to_multiset() == s.push(x).to_multiset(),
        forall|y: T| #[trigger] inserted(s, x, le).contains(y) ==> s.contains(y) || y == x,
    decreases s.len(),
{
    broadcast use vstd::seq_lib::group_to_multiset_ensures;

    let r = inserted(s, x, le);
    assert(le(x, x));
    if s.len() == 0 || le(s.last(), x) {
        assert forall|i: int, j: int| 0 <= i <= j < r.len() implies le(
            #[trigger] r[i],
            #[trigger] r[j],
        ) by {
            if j == s.len() && i < j {
                assert(le(s[i], s[s.len() - 1]));
            }
        }
        assert forall|y: T| #[trigger] r.contains(y) implies s.contains(y) || y == x by {
            let i = choose|i: int| 0 <= i < r.len() && r[i] == y;
            if i < s.len() {
                assert(s[i] == y);
            }
        }
    } else {
        let init = s.drop_last();
        assert(in_order(init, le)) by {
            assert forall|i: int, j: int| 0 <= i <= j < init.len() implies le(
                #[trigger] init[i],
                #[trigger] init[j],
            ) by {
                assert(le(s[i], s[j]));
            }
        }
        lemma_inserted(init, x, le);
        let r0 = inserted(init, x, le);
        assert(le(x, s.last())) by {
            assert(le(s.last(), x) || le(x, s.last()));
        }
        assert forall|i: int, j: int| 0 <= i <= j < r.len() implies le(
            #[trigger] r[i],
            #[trigger] r[j],
        ) by {
            if j < r0.len() {
                assert(le(r0[i], r0[j]));
            } else if i < r0.len() {
                assert(r0.contains(r0[i]));
                if init.contains(r0[i]) {
                    let k = choose|k: int| 0 <= k < init.len() && init[k] == r0[i];
                    assert(le(s[k], s[s.len() - 1]));
                }
            } else {
                assert(le(s[s.len() - 1], s[s.len() - 1]));
            }
        }
        assert(s.push(x).to_multiset() =~= init.push(x).to_multiset().insert(s.last())) by {
            assert(s =~= init.push(s.last()));
        }
        assert(r.to_multiset() =~= r0.to_multiset().insert(s.last()));
        assert forall|y: T| #[trigger] r.contains(y) implies s.contains(y) || y == x by {
            let i = choose|i: int| 0 <= i < r.len() && r[i] == y;
            if i < r0.len() {
                assert(r0.contains(y));
                if init.contains(y) {
                    let k = choose|k: int| 0 <= k < init.len() && init[k] == y;
                    assert(s[k] == y);
                }
            } else {
                assert(s[s.len() - 1] == y);
            }
        }
    }
}

/// Sorting puts the elements in order and keeps each as often as it was there.
pub proof fn law_sorted<T>(s: Seq<T>, le: spec_fn(T, T) -> bool)
    requires
        total(le),
    ensures
        in_order(sorted(s, le), le),
        sorted(s, le).to_multiset() == s.to_multiset(),
    decreases s.len(),
{
    broadcast use vstd::seq_lib::group_to_multiset_ensures;

    if s.len() > 0 {
        law_sorted(s.drop_last(), le);
        lemma_inserted(sorted(s.drop_last(), le), s.last(), le);
        assert(s =~= s.drop_last().push(s.last()));
    }
}

/// Each of two elements may stand before the other.
pub open spec fn tied<T>(a: T, b: T, le: spec_fn(T, T) -> bool) -> bool {
    le(a, b) && le(b, a)
}

/// The elements of `s` that are tied with `x`, in order.
pub open spec fn ties<T>(s: Seq<T>, x: T, le: spec_fn(T, T) -> bool) -> Seq<T>
    decreases s.len(),
{
    if s.len() == 0 {
        s
    } else if tied(s.last(), x, le) {
        ties(s.drop_last(), x, le).push(s.last())
    } else {
        ties(s.drop_last(), x, le)
    }
}

proof fn lemma_inserted_ties<T>(s: Seq<T>, y: T, x: T, le: spec_fn(T, T) -> bool)
    requires
        total(le),
    ensures
        ties(inserted(s, y, le), x, le) == ties(s.push(y), x, le),
    decreases s.len(),
{
    reveal_with_fuel(ties, 3);
    assert(s.push(y).drop_last() =~= s);
    if s.len() > 0 && !le(s.last(), y) {
        let init = s.drop_last();
        lemma_inserted_ties(init, y, x, le);
        assert(inserted(s, y, le).drop_last() =~= inserted(init, y, le));
        assert(init.push(y).drop_last() =~= init);
        if tied(s.last(), x, le) && tied(y, x, le) {
            assert(le(s.last(), x) && le(x, y));
        }
    }
}

/// Sorting is stable: elements that are tied keep the order they had.
pub proof fn law_sorted_is_stable<T>(s: Seq<T>, x: T, le: spec_fn(T, T) -> bool)
    requires
        total(le),
    ensures
        ties(sorted(s, le), x, le) == ties(s, x, le),
    decreases s.len(),
{
    if s.len() > 0 {
        let init = s.drop_last();
        law_sorted_is_stable(init, x, le);
        lemma_inserted_ties(sorted(init, le), s.last(), x, le);
        let t = sorted(init, le).push(s.last());
        assert(t.drop_last() =~= sorted(init, le));
    }
}

/// Data with an order.
pub trait Ordered: DeepView + Sized {
    /// `a` may stand before `b`.
    spec fn le(a: Self::V, b: Self::V) -> bool;

    /// True where this may stand before `other`.
    fn at_most(&self, other: &Self) -> (b: bool)
        ensures
            b == Self::le(self.deep_view(), other.deep_view()),
    ;
}

/// The order of an [`Ordered`] type.
pub open spec fn order<T: Ordered>() -> spec_fn(T::V, T::V) -> bool {
    |a: T::V, b: T::V| T::le(a, b)
}

proof fn lemma_inserted_at<T>(s: Seq<T>, x: T, k: int, le: spec_fn(T, T) -> bool)
    requires
        0 <= k <= s.len(),
        forall|i: int| k <= i < s.len() ==> !le(#[trigger] s[i], x),
        k > 0 ==> le(s[k - 1], x),
    ensures
        inserted(s, x, le) == s.insert(k, x),
    decreases s.len(),
{
    if k == s.len() {
        assert(s.insert(k, x) =~= s.push(x));
    } else {
        let init = s.drop_last();
        assert(!le(s[s.len() - 1], x));
        assert forall|i: int| k <= i < init.len() implies !le(#[trigger] init[i], x) by {
            assert(init[i] == s[i]);
        }
        if k > 0 {
            assert(init[k - 1] == s[k - 1]);
        }
        lemma_inserted_at(init, x, k, le);
        assert(init.insert(k, x).push(s.last()) =~= s.insert(k, x));
    }
}

/// Sorts `v`; the sort is stable.
pub fn sort<T: Ordered>(v: Vec<T>) -> (r: Vec<T>)
    ensures
        r.deep_view() == sorted(v.deep_view(), order::<T>()),
{
    let mut rest = v;
    let mut out: Vec<T> = Vec::new();
    let ghost all = rest.deep_view();
    let ghost le = order::<T>();
    let ghost mut done: int = 0;
    assert(out.deep_view() =~= sorted(all.take(0), le));
    assert(all.skip(0) =~= all);
    while rest.len() > 0
        invariant
            le == order::<T>(),
            0 <= done <= all.len(),
            rest.deep_view() == all.skip(done),
            out.deep_view() == sorted(all.take(done), le),
        decreases rest@.len(),
    {
        let ghost before = rest.deep_view();
        let x = rest.remove(0);
        let ghost s = out.deep_view();
        assert(before[0] == x.deep_view());
        assert(rest.deep_view() =~= before.skip(1));
        assert(all.skip(done).skip(1) =~= all.skip(done + 1));
        let n: usize = out.len();
        let mut k: usize = n;
        while k > 0 && !out[k - 1].at_most(&x)
            invariant
                le == order::<T>(),
                s == out.deep_view(),
                k <= n == out@.len(),
                forall|i: int| k <= i < n ==> !le(#[trigger] s[i], x.deep_view()),
            decreases k,
        {
            assert(s[k - 1] == out@[k - 1].deep_view());
            k -= 1;
        }
        proof {
            if k > 0 {
                assert(s[k - 1] == out@[k - 1].deep_view());
            }
            lemma_inserted_at(s, x.deep_view(), k as int, le);
            assert(all.take(done + 1).drop_last() =~= all.take(done));
            assert(all.take(done + 1).last() == all.skip(done)[0]);
        }
        out.insert(k, x);
        assert(out.deep_view() =~= s.insert(k as int, x.deep_view()));
        proof {
            done = done + 1;
        }
    }
    assert(all.take(done) =~= all) by {
        assert(all.skip(done).len() == 0);
    }
    out
}

// ---- Text ------------------------------------------------------------------

/// Text order: by the code points, left to right.
pub open spec fn text_le(a: Seq<char>, b: Seq<char>) -> bool
    decreases a.len(),
{
    if a.len() == 0 {
        true
    } else if b.len() == 0 {
        false
    } else if a[0] != b[0] {
        a[0] < b[0]
    } else {
        text_le(a.drop_first(), b.drop_first())
    }
}

/// True where `a` is `b` or comes before it.
pub fn text_at_most(a: &str, b: &str) -> (r: bool)
    ensures
        r == text_le(a@, b@),
{
    let x = crate::text::chars_of(a);
    let y = crate::text::chars_of(b);
    let mut i: usize = 0;
    assert(x@.skip(0) =~= a@);
    assert(y@.skip(0) =~= b@);
    while i < x.len() && i < y.len()
        invariant
            i <= x@.len(),
            i <= y@.len(),
            x@ == a@,
            y@ == b@,
            text_le(a@, b@) == text_le(x@.skip(i as int), y@.skip(i as int)),
        decreases x@.len() - i,
    {
        let ghost p = x@.skip(i as int);
        let ghost q = y@.skip(i as int);
        if x[i] != y[i] {
            return x[i] < y[i];
        }
        assert(p.drop_first() =~= x@.skip(i + 1));
        assert(q.drop_first() =~= y@.skip(i + 1));
        i += 1;
    }
    i == x.len()
}

proof fn lemma_text_total(a: Seq<char>, b: Seq<char>)
    ensures
        text_le(a, b) || text_le(b, a),
    decreases a.len(),
{
    if a.len() > 0 && b.len() > 0 && a[0] == b[0] {
        lemma_text_total(a.drop_first(), b.drop_first());
    }
}

proof fn lemma_text_transitive(a: Seq<char>, b: Seq<char>, c: Seq<char>)
    requires
        text_le(a, b),
        text_le(b, c),
    ensures
        text_le(a, c),
    decreases a.len(),
{
    if a.len() > 0 && a[0] == b[0] && b[0] == c[0] {
        lemma_text_transitive(a.drop_first(), b.drop_first(), c.drop_first());
    }
}

/// Text order is total, so sorting by it puts texts in order.
pub proof fn law_text_order_is_total()
    ensures
        total(order::<String>()),
{
    let le = order::<String>();
    assert forall|a: Seq<char>, b: Seq<char>| #[trigger] le(a, b) || le(b, a) by {
        lemma_text_total(a, b);
    }
    assert forall|a: Seq<char>, b: Seq<char>, c: Seq<char>| #[trigger]
        le(a, b) && #[trigger] le(b, c) implies le(a, c) by {
        lemma_text_transitive(a, b, c);
    }
}

impl Ordered for String {
    open spec fn le(a: Seq<char>, b: Seq<char>) -> bool {
        text_le(a, b)
    }

    fn at_most(&self, other: &Self) -> (b: bool) {
        text_at_most(self.as_str(), other.as_str())
    }
}

} // verus!
