//! Stable insertion sorting by a key order.

use vstd::prelude::*;

verus! {

/// An order used to sort values: `spec_after(a, b)` when `a` belongs strictly after `b`.
pub trait SortKey: Sized {
    /// Whether `self` belongs strictly after `other`.
    spec fn spec_after(&self, other: &Self) -> bool;

    /// Whether `self` belongs strictly after `other`.
    fn after(&self, other: &Self) -> (r: bool)
        ensures
            r == self.spec_after(other);
}

/// The position at which `x` enters the ordered sequence `s`: before the first
/// element that belongs after it, so that equal elements keep their order.
pub open spec fn insertion_index<T: SortKey>(s: Seq<T>, x: T) -> nat
    decreases s.len(),
{
    if s.len() == 0 {
        0
    } else if s[0].spec_after(&x) {
        0
    } else {
        1 + insertion_index(s.drop_first(), x)
    }
}

/// `s` with `x` inserted at its insertion index.
pub open spec fn insert_ordered<T: SortKey>(s: Seq<T>, x: T) -> Seq<T> {
    let k = insertion_index(s, x) as int;
    s.take(k).push(x) + s.skip(k)
}

/// The stable ordering of `s`: elements in key order, equal elements in their original order.
pub open spec fn stable_sorted<T: SortKey>(s: Seq<T>) -> Seq<T>
    decreases s.len(),
{
    if s.len() == 0 {
        s
    } else {
        insert_ordered(stable_sorted(s.drop_last()), s.last())
    }
}

pub(crate) proof fn lemma_insertion_index_bound<T: SortKey>(s: Seq<T>, x: T)
    ensures
        insertion_index(s, x) <= s.len(),
    decreases s.len(),
{
    if s.len() > 0 && !s[0].spec_after(&x) {
        lemma_insertion_index_bound(s.drop_first(), x);
    }
}

proof fn lemma_insertion_index_all<T: SortKey>(s: Seq<T>, x: T)
    requires
        forall|i: int| 0 <= i < s.len() ==> !s[i].spec_after(&x),
    ensures
        insertion_index(s, x) == s.len(),
    decreases s.len(),
{
    if s.len() > 0 {
        assert forall|i: int| 0 <= i < s.drop_first().len() implies !s.drop_first()[i].spec_after(
            &x,
        ) by {
            assert(s.drop_first()[i] == s[i + 1]);
        }
        lemma_insertion_index_all(s.drop_first(), x);
    }
}

proof fn lemma_insertion_index_first<T: SortKey>(s: Seq<T>, x: T, j: int)
    requires
        0 <= j < s.len(),
        s[j].spec_after(&x),
        forall|i: int| 0 <= i < j ==> !s[i].spec_after(&x),
    ensures
        insertion_index(s, x) == j,
    decreases j,
{
    if j > 0 {
        assert forall|i: int| 0 <= i < j - 1 implies !s.drop_first()[i].spec_after(&x) by {
            assert(s.drop_first()[i] == s[i + 1]);
        }
        assert(s.drop_first()[j - 1] == s[j]);
        lemma_insertion_index_first(s.drop_first(), x, j - 1);
    }
}

/// Sort by the key order, keeping equal elements in their original order.
pub fn stable_sort<T: SortKey>(v: Vec<T>) -> (r: Vec<T>)
    ensures
        r@ == stable_sorted(v@),
{
    let ghost original = v@;
    let n = v.len();
    let mut input = v;
    let mut out: Vec<T> = Vec::new();
    let mut i: usize = 0;
    assert(original.skip(0) =~= original);
    assert(original.take(0) =~= Seq::<T>::empty());
    while i < n
        invariant
            n == original.len(),
            i <= n,
            input@ == original.skip(i as int),
            out@ == stable_sorted(original.take(i as int)),
        decreases n - i,
    {
        let x = input.remove(0);
        assert(x == original[i as int]);
        assert(input@ =~= original.skip(i as int + 1));
        let mut k: usize = 0;
        let ghost sorted = out@;
        while k < out.len()
            invariant
                sorted == out@,
                k <= out.len(),
                forall|j: int| 0 <= j < k ==> !out@[j].spec_after(&x),
            ensures
                sorted == out@,
                k <= out.len(),
                forall|j: int| 0 <= j < k ==> !out@[j].spec_after(&x),
                k < out.len() ==> out@[k as int].spec_after(&x),
            decreases out.len() - k,
        {
            if out[k].after(&x) {
                break;
            }
            k += 1;
        }
        proof {
            if k < out.len() {
                lemma_insertion_index_first(sorted, x, k as int);
            } else {
                lemma_insertion_index_all(sorted, x);
            }
            assert(original.take(i as int + 1).drop_last() =~= original.take(i as int));
            assert(original.take(i as int + 1).last() == x);
        }
        out.insert(k, x);
        assert(out@ =~= sorted.take(k as int).push(x) + sorted.skip(k as int));
        i += 1;
    }
    assert(original.take(n as int) =~= original);
    out
}

/// Sorting keeps the length and only reorders elements.
pub proof fn lemma_stable_sorted_members<T: SortKey>(s: Seq<T>)
    ensures
        stable_sorted(s).len() == s.len(),
        forall|j: int| 0 <= j < s.len() ==> exists|i: int| 0 <= i < s.len() && s[i] == #[trigger] stable_sorted(s)[j],
    decreases s.len(),
{
    if s.len() > 0 {
        let d = s.drop_last();
        lemma_stable_sorted_members(d);
        let t = stable_sorted(d);
        let x = s.last();
        let k = insertion_index(t, x) as int;
        lemma_insertion_index_bound(t, x);
        let r = t.take(k).push(x) + t.skip(k);
        assert(stable_sorted(s) == r);
        assert forall|j: int| 0 <= j < s.len() implies exists|i: int| 0 <= i < s.len() && s[i] == #[trigger] stable_sorted(s)[j] by {
            if j < k {
                assert(r[j] == t[j]);
                let i = choose|i: int| 0 <= i < d.len() && d[i] == t[j];
                assert(s[i] == d[i]);
            } else if j == k {
                assert(r[j] == x);
                assert(s[s.len() - 1] == x);
            } else {
                assert(r[j] == t[j - 1]);
                let i = choose|i: int| 0 <= i < d.len() && d[i] == t[j - 1];
                assert(s[i] == d[i]);
            }
        }
    }
}

/// Whether a sequence is in key order: no element belongs after a later one.
pub open spec fn sorted_by_key<T: SortKey>(s: Seq<T>) -> bool {
    forall|i: int, j: int| #![trigger s[i], s[j]] 0 <= i < j < s.len() ==> !s[i].spec_after(&s[j])
}

/// Whether the key order is a strict order on all values: asymmetric and transitive.
pub open spec fn strict_key_order<T: SortKey>() -> bool {
    &&& forall|a: T, b: T| #[trigger] a.spec_after(&b) ==> !b.spec_after(&a)
    &&& forall|a: T, b: T, c: T| #[trigger] a.spec_after(&b) && #[trigger] b.spec_after(&c) ==> a.spec_after(&c)
}

proof fn lemma_insertion_index_props<T: SortKey>(s: Seq<T>, x: T)
    ensures
        insertion_index(s, x) <= s.len(),
        forall|i: int| 0 <= i < insertion_index(s, x) ==> !(#[trigger] s[i]).spec_after(&x),
        insertion_index(s, x) < s.len() ==> s[insertion_index(s, x) as int].spec_after(&x),
    decreases s.len(),
{
    if s.len() > 0 && !s[0].spec_after(&x) {
        lemma_insertion_index_props(s.drop_first(), x);
        assert forall|i: int| 0 <= i < insertion_index(s, x) implies !(#[trigger] s[i]).spec_after(&x) by {
            if i > 0 {
                assert(s[i] == s.drop_first()[i - 1]);
            }
        }
        if insertion_index(s, x) < s.len() {
            assert(s[insertion_index(s, x) as int] == s.drop_first()[insertion_index(s, x) - 1]);
        }
    }
}

/// Sorting by a strict key order yields a sequence in key order.
pub proof fn lemma_stable_sorted_is_sorted<T: SortKey>(s: Seq<T>)
    requires
        strict_key_order::<T>(),
    ensures
        sorted_by_key(stable_sorted(s)),
    decreases s.len(),
{
    if s.len() > 0 {
        lemma_stable_sorted_is_sorted(s.drop_last());
        let t = stable_sorted(s.drop_last());
        let x = s.last();
        let k = insertion_index(t, x) as int;
        lemma_insertion_index_props(t, x);
        let r = t.take(k).push(x) + t.skip(k);
        assert(stable_sorted(s) == r);
        assert forall|i: int, j: int| #![trigger r[i], r[j]] 0 <= i < j < r.len() implies !r[i].spec_after(&r[j]) by {
            if j < k {
                assert(r[i] == t[i] && r[j] == t[j]);
            } else if j == k {
                assert(r[i] == t[i] && r[j] == x);
            } else if i < k {
                assert(r[i] == t[i] && r[j] == t[j - 1]);
            } else if i == k {
                assert(r[i] == x && r[j] == t[j - 1]);
                assert(t[k].spec_after(&x));
                if x.spec_after(&t[j - 1]) {
                    assert(t[k].spec_after(&t[j - 1]));
                    if j - 1 == k {
                        assert(!x.spec_after(&t[k]));
                    }
                }
            } else {
                assert(r[i] == t[i - 1] && r[j] == t[j - 1]);
            }
        }
    }
}

/// Whether the key order is a strict order on the values that satisfy `p`.
pub open spec fn strict_among<T: SortKey>(p: spec_fn(T) -> bool) -> bool {
    &&& forall|a: T, b: T| p(a) && p(b) && #[trigger] a.spec_after(&b) ==> !b.spec_after(&a)
    &&& forall|a: T, b: T, c: T| p(a) && p(b) && p(c) && #[trigger] a.spec_after(&b) && #[trigger] b.spec_after(&c)
        ==> a.spec_after(&c)
}

/// Sorting values on which the key order is strict yields a sequence in key order.
pub proof fn lemma_stable_sorted_is_sorted_among<T: SortKey>(s: Seq<T>, p: spec_fn(T) -> bool)
    requires
        strict_among(p),
        forall|i: int| 0 <= i < s.len() ==> p(#[trigger] s[i]),
    ensures
        sorted_by_key(stable_sorted(s)),
        forall|j: int| 0 <= j < stable_sorted(s).len() ==> p(#[trigger] stable_sorted(s)[j]),
    decreases s.len(),
{
    lemma_stable_sorted_members(s);
    assert forall|j: int| 0 <= j < stable_sorted(s).len() implies p(#[trigger] stable_sorted(s)[j]) by {
        let i = choose|i: int| 0 <= i < s.len() && s[i] == stable_sorted(s)[j];
    }
    if s.len() > 0 {
        let d = s.drop_last();
        assert forall|i: int| 0 <= i < d.len() implies p(#[trigger] d[i]) by {
            assert(d[i] == s[i]);
        }
        lemma_stable_sorted_is_sorted_among(d, p);
        let t = stable_sorted(d);
        let x = s.last();
        assert(p(x)) by {
            assert(x == s[s.len() - 1]);
        }
        let k = insertion_index(t, x) as int;
        lemma_insertion_index_props(t, x);
        let r = t.take(k).push(x) + t.skip(k);
        assert(stable_sorted(s) == r);
        assert forall|i: int, j: int| #![trigger r[i], r[j]] 0 <= i < j < r.len() implies !r[i].spec_after(&r[j]) by {
            if j < k {
                assert(r[i] == t[i] && r[j] == t[j]);
            } else if j == k {
                assert(r[i] == t[i] && r[j] == x);
            } else if i < k {
                assert(r[i] == t[i] && r[j] == t[j - 1]);
            } else if i == k {
                assert(r[i] == x && r[j] == t[j - 1]);
                assert(t[k].spec_after(&x));
                assert(p(t[k]) && p(t[j - 1]));
                if x.spec_after(&t[j - 1]) {
                    assert(t[k].spec_after(&t[j - 1]));
                    if j - 1 == k {
                        assert(!x.spec_after(&t[k]));
                    }
                }
            } else {
                assert(r[i] == t[i - 1] && r[j] == t[j - 1]);
            }
        }
    }
}

} // verus!
