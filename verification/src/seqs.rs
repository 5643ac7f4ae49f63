//! Sequence helpers shared by the stores: order-keeping filtering.
use vstd::prelude::*;

verus! {

/// Keeps, in order, the elements for which `keep` answers `true`; `p` is
/// what `keep` computes.
pub(crate) fn retain_where<T, F: Fn(&T) -> bool>(
    v: Vec<T>,
    keep: F,
    Ghost(p): Ghost<spec_fn(T) -> bool>,
) -> (r: Vec<T>)
    requires
        forall|x: &T| #[trigger] keep.requires((x,)),
        forall|x: &T, b: bool| keep.ensures((x,), b) ==> b == p(*x),
    ensures
        r@ == v@.filter(p),
{
    let ghost orig = v@;
    let mut v = v;
    let mut out: Vec<T> = Vec::new();
    let ghost mut k: int = 0;
    proof {
        reveal(Seq::filter);
        assert(orig.take(0) =~= Seq::<T>::empty());
        assert(orig.skip(0) =~= orig);
    }
    while v.len() > 0
        invariant
            0 <= k <= orig.len(),
            v@ == orig.skip(k),
            out@ == orig.take(k).filter(p),
            forall|x: &T| #[trigger] keep.requires((x,)),
            forall|x: &T, b: bool| keep.ensures((x,), b) ==> b == p(*x),
        decreases v.len(),
    {
        let x = v.remove(0);
        let b = keep(&x);
        proof {
            assert(orig.take(k + 1) =~= orig.take(k).push(x));
            orig.take(k).lemma_filter_push(x, p);
        }
        if b {
            out.push(x);
        }
        proof {
            k = k + 1;
            assert(v@ =~= orig.skip(k));
        }
    }
    assert(orig.take(k) =~= orig);
    out
}

/// Filtering keeps a sequence whose elements all pass unchanged.
pub proof fn lemma_filter_keeps_all<T>(s: Seq<T>, p: spec_fn(T) -> bool)
    requires
        forall|i: int| 0 <= i < s.len() ==> p(#[trigger] s[i]),
    ensures
        s.filter(p) == s,
    decreases s.len(),
{
    if s.len() > 0 {
        let t = s.drop_last();
        assert(s =~= t.push(s.last()));
        assert forall|i: int| 0 <= i < t.len() implies p(#[trigger] t[i]) by {
            assert(t[i] == s[i]);
        }
        lemma_filter_keeps_all(t, p);
        t.lemma_filter_push(s.last(), p);
        assert(p(s[s.len() - 1]));
    }
}

/// Filtering twice by the same predicate filters once.
pub proof fn lemma_filter_idempotent<T>(s: Seq<T>, p: spec_fn(T) -> bool)
    ensures
        s.filter(p).filter(p) == s.filter(p),
    decreases s.len(),
{
    if s.len() > 0 {
        let t = s.drop_last();
        assert(s =~= t.push(s.last()));
        lemma_filter_idempotent(t, p);
        t.lemma_filter_push(s.last(), p);
        t.filter(p).lemma_filter_push(s.last(), p);
    }
}

/// Appending an element the predicate drops, then filtering, gives the
/// filtered sequence back.
pub proof fn lemma_filter_push_dropped<T>(s: Seq<T>, p: spec_fn(T) -> bool, x: T)
    requires
        !p(x),
    ensures
        s.filter(p).push(x).filter(p) == s.filter(p),
{
    s.filter(p).lemma_filter_push(x, p);
    lemma_filter_idempotent(s, p);
}

/// Filtering keeps a pairwise property of the remaining elements.
pub proof fn lemma_filter_pairwise<T>(s: Seq<T>, p: spec_fn(T) -> bool, rel: spec_fn(T, T) -> bool)
    requires
        forall|i: int, j: int| 0 <= i < j < s.len() ==> #[trigger] rel(s[i], s[j]),
    ensures
        forall|i: int, j: int|
            0 <= i < j < s.filter(p).len() ==> #[trigger] rel(s.filter(p)[i], s.filter(p)[j]),
    decreases s.len(),
{
    if s.len() > 0 {
        let t = s.drop_last();
        assert(s =~= t.push(s.last()));
        lemma_filter_pairwise(t, p, rel);
        t.lemma_filter_push(s.last(), p);
        broadcast use vstd::seq_lib::group_filter_ensures;
        if p(s.last()) {
            let f = t.filter(p);
            assert forall|i: int, j: int|
                0 <= i < j < s.filter(p).len() implies #[trigger] rel(
                s.filter(p)[i],
                s.filter(p)[j],
            ) by {
                if j == f.len() {
                    assert(f.contains(f[i]));
                    t.lemma_filter_contains_rev(p, f[i]);
                    let k = choose|k: int| 0 <= k < t.len() && t[k] == f[i];
                    assert(rel(s[k], s[s.len() - 1]));
                }
            }
        }
    }
}


/// `leq` is a total preorder.
pub open spec fn total_preorder<T>(leq: spec_fn(T, T) -> bool) -> bool {
    &&& forall|a: T, b: T| #[trigger] leq(a, b) || leq(b, a)
    &&& forall|a: T, b: T, c: T| #[trigger] leq(a, b) && #[trigger] leq(b, c) ==> leq(a, c)
}

/// `s` is ordered by `leq`.
pub open spec fn sorted_by<T>(s: Seq<T>, leq: spec_fn(T, T) -> bool) -> bool {
    forall|i: int, j: int| 0 <= i < j < s.len() ==> #[trigger] leq(s[i], s[j])
}

/// Stable insertion sort; `le` computes `leq`.
pub(crate) fn sort_with<T, F: Fn(&T, &T) -> bool>(
    v: Vec<T>,
    le: F,
    Ghost(leq): Ghost<spec_fn(T, T) -> bool>,
) -> (r: Vec<T>)
    requires
        forall|a: &T, b: &T| #[trigger] le.requires((a, b)),
        forall|a: &T, b: &T, x: bool| le.ensures((a, b), x) ==> x == leq(*a, *b),
        total_preorder(leq),
    ensures
        sorted_by(r@, leq),
        r@.to_multiset() == v@.to_multiset(),
{
    broadcast use vstd::seq_lib::group_to_multiset_ensures;

    let ghost orig = v@;
    let mut v = v;
    let mut out: Vec<T> = Vec::new();
    let ghost mut k: int = 0;
    proof {
        assert(orig.take(0) =~= Seq::<T>::empty());
        assert(orig.skip(0) =~= orig);
    }
    while v.len() > 0
        invariant
            0 <= k <= orig.len(),
            v@ == orig.skip(k),
            sorted_by(out@, leq),
            out@.to_multiset() == orig.take(k).to_multiset(),
            forall|a: &T, b: &T| #[trigger] le.requires((a, b)),
            forall|a: &T, b: &T, x: bool| le.ensures((a, b), x) ==> x == leq(*a, *b),
            total_preorder(leq),
        decreases v.len(),
    {
        let x = v.remove(0);
        let n = out.len();
        let mut j: usize = 0;
        while j < n && le(&out[j], &x)
            invariant
                n == out@.len(),
                0 <= j <= n,
                forall|i: int| 0 <= i < j ==> leq(#[trigger] out@[i], x),
                forall|a: &T, b: &T| #[trigger] le.requires((a, b)),
                forall|a: &T, b: &T, x: bool| le.ensures((a, b), x) ==> x == leq(*a, *b),
            decreases n - j,
        {
            j = j + 1;
        }
        let ghost before = out@;
        proof {
            if j < n {
                assert(!leq(before[j as int], x));
                assert(leq(before[j as int], x) || leq(x, before[j as int]));
            }
        }
        out.insert(j, x);
        proof {
            let after = out@;
            assert(after == before.insert(j as int, x));
            before.insert_ensures(j as int, x);
            assert forall|a: int, b: int| 0 <= a < b < after.len() implies #[trigger] leq(
                after[a],
                after[b],
            ) by {
                if b < j {
                    assert(leq(before[a], before[b]));
                } else if b == j {
                    assert(leq(before[a], x));
                } else if a == j {
                    assert(after[b] == before[b - 1]);
                    if j < b - 1 {
                        assert(leq(before[j as int], before[b - 1]));
                    }
                    assert(leq(x, before[j as int]));
                } else if a < j {
                    assert(after[b] == before[b - 1]);
                    assert(leq(before[a], x));
                    assert(leq(x, before[j as int]));
                    if j < b - 1 {
                        assert(leq(before[j as int], before[b - 1]));
                    }
                    assert(leq(before[a], before[j as int]));
                } else {
                    assert(after[a] == before[a - 1]);
                    assert(after[b] == before[b - 1]);
                    assert(leq(before[a - 1], before[b - 1]));
                }
            }
            assert(after.remove(j as int) =~= before);
            assert(after[j as int] == x);
            after.to_multiset_ensures();
            orig.take(k).to_multiset_ensures();
            assert(after.remove(j as int).to_multiset() =~= after.to_multiset().remove(after[j as int]));
            assert(after.to_multiset().remove(x) =~= before.to_multiset());
            assert(after.contains(x));
            assert(after.to_multiset().count(x) > 0);
            assert(after.to_multiset() =~= before.to_multiset().insert(x));
            assert(orig.take(k + 1) =~= orig.take(k).push(x));
            k = k + 1;
            assert(v@ =~= orig.skip(k));
        }
    }
    assert(orig.take(k) =~= orig);
    out
}

} // verus!
