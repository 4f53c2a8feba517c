//! Stable insertion order, the order that `slice::sort_by` produces for a strict weak order.
use vstd::prelude::*;

verus! {

/// Inserts `x` after every element of the sorted `s` that `x` does not precede.
pub open spec fn stable_insert<A>(s: Seq<A>, x: A, lt: spec_fn(A, A) -> bool) -> Seq<A>
    decreases s.len(),
{
    if s.len() == 0 {
        seq![x]
    } else if lt(x, s.last()) {
        stable_insert(s.drop_last(), x, lt).push(s.last())
    } else {
        s.push(x)
    }
}

/// Stable sort by a strict order: each element is inserted in input order.
pub open spec fn stable_sort<A>(s: Seq<A>, lt: spec_fn(A, A) -> bool) -> Seq<A>
    decreases s.len(),
{
    if s.len() == 0 {
        Seq::empty()
    } else {
        stable_insert(stable_sort(s.drop_last(), lt), s.last(), lt)
    }
}

/// `stable_insert` places `x` at the position after the last element that `x` does not
/// precede.
pub proof fn lemma_stable_insert_at<A>(s: Seq<A>, x: A, lt: spec_fn(A, A) -> bool, p: int)
    requires
        0 <= p <= s.len(),
        forall|k: int| p <= k < s.len() ==> lt(x, #[trigger] s[k]),
        p > 0 ==> !lt(x, s[p - 1]),
    ensures
        stable_insert(s, x, lt) == s.subrange(0, p).push(x) + s.subrange(p, s.len() as int),
    decreases s.len(),
{
    if s.len() == 0 {
        assert(stable_insert(s, x, lt) =~= s.subrange(0, p).push(x) + s.subrange(
            p,
            s.len() as int,
        ));
    } else if p == s.len() {
        assert(!lt(x, s.last()));
        assert(s.subrange(0, p) =~= s);
        assert(stable_insert(s, x, lt) =~= s.subrange(0, p).push(x) + s.subrange(
            p,
            s.len() as int,
        ));
    } else {
        assert(lt(x, s[s.len() - 1]));
        let t = s.drop_last();
        assert forall|k: int| p <= k < t.len() implies lt(x, #[trigger] t[k]) by {
            assert(t[k] == s[k]);
        }
        if p > 0 {
            assert(t[p - 1] == s[p - 1]);
        }
        lemma_stable_insert_at(t, x, lt, p);
        assert(stable_insert(s, x, lt) =~= s.subrange(0, p).push(x) + s.subrange(
            p,
            s.len() as int,
        ));
    }
}

/// The prefix step of `stable_sort`.
pub proof fn lemma_stable_sort_step<A>(s: Seq<A>, i: int, lt: spec_fn(A, A) -> bool)
    requires
        0 <= i < s.len(),
    ensures
        stable_sort(s.subrange(0, i + 1), lt) == stable_insert(
            stable_sort(s.subrange(0, i), lt),
            s[i],
            lt,
        ),
{
    assert(s.subrange(0, i + 1).drop_last() =~= s.subrange(0, i));
}


/// Inserting keeps every element: the result holds `s` and `x`.
pub proof fn lemma_stable_insert_multiset<A>(s: Seq<A>, x: A, lt: spec_fn(A, A) -> bool)
    ensures
        stable_insert(s, x, lt).to_multiset() == s.to_multiset().insert(x),
        stable_insert(s, x, lt).len() == s.len() + 1,
    decreases s.len(),
{
    broadcast use vstd::seq_lib::group_to_multiset_ensures;
    if s.len() == 0 {
        assert(seq![x] =~= Seq::<A>::empty().push(x));
    } else if lt(x, s.last()) {
        lemma_stable_insert_multiset(s.drop_last(), x, lt);
        assert(s =~= s.drop_last().push(s.last()));
    }
}

/// Sorting keeps every element.
pub proof fn lemma_stable_sort_multiset<A>(s: Seq<A>, lt: spec_fn(A, A) -> bool)
    ensures
        stable_sort(s, lt).to_multiset() == s.to_multiset(),
        stable_sort(s, lt).len() == s.len(),
    decreases s.len(),
{
    broadcast use vstd::seq_lib::group_to_multiset_ensures;
    if s.len() > 0 {
        lemma_stable_sort_multiset(s.drop_last(), lt);
        lemma_stable_insert_multiset(stable_sort(s.drop_last(), lt), s.last(), lt);
        assert(s =~= s.drop_last().push(s.last()));
    }
}

/// The first element after an insertion: the old first one unless `x` precedes it, and `x`
/// when `x` precedes every element.
pub proof fn lemma_stable_insert_head<A>(s: Seq<A>, x: A, lt: spec_fn(A, A) -> bool)
    ensures
        s.len() > 0 && !lt(x, s[0]) ==> stable_insert(s, x, lt)[0] == s[0],
        (forall|k: int| 0 <= k < s.len() ==> lt(x, #[trigger] s[k])) ==> stable_insert(s, x, lt)[0]
            == x,
        stable_insert(s, x, lt)[0] == x || (s.len() > 0 && stable_insert(s, x, lt)[0] == s[0]),
    decreases s.len(),
{
    if s.len() > 0 && lt(x, s.last()) {
        let t = s.drop_last();
        lemma_stable_insert_head(t, x, lt);
        lemma_stable_insert_multiset(t, x, lt);
        if (forall|k: int| 0 <= k < s.len() ==> lt(x, #[trigger] s[k])) {
            assert forall|k: int| 0 <= k < t.len() implies lt(x, #[trigger] t[k]) by {
                assert(t[k] == s[k]);
            }
        }
        if t.len() > 0 {
            assert(t[0] == s[0]);
        }
    }
}

/// Sorting keeps a property that every element has.
pub proof fn lemma_stable_sort_all<A>(s: Seq<A>, lt: spec_fn(A, A) -> bool, p: spec_fn(A) -> bool)
    requires
        forall|k: int| 0 <= k < s.len() ==> p(#[trigger] s[k]),
    ensures
        forall|k: int| 0 <= k < stable_sort(s, lt).len() ==> p(#[trigger] stable_sort(s, lt)[k]),
    decreases s.len(),
{
    if s.len() > 0 {
        let t = s.drop_last();
        assert forall|k: int| 0 <= k < t.len() implies p(#[trigger] t[k]) by {
            assert(t[k] == s[k]);
        }
        lemma_stable_sort_all(t, lt, p);
        lemma_stable_insert_all(stable_sort(t, lt), s.last(), lt, p);
    }
}

proof fn lemma_stable_insert_all<A>(s: Seq<A>, x: A, lt: spec_fn(A, A) -> bool, p: spec_fn(A) -> bool)
    requires
        forall|k: int| 0 <= k < s.len() ==> p(#[trigger] s[k]),
        p(x),
    ensures
        forall|k: int| 0 <= k < stable_insert(s, x, lt).len() ==> p(#[trigger] stable_insert(s, x, lt)[k]),
    decreases s.len(),
{
    let r = stable_insert(s, x, lt);
    if s.len() == 0 {
        assert forall|k: int| 0 <= k < r.len() implies p(#[trigger] r[k]) by {
            assert(r[k] == x);
        }
    } else if lt(x, s.last()) {
        let t = s.drop_last();
        assert forall|k: int| 0 <= k < t.len() implies p(#[trigger] t[k]) by {
            assert(t[k] == s[k]);
        }
        lemma_stable_insert_all(t, x, lt, p);
        let u = stable_insert(t, x, lt);
        assert(r == u.push(s.last()));
        assert forall|k: int| 0 <= k < r.len() implies p(#[trigger] r[k]) by {
            if k < u.len() {
                assert(r[k] == u[k]);
            } else {
                assert(r[k] == s.last());
            }
        }
    } else {
        assert(r == s.push(x));
        assert forall|k: int| 0 <= k < r.len() implies p(#[trigger] r[k]) by {
            if k < s.len() {
                assert(r[k] == s[k]);
            } else {
                assert(r[k] == x);
            }
        }
    }
}

} // verus!
