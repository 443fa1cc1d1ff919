//! Stable ordering of sequences.

use vstd::prelude::*;

verus! {

/// `x` put into `s` behind the last element that may stand before it.
pub open spec fn placed<T>(s: Seq<T>, le: spec_fn(T, T) -> bool, x: T) -> Seq<T>
    decreases s.len(),
{
    if s.len() == 0 || le(s.last(), x) {
        s.push(x)
    } else {
        placed(s.drop_last(), le, x).push(s.last())
    }
}

/// `s` in order; elements that may stand either way keep their order.
pub open spec fn sorted_by<T>(s: Seq<T>, le: spec_fn(T, T) -> bool) -> Seq<T>
    decreases s.len(),
{
    if s.len() == 0 {
        s
    } else {
        placed(sorted_by(s.drop_last(), le), le, s.last())
    }
}

/// `le` compares any two elements, and its answers chain.
pub open spec fn total_order<T>(le: spec_fn(T, T) -> bool) -> bool {
    &&& forall|a: T, b: T| #[trigger] le(a, b) || le(b, a)
    &&& forall|a: T, b: T, c: T| #[trigger] le(a, b) && #[trigger] le(b, c) ==> le(a, c)
}

/// No element stands behind one that may not precede it.
pub open spec fn in_order<T>(s: Seq<T>, le: spec_fn(T, T) -> bool) -> bool {
    forall|i: int, j: int| 0 <= i < j < s.len() ==> le(#[trigger] s[i], #[trigger] s[j])
}

/// Elements that `le` cannot tell apart from `x`.
pub open spec fn same_rank<T>(le: spec_fn(T, T) -> bool, x: T) -> spec_fn(T) -> bool {
    |y: T| le(x, y) && le(y, x)
}

/// Where the scan from the back stops is where the element is put.
pub proof fn lemma_placed_at<T>(s: Seq<T>, le: spec_fn(T, T) -> bool, x: T, at: int)
    requires
        0 <= at <= s.len(),
        at > 0 ==> le(s[at - 1], x),
        forall|j: int| at <= j < s.len() ==> !le(#[trigger] s[j], x),
    ensures
        placed(s, le, x) == s.insert(at, x),
    decreases s.len(),
{
    if at == s.len() {
        assert(s.insert(at, x) =~= s.push(x));
    } else {
        let t = s.drop_last();
        assert(!le(s[s.len() - 1], x));
        assert forall|j: int| at <= j < t.len() implies !le(#[trigger] t[j], x) by {
            assert(t[j] == s[j]);
        }
        lemma_placed_at(t, le, x, at);
        assert(t.insert(at, x).push(s.last()) =~= s.insert(at, x));
    }
}

proof fn lemma_placed<T>(s: Seq<T>, le: spec_fn(T, T) -> bool, x: T)
    requires
        total_order(le),
        in_order(s, le),
    ensures
        in_order(placed(s, le, x), le),
        placed(s, le, x).to_multiset() == s.to_multiset().insert(x),
        placed(s, le, x).len() == s.len() + 1,
        forall|y: T| #[trigger]
            placed(s, le, x).filter(same_rank(le, y)) == s.push(x).filter(same_rank(le, y)),
    decreases s.len(),
{
    broadcast use vstd::seq_lib::group_to_multiset_ensures;

    let r = placed(s, le, x);
    if s.len() == 0 || le(s.last(), x) {
        assert forall|i: int, j: int| 0 <= i < j < r.len() implies le(
            #[trigger] r[i],
            #[trigger] r[j],
        ) by {
            if j == s.len() && i < s.len() - 1 {
                assert(le(s[i], s[s.len() - 1]));
            }
        }
    } else {
        let t = s.drop_last();
        let z = s.last();
        assert(in_order(t, le)) by {
            assert forall|i: int, j: int| 0 <= i < j < t.len() implies le(
                #[trigger] t[i],
                #[trigger] t[j],
            ) by {
                assert(le(s[i], s[j]));
            }
        }
        lemma_placed(t, le, x);
        let q = placed(t, le, x);
        assert(s =~= t.push(z));
        assert(q.to_multiset() == t.to_multiset().insert(x));
        assert(le(x, z));
        assert forall|i: int, j: int| 0 <= i < j < r.len() implies le(
            #[trigger] r[i],
            #[trigger] r[j],
        ) by {
            if j == q.len() {
                assert(q.contains(q[i]));
                assert(q.to_multiset().contains(q[i]));
                if q[i] != x {
                    assert(t.to_multiset().contains(q[i]));
                    assert(t.contains(q[i]));
                    let k = choose|k: int| 0 <= k < t.len() && t[k] == q[i];
                    assert(le(s[k], s[s.len() - 1]));
                }
            }
        }
        assert(r.to_multiset() =~= s.to_multiset().insert(x));
        assert forall|y: T| #[trigger]
            r.filter(same_rank(le, y)) == s.push(x).filter(same_rank(le, y)) by {
            let f = same_rank(le, y);
            lemma_filter_push(q, f, z);
            lemma_filter_push(t, f, x);
            lemma_filter_push(t, f, z);
            lemma_filter_push(s, f, x);
            if f(x) && f(z) {
                assert(le(z, x));
            }
        }
    }
}

proof fn lemma_filter_push<T>(s: Seq<T>, f: spec_fn(T) -> bool, x: T)
    ensures
        s.push(x).filter(f) == if f(x) {
            s.filter(f).push(x)
        } else {
            s.filter(f)
        },
{
    reveal(Seq::filter);
    assert(s.push(x).drop_last() =~= s);
}

/// Ordering a sequence puts it in order, keeps just its elements, and keeps
/// the order among elements that compare equal.
pub proof fn law_sorted_by<T>(s: Seq<T>, le: spec_fn(T, T) -> bool)
    requires
        total_order(le),
    ensures
        in_order(sorted_by(s, le), le),
        sorted_by(s, le).to_multiset() == s.to_multiset(),
        sorted_by(s, le).len() == s.len(),
        forall|y: T| #[trigger]
            sorted_by(s, le).filter(same_rank(le, y)) == s.filter(same_rank(le, y)),
    decreases s.len(),
{
    broadcast use vstd::seq_lib::group_to_multiset_ensures;

    if s.len() > 0 {
        let t = s.drop_last();
        let x = s.last();
        law_sorted_by(t, le);
        lemma_placed(sorted_by(t, le), le, x);
        assert(s =~= t.push(x));
        assert forall|y: T| #[trigger]
            sorted_by(s, le).filter(same_rank(le, y)) == s.filter(same_rank(le, y)) by {
            let f = same_rank(le, y);
            lemma_filter_push(t, f, x);
            lemma_filter_push(sorted_by(t, le), f, x);
            assert(placed(sorted_by(t, le), le, x).filter(f) == sorted_by(t, le).push(x).filter(f));
        }
    }
}

} // verus!
