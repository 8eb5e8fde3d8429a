//! Stable sorting by a comparison.

use vstd::prelude::*;

verus! {

/// A sorted list with one more element, behind those that do not come after it.
pub open spec fn placed<A>(list: Seq<A>, x: A, le: spec_fn(A, A) -> bool) -> Seq<A>
    decreases list.len(),
{
    if list.len() == 0 || le(list.last(), x) {
        list.push(x)
    } else {
        placed(list.drop_last(), x, le).push(list.last())
    }
}

/// A list in order; elements of equal rank keep their places.
pub open spec fn sorted<A>(list: Seq<A>, le: spec_fn(A, A) -> bool) -> Seq<A>
    decreases list.len(),
{
    if list.len() == 0 {
        Seq::empty()
    } else {
        placed(sorted(list.drop_last(), le), list.last(), le)
    }
}

/// Whether a list is in order.
pub open spec fn in_order<A>(list: Seq<A>, le: spec_fn(A, A) -> bool) -> bool {
    forall|i: int, j: int| 0 <= i < j < list.len() ==> le(#[trigger] list[i], #[trigger] list[j])
}

/// A comparison by which a list can be sorted.
pub open spec fn is_order<A>(le: spec_fn(A, A) -> bool) -> bool {
    &&& forall|a: A, b: A| #[trigger] le(a, b) || le(b, a)
    &&& forall|a: A, b: A, c: A| #[trigger] le(a, b) && #[trigger] le(b, c) ==> le(a, c)
}

/// The elements of a list at some places.
pub open spec fn picked<A>(list: Seq<A>, places: Seq<usize>) -> Seq<A> {
    places.map_values(|i: usize| list[i as int])
}

/// Where `placed` puts an element.
pub proof fn lemma_placed_at<A>(list: Seq<A>, x: A, le: spec_fn(A, A) -> bool, p: int)
    requires
        0 <= p <= list.len(),
        p == 0 || le(list[p - 1], x),
        forall|k: int| p <= k < list.len() ==> !le(#[trigger] list[k], x),
    ensures
        placed(list, x, le) == list.insert(p, x),
    decreases list.len(),
{
    if p == list.len() {
        assert(list.insert(p, x) =~= list.push(x));
    } else {
        let front = list.drop_last();
        assert(!le(list[list.len() - 1], x));
        assert forall|k: int| p <= k < front.len() implies !le(#[trigger] front[k], x) by {
            assert(front[k] == list[k]);
        }
        lemma_placed_at(front, x, le, p);
        assert(list.insert(p, x) =~= front.insert(p, x).push(list.last()));
    }
}

/// The place that `placed` chooses.
proof fn lemma_place_exists<A>(list: Seq<A>, x: A, le: spec_fn(A, A) -> bool) -> (p: int)
    ensures
        0 <= p <= list.len(),
        p == 0 || le(list[p - 1], x),
        forall|k: int| p <= k < list.len() ==> !le(#[trigger] list[k], x),
        placed(list, x, le) == list.insert(p, x),
    decreases list.len(),
{
    if list.len() == 0 || le(list.last(), x) {
        assert(list.insert(list.len() as int, x) =~= list.push(x));
        list.len() as int
    } else {
        let front = list.drop_last();
        let p = lemma_place_exists(front, x, le);
        assert(list.insert(p, x) =~= front.insert(p, x).push(list.last()));
        assert forall|k: int| p <= k < list.len() implies !le(#[trigger] list[k], x) by {
            if k < front.len() {
                assert(front[k] == list[k]);
            }
        }
        p
    }
}

/// Sorting loses, adds and repeats nothing.
pub proof fn law_sorting_is_a_permutation<A>(list: Seq<A>, le: spec_fn(A, A) -> bool)
    ensures
        sorted(list, le).len() == list.len(),
        sorted(list, le).to_multiset() == list.to_multiset(),
    decreases list.len(),
{
    if list.len() > 0 {
        let front = list.drop_last();
        law_sorting_is_a_permutation(front, le);
        let p = lemma_place_exists(sorted(front, le), list.last(), le);
        vstd::seq_lib::to_multiset_insert(sorted(front, le), p, list.last());
        vstd::seq_lib::to_multiset_build(front, list.last());
        assert(front.push(list.last()) =~= list);
    } else {
        assert(sorted(list, le) =~= list);
    }
}

/// Sorting puts a list in order.
pub proof fn law_sorting_sorts<A>(list: Seq<A>, le: spec_fn(A, A) -> bool)
    requires
        is_order(le),
    ensures
        in_order(sorted(list, le), le),
    decreases list.len(),
{
    if list.len() > 0 {
        let done = sorted(list.drop_last(), le);
        let x = list.last();
        law_sorting_sorts(list.drop_last(), le);
        let p = lemma_place_exists(done, x, le);
        let all = done.insert(p, x);
        assert forall|i: int, j: int| 0 <= i < j < all.len() implies le(
            #[trigger] all[i],
            #[trigger] all[j],
        ) by {
            let i0 = if i < p { i } else { i - 1 };
            let j0 = if j < p { j } else { j - 1 };
            if i == p {
                assert(all[j] == done[j0]);
                assert(!le(done[j0], x));
            } else if j == p {
                assert(all[i] == done[i0]);
                if i0 < p - 1 {
                    assert(le(done[i0], done[p - 1]) && le(done[p - 1], x));
                }
            } else {
                assert(all[i] == done[i0] && all[j] == done[j0]);
            }
        }
    }
}

/// Order determines the list: two orders of the same elements agree where no two
/// different elements are of equal rank.
pub proof fn law_order_is_unique<A>(a: Seq<A>, b: Seq<A>, le: spec_fn(A, A) -> bool)
    requires
        in_order(a, le),
        in_order(b, le),
        a.to_multiset() == b.to_multiset(),
        forall|x: A, y: A|
            a.contains(x) && a.contains(y) && #[trigger] le(x, y) && #[trigger] le(y, x) ==> x == y,
        forall|x: A| a.contains(x) ==> #[trigger] le(x, x),
    ensures
        a == b,
    decreases a.len(),
{
    broadcast use vstd::seq_lib::group_to_multiset_ensures;

    assert(a.len() == b.len()) by {
        vstd::seq_lib::to_multiset_len(a);
        vstd::seq_lib::to_multiset_len(b);
    }
    assert forall|x: A| a.contains(x) <==> b.contains(x) by {
        vstd::seq_lib::to_multiset_contains(a, x);
        vstd::seq_lib::to_multiset_contains(b, x);
    }
    if a.len() == 0 {
        assert(a =~= b);
    } else {
        let x = a.last();
        let y = b.last();
        assert(a[a.len() - 1] == x && b[b.len() - 1] == y);
        assert(a.contains(x) && b.contains(y));
        assert(a.contains(y) && b.contains(x));
        let i = choose|i: int| 0 <= i < a.len() && a[i] == y;
        let j = choose|j: int| 0 <= j < b.len() && b[j] == x;
        assert(le(y, x)) by {
            if i < a.len() - 1 {
                assert(le(a[i], a[a.len() - 1]));
            }
        }
        assert(le(x, y)) by {
            if j < b.len() - 1 {
                assert(le(b[j], b[b.len() - 1]));
            }
        }
        assert(x == y);
        let a0 = a.drop_last();
        let b0 = b.drop_last();
        assert(a0.push(x) =~= a);
        assert(b0.push(y) =~= b);
        vstd::seq_lib::to_multiset_build(a0, x);
        vstd::seq_lib::to_multiset_build(b0, y);
        assert(a0.to_multiset() =~= a.to_multiset().remove(x));
        assert(b0.to_multiset() =~= b.to_multiset().remove(y));
        assert forall|u: A| a0.contains(u) implies a.contains(u) by {
            let k = choose|k: int| 0 <= k < a0.len() && a0[k] == u;
            assert(a[k] == u);
        }
        assert(in_order(a0, le)) by {
            assert forall|k: int, m: int| 0 <= k < m < a0.len() implies le(
                #[trigger] a0[k],
                #[trigger] a0[m],
            ) by {
                assert(a0[k] == a[k] && a0[m] == a[m]);
            }
        }
        assert(in_order(b0, le)) by {
            assert forall|k: int, m: int| 0 <= k < m < b0.len() implies le(
                #[trigger] b0[k],
                #[trigger] b0[m],
            ) by {
                assert(b0[k] == b[k] && b0[m] == b[m]);
            }
        }
        law_order_is_unique(a0, b0, le);
        assert(a =~= b);
    }
}

/// The places of the elements of a list in sorted order. `le` compares the
/// elements at two places.
pub(crate) fn sorted_places<A, F: Fn(usize, usize) -> bool>(
    n: usize,
    le: F,
    Ghost(list): Ghost<Seq<A>>,
    Ghost(rel): Ghost<spec_fn(A, A) -> bool>,
) -> (r: Vec<usize>)
    requires
        list.len() == n,
        forall|i: usize, j: usize| i < n && j < n ==> #[trigger] le.requires((i, j)),
        forall|i: usize, j: usize, b: bool|
            i < n && j < n && #[trigger] le.ensures((i, j), b) ==> b == rel(
                list[i as int],
                list[j as int],
            ),
    ensures
        picked(list, r@) == sorted(list, rel),
        r@.len() == n,
        forall|k: int| 0 <= k < r@.len() ==> (#[trigger] r@[k]) < n,
{
    let mut out: Vec<usize> = Vec::new();
    let mut i: usize = 0;
    assert(list.take(0) =~= Seq::empty());
    assert(picked(list, out@) =~= sorted(list.take(0), rel));
    while i < n
        invariant
            i <= n,
            list.len() == n,
            forall|i: usize, j: usize| i < n && j < n ==> #[trigger] le.requires((i, j)),
            forall|i: usize, j: usize, b: bool|
                i < n && j < n && #[trigger] le.ensures((i, j), b) ==> b == rel(
                    list[i as int],
                    list[j as int],
                ),
            out@.len() == i,
            forall|k: int| 0 <= k < out@.len() ==> (#[trigger] out@[k]) < n,
            picked(list, out@) == sorted(list.take(i as int), rel),
        decreases n - i,
    {
        let mut p: usize = out.len();
        let mut found: bool = false;
        while p > 0 && !found
            invariant
                i < n,
                list.len() == n,
                forall|i: usize, j: usize| i < n && j < n ==> #[trigger] le.requires((i, j)),
                forall|i: usize, j: usize, b: bool|
                    i < n && j < n && #[trigger] le.ensures((i, j), b) ==> b == rel(
                        list[i as int],
                        list[j as int],
                    ),
                forall|k: int| 0 <= k < out@.len() ==> (#[trigger] out@[k]) < n,
                p <= out@.len(),
                found ==> p > 0 && rel(list[out@[p - 1] as int], list[i as int]),
                forall|k: int|
                    p <= k < out@.len() ==> !rel(
                        list[(#[trigger] out@[k]) as int],
                        list[i as int],
                    ),
            decreases p, !found as int,
        {
            if le(out[p - 1], i) {
                found = true;
            } else {
                p = p - 1;
            }
        }
        proof {
            let x = list[i as int];
            let now = picked(list, out@);
            assert forall|k: int| p <= k < now.len() implies !rel(#[trigger] now[k], x) by {
                assert(now[k] == list[out@[k] as int]);
            }
            if p > 0 {
                assert(now[p - 1] == list[out@[p - 1] as int]);
            }
            lemma_placed_at(now, x, rel, p as int);
            assert(list.take(i + 1).drop_last() =~= list.take(i as int));
            assert(list.take(i + 1).last() == x);
            assert(picked(list, out@.insert(p as int, i)) =~= now.insert(p as int, x));
        }
        out.insert(p, i);
        i = i + 1;
    }
    assert(list.take(i as int) =~= list);
    out
}

} // verus!
