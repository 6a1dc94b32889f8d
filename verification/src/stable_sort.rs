//! Stable ascending arrangement of binary64 patterns by their keys.
//!
//! Sorting never moves the caller's numbers. It produces the list of their
//! positions in ascending order, from which any sequence that runs parallel
//! to the numbers can be rearranged alike.
use vstd::prelude::*;
use crate::binary64::{key, order_key};

verus! {

/// Position `k` stands somewhere in `p`.
pub open spec fn lists(p: Seq<usize>, k: int) -> bool {
    exists|i: int| 0 <= i < p.len() && #[trigger] p[i] == k
}

/// `p` lists every position below `n`, each of them once.
pub open spec fn permutes(p: Seq<usize>, n: nat) -> bool {
    &&& p.len() == n
    &&& forall|i: int| 0 <= i < n ==> (#[trigger] p[i]) < n
    &&& forall|i: int, j: int| 0 <= i < j < n ==> p[i] != p[j]
    &&& forall|k: int| 0 <= k < n ==> #[trigger] lists(p, k)
}

/// Position `u` of `xs` has its place before position `v`: its number is the
/// lower one, or the two are numerically equal and `u` is the earlier.
pub open spec fn before(xs: Seq<u64>, u: int, v: int) -> bool {
    key(xs[u]) < key(xs[v]) || (key(xs[u]) == key(xs[v]) && u < v)
}

/// `p` is the stable ascending arrangement of `xs`: it lists every position of
/// `xs` once, by ascending number, and numerically equal numbers in the order
/// in which `xs` holds them.
pub open spec fn sorts(xs: Seq<u64>, p: Seq<usize>) -> bool {
    &&& permutes(p, xs.len())
    &&& forall|i: int, j: int|
        0 <= i < j < p.len() ==> before(xs, #[trigger] p[i] as int, #[trigger] p[j] as int)
}

/// The stable ascending arrangement of `xs`. A sequence that fits a vector
/// has one and no more than one: see [`lemma_order_exists`] and
/// [`lemma_sorts_unique`].
pub open spec fn order_of(xs: Seq<u64>) -> Seq<usize> {
    choose|p: Seq<usize>| sorts(xs, p)
}

/// The elements of `s` taken in the order that `p` lists their positions.
pub open spec fn arrange<T>(s: Seq<T>, p: Seq<usize>) -> Seq<T> {
    Seq::new(p.len(), |i: int| s[p[i] as int])
}

/// The numbers of `xs` in stable ascending order.
pub open spec fn sorted(xs: Seq<u64>) -> Seq<u64> {
    arrange(xs, order_of(xs))
}

/// The numbers of `s` never descend.
pub open spec fn ascending(s: Seq<u64>) -> bool {
    forall|i: int, j: int| 0 <= i < j < s.len() ==> key(#[trigger] s[i]) <= key(#[trigger] s[j])
}

/// `p` lists every position of `xs` from `lo` up to `hi`, `hi` itself left
/// out, each of them once and in stable ascending order.
spec fn sorts_range(xs: Seq<u64>, p: Seq<usize>, lo: int, hi: int) -> bool {
    &&& p.len() == hi - lo
    &&& forall|i: int| 0 <= i < p.len() ==> lo <= #[trigger] p[i] < hi
    &&& forall|i: int, j: int|
        0 <= i < j < p.len() ==> before(xs, #[trigger] p[i] as int, #[trigger] p[j] as int)
    &&& forall|k: int| lo <= k < hi ==> #[trigger] lists(p, k)
}

/// The stable ascending order of the positions from `lo` up to `hi`, merged
/// from the order `left` of those below `mid` and the order `right` of the
/// others. Where a position of each has the same number, the one of `left`
/// goes first: it is the earlier one.
fn merge(
    xs: &Vec<u64>,
    left: &Vec<usize>,
    right: &Vec<usize>,
    lo: usize,
    mid: usize,
    hi: usize,
) -> (p: Vec<usize>)
    requires
        lo <= mid <= hi <= xs@.len(),
        sorts_range(xs@, left@, lo as int, mid as int),
        sorts_range(xs@, right@, mid as int, hi as int),
    ensures
        sorts_range(xs@, p@, lo as int, hi as int),
{
    let mut p: Vec<usize> = Vec::new();
    let mut i: usize = 0;
    let mut j: usize = 0;
    while i < left.len() || j < right.len()
        invariant
            lo <= mid <= hi <= xs@.len(),
            sorts_range(xs@, left@, lo as int, mid as int),
            sorts_range(xs@, right@, mid as int, hi as int),
            i <= left@.len(),
            j <= right@.len(),
            p@.len() == i + j,
            forall|a: int| 0 <= a < p@.len() ==> lo <= #[trigger] p@[a] < hi,
            forall|a: int, b: int|
                0 <= a < b < p@.len() ==> before(xs@, #[trigger] p@[a] as int, #[trigger] p@[b] as int),
            forall|a: int|
                0 <= a < p@.len() && i < left@.len() ==> before(
                    xs@,
                    #[trigger] p@[a] as int,
                    left@[i as int] as int,
                ),
            forall|a: int|
                0 <= a < p@.len() && j < right@.len() ==> before(
                    xs@,
                    #[trigger] p@[a] as int,
                    right@[j as int] as int,
                ),
            forall|a: int| 0 <= a < i ==> lists(p@, #[trigger] left@[a] as int),
            forall|b: int| 0 <= b < j ==> lists(p@, #[trigger] right@[b] as int),
        decreases left@.len() - i + right@.len() - j,
    {
        let ghost old_p = p@;
        let from_left = if i == left.len() {
            false
        } else if j == right.len() {
            true
        } else {
            order_key(xs[left[i]]) <= order_key(xs[right[j]])
        };
        if from_left {
            p.push(left[i]);
            proof {
                if i + 1 < left@.len() {
                    assert(before(xs@, left@[i as int] as int, left@[i + 1] as int));
                }
            }
            i = i + 1;
        } else {
            p.push(right[j]);
            proof {
                if j + 1 < right@.len() {
                    assert(before(xs@, right@[j as int] as int, right@[j + 1] as int));
                }
            }
            j = j + 1;
        }
        proof {
            let last = old_p.len() as int;
            assert forall|a: int| 0 <= a < i implies lists(p@, #[trigger] left@[a] as int) by {
                if a == i - 1 && from_left {
                    assert(p@[last] == left@[a]);
                } else {
                    assert(lists(old_p, left@[a] as int));
                    let w = choose|w: int| 0 <= w < old_p.len() && old_p[w] == left@[a];
                    assert(p@[w] == left@[a]);
                }
            }
            assert forall|b: int| 0 <= b < j implies lists(p@, #[trigger] right@[b] as int) by {
                if b == j - 1 && !from_left {
                    assert(p@[last] == right@[b]);
                } else {
                    assert(lists(old_p, right@[b] as int));
                    let w = choose|w: int| 0 <= w < old_p.len() && old_p[w] == right@[b];
                    assert(p@[w] == right@[b]);
                }
            }
        }
    }
    proof {
        assert forall|k: int| lo <= k < hi implies #[trigger] lists(p@, k) by {
            if k < mid {
                assert(lists(left@, k));
                let a = choose|a: int| 0 <= a < left@.len() && left@[a] == k;
                assert(lists(p@, left@[a] as int));
            } else {
                assert(lists(right@, k));
                let b = choose|b: int| 0 <= b < right@.len() && right@[b] == k;
                assert(lists(p@, right@[b] as int));
            }
        }
    }
    p
}

/// The positions of `xs` from `lo` up to `hi` in stable ascending order of
/// their numbers, by merging the orders of the two halves.
fn order_range(xs: &Vec<u64>, lo: usize, hi: usize) -> (p: Vec<usize>)
    requires
        lo <= hi <= xs@.len(),
    ensures
        sorts_range(xs@, p@, lo as int, hi as int),
    decreases hi - lo,
{
    let mut p: Vec<usize> = Vec::new();
    if hi - lo == 0 {
        p
    } else if hi - lo == 1 {
        p.push(lo);
        assert(p@[0] == lo);
        p
    } else {
        let mid = lo + (hi - lo) / 2;
        let left = order_range(xs, lo, mid);
        let right = order_range(xs, mid, hi);
        merge(xs, &left, &right, lo, mid, hi)
    }
}

/// The positions of `xs` in stable ascending order of their numbers.
pub fn stable_order(xs: &Vec<u64>) -> (p: Vec<usize>)
    ensures
        p@ == order_of(xs@),
        sorts(xs@, p@),
{
    let p = order_range(xs, 0, xs.len());
    proof {
        assert(sorts(xs@, p@));
        lemma_sorts_unique(xs@, p@, order_of(xs@));
    }
    p
}

/// A copy of the elements of `s` at the positions `p`, in the order of `p`.
pub(crate) fn arranged<T: Copy>(s: &Vec<T>, p: &Vec<usize>) -> (r: Vec<T>)
    requires
        forall|i: int| 0 <= i < p@.len() ==> (#[trigger] p@[i]) < s@.len(),
    ensures
        r@ == arrange(s@, p@),
{
    let mut r: Vec<T> = Vec::new();
    let mut i: usize = 0;
    while i < p.len()
        invariant
            i <= p@.len(),
            r@.len() == i,
            forall|k: int| 0 <= k < p@.len() ==> (#[trigger] p@[k]) < s@.len(),
            forall|k: int| 0 <= k < i ==> #[trigger] r@[k] == s@[p@[k] as int],
        decreases p@.len() - i,
    {
        r.push(s[p[i]]);
        i = i + 1;
    }
    r
}

/// A stable ascending arrangement puts the numbers in ascending order.
pub proof fn lemma_sorts_ascending(xs: Seq<u64>, p: Seq<usize>)
    requires
        sorts(xs, p),
    ensures
        ascending(arrange(xs, p)),
{
    let s = arrange(xs, p);
    assert forall|i: int, j: int| 0 <= i < j < s.len() implies key(#[trigger] s[i]) <= key(
        #[trigger] s[j],
    ) by {
        assert(before(xs, p[i] as int, p[j] as int));
    }
}

/// Two stable ascending arrangements of one sequence agree on their first
/// `upto` entries.
proof fn lemma_sorts_agree(xs: Seq<u64>, p: Seq<usize>, q: Seq<usize>, upto: int)
    requires
        sorts(xs, p),
        sorts(xs, q),
        0 <= upto <= xs.len(),
    ensures
        forall|k: int| 0 <= k < upto ==> p[k] == q[k],
    decreases upto,
{
    if upto > 0 {
        lemma_sorts_agree(xs, p, q, upto - 1);
        let k = upto - 1;
        let u = p[k];
        let v = q[k];
        if u != v {
            assert(lists(p, v as int));
            let j = choose|j: int| 0 <= j < p.len() && p[j] == v;
            assert(j > k) by {
                if j < k {
                    assert(q[j] == v);
                }
            }
            assert(before(xs, p[k] as int, p[j] as int));
            assert(lists(q, u as int));
            let i = choose|i: int| 0 <= i < q.len() && q[i] == u;
            assert(i > k) by {
                if i < k {
                    assert(p[i] == u);
                }
            }
            assert(before(xs, q[k] as int, q[i] as int));
        }
    }
}

/// A sequence has one stable ascending arrangement and no other.
pub proof fn lemma_sorts_unique(xs: Seq<u64>, p: Seq<usize>, q: Seq<usize>)
    requires
        sorts(xs, p),
        sorts(xs, q),
    ensures
        p == q,
{
    lemma_sorts_agree(xs, p, q, xs.len() as int);
    assert(p =~= q);
}

/// Below slot `j` the numbers at the positions `q[0]` to `q[m - 1]` are at
/// most the number at `last`, from slot `j` on they are greater.
proof fn lemma_place(xs: Seq<u64>, q: Seq<usize>, last: int, m: int) -> (j: int)
    requires
        0 <= m <= q.len(),
        forall|i: int, k: int|
            0 <= i < k < q.len() ==> before(xs, #[trigger] q[i] as int, #[trigger] q[k] as int),
    ensures
        0 <= j <= m,
        forall|i: int| 0 <= i < j ==> key(xs[#[trigger] q[i] as int]) <= key(xs[last]),
        forall|i: int| j <= i < m ==> key(xs[#[trigger] q[i] as int]) > key(xs[last]),
    decreases m,
{
    if m == 0 {
        0
    } else if key(xs[q[m - 1] as int]) <= key(xs[last]) {
        assert forall|i: int| 0 <= i < m implies key(xs[#[trigger] q[i] as int]) <= key(
            xs[last],
        ) by {
            if i < m - 1 {
                assert(before(xs, q[i] as int, q[m - 1] as int));
            }
        }
        m
    } else {
        lemma_place(xs, q, last, m - 1)
    }
}

/// Every sequence that fits a vector has a stable ascending arrangement.
pub proof fn lemma_order_exists(xs: Seq<u64>)
    requires
        xs.len() <= usize::MAX,
    ensures
        sorts(xs, order_of(xs)),
    decreases xs.len(),
{
    if xs.len() == 0 {
        assert(sorts(xs, Seq::<usize>::empty()));
    } else {
        let n = xs.len() - 1;
        let head = xs.take(n);
        lemma_order_exists(head);
        let q = order_of(head);
        assert forall|i: int, k: int| 0 <= i < k < q.len() implies before(
            xs,
            #[trigger] q[i] as int,
            #[trigger] q[k] as int,
        ) by {
            assert(before(head, q[i] as int, q[k] as int));
        }
        let j = lemma_place(xs, q, n, n);
        let p = q.take(j).push(n as usize) + q.skip(j);
        assert forall|k: int| 0 <= k < n + 1 implies #[trigger] lists(p, k) by {
            if k == n {
                assert(p[j] == k);
            } else {
                assert(lists(q, k));
                let w = choose|w: int| 0 <= w < q.len() && q[w] == k;
                if w < j {
                    assert(p[w] == k);
                } else {
                    assert(p[w + 1] == k);
                }
            }
        }
        assert forall|i: int, k: int| 0 <= i < k < p.len() implies before(
            xs,
            #[trigger] p[i] as int,
            #[trigger] p[k] as int,
        ) by {
            if k < j {
                assert(p[i] == q[i] && p[k] == q[k]);
            } else if k == j {
                assert(p[i] == q[i]);
            } else if i < j {
                assert(p[i] == q[i] && p[k] == q[k - 1]);
            } else if i == j {
                assert(p[k] == q[k - 1]);
            } else {
                assert(p[i] == q[i - 1] && p[k] == q[k - 1]);
            }
        }
        assert forall|i: int| 0 <= i < p.len() implies (#[trigger] p[i]) < n + 1 by {
            if i < j {
                assert(p[i] == q[i]);
            } else if i > j {
                assert(p[i] == q[i - 1]);
            }
        }
        assert(sorts(xs, p));
    }
}

/// Every element of a sequence stands somewhere in its arrangement.
pub proof fn lemma_arrange_holds(xs: Seq<u64>, p: Seq<usize>, k: int) -> (i: int)
    requires
        permutes(p, xs.len()),
        0 <= k < xs.len(),
    ensures
        0 <= i < xs.len(),
        arrange(xs, p)[i] == xs[k],
{
    assert(lists(p, k));
    choose|i: int| 0 <= i < p.len() && p[i] == k
}

} // verus!
