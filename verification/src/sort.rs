//! Stable sorting by a total preorder.

use vstd::prelude::*;

verus! {

/// Values that are put in order by a total and transitive relation.
pub trait Ranked {
    /// This value comes no later than the other.
    spec fn ranks(&self, other: &Self) -> bool;

    /// Whether this value comes no later than the other.
    fn no_later(&self, other: &Self) -> (r: bool)
        ensures
            r == self.ranks(other),
    ;

    /// Of two values one comes no later than the other.
    proof fn ranks_total(&self, other: &Self)
        ensures
            self.ranks(other) || other.ranks(self),
    ;

    /// The relation is transitive.
    proof fn ranks_transitive(&self, mid: &Self, other: &Self)
        requires
            self.ranks(mid),
            mid.ranks(other),
        ensures
            self.ranks(other),
    ;
}

/// The value at place `a` is sorted before the one at place `b`: it ranks before
/// it, or as high and stands before it already.
pub open spec fn sorts_before<K: Ranked>(keys: Seq<K>, a: int, b: int) -> bool {
    keys[a].ranks(&keys[b]) && (keys[b].ranks(&keys[a]) ==> a < b)
}

/// Each place sorts before all later ones.
pub open spec fn in_order<K: Ranked>(keys: Seq<K>, r: Seq<usize>) -> bool {
    forall|i: int, j: int| 0 <= i < j < r.len() ==> sorts_before(keys, r[i] as int, r[j] as int)
}

/// The places `lo..hi`, in order.
pub open spec fn sorts_range<K: Ranked>(keys: Seq<K>, r: Seq<usize>, lo: int, hi: int) -> bool {
    &&& r.len() == hi - lo
    &&& forall|i: int| 0 <= i < r.len() ==> lo <= #[trigger] r[i] < hi
    &&& forall|x: usize| lo <= x < hi ==> #[trigger] r.contains(x)
    &&& in_order(keys, r)
}

/// All places, in order.
pub open spec fn sorts<K: Ranked>(keys: Seq<K>, r: Seq<usize>) -> bool {
    sorts_range(keys, r, 0, keys.len() as int)
}

/// Sorting before is transitive.
proof fn lemma_sorts_before_transitive<K: Ranked>(keys: Seq<K>, a: int, b: int, c: int)
    requires
        sorts_before(keys, a, b),
        sorts_before(keys, b, c),
    ensures
        sorts_before(keys, a, c),
{
    keys[a].ranks_transitive(&keys[b], &keys[c]);
    if keys[c].ranks(&keys[a]) {
        keys[c].ranks_transitive(&keys[a], &keys[b]);
        keys[b].ranks_transitive(&keys[c], &keys[a]);
    }
}

/// Of two places one sorts before the other.
proof fn lemma_sorts_before_total<K: Ranked>(keys: Seq<K>, a: int, b: int)
    requires
        a != b,
    ensures
        sorts_before(keys, a, b) || sorts_before(keys, b, a),
        !(sorts_before(keys, a, b) && sorts_before(keys, b, a)),
{
    keys[a].ranks_total(&keys[b]);
}

/// Merges the sorted places `lo..mid` and `mid..hi`.
fn merge<K: Ranked>(
    keys: &Vec<K>,
    left: &Vec<usize>,
    right: &Vec<usize>,
    Ghost(lo): Ghost<int>,
    Ghost(mid): Ghost<int>,
    Ghost(hi): Ghost<int>,
) -> (out: Vec<usize>)
    requires
        0 <= lo <= mid <= hi <= keys.len(),
        sorts_range(keys@, left@, lo, mid),
        sorts_range(keys@, right@, mid, hi),
    ensures
        sorts_range(keys@, out@, lo, hi),
{
    let mut out: Vec<usize> = Vec::new();
    let mut i: usize = 0;
    let mut j: usize = 0;
    while i < left.len() || j < right.len()
        invariant
            0 <= lo <= mid <= hi <= keys.len(),
            sorts_range(keys@, left@, lo, mid),
            sorts_range(keys@, right@, mid, hi),
            i <= left.len(),
            j <= right.len(),
            out.len() == i + j,
            in_order(keys@, out@),
            forall|k: int| 0 <= k < out.len() ==> lo <= #[trigger] out@[k] < hi,
            forall|k: int| 0 <= k < i ==> out@.contains(#[trigger] left@[k]),
            forall|k: int| 0 <= k < j ==> out@.contains(#[trigger] right@[k]),
            forall|k: int, m: int|
                0 <= k < out.len() && i <= m < left.len() ==> sorts_before(
                    keys@,
                    #[trigger] out@[k] as int,
                    #[trigger] left@[m] as int,
                ),
            forall|k: int, m: int|
                0 <= k < out.len() && j <= m < right.len() ==> sorts_before(
                    keys@,
                    #[trigger] out@[k] as int,
                    #[trigger] right@[m] as int,
                ),
        decreases left.len() - i + right.len() - j,
    {
        let take_left = if i >= left.len() {
            false
        } else if j >= right.len() {
            true
        } else {
            assert(left@[i as int] < mid && right@[j as int] >= mid);
            keys[left[i]].no_later(&keys[right[j]])
        };
        let ghost before = out@;
        let ghost ll = left@;
        let ghost rr = right@;
        if take_left {
            let x: usize = left[i];
            out.push(x);
            proof {
                assert forall|m: int| j <= m < rr.len() implies sorts_before(
                    keys@,
                    x as int,
                    #[trigger] rr[m] as int,
                ) by {
                    assert(sorts_before(keys@, x as int, rr[j as int] as int)) by {
                        assert(x < rr[j as int]);
                    }
                    if m > j {
                        assert(sorts_before(keys@, rr[j as int] as int, rr[m] as int));
                        lemma_sorts_before_transitive(
                            keys@,
                            x as int,
                            rr[j as int] as int,
                            rr[m] as int,
                        );
                    }
                }
                assert forall|m: int| i + 1 <= m < ll.len() implies sorts_before(
                    keys@,
                    x as int,
                    #[trigger] ll[m] as int,
                ) by {
                    assert(sorts_before(keys@, ll[i as int] as int, ll[m] as int));
                }
            }
            i += 1;
        } else {
            let x: usize = right[j];
            out.push(x);
            proof {
                assert forall|m: int| i <= m < ll.len() implies sorts_before(
                    keys@,
                    x as int,
                    #[trigger] ll[m] as int,
                ) by {
                    let a = ll[i as int];
                    assert(a < mid && x >= mid);
                    lemma_sorts_before_total(keys@, x as int, a as int);
                    assert(sorts_before(keys@, x as int, a as int));
                    if m > i {
                        assert(sorts_before(keys@, ll[i as int] as int, ll[m] as int));
                        lemma_sorts_before_transitive(keys@, x as int, a as int, ll[m] as int);
                    }
                }
                assert forall|m: int| j + 1 <= m < rr.len() implies sorts_before(
                    keys@,
                    x as int,
                    #[trigger] rr[m] as int,
                ) by {
                    assert(sorts_before(keys@, rr[j as int] as int, rr[m] as int));
                }
            }
            j += 1;
        }
        proof {
            assert(out@.drop_last() =~= before);
            assert forall|k: int| 0 <= k < before.len() implies out@.contains(
                #[trigger] before[k],
            ) by {
                assert(out@[k] == before[k]);
            }
            assert(out@[before.len() as int] == out@.last());
            assert(out@.contains(out@.last()));
            assert forall|k: int| 0 <= k < i implies out@.contains(#[trigger] left@[k]) by {
                if before.contains(left@[k]) {
                    let q = choose|q: int| 0 <= q < before.len() && before[q] == left@[k];
                    assert(out@[q] == left@[k]);
                }
            }
            assert forall|k: int| 0 <= k < j implies out@.contains(#[trigger] right@[k]) by {
                if before.contains(right@[k]) {
                    let q = choose|q: int| 0 <= q < before.len() && before[q] == right@[k];
                    assert(out@[q] == right@[k]);
                }
            }
            assert forall|a: int, b: int| 0 <= a < b < out.len() implies sorts_before(
                keys@,
                out@[a] as int,
                out@[b] as int,
            ) by {
                if b < before.len() {
                    assert(sorts_before(keys@, before[a] as int, before[b] as int));
                }
            }
        }
    }
    proof {
        assert forall|x: usize| lo <= x < hi implies #[trigger] out@.contains(x) by {
            if x < mid {
                assert(left@.contains(x));
                let k = choose|k: int| 0 <= k < left@.len() && left@[k] == x;
                assert(out@.contains(left@[k]));
            } else {
                assert(right@.contains(x));
                let k = choose|k: int| 0 <= k < right@.len() && right@[k] == x;
                assert(out@.contains(right@[k]));
            }
        }
    }
    out
}

/// Sorts the places `lo..hi`.
fn sort_range<K: Ranked>(keys: &Vec<K>, lo: usize, hi: usize) -> (r: Vec<usize>)
    requires
        lo <= hi <= keys.len(),
    ensures
        sorts_range(keys@, r@, lo as int, hi as int),
    decreases hi - lo,
{
    if hi - lo <= 1 {
        let mut r: Vec<usize> = Vec::new();
        if lo < hi {
            r.push(lo);
            assert(r@[0] == lo);
        }
        return r;
    }
    let mid: usize = lo + (hi - lo) / 2;
    let left = sort_range(keys, lo, mid);
    let right = sort_range(keys, mid, hi);
    merge(keys, &left, &right, Ghost(lo as int), Ghost(mid as int), Ghost(hi as int))
}

/// The places of the values in sorted order; values of the same rank keep their
/// order.
pub fn sorted_places<K: Ranked>(keys: &Vec<K>) -> (r: Vec<usize>)
    ensures
        sorts(keys@, r@),
{
    sort_range(keys, 0, keys.len())
}

/// There is only one sorted order.
pub proof fn law_sorted_order_is_unique<K: Ranked>(keys: Seq<K>, a: Seq<usize>, b: Seq<usize>, n: int)
    requires
        sorts(keys, a),
        sorts(keys, b),
        0 <= n <= keys.len(),
    ensures
        a.take(n) == b.take(n),
    decreases n,
{
    if n > 0 {
        law_sorted_order_is_unique(keys, a, b, n - 1);
        let (x, y) = (a[n - 1], b[n - 1]);
        assert(a.take(n - 1) =~= b.take(n - 1));
        if x != y {
            assert(b.contains(x) && a.contains(y));
            let i = choose|i: int| 0 <= i < b.len() && b[i] == x;
            let j = choose|j: int| 0 <= j < a.len() && a[j] == y;
            if i < n - 1 {
                assert(a.take(n - 1)[i] == b.take(n - 1)[i]);
                assert(a[i] == x);
                assert(sorts_before(keys, a[i] as int, a[n - 1] as int));
            }
            if j < n - 1 {
                assert(a.take(n - 1)[j] == b.take(n - 1)[j]);
                assert(b[j] == y);
                assert(sorts_before(keys, b[j] as int, b[n - 1] as int));
            }
            assert(sorts_before(keys, b[n - 1] as int, b[i] as int));
            assert(sorts_before(keys, a[n - 1] as int, a[j] as int));
            lemma_sorts_before_total(keys, x as int, y as int);
        }
        assert(a.take(n) =~= a.take(n - 1).push(x));
        assert(b.take(n) =~= b.take(n - 1).push(y));
    } else {
        assert(a.take(n) =~= b.take(n));
    }
}

} // verus!
