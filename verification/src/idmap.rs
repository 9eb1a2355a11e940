//! Maps from identifying numbers (process ids, CPUs) to values.

use vstd::prelude::*;

use crate::idset::{
    ascending, increasing, law_ascending_holds_the_members, lemma_ascending, IdSet,
};

verus! {

/// The keys of a list of pairs.
pub open spec fn keys_of<V>(s: Seq<(u32, V)>) -> Seq<u32> {
    Seq::new(s.len(), |i: int| s[i].0)
}

/// The position of the pair with key `k`.
pub open spec fn key_index<V>(s: Seq<(u32, V)>, k: u32) -> int {
    choose|i: int| 0 <= i < s.len() && (#[trigger] s[i]).0 == k
}

/// The map that a list of pairs with different keys stands for.
pub open spec fn map_of<V>(s: Seq<(u32, V)>) -> Map<u32, V> {
    Map::new(
        |k: u32| keys_of(s).contains(k),
        |k: u32| s[key_index(s, k)].1,
    )
}

/// Each pair of the list is in the map.
pub proof fn lemma_map_of<V>(s: Seq<(u32, V)>)
    requires
        increasing(keys_of(s)),
    ensures
        forall|i: int|
            0 <= i < s.len() ==> map_of(s).contains_key((#[trigger] s[i]).0) && map_of(s)[s[i].0]
                == s[i].1,
        forall|k: u32| #[trigger]
            map_of(s).contains_key(k) ==> exists|i: int| 0 <= i < s.len() && s[i].0 == k,
        map_of(s).dom() == keys_of(s).to_set(),
{
    assert forall|i: int| 0 <= i < s.len() implies map_of(s).contains_key((#[trigger] s[i]).0)
        && map_of(s)[s[i].0] == s[i].1 by {
        let k = s[i].0;
        assert(keys_of(s)[i] == k);
        let j = key_index(s, k);
        assert(0 <= j < s.len() && s[j].0 == k);
        assert(keys_of(s)[j] == k);
        assert(i == j);
    }
    assert forall|k: u32| #[trigger] map_of(s).contains_key(k) implies exists|i: int|
        0 <= i < s.len() && s[i].0 == k by {
        let i = choose|i: int| 0 <= i < keys_of(s).len() && keys_of(s)[i] == k;
        assert(s[i].0 == k);
    }
    assert(map_of(s).dom() =~= keys_of(s).to_set());
}

/// The pairs of a map in ascending order of their keys.
pub open spec fn ordered_pairs<V>(m: Map<u32, V>) -> Seq<(u32, V)> {
    let ks = ascending(m.dom());
    Seq::new(ks.len(), |i: int| (ks[i], m[ks[i]]))
}

/// A list with increasing keys is the ordered list of its map.
pub proof fn lemma_ordered_pairs<V>(s: Seq<(u32, V)>)
    requires
        increasing(keys_of(s)),
    ensures
        ordered_pairs(map_of(s)) == s,
{
    lemma_map_of(s);
    lemma_ascending(keys_of(s));
    let o = ordered_pairs(map_of(s));
    assert(o.len() == s.len());
    assert forall|i: int| 0 <= i < s.len() implies o[i] == s[i] by {
        assert(keys_of(s)[i] == s[i].0);
    }
    assert(o =~= s);
}

/// A map whose keys are kept in ascending order.
pub struct IdMap<V> {
    items: Vec<(u32, V)>,
}

impl<V> View for IdMap<V> {
    type V = Map<u32, V>;

    closed spec fn view(&self) -> Map<u32, V> {
        map_of(self.items@)
    }
}

impl<V> IdMap<V> {
    #[verifier::type_invariant]
    closed spec fn well_formed(self) -> bool {
        increasing(keys_of(self.items@))
    }

    /// The pairs in ascending order of their keys.
    pub open spec fn order(&self) -> Seq<(u32, V)> {
        ordered_pairs(self@)
    }

    /// The empty map.
    pub fn new() -> (r: IdMap<V>)
        ensures
            r@ == Map::<u32, V>::empty(),
            r.order() == Seq::<(u32, V)>::empty(),
    {
        let r = IdMap { items: Vec::new() };
        proof {
            lemma_map_of(r.items@);
            lemma_ordered_pairs(r.items@);
            assert(r@ =~= Map::<u32, V>::empty());
            assert(r.items@ =~= Seq::<(u32, V)>::empty());
        }
        r
    }

    /// The pairs in ascending order of their keys.
    pub fn pairs(&self) -> (r: &Vec<(u32, V)>)
        ensures
            r@ == self.order(),
            increasing(keys_of(r@)),
            self@ == map_of(r@),
            self@.dom() == keys_of(r@).to_set(),
            forall|i: int|
                0 <= i < r@.len() ==> self@.contains_key((#[trigger] r@[i]).0) && self@[r@[i].0]
                    == r@[i].1,
    {
        proof {
            use_type_invariant(self);
            lemma_map_of(self.items@);
            lemma_ordered_pairs(self.items@);
        }
        &self.items
    }

    /// The number of pairs.
    pub fn len(&self) -> (n: usize)
        ensures
            n == self@.dom().len(),
            n == self.order().len(),
    {
        proof {
            use_type_invariant(self);
            lemma_map_of(self.items@);
            lemma_ordered_pairs(self.items@);
            keys_of(self.items@).unique_seq_to_set();
        }
        self.items.len()
    }

    /// Whether there is no pair.
    pub fn is_empty(&self) -> (r: bool)
        ensures
            r == (self@.dom() == Set::<u32>::empty()),
            r == (self@ == Map::<u32, V>::empty()),
    {
        proof {
            use_type_invariant(self);
            lemma_map_of(self.items@);
            if self.items@.len() > 0 {
                assert(self@.contains_key(self.items@[0].0));
            } else {
                assert(self@ =~= Map::<u32, V>::empty());
                assert(self@.dom() =~= Set::<u32>::empty());
            }
        }
        self.items.len() == 0
    }

    /// The position of the first key that is at least `k`.
    fn position(&self, k: u32) -> (i: usize)
        ensures
            i <= self.items@.len(),
            forall|j: int| 0 <= j < i ==> self.items@[j].0 < k,
            forall|j: int| i <= j < self.items@.len() ==> k <= self.items@[j].0,
    {
        proof {
            use_type_invariant(self);
        }
        let mut lo: usize = 0;
        let mut hi: usize = self.items.len();
        while lo < hi
            invariant
                lo <= hi <= self.items@.len(),
                increasing(keys_of(self.items@)),
                forall|j: int| 0 <= j < lo ==> self.items@[j].0 < k,
                forall|j: int| hi <= j < self.items@.len() ==> k <= self.items@[j].0,
            decreases hi - lo,
        {
            let mid: usize = lo + (hi - lo) / 2;
            let ghost ks = keys_of(self.items@);
            if self.items[mid].0 < k {
                assert forall|j: int| 0 <= j < mid + 1 implies self.items@[j].0 < k by {
                    if j < mid {
                        assert(ks[j] < ks[mid as int]);
                    }
                }
                lo = mid + 1;
            } else {
                assert forall|j: int| mid <= j < self.items@.len() implies k
                    <= self.items@[j].0 by {
                    if j > mid {
                        assert(ks[mid as int] < ks[j]);
                    }
                }
                hi = mid;
            }
        }
        lo
    }

    /// The value at `k`.
    pub fn get(&self, k: u32) -> (r: Option<&V>)
        ensures
            match r {
                Some(v) => self@.contains_key(k) && self@[k] == *v,
                None => !self@.contains_key(k),
            },
    {
        let i = self.position(k);
        proof {
            use_type_invariant(self);
            lemma_map_of(self.items@);
        }
        if i < self.items.len() && self.items[i].0 == k {
            assert(self.items@[i as int].0 == k);
            Some(&self.items[i].1)
        } else {
            proof {
                if self@.contains_key(k) {
                    let j = choose|j: int| 0 <= j < self.items@.len() && self.items@[j].0 == k;
                    let ks = keys_of(self.items@);
                    assert(ks[j] == k);
                    assert(i <= j);
                    if i < j {
                        assert(ks[i as int] < ks[j]);
                    }
                }
            }
            None
        }
    }

    /// Whether there is a value at `k`.
    pub fn contains_key(&self, k: u32) -> (r: bool)
        ensures
            r == self@.contains_key(k),
    {
        self.get(k).is_some()
    }

    /// Sets the value at `k`.
    pub fn insert(&mut self, k: u32, v: V)
        ensures
            final(self)@ == old(self)@.insert(k, v),
    {
        let i = self.position(k);
        let ghost before = self.items@;
        proof {
            use_type_invariant(&*self);
            lemma_map_of(before);
        }
        let mut items: Vec<(u32, V)> = Vec::new();
        std::mem::swap(&mut self.items, &mut items);
        let ghost ks = keys_of(before);
        if i < items.len() && items[i].0 == k {
            items.set(i, (k, v));
            assert(keys_of(items@) =~= ks);
        } else {
            items.insert(i, (k, v));
            proof {
                assert(keys_of(items@) =~= ks.insert(i as int, k));
                assert forall|a: int, b: int| 0 <= a < b < items@.len() implies keys_of(items@)[a]
                    < keys_of(items@)[b] by {
                    if i < before.len() {
                        assert(k < before[i as int].0);
                        assert(ks[i as int] == before[i as int].0);
                    }
                    if a < i && b < i {
                        assert(ks[a] < ks[b]);
                    } else if a < i && b > i {
                        assert(ks[a] < ks[b - 1]);
                    } else if a > i {
                        assert(ks[a - 1] < ks[b - 1]);
                    } else if a == i {
                        if b - 1 > i {
                            assert(ks[i as int] < ks[b - 1]);
                        }
                    }
                }
            }
        }
        proof {
            let after = items@;
            lemma_map_of(after);
            assert forall|x: u32| map_of(after).contains_key(x) <==> map_of(before).insert(
                k,
                v,
            ).contains_key(x) by {
                assert(after[i as int].0 == k);
                if map_of(before).contains_key(x) && x != k {
                    let j = choose|j: int| 0 <= j < before.len() && before[j].0 == x;
                    let j2: int = if j < i || after.len() == before.len() {
                        j
                    } else {
                        j + 1
                    };
                    assert(after[j2] == before[j]);
                }
                if map_of(after).contains_key(x) && x != k {
                    let j = choose|j: int| 0 <= j < after.len() && after[j].0 == x;
                    let j2: int = if j < i || after.len() == before.len() {
                        j
                    } else {
                        j - 1
                    };
                    assert(after[j] == before[j2]);
                }
            }
            assert forall|x: u32| map_of(after).contains_key(x) implies map_of(after)[x]
                == map_of(before).insert(k, v)[x] by {
                let j = choose|j: int| 0 <= j < after.len() && after[j].0 == x;
                if x == k {
                    assert(after[i as int] == (k, v));
                } else {
                    let j2: int = if j < i || after.len() == before.len() {
                        j
                    } else {
                        j - 1
                    };
                    assert(after[j] == before[j2]);
                }
            }
            assert(map_of(after) =~= map_of(before).insert(k, v));
        }
        *self = IdMap { items };
    }

    /// Removes the value at `k`.
    pub fn remove(&mut self, k: u32)
        ensures
            final(self)@ == old(self)@.remove(k),
    {
        let i = self.position(k);
        let ghost before = self.items@;
        proof {
            use_type_invariant(&*self);
            lemma_map_of(before);
        }
        let mut items: Vec<(u32, V)> = Vec::new();
        std::mem::swap(&mut self.items, &mut items);
        let ghost ks = keys_of(before);
        if i < items.len() && items[i].0 == k {
            items.remove(i);
            proof {
                let after = items@;
                assert(after =~= before.remove(i as int));
                assert forall|a: int, b: int| 0 <= a < b < after.len() implies keys_of(after)[a]
                    < keys_of(after)[b] by {
                    let a2: int = if a < i { a } else { a + 1 };
                    let b2: int = if b < i { b } else { b + 1 };
                    assert(ks[a2] < ks[b2]);
                }
                lemma_map_of(after);
                assert forall|x: u32| map_of(after).contains_key(x) <==> map_of(before).remove(
                    k,
                ).contains_key(x) by {
                    if map_of(before).contains_key(x) && x != k {
                        let j = choose|j: int| 0 <= j < before.len() && before[j].0 == x;
                        let j2: int = if j < i { j } else { j - 1 };
                        assert(after[j2] == before[j]);
                    }
                    if map_of(after).contains_key(x) {
                        let j = choose|j: int| 0 <= j < after.len() && after[j].0 == x;
                        let j2: int = if j < i { j } else { j + 1 };
                        assert(after[j] == before[j2]);
                        assert(ks[j2] == x);
                        assert(ks[i as int] == k);
                        if j2 < i {
                            assert(ks[j2] < ks[i as int]);
                        } else {
                            assert(ks[i as int] < ks[j2]);
                        }
                    }
                }
                assert forall|x: u32| map_of(after).contains_key(x) implies map_of(after)[x]
                    == map_of(before).remove(k)[x] by {
                    let j = choose|j: int| 0 <= j < after.len() && after[j].0 == x;
                    let j2: int = if j < i { j } else { j + 1 };
                    assert(after[j] == before[j2]);
                }
                assert(map_of(after) =~= map_of(before).remove(k));
            }
        } else {
            proof {
                if map_of(before).contains_key(k) {
                    let j = choose|j: int| 0 <= j < before.len() && before[j].0 == k;
                    assert(ks[j] == k);
                    assert(i <= j);
                    if i < j {
                        assert(ks[i as int] < ks[j]);
                    }
                }
                assert(map_of(before).remove(k) =~= map_of(before));
            }
        }
        *self = IdMap { items };
    }

    /// The keys.
    pub fn keys(&self) -> (r: IdSet)
        ensures
            r@ == self@.dom(),
            r.order() == keys_of(self.order()),
    {
        proof {
            use_type_invariant(self);
            lemma_map_of(self.items@);
            lemma_ordered_pairs(self.items@);
        }
        let mut v: Vec<u32> = Vec::new();
        let mut i: usize = 0;
        while i < self.items.len()
            invariant
                i <= self.items.len(),
                v@ == keys_of(self.items@).take(i as int),
            decreases self.items.len() - i,
        {
            v.push(self.items[i].0);
            i += 1;
            assert(keys_of(self.items@).take(i as int) =~= keys_of(self.items@).take(i - 1).push(
                keys_of(self.items@)[i - 1],
            ));
        }
        assert(v@ =~= keys_of(self.items@));
        IdSet::from_increasing(v)
    }
}

/// The pairs whose key is in `keep`.
pub open spec fn kept<V>(s: Seq<(u32, V)>, keep: Set<u32>) -> Seq<(u32, V)>
    decreases s.len(),
{
    if s.len() == 0 {
        s
    } else if keep.contains(s.last().0) {
        kept(s.drop_last(), keep).push(s.last())
    } else {
        kept(s.drop_last(), keep)
    }
}

/// Leaving out pairs keeps the order and leaves the map restricted.
proof fn lemma_kept<V>(s: Seq<(u32, V)>, keep: Set<u32>)
    requires
        increasing(keys_of(s)),
    ensures
        increasing(keys_of(kept(s, keep))),
        forall|i: int|
            0 <= i < kept(s, keep).len() ==> s.contains(#[trigger] kept(s, keep)[i]) && keep.contains(
                kept(s, keep)[i].0,
            ),
        forall|i: int|
            0 <= i < s.len() && keep.contains((#[trigger] s[i]).0) ==> kept(s, keep).contains(s[i]),
    decreases s.len(),
{
    if s.len() > 0 {
        let d = s.drop_last();
        let before = kept(d, keep);
        let after = kept(s, keep);
        assert(keys_of(d) =~= keys_of(s).drop_last());
        lemma_kept(d, keep);
        assert forall|i: int| 0 <= i < after.len() implies s.contains(#[trigger] after[i])
            && keep.contains(after[i].0) by {
            if i < before.len() {
                assert(after[i] == before[i]);
                assert(d.contains(before[i]));
                let k = choose|k: int| 0 <= k < d.len() && d[k] == before[i];
                assert(s[k] == after[i]);
            } else {
                assert(s[s.len() - 1] == after[i]);
            }
        }
        assert forall|i: int| 0 <= i < s.len() && keep.contains((#[trigger] s[i]).0) implies after.contains(
            s[i],
        ) by {
            if i < d.len() {
                assert(d[i] == s[i]);
                let k = choose|k: int| 0 <= k < before.len() && before[k] == s[i];
                assert(after[k] == s[i]);
            } else {
                assert(after[after.len() - 1] == s[i]);
            }
        }
        assert forall|i: int, j: int| 0 <= i < j < after.len() implies keys_of(after)[i] < keys_of(
            after,
        )[j] by {
            if j < before.len() {
                assert(keys_of(before)[i] < keys_of(before)[j]);
            } else {
                assert(after[i] == before[i]);
                assert(d.contains(before[i]));
                let k = choose|k: int| 0 <= k < d.len() && d[k] == before[i];
                assert(keys_of(s)[k] < keys_of(s)[s.len() - 1]);
            }
        }
    }
}

impl<V> IdMap<V> {
    /// Keeps only the pairs whose key is in `keep`.
    pub fn retain_keys(&mut self, keep: &IdSet)
        ensures
            final(self)@ == old(self)@.restrict(keep@),
    {
        proof {
            use_type_invariant(&*self);
        }
        let ghost all = self.items@;
        let mut items: Vec<(u32, V)> = Vec::new();
        std::mem::swap(&mut self.items, &mut items);
        let mut i: usize = 0;
        let mut seen: Ghost<int> = Ghost(0);
        proof {
            assert(all.take(0) =~= Seq::<(u32, V)>::empty());
            assert(items@.take(0) =~= Seq::<(u32, V)>::empty());
            assert(items@.skip(0) =~= all.skip(0));
        }
        while i < items.len()
            invariant
                i <= items.len(),
                0 <= seen@ <= all.len(),
                items@.take(i as int) == kept(all.take(seen@), keep@),
                items@.skip(i as int) == all.skip(seen@),
            decreases items.len() - i,
        {
            let ghost before = items@;
            proof {
                assert(before.skip(i as int).len() == before.len() - i);
                assert(all.skip(seen@).len() == all.len() - seen@);
                assert(seen@ < all.len());
                assert(before.skip(i as int)[0] == all.skip(seen@)[0]);
                assert(before[i as int] == all[seen@]);
                assert(all.take(seen@ + 1).drop_last() =~= all.take(seen@));
                assert(all.take(seen@ + 1).last() == all[seen@]);
            }
            if keep.contains(items[i].0) {
                proof {
                    assert(before.take(i + 1) =~= before.take(i as int).push(all[seen@]));
                    assert(before.skip(i + 1) =~= before.skip(i as int).drop_first());
                    assert(all.skip(seen@ + 1) =~= all.skip(seen@).drop_first());
                }
                i += 1;
            } else {
                items.remove(i);
                proof {
                    assert(items@.take(i as int) =~= before.take(i as int));
                    assert(items@.skip(i as int) =~= before.skip(i as int).drop_first());
                    assert(all.skip(seen@ + 1) =~= all.skip(seen@).drop_first());
                }
            }
            proof {
                seen@ = seen@ + 1;
            }
        }
        proof {
            assert(items@.skip(i as int).len() == 0);
            assert(all.skip(seen@).len() == 0);
            assert(all.take(seen@) =~= all);
            assert(items@.take(i as int) =~= items@);
            lemma_kept(all, keep@);
            let after = items@;
            lemma_map_of(all);
            lemma_map_of(after);
            assert forall|k: u32| map_of(after).contains_key(k) <==> map_of(all).restrict(
                keep@,
            ).contains_key(k) by {
                if map_of(after).contains_key(k) {
                    let j = choose|j: int| 0 <= j < after.len() && after[j].0 == k;
                    assert(all.contains(after[j]));
                    let m = choose|m: int| 0 <= m < all.len() && all[m] == after[j];
                    assert(all[m].0 == k);
                }
                if map_of(all).contains_key(k) && keep@.contains(k) {
                    let m = choose|m: int| 0 <= m < all.len() && all[m].0 == k;
                    assert(after.contains(all[m]));
                    let j = choose|j: int| 0 <= j < after.len() && after[j] == all[m];
                    assert(after[j].0 == k);
                }
            }
            assert forall|k: u32| map_of(after).contains_key(k) implies map_of(after)[k] == map_of(
                all,
            ).restrict(keep@)[k] by {
                let j = choose|j: int| 0 <= j < after.len() && after[j].0 == k;
                assert(all.contains(after[j]));
                let m = choose|m: int| 0 <= m < all.len() && all[m] == after[j];
                assert(all[m].0 == k);
            }
            assert(map_of(after) =~= map_of(all).restrict(keep@));
        }
        *self = IdMap { items };
    }
}

impl<V: Copy> IdMap<V> {
    /// The same map.
    pub fn copy(&self) -> (r: IdMap<V>)
        ensures
            r@ == self@,
    {
        proof {
            use_type_invariant(self);
        }
        let mut items: Vec<(u32, V)> = Vec::new();
        let mut i: usize = 0;
        while i < self.items.len()
            invariant
                i <= self.items.len(),
                items@ == self.items@.take(i as int),
            decreases self.items.len() - i,
        {
            items.push(self.items[i]);
            i += 1;
            assert(self.items@.take(i as int) =~= self.items@.take(i - 1).push(self.items@[i - 1]));
        }
        assert(items@ =~= self.items@);
        IdMap { items }
    }
}

/// The ordered list of a map holds each key once, with its value.
pub proof fn law_order_holds_the_pairs<V>(m: Map<u32, V>)
    ensures
        forall|i: int, j: int|
            0 <= i < j < ordered_pairs(m).len() ==> ordered_pairs(m)[i].0 < ordered_pairs(m)[j].0,
        forall|k: u32, v: V| #[trigger]
            ordered_pairs(m).contains((k, v)) <==> m.contains_key(k) && m[k] == v,
{
    let ks = ascending(m.dom());
    let o = ordered_pairs(m);
    law_ascending_holds_the_members(m.dom());
    assert forall|k: u32, v: V| #[trigger] o.contains((k, v)) <==> m.contains_key(k) && m[k]
        == v by {
        if o.contains((k, v)) {
            let i = choose|i: int| 0 <= i < o.len() && o[i] == (k, v);
            assert(ks[i] == k);
            assert(ks.contains(k));
        }
        if m.contains_key(k) && m[k] == v {
            assert(ks.contains(k));
            let i = choose|i: int| 0 <= i < ks.len() && ks[i] == k;
            assert(o[i] == (k, v));
        }
    }
}

} // verus!
