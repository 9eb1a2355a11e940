//! Sets of numbers that identify something: logical CPUs, processes.

use vstd::prelude::*;

verus! {

/// Strictly increasing.
pub open spec fn increasing(s: Seq<u32>) -> bool {
    forall|i: int, j: int| 0 <= i < j < s.len() ==> s[i] < s[j]
}

/// The members of a finite set in ascending order.
pub open spec fn ascending(s: Set<u32>) -> Seq<u32> {
    choose|q: Seq<u32>| increasing(q) && #[trigger] q.to_set() == s
}

/// An increasing sequence is the ascending order of its members.
pub proof fn lemma_ascending(q: Seq<u32>)
    requires
        increasing(q),
    ensures
        ascending(q.to_set()) == q,
{
    let r = ascending(q.to_set());
    assert(increasing(r) && r.to_set() == q.to_set());
    lemma_increasing_unique(r, q);
}

/// An increasing sequence is no longer than there are numbers up to its last.
proof fn lemma_increasing_length(q: Seq<u32>)
    requires
        increasing(q),
    ensures
        q.len() > 0 ==> q.len() <= q.last() + 1,
    decreases q.len(),
{
    if q.len() > 1 {
        lemma_increasing_length(q.drop_last());
        assert(q[q.len() - 2] < q[q.len() - 1]);
    }
}

/// A set of identifying numbers, kept in ascending order.
pub struct IdSet {
    ids: Vec<u32>,
}

impl View for IdSet {
    type V = Set<u32>;

    closed spec fn view(&self) -> Set<u32> {
        self.ids@.to_set()
    }
}

impl IdSet {
    #[verifier::type_invariant]
    closed spec fn well_formed(self) -> bool {
        increasing(self.ids@)
    }

    /// The members in ascending order.
    pub open spec fn order(&self) -> Seq<u32> {
        ascending(self@)
    }

    /// The empty set.
    pub fn new() -> (r: IdSet)
        ensures
            r@ == Set::<u32>::empty(),
            r.order() == Seq::<u32>::empty(),
    {
        let r = IdSet { ids: Vec::new() };
        proof {
            assert(r.ids@.to_set() =~= Set::<u32>::empty());
            lemma_ascending(r.ids@);
            assert(r.ids@ =~= Seq::<u32>::empty());
        }
        r
    }

    /// The numbers `0..n`.
    pub fn first(n: u32) -> (r: IdSet)
        ensures
            forall|c: u32| r@.contains(c) <==> c < n,
    {
        let mut ids: Vec<u32> = Vec::new();
        let mut i: u32 = 0;
        while i < n
            invariant
                i <= n,
                ids.len() == i,
                forall|j: int| 0 <= j < i ==> ids[j] == j,
            decreases n - i,
        {
            ids.push(i);
            i += 1;
        }
        let r = IdSet { ids };
        assert forall|c: u32| r@.contains(c) <==> c < n by {
            if c < n {
                assert(r.ids@[c as int] == c);
            }
        }
        r
    }

    /// The members of a list that ascends already.
    pub fn from_increasing(ids: Vec<u32>) -> (r: IdSet)
        requires
            increasing(ids@),
        ensures
            r.order() == ids@,
            r@ == ids@.to_set(),
    {
        proof {
            lemma_ascending(ids@);
        }
        IdSet { ids }
    }

    /// The members in ascending order.
    pub fn items(&self) -> (r: &Vec<u32>)
        ensures
            r@ == self.order(),
            increasing(r@),
            r@.to_set() == self@,
    {
        proof {
            use_type_invariant(self);
            lemma_ascending(self.ids@);
        }
        &self.ids
    }

    /// The number of members.
    pub fn len(&self) -> (n: usize)
        ensures
            n == self@.len(),
            n == self.order().len(),
            n <= u32::MAX as int + 1,
    {
        proof {
            use_type_invariant(self);
            self.ids@.unique_seq_to_set();
            lemma_ascending(self.ids@);
            lemma_increasing_length(self.ids@);
        }
        self.ids.len()
    }

    /// Whether there is no member.
    pub fn is_empty(&self) -> (r: bool)
        ensures
            r == (self@ == Set::<u32>::empty()),
            r == (self.order().len() == 0),
    {
        proof {
            use_type_invariant(self);
            lemma_ascending(self.ids@);
            if self.ids@.len() > 0 {
                assert(self@.contains(self.ids@[0]));
            } else {
                assert(self@ =~= Set::<u32>::empty());
            }
        }
        self.ids.len() == 0
    }

    /// The position of the first member that is at least `c`.
    fn position(&self, c: u32) -> (i: usize)
        ensures
            i <= self.ids@.len(),
            forall|j: int| 0 <= j < i ==> self.ids@[j] < c,
            forall|j: int| i <= j < self.ids@.len() ==> c <= self.ids@[j],
    {
        proof {
            use_type_invariant(self);
        }
        let mut i: usize = 0;
        while i < self.ids.len() && self.ids[i] < c
            invariant
                i <= self.ids@.len(),
                forall|j: int| 0 <= j < i ==> self.ids@[j] < c,
            decreases self.ids.len() - i,
        {
            i += 1;
        }
        i
    }

    /// Whether `c` is a member.
    pub fn contains(&self, c: u32) -> (r: bool)
        ensures
            r == self@.contains(c),
    {
        let i = self.position(c);
        let r = i < self.ids.len() && self.ids[i] == c;
        proof {
            use_type_invariant(self);
            if r {
                assert(self.ids@[i as int] == c);
            } else if self.ids@.contains(c) {
                let k = choose|k: int| 0 <= k < self.ids@.len() && self.ids@[k] == c;
                assert(i <= k);
                assert(c <= self.ids@[i as int] <= self.ids@[k]);
            }
        }
        r
    }

    /// Adds `c`; true where it was not a member before.
    pub fn insert(&mut self, c: u32) -> (fresh: bool)
        ensures
            final(self)@ == old(self)@.insert(c),
            fresh == !old(self)@.contains(c),
    {
        let i = self.position(c);
        let ghost before = self.ids@;
        if i < self.ids.len() && self.ids[i] == c {
            proof {
                use_type_invariant(&*self);
                assert(before[i as int] == c);
                assert(before.to_set() =~= before.to_set().insert(c));
            }
            return false;
        }
        proof {
            use_type_invariant(&*self);
        }
        let mut ids: Vec<u32> = Vec::new();
        std::mem::swap(&mut self.ids, &mut ids);
        ids.insert(i, c);
        proof {
            assert(ids@ =~= before.insert(i as int, c));
            assert forall|x: u32| ids@.to_set().contains(x) <==> before.to_set().insert(
                c,
            ).contains(x) by {
                if ids@.contains(x) {
                    let j = choose|j: int| 0 <= j < ids@.len() && ids@[j] == x;
                    if j < i {
                        assert(before[j] == x);
                    } else if j > i {
                        assert(before[j - 1] == x);
                    }
                }
                if before.contains(x) {
                    let j = choose|j: int| 0 <= j < before.len() && before[j] == x;
                    if j < i {
                        assert(ids@[j] == x);
                    } else {
                        assert(ids@[j + 1] == x);
                    }
                }
                assert(ids@[i as int] == c);
            }
            assert(ids@.to_set() =~= before.to_set().insert(c));
            assert(!before.contains(c));
        }
        *self = IdSet { ids };
        true
    }

    /// The members of a list.
    pub fn from_list(list: &[u32]) -> (r: IdSet)
        ensures
            r@ == list@.to_set(),
    {
        let mut r = IdSet::new();
        let mut i: usize = 0;
        assert(list@.take(0).to_set() =~= Set::<u32>::empty());
        while i < list.len()
            invariant
                i <= list.len(),
                r@ == list@.take(i as int).to_set(),
            decreases list.len() - i,
        {
            r.insert(list[i]);
            proof {
                let a = list@.take(i as int);
                let b = list@.take(i + 1);
                assert(b =~= a.push(list@[i as int]));
                assert forall|x: u32| b.to_set().contains(x) <==> a.to_set().insert(
                    list@[i as int],
                ).contains(x) by {
                    if a.contains(x) {
                        let j = choose|j: int| 0 <= j < a.len() && a[j] == x;
                        assert(b[j] == x);
                    }
                    assert(b[i as int] == list@[i as int]);
                }
                assert(b.to_set() =~= a.to_set().insert(list@[i as int]));
            }
            i += 1;
        }
        assert(list@.take(i as int) =~= list@);
        r
    }

    /// The same set.
    pub fn copy(&self) -> (r: IdSet)
        ensures
            r@ == self@,
            r.order() == self.order(),
    {
        proof {
            use_type_invariant(self);
        }
        let mut ids: Vec<u32> = Vec::new();
        let mut k: usize = 0;
        while k < self.ids.len()
            invariant
                k <= self.ids.len(),
                ids@ == self.ids@.take(k as int),
            decreases self.ids.len() - k,
        {
            ids.push(self.ids[k]);
            k += 1;
            assert(self.ids@.take(k as int) =~= self.ids@.take(k - 1).push(self.ids@[k - 1]));
        }
        assert(ids@ =~= self.ids@);
        IdSet { ids }
    }

    /// The members of either set.
    pub fn union(&self, other: &IdSet) -> (r: IdSet)
        ensures
            r@ == self@.union(other@),
    {
        let mut r = self.copy();
        let more = other.items();
        let mut i: usize = 0;
        assert(self@.union(more@.take(0).to_set()) =~= self@);
        while i < more.len()
            invariant
                i <= more.len(),
                r@ == self@.union(more@.take(i as int).to_set()),
            decreases more.len() - i,
        {
            r.insert(more[i]);
            proof {
                let a = more@.take(i as int);
                let b = more@.take(i + 1);
                assert(b =~= a.push(more@[i as int]));
                assert forall|x: u32| b.to_set().contains(x) <==> a.to_set().insert(
                    more@[i as int],
                ).contains(x) by {
                    if a.contains(x) {
                        let j = choose|j: int| 0 <= j < a.len() && a[j] == x;
                        assert(b[j] == x);
                    }
                    assert(b[i as int] == more@[i as int]);
                }
                assert(b.to_set() =~= a.to_set().insert(more@[i as int]));
                assert(self@.union(b.to_set()) =~= self@.union(a.to_set()).insert(more@[i as int]));
            }
            i += 1;
        }
        assert(more@.take(i as int) =~= more@);
        r
    }

    /// The members of this set that are (`keep`) or are not (`!keep`) in `other`.
    fn sieve(&self, other: &IdSet, keep: bool) -> (r: IdSet)
        ensures
            forall|c: u32| r@.contains(c) <==> self@.contains(c) && other@.contains(c) == keep,
    {
        let mut ids: Vec<u32> = Vec::new();
        let mut i: usize = 0;
        proof {
            use_type_invariant(self);
        }
        while i < self.ids.len()
            invariant
                i <= self.ids.len(),
                increasing(self.ids@),
                increasing(ids@),
                forall|j: int| 0 <= j < ids@.len() ==> exists|k: int|
                    0 <= k < i && self.ids@[k] == #[trigger] ids@[j],
                forall|c: u32| ids@.contains(c) <==> self.ids@.take(i as int).contains(c)
                    && other@.contains(c) == keep,
            decreases self.ids.len() - i,
        {
            let c: u32 = self.ids[i];
            let ghost before = ids@;
            let ghost a = self.ids@.take(i as int);
            let ghost b = self.ids@.take(i + 1);
            assert(b =~= a.push(c));
            if other.contains(c) == keep {
                ids.push(c);
                assert forall|j: int| 0 <= j < ids@.len() implies exists|k: int|
                    0 <= k < i + 1 && self.ids@[k] == #[trigger] ids@[j] by {
                    if j == before.len() {
                        assert(self.ids@[i as int] == ids@[j]);
                    } else {
                        assert(ids@[j] == before[j]);
                    }
                }
            }
            proof {
                assert forall|x: u32| ids@.contains(x) <==> b.contains(x) && other@.contains(x)
                    == keep by {
                    assert(b[i as int] == c);
                    if a.contains(x) {
                        let j = choose|j: int| 0 <= j < a.len() && a[j] == x;
                        assert(b[j] == x);
                    }
                    if before.contains(x) {
                        let j = choose|j: int| 0 <= j < before.len() && before[j] == x;
                        assert(ids@[j] == x);
                    }
                    if other@.contains(c) == keep {
                        assert(ids@[before.len() as int] == c);
                    }
                    if b.contains(x) && x != c {
                        let j = choose|j: int| 0 <= j < b.len() && b[j] == x;
                        assert(a[j] == x);
                    }
                    if ids@.contains(x) && x != c {
                        let j = choose|j: int| 0 <= j < ids@.len() && ids@[j] == x;
                        assert(before[j] == x);
                    }
                }
            }
            i += 1;
        }
        assert(self.ids@.take(i as int) =~= self.ids@);
        IdSet { ids }
    }

    /// The members of this set that are not in `other`.
    pub fn difference(&self, other: &IdSet) -> (r: IdSet)
        ensures
            r@ == self@.difference(other@),
    {
        let r = self.sieve(other, false);
        assert(r@ =~= self@.difference(other@));
        r
    }

    /// The members of both sets.
    pub fn intersect(&self, other: &IdSet) -> (r: IdSet)
        ensures
            r@ == self@.intersect(other@),
    {
        let r = self.sieve(other, true);
        assert(r@ =~= self@.intersect(other@));
        r
    }

    /// Whether the two sets have the same members.
    pub fn same(&self, other: &IdSet) -> (r: bool)
        ensures
            r == (self@ == other@),
    {
        let a = self.sieve(other, false);
        let b = other.sieve(self, false);
        let r = a.is_empty() && b.is_empty();
        proof {
            if r {
                assert forall|c: u32| self@.contains(c) <==> other@.contains(c) by {
                    assert(!a@.contains(c));
                    assert(!b@.contains(c));
                }
                assert(self@ =~= other@);
            } else {
                if self@ == other@ {
                    assert(a@ =~= Set::<u32>::empty());
                    assert(b@ =~= Set::<u32>::empty());
                }
            }
        }
        r
    }
}

/// Two increasing sequences with the same members are equal.
pub proof fn lemma_increasing_unique(a: Seq<u32>, b: Seq<u32>)
    requires
        increasing(a),
        increasing(b),
        a.to_set() == b.to_set(),
    ensures
        a == b,
    decreases a.len(),
{
    if a.len() == 0 {
        if b.len() > 0 {
            assert(b.to_set().contains(b[0]));
            assert(a.contains(b[0]));
        }
        assert(a =~= b);
    } else {
        assert(a.to_set().contains(a.last()));
        assert(b.contains(a.last()));
        assert(b.to_set().contains(b.last()));
        assert(a.contains(b.last()));
        let i = choose|i: int| 0 <= i < b.len() && b[i] == a.last();
        let j = choose|j: int| 0 <= j < a.len() && a[j] == b.last();
        assert(a.last() == b.last());
        let (p, q) = (a.drop_last(), b.drop_last());
        assert forall|x: u32| p.to_set().contains(x) <==> q.to_set().contains(x) by {
            if p.contains(x) {
                let k = choose|k: int| 0 <= k < p.len() && p[k] == x;
                assert(a[k] == x);
                assert(a.to_set().contains(x));
                assert(b.contains(x));
                let m = choose|m: int| 0 <= m < b.len() && b[m] == x;
                assert(x < a.last());
                assert(q[m] == x);
            }
            if q.contains(x) {
                let k = choose|k: int| 0 <= k < q.len() && q[k] == x;
                assert(b[k] == x);
                assert(b.to_set().contains(x));
                assert(a.contains(x));
                let m = choose|m: int| 0 <= m < a.len() && a[m] == x;
                assert(x < b.last());
                assert(p[m] == x);
            }
        }
        assert(p.to_set() =~= q.to_set());
        lemma_increasing_unique(p, q);
        assert(a =~= p.push(a.last()));
        assert(b =~= q.push(b.last()));
    }
}

/// The members of a set below `n`, in increasing order.
proof fn lemma_members_below(s: Set<u32>, n: nat) -> (q: Seq<u32>)
    requires
        n <= 0x1_0000_0000,
    ensures
        increasing(q),
        forall|c: u32| #[trigger] q.contains(c) <==> s.contains(c) && c < n,
    decreases n,
{
    if n == 0 {
        Seq::empty()
    } else {
        let p = lemma_members_below(s, (n - 1) as nat);
        let last = (n - 1) as u32;
        if s.contains(last) {
            let q = p.push(last);
            assert forall|c: u32| #[trigger] q.contains(c) <==> s.contains(c) && c < n by {
                if s.contains(c) && c < n {
                    if c == last {
                        assert(q[p.len() as int] == c);
                    } else {
                        assert(p.contains(c));
                        let k = choose|k: int| 0 <= k < p.len() && p[k] == c;
                        assert(q[k] == c);
                    }
                }
                if q.contains(c) {
                    let k = choose|k: int| 0 <= k < q.len() && q[k] == c;
                    if k < p.len() {
                        assert(p[k] == c);
                        assert(p.contains(c));
                    }
                }
            }
            assert forall|i: int, j: int| 0 <= i < j < q.len() implies q[i] < q[j] by {
                assert(p.contains(p[i]));
            }
            q
        } else {
            p
        }
    }
}

/// The ascending order of a set holds its members, each once, the smaller before the
/// greater.
pub proof fn law_ascending_holds_the_members(s: Set<u32>)
    ensures
        forall|i: int, j: int| 0 <= i < j < ascending(s).len() ==> ascending(s)[i] < ascending(s)[j],
        forall|c: u32| #[trigger] ascending(s).contains(c) <==> s.contains(c),
{
    let q = lemma_members_below(s, 0x1_0000_0000);
    assert(q.to_set() =~= s);
    lemma_ascending(q);
}

} // verus!
