//! Maps from names to values.

use vstd::prelude::*;
use vstd::string::*;

use crate::sort::{sorted_places, sorts_before, Ranked};
use crate::text::{
    at_most, chars_of, lemma_text_le_antisymmetric, lemma_text_le_total,
    lemma_text_le_transitive, same_text, text_le, texts,
};

verus! {

/// The names of a list of named values.
pub open spec fn names_of<V>(s: Seq<(String, V)>) -> Seq<Seq<char>> {
    Seq::new(s.len(), |i: int| s[i].0@)
}

/// No name occurs twice.
pub open spec fn distinct(s: Seq<Seq<char>>) -> bool {
    forall|i: int, j: int| 0 <= i < j < s.len() ==> s[i] != s[j]
}

/// The position of the value called `k`.
pub open spec fn name_index<V>(s: Seq<(String, V)>, k: Seq<char>) -> int {
    choose|i: int| 0 <= i < s.len() && (#[trigger] s[i]).0@ == k
}

/// The map that a list with different names stands for.
pub open spec fn named<V>(s: Seq<(String, V)>) -> Map<Seq<char>, V> {
    Map::new(|k: Seq<char>| names_of(s).contains(k), |k: Seq<char>| s[name_index(s, k)].1)
}

/// Each entry of the list is in the map.
pub proof fn lemma_named<V>(s: Seq<(String, V)>)
    requires
        distinct(names_of(s)),
    ensures
        forall|i: int|
            0 <= i < s.len() ==> named(s).contains_key((#[trigger] s[i]).0@) && named(s)[s[i].0@]
                == s[i].1,
        forall|k: Seq<char>| #[trigger]
            named(s).contains_key(k) ==> exists|i: int| 0 <= i < s.len() && s[i].0@ == k,
        named(s).dom() == names_of(s).to_set(),
{
    assert forall|i: int| 0 <= i < s.len() implies named(s).contains_key((#[trigger] s[i]).0@)
        && named(s)[s[i].0@] == s[i].1 by {
        let k = s[i].0@;
        assert(names_of(s)[i] == k);
        let j = name_index(s, k);
        assert(0 <= j < s.len() && s[j].0@ == k);
        assert(names_of(s)[j] == k);
        if i < j {
            assert(names_of(s)[i] != names_of(s)[j]);
        } else if j < i {
            assert(names_of(s)[j] != names_of(s)[i]);
        }
    }
    assert forall|k: Seq<char>| #[trigger] named(s).contains_key(k) implies exists|i: int|
        0 <= i < s.len() && s[i].0@ == k by {
        let i = choose|i: int| 0 <= i < names_of(s).len() && names_of(s)[i] == k;
        assert(s[i].0@ == k);
    }
    assert(named(s).dom() =~= names_of(s).to_set());
}

/// A map from names to values.
pub struct NameMap<V> {
    items: Vec<(String, V)>,
}

impl<V> View for NameMap<V> {
    type V = Map<Seq<char>, V>;

    closed spec fn view(&self) -> Map<Seq<char>, V> {
        named(self.items@)
    }
}

impl<V> NameMap<V> {
    #[verifier::type_invariant]
    closed spec fn well_formed(self) -> bool {
        distinct(names_of(self.items@))
    }

    /// The empty map.
    pub fn new() -> (r: NameMap<V>)
        ensures
            r@ == Map::<Seq<char>, V>::empty(),
    {
        let r = NameMap { items: Vec::new() };
        proof {
            lemma_named(r.items@);
            assert(r@ =~= Map::<Seq<char>, V>::empty());
        }
        r
    }

    /// The entries, in no particular order.
    pub fn entries(&self) -> (r: &Vec<(String, V)>)
        ensures
            distinct(names_of(r@)),
            self@ == named(r@),
            self@.dom() == names_of(r@).to_set(),
            forall|i: int|
                0 <= i < r@.len() ==> self@.contains_key((#[trigger] r@[i]).0@) && self@[r@[i].0@]
                    == r@[i].1,
    {
        proof {
            use_type_invariant(self);
            lemma_named(self.items@);
        }
        &self.items
    }

    /// The position of the value called `k`, or the number of entries.
    fn position(&self, k: &str) -> (i: usize)
        ensures
            i <= self.items@.len(),
            i < self.items@.len() ==> self.items@[i as int].0@ == k@,
            i == self.items@.len() ==> forall|j: int|
                0 <= j < self.items@.len() ==> (#[trigger] self.items@[j]).0@ != k@,
    {
        let mut i: usize = 0;
        while i < self.items.len()
            invariant
                i <= self.items@.len(),
                forall|j: int| 0 <= j < i ==> (#[trigger] self.items@[j]).0@ != k@,
            decreases self.items.len() - i,
        {
            if same_text(self.items[i].0.as_str(), k) {
                return i;
            }
            i += 1;
        }
        i
    }

    /// The value called `k`.
    pub fn get(&self, k: &str) -> (r: Option<&V>)
        ensures
            match r {
                Some(v) => self@.contains_key(k@) && self@[k@] == *v,
                None => !self@.contains_key(k@),
            },
    {
        let i = self.position(k);
        proof {
            use_type_invariant(self);
            lemma_named(self.items@);
        }
        if i < self.items.len() {
            assert(self.items@[i as int].0@ == k@);
            Some(&self.items[i].1)
        } else {
            None
        }
    }

    /// Sets the value called `k`.
    pub fn insert(&mut self, k: String, v: V)
        ensures
            final(self)@ == old(self)@.insert(k@, v),
    {
        let i = self.position(k.as_str());
        let ghost before = self.items@;
        let ghost name = k@;
        proof {
            use_type_invariant(&*self);
            lemma_named(before);
        }
        let mut items: Vec<(String, V)> = Vec::new();
        std::mem::swap(&mut self.items, &mut items);
        let n: usize = items.len();
        if i < n {
            items.set(i, (k, v));
            assert(names_of(items@) =~= names_of(before));
        } else {
            items.push((k, v));
            proof {
                let ns = names_of(before);
                assert(names_of(items@) =~= ns.push(name));
                assert forall|a: int, b: int| 0 <= a < b < items@.len() implies names_of(items@)[a]
                    != names_of(items@)[b] by {
                    if b < n {
                        assert(ns[a] != ns[b]);
                    } else {
                        assert(before[a].0@ != name);
                    }
                }
            }
        }
        proof {
            let after = items@;
            lemma_named(after);
            assert(after[i as int].0@ == name && after[i as int].1 == v);
            assert forall|x: Seq<char>| named(after).contains_key(x) <==> named(before).insert(
                name,
                v,
            ).contains_key(x) by {
                if named(before).contains_key(x) {
                    let j = choose|j: int| 0 <= j < before.len() && before[j].0@ == x;
                    assert(after[j].0@ == x);
                }
                if named(after).contains_key(x) && x != name {
                    let j = choose|j: int| 0 <= j < after.len() && after[j].0@ == x;
                    assert(before[j].0@ == x);
                }
            }
            assert forall|x: Seq<char>| named(after).contains_key(x) implies named(after)[x]
                == named(before).insert(name, v)[x] by {
                let j = choose|j: int| 0 <= j < after.len() && after[j].0@ == x;
                if x != name {
                    assert(after[j] == before[j]);
                }
            }
            assert(named(after) =~= named(before).insert(name, v));
        }
        *self = NameMap { items };
    }

    /// Removes the value called `k`.
    pub fn remove(&mut self, k: &str)
        ensures
            final(self)@ == old(self)@.remove(k@),
    {
        let i = self.position(k);
        let ghost before = self.items@;
        proof {
            use_type_invariant(&*self);
            lemma_named(before);
        }
        let mut items: Vec<(String, V)> = Vec::new();
        std::mem::swap(&mut self.items, &mut items);
        if i < items.len() {
            items.remove(i);
            proof {
                let after = items@;
                let ns = names_of(before);
                assert forall|a: int, b: int| 0 <= a < b < after.len() implies names_of(after)[a]
                    != names_of(after)[b] by {
                    let a2: int = if a < i { a } else { a + 1 };
                    let b2: int = if b < i { b } else { b + 1 };
                    assert(ns[a2] != ns[b2]);
                }
                lemma_named(after);
                assert forall|x: Seq<char>| named(after).contains_key(x) <==> named(before).remove(
                    k@,
                ).contains_key(x) by {
                    if named(before).contains_key(x) && x != k@ {
                        let j = choose|j: int| 0 <= j < before.len() && before[j].0@ == x;
                        let j2: int = if j < i { j } else { j - 1 };
                        assert(after[j2] == before[j]);
                    }
                    if named(after).contains_key(x) {
                        let j = choose|j: int| 0 <= j < after.len() && after[j].0@ == x;
                        let j2: int = if j < i { j } else { j + 1 };
                        assert(after[j] == before[j2]);
                        assert(ns[j2] == x && ns[i as int] == k@);
                        if j2 < i {
                            assert(ns[j2] != ns[i as int]);
                        } else {
                            assert(ns[i as int] != ns[j2]);
                        }
                    }
                }
                assert forall|x: Seq<char>| named(after).contains_key(x) implies named(after)[x]
                    == named(before).remove(k@)[x] by {
                    let j = choose|j: int| 0 <= j < after.len() && after[j].0@ == x;
                    let j2: int = if j < i { j } else { j + 1 };
                    assert(after[j] == before[j2]);
                }
                assert(named(after) =~= named(before).remove(k@));
            }
        } else {
            proof {
                assert(named(before).remove(k@) =~= named(before));
            }
        }
        *self = NameMap { items };
    }
}

// ── Names in order ───────────────────────────────────────────────────────────

/// Strictly ascending.
pub open spec fn ascending_names(q: Seq<Seq<char>>) -> bool {
    forall|i: int, j: int|
        #![trigger q[i], q[j]]
        0 <= i < j < q.len() ==> text_le(q[i], q[j]) && q[i] != q[j]
}

/// The names of a finite set in ascending order.
pub open spec fn name_order(s: Set<Seq<char>>) -> Seq<Seq<char>> {
    choose|q: Seq<Seq<char>>| ascending_names(q) && #[trigger] q.to_set() == s
}

/// There is only one ascending order.
pub proof fn lemma_name_order_unique(a: Seq<Seq<char>>, b: Seq<Seq<char>>)
    requires
        ascending_names(a),
        ascending_names(b),
        a.to_set() == b.to_set(),
    ensures
        a == b,
    decreases a.len(),
{
    if a.len() == 0 {
        if b.len() > 0 {
            assert(b.to_set().contains(b[0]));
            assert(a.contains(b[0]));
        }
        assert(a =~= b);
    } else {
        assert(a.to_set().contains(a.last()));
        assert(b.contains(a.last()));
        assert(b.to_set().contains(b.last()));
        assert(a.contains(b.last()));
        let i = choose|i: int| 0 <= i < b.len() && b[i] == a.last();
        let j = choose|j: int| 0 <= j < a.len() && a[j] == b.last();
        assert(a.last() == b.last()) by {
            if i < b.len() - 1 && j < a.len() - 1 {
                assert(text_le(b[i], b[b.len() - 1]));
                assert(text_le(a[j], a[a.len() - 1]));
                lemma_text_le_antisymmetric(a.last(), b.last());
            }
        }
        let (p, q) = (a.drop_last(), b.drop_last());
        assert forall|x: Seq<char>| p.to_set().contains(x) <==> q.to_set().contains(x) by {
            if p.contains(x) {
                let k = choose|k: int| 0 <= k < p.len() && p[k] == x;
                assert(a[k] == x);
                assert(a.to_set().contains(x));
                assert(b.contains(x));
                let m = choose|m: int| 0 <= m < b.len() && b[m] == x;
                assert(a[k] != a[a.len() - 1]);
                assert(q[m] == x);
            }
            if q.contains(x) {
                let k = choose|k: int| 0 <= k < q.len() && q[k] == x;
                assert(b[k] == x);
                assert(b.to_set().contains(x));
                assert(a.contains(x));
                let m = choose|m: int| 0 <= m < a.len() && a[m] == x;
                assert(b[k] != b[b.len() - 1]);
                assert(p[m] == x);
            }
        }
        assert(p.to_set() =~= q.to_set());
        lemma_name_order_unique(p, q);
        assert(a =~= p.push(a.last()));
        assert(b =~= q.push(b.last()));
    }
}

/// A text to be sorted by.
pub struct TextKey {
    pub text: Vec<char>,
}

impl Ranked for TextKey {
    open spec fn ranks(&self, other: &Self) -> bool {
        text_le(self.text@, other.text@)
    }

    fn no_later(&self, other: &Self) -> (r: bool) {
        at_most(&self.text, &other.text)
    }

    proof fn ranks_total(&self, other: &Self) {
        lemma_text_le_total(self.text@, other.text@);
    }

    proof fn ranks_transitive(&self, mid: &Self, other: &Self) {
        lemma_text_le_transitive(self.text@, mid.text@, other.text@);
    }
}

impl<V> NameMap<V> {
    /// The names in ascending order.
    pub fn sorted_names(&self) -> (r: Vec<String>)
        ensures
            texts(r@) == name_order(self@.dom()),
            ascending_names(texts(r@)),
            texts(r@).to_set() == self@.dom(),
    {
        let entries = self.entries();
        let mut keys: Vec<TextKey> = Vec::new();
        let mut i: usize = 0;
        while i < entries.len()
            invariant
                i <= entries.len(),
                keys.len() == i,
                forall|k: int| 0 <= k < i ==> (#[trigger] keys[k]).text@ == entries[k].0@,
            decreases entries.len() - i,
        {
            keys.push(TextKey { text: chars_of(entries[i].0.as_str()) });
            i += 1;
        }
        let order = sorted_places(&keys);
        let mut r: Vec<String> = Vec::new();
        let mut j: usize = 0;
        while j < order.len()
            invariant
                j <= order.len(),
                r.len() == j,
                keys.len() == entries.len(),
                forall|k: int| 0 <= k < order.len() ==> (#[trigger] order[k]) < entries.len(),
                forall|k: int| 0 <= k < j ==> #[trigger] r[k]@ == entries[order[k] as int].0@,
            decreases order.len() - j,
        {
            r.push(entries[order[j]].0.clone());
            j += 1;
        }
        proof {
            let t = texts(r@);
            let ns = names_of(entries@);
            assert forall|a: int, b: int| 0 <= a < b < t.len() implies text_le(t[a], t[b]) && t[a]
                != t[b] by {
                assert(r[a]@ == entries[order[a] as int].0@);
                assert(r[b]@ == entries[order[b] as int].0@);
                assert(sorts_before(keys@, order[a] as int, order[b] as int));
                let (x, y) = (order[a] as int, order[b] as int);
                assert(keys[x].text@ == entries[x].0@ && keys[y].text@ == entries[y].0@);
                assert(x != y);
                if x < y {
                    assert(ns[x] != ns[y]);
                } else {
                    assert(ns[y] != ns[x]);
                }
            }
            assert forall|n: Seq<char>| t.to_set().contains(n) <==> ns.to_set().contains(n) by {
                if t.contains(n) {
                    let a = choose|a: int| 0 <= a < t.len() && t[a] == n;
                    assert(r[a]@ == entries[order[a] as int].0@);
                    assert(ns[order[a] as int] == n);
                }
                if ns.contains(n) {
                    let x = choose|x: int| 0 <= x < ns.len() && ns[x] == n;
                    assert(order@.contains(x as usize));
                    let a = choose|a: int| 0 <= a < order@.len() && order@[a] == x as usize;
                    assert(r[a]@ == entries[order[a] as int].0@);
                    assert(t[a] == n);
                }
            }
            assert(t.to_set() =~= ns.to_set());
            let q = name_order(self@.dom());
            assert(ascending_names(q) && q.to_set() == self@.dom());
            lemma_name_order_unique(q, t);
        }
        r
    }
}

} // verus!
