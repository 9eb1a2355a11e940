//! Which cores stay online in Gaming Mode, and the map on which they are chosen.

use vstd::prelude::*;
use vstd::string::*;

use crate::idmap::{keys_of, IdMap};
use crate::idset::IdSet;
use crate::number::{dec, decimal};

verus! {

// ── Choices ──────────────────────────────────────────────────────────────────

/// Each CPU of `keys`, on where it is in `on`.
pub open spec fn marked(keys: Set<u32>, on: Set<u32>) -> Map<u32, bool> {
    Map::new(|c: u32| keys.contains(c), |c: u32| on.contains(c))
}

/// Marks the CPUs of `keys` that are in `on`.
pub fn mark(keys: &IdSet, on: &IdSet) -> (r: IdMap<bool>)
    ensures
        r@ == marked(keys@, on@),
{
    let list = keys.items();
    let mut r: IdMap<bool> = IdMap::new();
    let mut i: usize = 0;
    assert(r@ =~= marked(list@.take(0).to_set(), on@));
    while i < list.len()
        invariant
            i <= list.len(),
            r@ == marked(list@.take(i as int).to_set(), on@),
        decreases list.len() - i,
    {
        let c: u32 = list[i];
        r.insert(c, on.contains(c));
        proof {
            let a = list@.take(i as int);
            let b = list@.take(i + 1);
            assert(b =~= a.push(c));
            assert forall|x: u32| b.to_set().contains(x) <==> a.to_set().contains(x) || x == c by {
                if a.contains(x) {
                    let k = choose|k: int| 0 <= k < a.len() && a[k] == x;
                    assert(b[k] == x);
                }
                assert(b[i as int] == c);
            }
            assert(r@ =~= marked(b.to_set(), on@));
        }
        i += 1;
    }
    assert(list@.take(i as int) =~= list@);
    r
}

/// The CPUs that have a given mark.
pub open spec fn with_mark(m: Map<u32, bool>, v: bool) -> Set<u32> {
    Set::new(|c: u32| m.contains_key(c) && m[c] == v)
}

/// The CPUs that have a given mark.
pub fn cpus_with_mark(m: &IdMap<bool>, v: bool) -> (r: IdSet)
    ensures
        r@ == with_mark(m@, v),
{
    let pairs = m.pairs();
    let ghost ks = keys_of(pairs@);
    let mut r = IdSet::new();
    let mut i: usize = 0;
    while i < pairs.len()
        invariant
            i <= pairs.len(),
            ks == keys_of(pairs@),
            forall|k: int|
                0 <= k < pairs@.len() ==> m@.contains_key((#[trigger] pairs@[k]).0)
                    && m@[pairs@[k].0] == pairs@[k].1,
            forall|c: u32| #[trigger]
                r@.contains(c) <==> with_mark(m@, v).contains(c) && exists|k: int|
                    0 <= k < i && #[trigger] ks[k] == c,
        decreases pairs.len() - i,
    {
        let (cpu, on) = pairs[i];
        let ghost before = r@;
        assert(ks[i as int] == pairs@[i as int].0);
        if on == v {
            r.insert(cpu);
        }
        assert forall|c: u32| #[trigger] r@.contains(c) <==> with_mark(m@, v).contains(c)
            && exists|k: int| 0 <= k < i + 1 && #[trigger] ks[k] == c by {
            assert(before.contains(c) <==> with_mark(m@, v).contains(c) && exists|k: int|
                0 <= k < i && #[trigger] ks[k] == c);
            if c == cpu {
                assert(ks[i as int] == c);
            }
        }
        i += 1;
    }
    assert forall|c: u32| r@.contains(c) <==> with_mark(m@, v).contains(c) by {
        if m@.contains_key(c) {
            assert(m@.dom().contains(c));
            assert(ks.to_set().contains(c));
            let k = choose|k: int| 0 <= k < ks.len() && ks[k] == c;
            assert(0 <= k < i && ks[k] == c);
        }
    }
    assert(r@ =~= with_mark(m@, v));
    r
}

/// The marks, replaced by those that a profile has.
pub open spec fn overlaid(checks: Map<u32, bool>, states: Map<u32, bool>) -> Map<u32, bool> {
    Map::new(
        |c: u32| checks.contains_key(c),
        |c: u32|
            if states.contains_key(c) {
                states[c]
            } else {
                checks[c]
            },
    )
}

/// Replaces the marks by those that a profile has.
pub fn overlay(checks: &IdMap<bool>, states: &IdMap<bool>) -> (r: IdMap<bool>)
    ensures
        r@ == overlaid(checks@, states@),
{
    let keys = checks.keys();
    let known = states.keys();
    let mine = cpus_with_mark(checks, true);
    let kept = mine.difference(&known);
    let theirs = cpus_with_mark(states, true);
    let on = kept.union(&theirs);
    let r = mark(&keys, &on);
    assert(r@ =~= overlaid(checks@, states@));
    r
}

/// The CPUs that are parked in Gaming Mode: the cores that are not preferred, and
/// the preferred ones that are not to be kept.
pub open spec fn cpus_to_park(non_preferred: Set<u32>, checks: Map<u32, bool>) -> Set<u32> {
    non_preferred.union(with_mark(checks, false))
}

/// A preferred core is parked just where it is not to be kept.
pub proof fn law_kept_cores_stay_online(
    preferred: Set<u32>,
    non_preferred: Set<u32>,
    checks: Map<u32, bool>,
    c: u32,
)
    requires
        preferred.contains(c),
        !non_preferred.contains(c),
        checks.contains_key(c),
    ensures
        cpus_to_park(non_preferred, checks).contains(c) <==> !checks[c],
{
}

/// What a profile stores of the marks is what it gives back.
pub proof fn law_stored_marks_come_back(checks: Map<u32, bool>, now: Map<u32, bool>)
    requires
        now.dom() == checks.dom(),
    ensures
        overlaid(now, checks) == checks,
{
    assert(overlaid(now, checks) =~= checks);
}

// ── Map ──────────────────────────────────────────────────────────────────────

/// The cells of the map in order: each CPU, and whether it is a preferred one. A
/// CPU in both groups has two cells.
pub open spec fn cells_of(preferred: Seq<u32>, others: Seq<u32>) -> Seq<(u32, bool)>
    decreases preferred.len() + others.len(),
{
    if preferred.len() == 0 && others.len() == 0 {
        Seq::empty()
    } else if others.len() > 0 && (preferred.len() == 0 || others[0] <= preferred[0]) {
        seq![(others[0], false)] + cells_of(preferred, others.drop_first())
    } else {
        seq![(preferred[0], true)] + cells_of(preferred.drop_first(), others)
    }
}

/// The cells of the map.
pub fn core_cells(preferred: &IdSet, others: &IdSet) -> (r: Vec<(u32, bool)>)
    ensures
        r@ == cells_of(preferred.order(), others.order()),
{
    let p = preferred.items();
    let o = others.items();
    let mut r: Vec<(u32, bool)> = Vec::new();
    let mut i: usize = 0;
    let mut j: usize = 0;
    proof {
        assert(p@.skip(0) =~= p@);
        assert(o@.skip(0) =~= o@);
        assert(r@ + cells_of(p@, o@) =~= cells_of(p@, o@));
    }
    while i < p.len() || j < o.len()
        invariant
            i <= p.len(),
            j <= o.len(),
            r@ + cells_of(p@.skip(i as int), o@.skip(j as int)) == cells_of(p@, o@),
        decreases p.len() - i + (o.len() - j),
    {
        let ghost before = r@;
        let ghost (ps, os) = (p@.skip(i as int), o@.skip(j as int));
        if j < o.len() && (i == p.len() || o[j] <= p[i]) {
            let c: u32 = o[j];
            r.push((c, false));
            proof {
                assert(os[0] == c);
                assert(os.drop_first() =~= o@.skip(j + 1));
                let rest = cells_of(ps, o@.skip(j + 1));
                assert(r@ + rest =~= before + (seq![(c, false)] + rest));
            }
            j += 1;
        } else {
            let c: u32 = p[i];
            r.push((c, true));
            proof {
                assert(ps[0] == c);
                assert(ps.drop_first() =~= p@.skip(i + 1));
                let rest = cells_of(p@.skip(i + 1), os);
                assert(r@ + rest =~= before + (seq![(c, true)] + rest));
            }
            i += 1;
        }
    }
    assert(p@.skip(i as int) =~= Seq::<u32>::empty());
    assert(o@.skip(j as int) =~= Seq::<u32>::empty());
    assert(r@ + Seq::<(u32, bool)>::empty() =~= r@);
    r
}

/// How many cells stand in a row of the map.
pub const MAP_COLUMNS: usize = 16;

/// A preferred CPU is kept online unless it is marked otherwise.
pub open spec fn keeps(is_pref: bool, checks: Map<u32, bool>, cpu: u32) -> bool {
    is_pref && (checks.contains_key(cpu) ==> checks[cpu])
}

/// Whether a CPU is kept online.
pub fn is_kept(is_pref: bool, checks: &IdMap<bool>, cpu: u32) -> (r: bool)
    ensures
        r == keeps(is_pref, checks@, cpu),
{
    is_pref && match checks.get(cpu) {
        Some(v) => *v,
        None => true,
    }
}

/// A click on a preferred core turns its mark round; one without a mark counts as
/// kept.
pub fn toggle_core(checks: &mut IdMap<bool>, cpu: u32)
    ensures
        final(checks)@ == old(checks)@.insert(cpu, !keeps(true, old(checks)@, cpu)),
{
    let v = is_kept(true, checks, cpu);
    checks.insert(cpu, !v);
}

/// Two clicks on a core with a mark change nothing.
pub proof fn law_two_clicks_change_nothing(checks: Map<u32, bool>, cpu: u32)
    requires
        checks.contains_key(cpu),
    ensures
        ({
            let once = checks.insert(cpu, !keeps(true, checks, cpu));
            once.insert(cpu, !keeps(true, once, cpu)) == checks
        }),
{
    let once = checks.insert(cpu, !keeps(true, checks, cpu));
    assert(once.insert(cpu, !keeps(true, once, cpu)) =~= checks);
}

/// What is said of a cell when the pointer is over it.
pub fn core_hover(cpu: u32, is_pref: bool, kept: bool) -> (r: String)
    ensures
        r@ == "CPU "@ + dec(cpu as nat) + " — "@ + if !is_pref {
            "parked in Gaming Mode"@
        } else if kept {
            "kept online"@
        } else {
            "parked by you"@
        },
{
    let mut s = "CPU ".to_owned();
    let d = decimal(cpu as u64);
    s.append(d.as_str());
    s.append(" — ");
    if !is_pref {
        s.append("parked in Gaming Mode");
    } else if kept {
        s.append("kept online");
    } else {
        s.append("parked by you");
    }
    s
}

/// The tag on a cell: `HT` for a further thread of a core, else `P`.
pub fn core_tag(cpu: u32, smt: &IdSet) -> (r: &'static str)
    ensures
        r@ == if smt@.contains(cpu) {
            "HT"@
        } else {
            "P"@
        },
{
    if smt.contains(cpu) {
        "HT"
    } else {
        "P"
    }
}

/// A click on a core changes whether it is kept, a second one changes it back; the other
/// cores are not affected.
pub proof fn law_click_changes_one_core(
    checks: &mut IdMap<bool>,
    cpu: u32,
    other: u32,
    after: &IdMap<bool>,
    before: &IdMap<bool>,
    kept: bool,
    was: bool,
)
    requires
        call_ensures(toggle_core, (checks, cpu), ()),
        *after == *final(checks),
        *before == *old(checks),
        call_ensures(is_kept, (true, before, cpu), was),
        call_ensures(is_kept, (true, after, cpu), kept),
        other != cpu,
    ensures
        kept == !was,
        final(checks)@.contains_key(other) == old(checks)@.contains_key(other),
        final(checks)@.contains_key(other) ==> final(checks)@[other] == old(checks)@[other],
{
}

/// A core that games do not prefer is never kept, one that they prefer unless it was
/// taken out.
pub proof fn law_preferred_cores_are_kept(is_pref: bool, checks: &IdMap<bool>, cpu: u32, r: bool)
    requires
        call_ensures(is_kept, (is_pref, checks, cpu), r),
    ensures
        !is_pref ==> !r,
        is_pref && !checks@.contains_key(cpu) ==> r,
        is_pref && checks@.contains_key(cpu) ==> r == checks@[cpu],
{
}

/// The map of the cores shows each CPU once, with its group.
pub proof fn law_map_shows_every_core(
    preferred: &IdSet,
    others: &IdSet,
    r: Vec<(u32, bool)>,
    c: u32,
)
    requires
        call_ensures(core_cells, (preferred, others), r),
    ensures
        r@.contains((c, true)) <==> preferred@.contains(c),
        r@.contains((c, false)) <==> others@.contains(c),
{
    crate::idset::law_ascending_holds_the_members(preferred@);
    crate::idset::law_ascending_holds_the_members(others@);
    lemma_cells(preferred.order(), others.order(), c);
    assert(preferred.order().contains(c) == preferred@.contains(c));
    assert(others.order().contains(c) == others@.contains(c));
}

/// What the cells hold.
proof fn lemma_cells(p: Seq<u32>, o: Seq<u32>, c: u32)
    ensures
        cells_of(p, o).contains((c, true)) <==> p.contains(c),
        cells_of(p, o).contains((c, false)) <==> o.contains(c),
    decreases p.len() + o.len(),
{
    if p.len() == 0 && o.len() == 0 {
    } else if o.len() > 0 && (p.len() == 0 || o[0] <= p[0]) {
        lemma_cells(p, o.drop_first(), c);
        lemma_first_or_rest((o[0], false), cells_of(p, o.drop_first()), (c, true));
        lemma_first_or_rest((o[0], false), cells_of(p, o.drop_first()), (c, false));
        lemma_first_or_rest(o[0], o.drop_first(), c);
        assert(seq![o[0]] + o.drop_first() =~= o);
    } else {
        lemma_cells(p.drop_first(), o, c);
        lemma_first_or_rest((p[0], true), cells_of(p.drop_first(), o), (c, true));
        lemma_first_or_rest((p[0], true), cells_of(p.drop_first(), o), (c, false));
        lemma_first_or_rest(p[0], p.drop_first(), c);
        assert(seq![p[0]] + p.drop_first() =~= p);
    }
}

/// What is in a list is its first element or in the rest.
proof fn lemma_first_or_rest<T>(x: T, rest: Seq<T>, y: T)
    ensures
        (seq![x] + rest).contains(y) <==> x == y || rest.contains(y),
{
    let s = seq![x] + rest;
    assert(s[0] == x);
    if rest.contains(y) {
        let k = choose|k: int| 0 <= k < rest.len() && rest[k] == y;
        assert(s[k + 1] == y);
    }
    if s.contains(y) && x != y {
        let k = choose|k: int| 0 <= k < s.len() && s[k] == y;
        assert(rest[k - 1] == y);
    }
}

} // verus!
