//! Which cores are the faster ones: detection of processors with unequal caches
//! or unequal cores.

use vstd::prelude::*;
use vstd::string::*;

use crate::binary::{double, parts, Binary};
use crate::cpulist::{cpulist, cpuset_to_cpulist};
use crate::idmap::{keys_of, IdMap};
use crate::idset::{ascending, increasing, IdSet};
use crate::number::{dec, parse_nat, push_dec, push_tenths, read_u32, read_u64, tenths};
use crate::text::{chars_of, has_prefix, sub_chars, text_of, trim, trimmed};

verus! {

/// How the cores differ.
#[derive(Debug, Clone, Copy, PartialEq, Eq, Structural)]
pub enum TopologyKind {
    /// One group of cores has a larger level-3 cache.
    AmdX3D,
    /// There are performance cores and efficiency cores.
    IntelHybrid,
    /// All cores are equal.
    Uniform,
}

/// The cores, sorted into those to prefer and the others.
pub struct CpuTopology {
    pub kind: TopologyKind,
    pub preferred: IdSet,
    pub non_preferred: IdSet,
    pub description: String,
    /// Such as `V-Cache CCD (96 MB L3)`.
    pub preferred_label: String,
    /// Such as `E-cores (4.9 GHz)`.
    pub non_preferred_label: String,
}

/// The cores, sorted into those to prefer and the others.
pub struct Topology {
    pub kind: TopologyKind,
    pub preferred: Set<u32>,
    pub non_preferred: Set<u32>,
    pub description: Seq<char>,
    pub preferred_label: Seq<char>,
    pub non_preferred_label: Seq<char>,
}

impl View for CpuTopology {
    type V = Topology;

    open spec fn view(&self) -> Topology {
        Topology {
            kind: self.kind,
            preferred: self.preferred@,
            non_preferred: self.non_preferred@,
            description: self.description@,
            preferred_label: self.preferred_label@,
            non_preferred_label: self.non_preferred_label@,
        }
    }
}

/// Equal cores.
pub open spec fn uniform_topology(all: Set<u32>) -> Topology {
    Topology {
        kind: TopologyKind::Uniform,
        preferred: all,
        non_preferred: Set::empty(),
        description: "Uniform topology (no asymmetry detected). All CPUs equal."@,
        preferred_label: Seq::empty(),
        non_preferred_label: Seq::empty(),
    }
}

/// Where the last bracket that follows a blank opens: the place of the blank.
pub open spec fn last_bracket(label: Seq<char>) -> Option<int>
    decreases label.len(),
{
    if label.len() < 2 {
        None
    } else if label[label.len() - 2] == ' ' && label.last() == '(' {
        Some(label.len() - 2)
    } else {
        last_bracket(label.drop_last())
    }
}

/// A group of cores on a button. Where the label ends in a bracketed part, the CPUs
/// stand before that part; they stand in brackets behind any other label.
pub open spec fn button_text(label: Seq<char>, cpus: Set<u32>) -> Seq<char> {
    let list = cpulist(ascending(cpus));
    match last_bracket(label) {
        Some(i) if label.last() == ')' => label.take(i) + " "@ + list + " "@ + label.skip(i + 1),
        _ => label + " ("@ + list + ")"@,
    }
}

/// Finds where the last bracket that follows a blank opens.
fn find_last_bracket(label: &[char]) -> (r: Option<usize>)
    ensures
        match r {
            Some(i) => i + 2 <= label@.len() && last_bracket(label@) == Some(i as int),
            None => last_bracket(label@) is None,
        },
{
    let mut n: usize = label.len();
    assert(label@.take(n as int) =~= label@);
    while n >= 2
        invariant
            n <= label@.len(),
            last_bracket(label@) == last_bracket(label@.take(n as int)),
        decreases n,
    {
        let ghost head = label@.take(n as int);
        if label[n - 2] == ' ' && label[n - 1] == '(' {
            return Some(n - 2);
        }
        assert(head.drop_last() =~= label@.take(n - 1));
        n -= 1;
    }
    None
}

/// Writes a group of cores for a button.
fn button(label: &str, cpus: &IdSet) -> (r: String)
    ensures
        r@ == button_text(label@, cpus@),
        forall|head: Seq<char>, part: Seq<char>|
            bracketed(part) && label@ == #[trigger] (head + " "@ + part) ==> r@ == head + " "@
                + cpulist(ascending(cpus@)) + " "@ + part,
{
    proof {
        assert forall|head: Seq<char>, part: Seq<char>|
            bracketed(part) && label@ == #[trigger] (head + " "@ + part) implies button_text(
            label@,
            cpus@,
        ) == head + " "@ + cpulist(ascending(cpus@)) + " "@ + part by {
            law_cpus_stand_before_the_bracket(head, part, cpus@);
        }
    }
    let list = cpuset_to_cpulist(cpus);
    let cs = chars_of(label);
    let n: usize = cs.len();
    if n > 0 && cs[n - 1] == ')' {
        if let Some(i) = find_last_bracket(&cs) {
            let head = sub_chars(&cs, 0, i);
            let part = sub_chars(&cs, i + 1, n);
            assert(head@ =~= label@.take(i as int));
            assert(part@ =~= label@.skip(i + 1));
            let mut r = text_of(&head);
            r.append(" ");
            r.append(list.as_str());
            r.append(" ");
            r.append(text_of(&part).as_str());
            return r;
        }
    }
    let mut r = label.to_owned();
    r.append(" (");
    r.append(list.as_str());
    r.append(")");
    r
}

/// One pair of brackets with a text in it.
pub open spec fn bracketed(part: Seq<char>) -> bool {
    &&& part.len() >= 2
    &&& part[0] == '('
    &&& part.last() == ')'
    &&& forall|i: int| 1 <= i < part.len() ==> #[trigger] part[i] != '('
}

/// On a button the CPUs stand between the name of a group and the bracketed part
/// behind it, as in `P-cores 0-7 (5.5 GHz)`.
pub proof fn law_cpus_stand_before_the_bracket(head: Seq<char>, part: Seq<char>, cpus: Set<u32>)
    requires
        bracketed(part),
    ensures
        button_text(head + " "@ + part, cpus) == head + " "@ + cpulist(ascending(cpus)) + " "@
            + part,
{
    reveal_strlit(" ");
    let label = head + " "@ + part;
    lemma_last_bracket(head, part, part.len());
    assert(part.take(part.len() as int) =~= part);
    assert(label.take(head.len() as int) =~= head);
    assert(label.skip(head.len() as int + 1) =~= part);
}

/// No bracket opens inside of a bracketed part.
proof fn lemma_last_bracket(head: Seq<char>, part: Seq<char>, n: nat)
    requires
        bracketed(part),
        1 <= n <= part.len(),
    ensures
        last_bracket(head + " "@ + part.take(n as int)) == Some(head.len() as int),
    decreases n,
{
    reveal_strlit(" ");
    let s = head + " "@ + part.take(n as int);
    assert(s.len() == head.len() + 1 + n);
    if n > 1 {
        assert(s.last() == part[n - 1]);
        assert(s.drop_last() =~= head + " "@ + part.take(n - 1));
        lemma_last_bracket(head, part, (n - 1) as nat);
    }
}

impl CpuTopology {
    /// Equal cores.
    pub fn uniform(all_cpus: IdSet) -> (r: CpuTopology)
        ensures
            r@ == uniform_topology(all_cpus@),
    {
        let r = CpuTopology {
            kind: TopologyKind::Uniform,
            preferred: all_cpus,
            non_preferred: IdSet::new(),
            description: "Uniform topology (no asymmetry detected). All CPUs equal.".to_owned(),
            preferred_label: String::new(),
            non_preferred_label: String::new(),
        };
        r
    }

    /// Whether some cores are not to be preferred.
    pub fn has_asymmetry(&self) -> (r: bool)
        ensures
            r == (self@.non_preferred != Set::<u32>::empty()),
    {
        !self.non_preferred.is_empty()
    }

    /// The preferred cores on a button, such as `P-cores 0-7 (5.5 GHz)`.
    pub fn preferred_button_label(&self) -> (r: String)
        ensures
            r@ == button_text(self@.preferred_label, self@.preferred),
            forall|head: Seq<char>, part: Seq<char>|
                bracketed(part) && self@.preferred_label == #[trigger] (head + " "@ + part) ==> r@
                    == head + " "@ + cpulist(ascending(self@.preferred)) + " "@ + part,
    {
        button(self.preferred_label.as_str(), &self.preferred)
    }

    /// The other cores on a button, such as `E-cores 8-23 (4.9 GHz)`.
    pub fn non_preferred_button_label(&self) -> (r: String)
        ensures
            r@ == button_text(self@.non_preferred_label, self@.non_preferred),
            forall|head: Seq<char>, part: Seq<char>|
                bracketed(part) && self@.non_preferred_label == #[trigger] (head + " "@ + part) ==> r@
                    == head + " "@ + cpulist(ascending(self@.non_preferred)) + " "@ + part,
    {
        button(self.non_preferred_label.as_str(), &self.non_preferred)
    }

    /// How the cores differ, in words.
    pub fn kind_label(&self) -> (r: &'static str)
        ensures
            r@ == match self@.kind {
                TopologyKind::AmdX3D => "AMD X3D"@,
                TopologyKind::IntelHybrid => "Intel Hybrid"@,
                TopologyKind::Uniform => "Symmetric"@,
            },
    {
        match self.kind {
            TopologyKind::AmdX3D => "AMD X3D",
            TopologyKind::IntelHybrid => "Intel Hybrid",
            TopologyKind::Uniform => "Symmetric",
        }
    }

    /// The same topology.
    pub fn copy(&self) -> (r: CpuTopology)
        ensures
            r@ == self@,
    {
        CpuTopology {
            kind: self.kind,
            preferred: self.preferred.copy(),
            non_preferred: self.non_preferred.copy(),
            description: self.description.clone(),
            preferred_label: self.preferred_label.clone(),
            non_preferred_label: self.non_preferred_label.clone(),
        }
    }
}

// ── Readings ─────────────────────────────────────────────────────────────────

/// A level-3 cache size in KiB as the kernel writes it.
pub open spec fn l3_kib(text: Seq<char>) -> Option<u64> {
    let s = trim(text);
    if s.len() > 0 && s.last() == 'K' {
        number(s.drop_last())
    } else if s.len() > 0 && s.last() == 'M' {
        match number(s.drop_last()) {
            Some(n) => if n * 1024 <= u64::MAX {
                Some((n * 1024) as u64)
            } else {
                None
            },
            None => None,
        }
    } else {
        number(s)
    }
}

/// A number.
pub open spec fn number(s: Seq<char>) -> Option<u64> {
    match parse_nat(s, u64::MAX as nat) {
        Some(n) => Some(n as u64),
        None => None,
    }
}

/// Reads a level-3 cache size in KiB.
pub fn parse_l3_kib(text: &str) -> (r: Option<u64>)
    ensures
        r == l3_kib(text@),
{
    let cs = chars_of(text);
    let s = trimmed(&cs);
    let n: usize = s.len();
    if n > 0 && (s[n - 1] == 'K' || s[n - 1] == 'M') {
        let head = sub_chars(&s, 0, n - 1);
        assert(head@ =~= s@.drop_last());
        let value = read_u64(&head);
        if s[n - 1] == 'K' {
            value
        } else {
            match value {
                Some(mb) => if mb <= u64::MAX / 1024 {
                    Some(mb * 1024)
                } else {
                    None
                },
                None => None,
            }
        }
    } else {
        read_u64(&s)
    }
}

/// Reads a frequency in kHz.
pub fn parse_khz(text: &str) -> (r: Option<u64>)
    ensures
        r == number(trim(text@)),
{
    let cs = chars_of(text);
    let s = trimmed(&cs);
    read_u64(&s)
}

/// What is known of the processor. The maps hold what could be read.
pub struct Readings {
    pub present: IdSet,
    pub offline: IdSet,
    /// Level-3 cache in KiB.
    pub l3: IdMap<u64>,
    /// The kernel's list of performance cores.
    pub core_cpus: Option<IdSet>,
    /// The kernel's list of efficiency cores.
    pub atom_cpus: Option<IdSet>,
    /// Highest frequency in kHz.
    pub max_freq: IdMap<u64>,
}

/// `x` is the greatest value of the map.
pub open spec fn is_greatest(m: Map<u32, u64>, x: u64) -> bool {
    &&& exists|c: u32| #[trigger] m.contains_key(c) && m[c] == x
    &&& forall|c: u32| #[trigger] m.contains_key(c) ==> m[c] <= x
}

/// `x` is the least value of the map.
pub open spec fn is_least(m: Map<u32, u64>, x: u64) -> bool {
    &&& exists|c: u32| #[trigger] m.contains_key(c) && m[c] == x
    &&& forall|c: u32| #[trigger] m.contains_key(c) ==> x <= m[c]
}

/// The greatest value.
pub open spec fn greatest(m: Map<u32, u64>) -> u64 {
    choose|x: u64| is_greatest(m, x)
}

/// The least value.
pub open spec fn least(m: Map<u32, u64>) -> u64 {
    choose|x: u64| is_least(m, x)
}

/// The keys whose value lies between two bounds.
pub open spec fn keys_between(m: Map<u32, u64>, lo: int, hi: int) -> Set<u32> {
    Set::new(|c: u32| m.contains_key(c) && lo <= m[c] <= hi)
}

/// The least and the greatest value.
fn extremes(m: &IdMap<u64>) -> (r: Option<(u64, u64)>)
    ensures
        match r {
            Some((lo, hi)) => m@.dom() != Set::<u32>::empty() && is_least(m@, lo) && is_greatest(
                m@,
                hi,
            ) && lo == least(m@) && hi == greatest(m@) && lo <= hi,
            None => m@.dom() == Set::<u32>::empty(),
        },
{
    if m.is_empty() {
        return None;
    }
    let pairs = m.pairs();
    proof {
        if pairs@.len() == 0 {
            assert(crate::idmap::keys_of(pairs@).to_set() =~= Set::<u32>::empty());
        }
    }
    let mut lo: u64 = pairs[0].1;
    let mut hi: u64 = pairs[0].1;
    let mut i: usize = 1;
    let mut at_lo: Ghost<u32> = Ghost(pairs@[0].0);
    let mut at_hi: Ghost<u32> = Ghost(pairs@[0].0);
    while i < pairs.len()
        invariant
            1 <= i <= pairs.len(),
            forall|k: int|
                0 <= k < pairs@.len() ==> m@.contains_key((#[trigger] pairs@[k]).0)
                    && m@[pairs@[k].0] == pairs@[k].1,
            forall|k: int| 0 <= k < i ==> lo <= (#[trigger] pairs@[k]).1 <= hi,
            m@.contains_key(at_lo@) && m@[at_lo@] == lo,
            m@.contains_key(at_hi@) && m@[at_hi@] == hi,
        decreases pairs.len() - i,
    {
        let v: u64 = pairs[i].1;
        assert(m@.contains_key(pairs@[i as int].0));
        if v < lo {
            lo = v;
            proof {
                at_lo@ = pairs@[i as int].0;
            }
        }
        if v > hi {
            hi = v;
            proof {
                at_hi@ = pairs@[i as int].0;
            }
        }
        i += 1;
    }
    proof {
        let ks = crate::idmap::keys_of(pairs@);
        assert forall|c: u32| #[trigger] m@.contains_key(c) implies lo <= m@[c] <= hi by {
            assert(ks.contains(c));
            let k = choose|k: int| 0 <= k < ks.len() && ks[k] == c;
            assert(pairs@[k].0 == c);
        }
        assert(is_least(m@, lo));
        assert(is_greatest(m@, hi));
        let x = least(m@);
        assert(is_least(m@, x));
        let cx = choose|c: u32| #[trigger] m@.contains_key(c) && m@[c] == x;
        assert(lo <= x && x <= m@[at_lo@]);
        let y = greatest(m@);
        assert(is_greatest(m@, y));
        let cy = choose|c: u32| #[trigger] m@.contains_key(c) && m@[c] == y;
        assert(y <= hi && m@[at_hi@] <= y);
    }
    Some((lo, hi))
}

/// The keys whose value lies between two bounds.
fn select(m: &IdMap<u64>, lo: u64, hi: u64) -> (r: IdSet)
    ensures
        r@ == keys_between(m@, lo as int, hi as int),
{
    let pairs = m.pairs();
    let ghost ks = crate::idmap::keys_of(pairs@);
    let mut r = IdSet::new();
    let mut i: usize = 0;
    while i < pairs.len()
        invariant
            i <= pairs.len(),
            ks == crate::idmap::keys_of(pairs@),
            m@.dom() == ks.to_set(),
            forall|k: int|
                0 <= k < pairs@.len() ==> m@.contains_key((#[trigger] pairs@[k]).0)
                    && m@[pairs@[k].0] == pairs@[k].1,
            forall|c: u32| #[trigger]
                r@.contains(c) <==> ks.take(i as int).contains(c) && m@.contains_key(c) && lo
                    <= m@[c] <= hi,
        decreases pairs.len() - i,
    {
        let (c, v) = pairs[i];
        let ghost before = r@;
        if lo <= v && v <= hi {
            r.insert(c);
        }
        proof {
            let a = ks.take(i as int);
            let b = ks.take(i + 1);
            assert(pairs@[i as int].0 == c);
            assert forall|x: u32| #[trigger] r@.contains(x) <==> b.contains(x) && m@.contains_key(x)
                && lo <= m@[x] <= hi by {
                assert(b =~= a.push(c));
                assert(b[i as int] == c);
                if a.contains(x) {
                    let k = choose|k: int| 0 <= k < a.len() && a[k] == x;
                    assert(b[k] == x);
                }
                if b.contains(x) && x != c {
                    let k = choose|k: int| 0 <= k < b.len() && b[k] == x;
                    assert(a[k] == x);
                }
                assert(before.contains(x) <==> a.contains(x) && m@.contains_key(x) && lo <= m@[x]
                    <= hi);
            }
        }
        i += 1;
    }
    assert(ks.take(i as int) =~= ks);
    assert(r@ =~= keys_between(m@, lo as int, hi as int));
    r
}

// ── Unequal caches ───────────────────────────────────────────────────────────

/// A cache size on a label.
pub open spec fn vcache_label(kib: u64) -> Seq<char> {
    "V-Cache CCD ("@ + dec((kib / 1024) as nat) + " MB L3)"@
}

/// The topology that the level-3 caches give; none where they are equal. While all
/// readable caches are equal, offline CPUs count as the other group only where an
/// earlier detection saw unequal caches.
pub open spec fn x3d_topology(l3: Map<u32, u64>, offline: Set<u32>, seen_before: bool) -> Option<
    Topology,
> {
    if l3.dom() == Set::<u32>::empty() {
        None
    } else if least(l3) == greatest(l3) {
        let kib = greatest(l3);
        if offline != Set::<u32>::empty() && seen_before {
            Some(
                Topology {
                    kind: TopologyKind::AmdX3D,
                    preferred: l3.dom(),
                    non_preferred: offline,
                    description: "AMD X3D detected (other CCD currently parked). Preferred (V-Cache, "@
                        + dec((kib / 1024) as nat) + "MB L3): CPUs "@ + cpulist(
                        ascending(l3.dom()),
                    ) + ". Non-preferred (parked): CPUs "@ + cpulist(ascending(offline)) + "."@,
                    preferred_label: vcache_label(kib),
                    non_preferred_label: "Standard CCD (parked)"@,
                },
            )
        } else {
            None
        }
    } else {
        let (lo, hi) = (least(l3), greatest(l3));
        let p = keys_between(l3, hi as int, hi as int);
        let n = keys_between(l3, lo as int, lo as int);
        Some(
            Topology {
                kind: TopologyKind::AmdX3D,
                preferred: p,
                non_preferred: n,
                description: "AMD X3D detected. Preferred (V-Cache, "@ + dec((hi / 1024) as nat)
                    + "MB L3): CPUs "@ + cpulist(ascending(p)) + ". Non-preferred ("@ + dec(
                    (lo / 1024) as nat,
                ) + "MB L3): CPUs "@ + cpulist(ascending(n)) + "."@,
                preferred_label: vcache_label(hi),
                non_preferred_label: "Standard CCD ("@ + dec((lo / 1024) as nat) + " MB L3)"@,
            },
        )
    }
}

/// A cache size on a label.
fn vcache(kib: u64) -> (r: String)
    ensures
        r@ == vcache_label(kib),
{
    let mut r = "V-Cache CCD (".to_owned();
    push_dec(&mut r, kib / 1024);
    r.append(" MB L3)");
    r
}

/// Detects unequal level-3 caches.
pub fn detect_amd_x3d(l3: &IdMap<u64>, offline: &IdSet, seen_before: bool) -> (r: Option<
    CpuTopology,
>)
    ensures
        match r {
            Some(t) => x3d_topology(l3@, offline@, seen_before) == Some(t@),
            None => x3d_topology(l3@, offline@, seen_before) is None,
        },
{
    let (lo, hi) = match extremes(l3) {
        None => {
            return None;
        },
        Some(e) => e,
    };
    if lo == hi {
        if offline.is_empty() || !seen_before {
            return None;
        }
        let online = l3.keys();
        let mut d = "AMD X3D detected (other CCD currently parked). Preferred (V-Cache, ".to_owned();
        push_dec(&mut d, hi / 1024);
        d.append("MB L3): CPUs ");
        let a = cpuset_to_cpulist(&online);
        d.append(a.as_str());
        d.append(". Non-preferred (parked): CPUs ");
        let b = cpuset_to_cpulist(offline);
        d.append(b.as_str());
        d.append(".");
        return Some(
            CpuTopology {
                kind: TopologyKind::AmdX3D,
                preferred: online,
                non_preferred: offline.copy(),
                description: d,
                preferred_label: vcache(hi),
                non_preferred_label: "Standard CCD (parked)".to_owned(),
            },
        );
    }
    let p = select(l3, hi, hi);
    let n = select(l3, lo, lo);
    let mut d = "AMD X3D detected. Preferred (V-Cache, ".to_owned();
    push_dec(&mut d, hi / 1024);
    d.append("MB L3): CPUs ");
    let a = cpuset_to_cpulist(&p);
    d.append(a.as_str());
    d.append(". Non-preferred (");
    push_dec(&mut d, lo / 1024);
    d.append("MB L3): CPUs ");
    let b = cpuset_to_cpulist(&n);
    d.append(b.as_str());
    d.append(".");
    let mut label = "Standard CCD (".to_owned();
    push_dec(&mut label, lo / 1024);
    label.append(" MB L3)");
    Some(
        CpuTopology {
            kind: TopologyKind::AmdX3D,
            preferred: p,
            non_preferred: n,
            description: d,
            preferred_label: vcache(hi),
            non_preferred_label: label,
        },
    )
}

// ── Unequal cores ────────────────────────────────────────────────────────────

/// A frequency in GHz with one decimal place.
pub open spec fn ghz(khz: u64) -> Seq<char> {
    tenths(parts(double(khz as int, 1_000_000), 10))
}

/// Performance and efficiency cores.
pub open spec fn hybrid(p: Set<u32>, e: Set<u32>, p_khz: u64, e_khz: u64) -> Topology {
    Topology {
        kind: TopologyKind::IntelHybrid,
        preferred: p,
        non_preferred: e,
        description: "Intel Hybrid detected. P-cores ("@ + ghz(p_khz) + " GHz max): CPUs "@
            + cpulist(ascending(p)) + ". E-cores ("@ + ghz(e_khz) + " GHz max): CPUs "@ + cpulist(
            ascending(e),
        ) + "."@,
        preferred_label: "P-cores ("@ + ghz(p_khz) + " GHz)"@,
        non_preferred_label: "E-cores ("@ + ghz(e_khz) + " GHz)"@,
    }
}

/// The highest frequency that is known of some cores, 0 where none is.
pub open spec fn top_freq(freq: Map<u32, u64>, cpus: Set<u32>) -> u64 {
    if freq.restrict(cpus).dom() == Set::<u32>::empty() {
        0
    } else {
        greatest(freq.restrict(cpus))
    }
}

/// The topology that the kernel's lists of cores give, or else the frequencies:
/// cores from the middle between the lowest and the highest on are performance
/// cores.
pub open spec fn hybrid_topology(
    core_cpus: Option<Set<u32>>,
    atom_cpus: Option<Set<u32>>,
    freq: Map<u32, u64>,
    present: Set<u32>,
) -> Option<Topology> {
    if core_cpus is Some && atom_cpus is Some && core_cpus->0 != Set::<u32>::empty() && atom_cpus->0
        != Set::<u32>::empty() {
        let (p, e) = (core_cpus->0, atom_cpus->0);
        Some(hybrid(p, e, top_freq(freq, p), top_freq(freq, e)))
    } else {
        let known = freq.restrict(present);
        if known.dom() == Set::<u32>::empty() || least(known) == greatest(known) {
            None
        } else {
            let (lo, hi) = (least(known), greatest(known));
            let middle = (hi + lo) / 2;
            Some(
                hybrid(
                    keys_between(known, middle, u64::MAX as int),
                    keys_between(known, 0, middle - 1),
                    hi,
                    lo,
                ),
            )
        }
    }
}

/// The view of an optional set.
pub open spec fn opt_set(o: Option<IdSet>) -> Option<Set<u32>> {
    match o {
        Some(s) => Some(s@),
        None => None,
    }
}

/// Describes performance and efficiency cores.
fn make_hybrid(p: IdSet, e: IdSet, p_khz: u64, e_khz: u64) -> (r: CpuTopology)
    ensures
        r@ == hybrid(p@, e@, p_khz, e_khz),
{
    let p_tenths: u128 = Binary::double(p_khz, 1_000_000).parts(10);
    let e_tenths: u128 = Binary::double(e_khz, 1_000_000).parts(10);
    let mut d = "Intel Hybrid detected. P-cores (".to_owned();
    push_tenths(&mut d, p_tenths);
    d.append(" GHz max): CPUs ");
    let a = cpuset_to_cpulist(&p);
    d.append(a.as_str());
    d.append(". E-cores (");
    push_tenths(&mut d, e_tenths);
    d.append(" GHz max): CPUs ");
    let b = cpuset_to_cpulist(&e);
    d.append(b.as_str());
    d.append(".");
    let mut pl = "P-cores (".to_owned();
    push_tenths(&mut pl, p_tenths);
    pl.append(" GHz)");
    let mut el = "E-cores (".to_owned();
    push_tenths(&mut el, e_tenths);
    el.append(" GHz)");
    CpuTopology {
        kind: TopologyKind::IntelHybrid,
        preferred: p,
        non_preferred: e,
        description: d,
        preferred_label: pl,
        non_preferred_label: el,
    }
}

/// The readings of some cores only.
fn only(m: &IdMap<u64>, cpus: &IdSet) -> (r: IdMap<u64>)
    ensures
        r@ == m@.restrict(cpus@),
{
    let mut r = m.copy();
    r.retain_keys(cpus);
    r
}

/// The highest frequency that is known of some cores.
fn highest(freq: &IdMap<u64>, cpus: &IdSet) -> (r: u64)
    ensures
        r == top_freq(freq@, cpus@),
{
    let known = only(freq, cpus);
    match extremes(&known) {
        Some((_, hi)) => hi,
        None => 0,
    }
}

/// Detects performance and efficiency cores.
pub fn detect_intel_hybrid(
    core_cpus: &Option<IdSet>,
    atom_cpus: &Option<IdSet>,
    freq: &IdMap<u64>,
    present: &IdSet,
) -> (r: Option<CpuTopology>)
    ensures
        match r {
            Some(t) => hybrid_topology(opt_set(*core_cpus), opt_set(*atom_cpus), freq@, present@)
                == Some(t@),
            None => hybrid_topology(opt_set(*core_cpus), opt_set(*atom_cpus), freq@, present@)
                is None,
        },
{
    if let Some(p) = core_cpus {
        if let Some(e) = atom_cpus {
            if !p.is_empty() && !e.is_empty() {
                let p_khz: u64 = highest(freq, p);
                let e_khz: u64 = highest(freq, e);
                return Some(make_hybrid(p.copy(), e.copy(), p_khz, e_khz));
            }
        }
    }
    let known = only(freq, present);
    match extremes(&known) {
        None => None,
        Some((lo, hi)) => {
            if lo == hi {
                return None;
            }
            let middle: u64 = lo + (hi - lo) / 2;
            assert(middle as int == (hi + lo) / 2);
            let p = select(&known, middle, u64::MAX);
            let e = if middle == 0 {
                let s = IdSet::new();
                assert(s@ =~= keys_between(known@, 0, middle - 1));
                s
            } else {
                select(&known, 0, middle - 1)
            };
            Some(make_hybrid(p, e, hi, lo))
        },
    }
}

// ── Detection ────────────────────────────────────────────────────────────────

/// Some cores are not to be preferred.
pub open spec fn asymmetric(t: Option<Topology>) -> bool {
    t is Some && t->0.non_preferred != Set::<u32>::empty()
}

/// The view of an optional topology.
pub open spec fn opt_topology(o: Option<CpuTopology>) -> Option<Topology> {
    match o {
        Some(t) => Some(t@),
        None => None,
    }
}

/// What unequal caches the readings show, given what was remembered.
pub open spec fn x3d_found(r: Readings, cache: Option<Topology>) -> Option<Topology> {
    x3d_topology(r.l3@, r.offline@, cache is Some && cache->0.kind is AmdX3D)
}

/// What unequal cores the readings show.
pub open spec fn hybrid_found(r: Readings) -> Option<Topology> {
    hybrid_topology(opt_set(r.core_cpus), opt_set(r.atom_cpus), r.max_freq@, r.present@)
}

/// The topology, and what is remembered for the next detection. What is unequal is
/// remembered, because parked cores can no longer be read.
pub open spec fn detected(r: Readings, cache: Option<Topology>) -> (Topology, Option<Topology>) {
    let x3d = x3d_found(r, cache);
    let hyb = hybrid_found(r);
    if asymmetric(x3d) {
        (x3d->0, x3d)
    } else if asymmetric(hyb) {
        (hyb->0, hyb)
    } else if asymmetric(cache) {
        (cache->0, cache)
    } else {
        (uniform_topology(r.present@), cache)
    }
}

/// Detects the topology. An unequal one is remembered in `cache` and survives the
/// parking of its cores.
pub fn detect_topology(cache: &mut Option<CpuTopology>, r: &Readings) -> (t: CpuTopology)
    ensures
        (t@, opt_topology(*final(cache))) == detected(*r, opt_topology(*old(cache))),
{
    let seen_before = match &*cache {
        Some(c) => matches!(c.kind, TopologyKind::AmdX3D),
        None => false,
    };
    if let Some(t) = detect_amd_x3d(&r.l3, &r.offline, seen_before) {
        if t.has_asymmetry() {
            *cache = Some(t.copy());
            return t;
        }
    }
    if let Some(t) = detect_intel_hybrid(&r.core_cpus, &r.atom_cpus, &r.max_freq, &r.present) {
        if t.has_asymmetry() {
            *cache = Some(t.copy());
            return t;
        }
    }
    if let Some(c) = &*cache {
        if c.has_asymmetry() {
            return c.copy();
        }
    }
    CpuTopology::uniform(r.present.copy())
}

/// No core is both preferred and not, where the readings themselves tell the
/// groups apart.
pub proof fn law_groups_are_disjoint(freq: Map<u32, u64>, present: Set<u32>, c: u32)
    requires
        hybrid_topology(None, None, freq, present) is Some,
    ensures
        ({
            let t = hybrid_topology(None, None, freq, present)->0;
            !(t.preferred.contains(c) && t.non_preferred.contains(c))
        }),
{
}

/// Cores with unequal caches are never in both groups.
pub proof fn law_cache_groups_are_disjoint(l3: Map<u32, u64>, offline: Set<u32>, c: u32)
    requires
        x3d_topology(l3, offline, false) is Some,
    ensures
        ({
            let t = x3d_topology(l3, offline, false)->0;
            !(t.preferred.contains(c) && t.non_preferred.contains(c))
        }),
{
}

/// A remembered topology is still known once its slower cores are parked and the
/// readings show equal cores only.
pub proof fn law_topology_survives_parking(before: Readings, after: Readings, cache: Option<Topology>)
    requires
        asymmetric(Some(detected(before, cache).0)),
        !asymmetric(x3d_found(after, detected(before, cache).1)),
        !asymmetric(hybrid_found(after)),
    ensures
        detected(after, detected(before, cache).1).0 == detected(before, cache).0,
{
}

// ── Threads of one core ──────────────────────────────────────────────────────

/// Reads the number of a core.
pub fn parse_core_id(text: &str) -> (r: Option<u32>)
    ensures
        match r {
            Some(n) => parse_nat(trim(text@), u32::MAX as nat) == Some(n as nat),
            None => parse_nat(trim(text@), u32::MAX as nat) is None,
        },
{
    let cs = chars_of(text);
    let s = trimmed(&cs);
    read_u32(&s)
}

/// A CPU below `c` belongs to the same core.
pub open spec fn has_lower_twin(cores: Map<u32, u32>, c: u32) -> bool {
    exists|d: u32| d < c && #[trigger] cores.contains_key(d) && cores[d] == cores[c]
}

/// The CPUs that share a core with a lower-numbered one.
pub open spec fn siblings(cores: Map<u32, u32>) -> Set<u32> {
    Set::new(|c: u32| cores.contains_key(c) && has_lower_twin(cores, c))
}

/// The CPUs that share a core with a lower-numbered one; `cores` maps each CPU to
/// the number of its core, as far as it could be read.
pub fn get_smt_siblings_of(cores: &IdMap<u32>) -> (r: IdSet)
    ensures
        r@ == siblings(cores@),
{
    let pairs = cores.pairs();
    let ghost ks = keys_of(pairs@);
    let mut r = IdSet::new();
    let mut i: usize = 0;
    while i < pairs.len()
        invariant
            i <= pairs.len(),
            ks == keys_of(pairs@),
            increasing(ks),
            cores@.dom() == ks.to_set(),
            forall|k: int|
                0 <= k < pairs@.len() ==> cores@.contains_key((#[trigger] pairs@[k]).0)
                    && cores@[pairs@[k].0] == pairs@[k].1,
            forall|c: u32| #[trigger]
                r@.contains(c) <==> siblings(cores@).contains(c) && exists|k: int|
                    0 <= k < i && #[trigger] ks[k] == c,
        decreases pairs.len() - i,
    {
        let (cpu, core) = pairs[i];
        let mut twin = false;
        let mut j: usize = 0;
        while j < i
            invariant
                j <= i,
                i < pairs.len(),
                twin == exists|k: int| 0 <= k < j && (#[trigger] pairs@[k]).1 == core,
            decreases i - j,
        {
            if pairs[j].1 == core {
                twin = true;
            }
            j += 1;
        }
        let ghost before = r@;
        proof {
            assert(ks[i as int] == cpu);
            if twin {
                let k = choose|k: int| 0 <= k < i && (#[trigger] pairs@[k]).1 == core;
                assert(ks[k] == pairs@[k].0);
                assert(ks[k] < ks[i as int]);
                assert(cores@.contains_key(pairs@[k].0));
            }
            if has_lower_twin(cores@, cpu) {
                let d = choose|d: u32|
                    d < cpu && #[trigger] cores@.contains_key(d) && cores@[d] == cores@[cpu];
                assert(ks.to_set().contains(d));
                let k = choose|k: int| 0 <= k < ks.len() && ks[k] == d;
                if k > i {
                    assert(ks[i as int] < ks[k]);
                }
                assert(k < i);
                assert(pairs@[k].1 == core);
            }
            assert(twin == siblings(cores@).contains(cpu));
        }
        if twin {
            r.insert(cpu);
        }
        assert forall|c: u32| #[trigger] r@.contains(c) <==> siblings(cores@).contains(c)
            && exists|k: int| 0 <= k < i + 1 && #[trigger] ks[k] == c by {
            assert(before.contains(c) <==> siblings(cores@).contains(c) && exists|k: int|
                0 <= k < i && #[trigger] ks[k] == c);
            if c == cpu {
                assert(ks[i as int] == c);
            }
        }
        i += 1;
    }
    assert forall|c: u32| r@.contains(c) <==> siblings(cores@).contains(c) by {
        if siblings(cores@).contains(c) {
            assert(ks.to_set().contains(c));
            let k = choose|k: int| 0 <= k < ks.len() && ks[k] == c;
            assert(0 <= k < i && ks[k] == c);
        }
    }
    assert(r@ =~= siblings(cores@));
    r
}

/// The CPUs of a core other than `first`, in the order of the list.
pub open spec fn threads_of(pairs: Seq<(u32, u32)>, first: u32, core: u32) -> Seq<u32>
    decreases pairs.len(),
{
    if pairs.len() == 0 {
        Seq::empty()
    } else {
        let r = threads_of(pairs.drop_last(), first, core);
        let (cpu, c) = pairs.last();
        if c == core && cpu != first {
            r.push(cpu)
        } else {
            r
        }
    }
}

/// Lists the CPUs of a core other than `first`.
fn list_threads(pairs: &Vec<(u32, u32)>, first: u32, core: u32) -> (r: Vec<u32>)
    ensures
        r@ == threads_of(pairs@, first, core),
{
    let mut r: Vec<u32> = Vec::new();
    let mut i: usize = 0;
    assert(pairs@.take(0) =~= Seq::<(u32, u32)>::empty());
    while i < pairs.len()
        invariant
            i <= pairs.len(),
            r@ == threads_of(pairs@.take(i as int), first, core),
        decreases pairs.len() - i,
    {
        assert(pairs@.take(i + 1).drop_last() =~= pairs@.take(i as int));
        let (cpu, c) = pairs[i];
        if c == core && cpu != first {
            r.push(cpu);
        }
        i += 1;
    }
    assert(pairs@.take(i as int) =~= pairs@);
    r
}

/// The first CPU of each core with the other CPUs of the core, in ascending order.
pub fn core_pairs(cores: &IdMap<u32>) -> (r: IdMap<Vec<u32>>)
    ensures
        r@.dom() == cores@.dom().difference(siblings(cores@)),
        forall|c: u32| #[trigger]
            r@.contains_key(c) ==> r@[c]@ == threads_of(cores.order(), c, cores@[c]),
{
    let sib = get_smt_siblings_of(cores);
    let keys = cores.keys();
    let firsts = keys.difference(&sib);
    let pairs = cores.pairs();
    let list = firsts.items();
    let mut r: IdMap<Vec<u32>> = IdMap::new();
    let mut i: usize = 0;
    assert(r@.dom() =~= list@.take(0).to_set());
    while i < list.len()
        invariant
            i <= list.len(),
            pairs@ == cores.order(),
            r@.dom() == list@.take(i as int).to_set(),
            list@.to_set() == firsts@,
            firsts@ == cores@.dom().difference(siblings(cores@)),
            forall|c: u32| #[trigger]
                r@.contains_key(c) ==> r@[c]@ == threads_of(cores.order(), c, cores@[c]),
        decreases list.len() - i,
    {
        let c: u32 = list[i];
        proof {
            assert(list@.to_set().contains(c));
            assert(cores@.dom().contains(c));
        }
        if let Some(core) = cores.get(c) {
            let v = list_threads(pairs, c, *core);
            r.insert(c, v);
        }
        proof {
            let a = list@.take(i as int);
            let b = list@.take(i + 1);
            assert(b =~= a.push(c));
            assert forall|x: u32| b.to_set().contains(x) <==> a.to_set().contains(x) || x == c by {
                if a.contains(x) {
                    let k = choose|k: int| 0 <= k < a.len() && a[k] == x;
                    assert(b[k] == x);
                }
                assert(b[i as int] == c);
            }
            assert(r@.dom() =~= b.to_set());
        }
        i += 1;
    }
    assert(list@.take(i as int) =~= list@);
    r
}

/// Each core keeps exactly one CPU that is no sibling: its lowest.
pub proof fn law_every_core_has_one_first_cpu(cores: Map<u32, u32>, c: u32, d: u32)
    requires
        cores.contains_key(c),
        cores.contains_key(d),
        cores[c] == cores[d],
        !siblings(cores).contains(c),
    ensures
        c <= d,
        !siblings(cores).contains(d) ==> c == d,
{
    if d < c {
        assert(has_lower_twin(cores, c));
    }
    if c < d {
        assert(has_lower_twin(cores, d));
    }
}

// ── What detection finds ─────────────────────────────────────────────────────

/// Where the kernel lists performance cores and efficiency cores, those lists are the
/// two groups: the performance cores are preferred and the efficiency cores are not.
pub proof fn law_kernel_lists_are_the_groups(
    core_cpus: &Option<IdSet>,
    atom_cpus: &Option<IdSet>,
    freq: &IdMap<u64>,
    present: &IdSet,
    r: Option<CpuTopology>,
    c: u32,
    e: u32,
)
    requires
        call_ensures(detect_intel_hybrid, (core_cpus, atom_cpus, freq, present), r),
        core_cpus is Some,
        atom_cpus is Some,
        core_cpus->0@.contains(c),
        atom_cpus->0@.contains(e),
    ensures
        r is Some,
        r->0.kind == TopologyKind::IntelHybrid,
        r->0.preferred@ == core_cpus->0@,
        r->0.non_preferred@ == atom_cpus->0@,
        has_prefix(r->0.preferred_label@, "P-cores ("@),
        has_prefix(r->0.non_preferred_label@, "E-cores ("@),
{
    let t = r->0@;
    assert(t.preferred_label.take("P-cores ("@.len() as int) =~= "P-cores ("@);
    assert(t.non_preferred_label.take("E-cores ("@.len() as int) =~= "E-cores ("@);
}

/// Without the kernel's lists the highest frequencies tell the groups apart. Where all
/// are equal there are no groups. Otherwise a CPU belongs to the preferred group just
/// where its frequency is at least the middle between the slowest and the fastest, and
/// every other CPU of known frequency belongs to the other group.
pub proof fn law_faster_cores_are_preferred(
    core_cpus: &Option<IdSet>,
    atom_cpus: &Option<IdSet>,
    freq: &IdMap<u64>,
    present: &IdSet,
    r: Option<CpuTopology>,
    slow: u32,
    fast: u32,
)
    requires
        call_ensures(detect_intel_hybrid, (core_cpus, atom_cpus, freq, present), r),
        core_cpus is None || atom_cpus is None || core_cpus->0@ == Set::<u32>::empty()
            || atom_cpus->0@ == Set::<u32>::empty(),
        freq@.contains_key(slow) && present@.contains(slow),
        freq@.contains_key(fast) && present@.contains(fast),
        forall|c: u32| #[trigger]
            freq@.contains_key(c) && present@.contains(c) ==> freq@[slow] <= freq@[c]
                <= freq@[fast],
    ensures
        r is Some <==> freq@[slow] < freq@[fast],
        r is Some ==> {
            &&& r->0.kind == TopologyKind::IntelHybrid
            &&& r->0.preferred@.contains(fast)
            &&& forall|c: u32| #[trigger]
                r->0.preferred@.contains(c) <==> freq@.contains_key(c) && present@.contains(c)
                    && 2 * freq@[c] + 1 >= freq@[slow] + freq@[fast]
            &&& forall|c: u32| #[trigger]
                r->0.non_preferred@.contains(c) <==> freq@.contains_key(c) && present@.contains(c)
                    && !r->0.preferred@.contains(c)
        },
{
    let known = freq@.restrict(present@);
    assert(known.contains_key(slow) && known.contains_key(fast));
    lemma_extremes(known, slow, fast);
    if r is Some {
        let t = r->0@;
        assert(t == hybrid_topology(opt_set(*core_cpus), opt_set(*atom_cpus), freq@, present@)->0);
        assert(r->0.preferred@ == t.preferred && r->0.non_preferred@ == t.non_preferred);
    }
}

/// The values of two keys between which all values lie are the extremes.
proof fn lemma_extremes(m: Map<u32, u64>, slow: u32, fast: u32)
    requires
        m.contains_key(slow),
        m.contains_key(fast),
        forall|c: u32| #[trigger] m.contains_key(c) ==> m[slow] <= m[c] <= m[fast],
    ensures
        least(m) == m[slow],
        greatest(m) == m[fast],
        m.dom() != Set::<u32>::empty(),
{
    assert(is_least(m, m[slow]));
    assert(is_greatest(m, m[fast]));
    let (x, y) = (least(m), greatest(m));
    assert(is_least(m, x) && is_greatest(m, y));
    assert(m.dom().contains(slow));
}

/// Unequal level-3 caches: the CPUs with the largest are preferred, those with the
/// smallest are not, and nothing else is in either group. Equal caches give no groups,
/// unless unequal ones were seen before and CPUs are offline: then the CPUs that can be
/// read are preferred and the offline ones are not.
pub proof fn law_largest_cache_is_preferred(
    l3: &IdMap<u64>,
    offline: &IdSet,
    seen_before: bool,
    r: Option<CpuTopology>,
    small: u32,
    large: u32,
)
    requires
        call_ensures(detect_amd_x3d, (l3, offline, seen_before), r),
        l3@.contains_key(small),
        l3@.contains_key(large),
        forall|c: u32| #[trigger] l3@.contains_key(c) ==> l3@[small] <= l3@[c] <= l3@[large],
    ensures
        l3@[small] < l3@[large] ==> {
            &&& r is Some
            &&& r->0.kind == TopologyKind::AmdX3D
            &&& forall|c: u32| #[trigger]
                r->0.preferred@.contains(c) <==> l3@.contains_key(c) && l3@[c] == l3@[large]
            &&& forall|c: u32| #[trigger]
                r->0.non_preferred@.contains(c) <==> l3@.contains_key(c) && l3@[c] == l3@[small]
        },
        l3@[small] == l3@[large] && seen_before && offline@ != Set::<u32>::empty() ==> {
            &&& r is Some
            &&& r->0.kind == TopologyKind::AmdX3D
            &&& forall|c: u32| #[trigger] r->0.preferred@.contains(c) <==> l3@.contains_key(c)
            &&& forall|c: u32| #[trigger] r->0.non_preferred@.contains(c) <==> offline@.contains(c)
        },
        l3@[small] == l3@[large] && (!seen_before || offline@ == Set::<u32>::empty()) ==> r is None,
{
    lemma_extremes(l3@, small, large);
    if r is Some {
        let t = r->0@;
        assert(t == x3d_topology(l3@, offline@, seen_before)->0);
        assert(r->0.preferred@ == t.preferred && r->0.non_preferred@ == t.non_preferred);
    }
}

/// Detection goes by the caches first, by the kinds of cores second, and by what is
/// remembered third. Where none of them shows two groups, every CPU that is present is
/// preferred. What shows two groups is remembered.
pub proof fn law_detection_takes_the_first_that_tells(
    cache: &mut Option<CpuTopology>,
    r: &Readings,
    t: CpuTopology,
    x3d: Option<CpuTopology>,
    hybrid: Option<CpuTopology>,
)
    requires
        call_ensures(detect_topology, (cache, r), t),
        call_ensures(
            detect_amd_x3d,
            (&r.l3, &r.offline, *old(cache) is Some && old(cache)->0.kind == TopologyKind::AmdX3D),
            x3d,
        ),
        call_ensures(
            detect_intel_hybrid,
            (&r.core_cpus, &r.atom_cpus, &r.max_freq, &r.present),
            hybrid,
        ),
    ensures
        ({
            let empty = Set::<u32>::empty();
            let by_cache = x3d is Some && x3d->0.non_preferred@ != empty;
            let by_kind = hybrid is Some && hybrid->0.non_preferred@ != empty;
            let known = *old(cache) is Some && old(cache)->0.non_preferred@ != empty;
            &&& by_cache ==> t@ == x3d->0@
            &&& !by_cache && by_kind ==> t@ == hybrid->0@
            &&& !by_cache && !by_kind && known ==> t@ == old(cache)->0@
            &&& !by_cache && !by_kind && !known ==> t.preferred@ == r.present@
                && t.non_preferred@ == empty && t.kind == TopologyKind::Uniform
            &&& t.non_preferred@ != empty ==> *final(cache) is Some && final(cache)->0@ == t@
        }),
{
    assert(opt_topology(*old(cache)) is Some ==> old(cache)->0@.kind == old(cache)->0.kind);
}

/// A CPU is a sibling just where a CPU with a lower number belongs to the same core.
pub proof fn law_siblings_have_a_lower_twin(cores: &IdMap<u32>, r: IdSet, c: u32)
    requires
        call_ensures(get_smt_siblings_of, (cores,), r),
    ensures
        r@.contains(c) <==> cores@.contains_key(c) && exists|d: u32|
            d < c && #[trigger] cores@.contains_key(d) && cores@[d] == cores@[c],
{
    assert(r@.contains(c) <==> siblings(cores@).contains(c));
}

/// A size in KiB that the kernel writes with a `K` is that number, one with an `M` is
/// 1024 times the number.
pub proof fn law_cache_sizes_are_in_kib(k: &str, m: &str, n: u64, rk: Option<u64>, rm: Option<u64>)
    requires
        call_ensures(parse_l3_kib, (k,), rk),
        call_ensures(parse_l3_kib, (m,), rm),
        k@ == dec(n as nat).push('K').push('\n'),
        m@ == dec(n as nat).push('M').push('\n'),
        n * 1024 <= u64::MAX,
    ensures
        rk == Some(n),
        rm == Some((n * 1024) as u64),
{
    crate::number::lemma_dec_digits(n as nat);
    crate::number::law_decimal_round_trip(n as nat, u64::MAX as nat);
    let d = dec(n as nat);
    crate::text::law_trim_drops_blanks(Seq::empty(), d.push('K'), seq!['\n']);
    crate::text::law_trim_drops_blanks(Seq::empty(), d.push('M'), seq!['\n']);
    assert(Seq::<char>::empty() + d.push('K') + seq!['\n'] =~= k@);
    assert(Seq::<char>::empty() + d.push('M') + seq!['\n'] =~= m@);
    assert(d.push('K').drop_last() =~= d);
    assert(d.push('M').drop_last() =~= d);
}

/// The first CPU of each core is paired with the others of that core, and with no other.
pub proof fn law_pairs_are_the_cpus_of_one_core(cores: &IdMap<u32>, r: IdMap<Vec<u32>>, c: u32, d: u32)
    requires
        call_ensures(core_pairs, (cores,), r),
    ensures
        r@.contains_key(c) <==> cores@.contains_key(c) && forall|e: u32|
            e < c && #[trigger] cores@.contains_key(e) ==> cores@[e] != cores@[c],
        r@.contains_key(c) ==> (r@[c]@.contains(d) <==> cores@.contains_key(d) && cores@[d]
            == cores@[c] && d != c),
{
    assert(r@.contains_key(c) == r@.dom().contains(c));
    if r@.contains_key(c) {
        let o = crate::idmap::ordered_pairs(cores@);
        crate::idmap::law_order_holds_the_pairs(cores@);
        lemma_threads_of(o, c, cores@[c], d);
        assert(cores@.contains_key(d) ==> o.contains((d, cores@[d])));
        assert(o.contains((d, cores@[c])) <==> cores@.contains_key(d) && cores@[d] == cores@[c]);
    }
}

/// What the other CPUs of a core are.
proof fn lemma_threads_of(p: Seq<(u32, u32)>, first: u32, core: u32, d: u32)
    ensures
        threads_of(p, first, core).contains(d) <==> p.contains((d, core)) && d != first,
    decreases p.len(),
{
    if p.len() > 0 {
        let q = p.drop_last();
        lemma_threads_of(q, first, core, d);
        let (a, b) = (threads_of(q, first, core), threads_of(p, first, core));
        let x = (d, core);
        if q.contains(x) {
            let i = choose|i: int| 0 <= i < q.len() && q[i] == x;
            assert(p[i] == x);
        }
        if p.contains(x) && p.last() != x {
            let i = choose|i: int| 0 <= i < p.len() && p[i] == x;
            assert(q[i] == x);
        }
        assert(p[p.len() - 1] == p.last());
        if p.last().1 == core && p.last().0 != first {
            assert(b[a.len() as int] == p.last().0);
            if a.contains(d) {
                let i = choose|i: int| 0 <= i < a.len() && a[i] == d;
                assert(b[i] == d);
            }
            if b.contains(d) && d != p.last().0 {
                let i = choose|i: int| 0 <= i < b.len() && b[i] == d;
                assert(a[i] == d);
            }
        }
    }
}

/// A machine without two kinds of CPUs has one group with all of them.
pub proof fn law_uniform_machine_prefers_all(all: IdSet, r: CpuTopology, a: bool)
    requires
        call_ensures(CpuTopology::uniform, (all,), r),
        call_ensures(CpuTopology::has_asymmetry, (&r,), a),
    ensures
        r@.preferred == all@,
        forall|c: u32| !(#[trigger] r@.non_preferred.contains(c)),
        r@.kind is Uniform,
        !a,
{
}

/// The label on a button names the CPUs, as a list that can be read back.
pub proof fn law_button_names_its_cpus(
    t: &CpuTopology,
    r: String,
    s: String,
    head: Seq<char>,
    part: Seq<char>,
)
    requires
        call_ensures(CpuTopology::preferred_button_label, (t,), r),
        call_ensures(CpuTopology::non_preferred_button_label, (t,), s),
        part.len() >= 2 && part[0] == '(' && part.last() == ')',
        forall|i: int| 1 <= i < part.len() ==> #[trigger] part[i] != '(',
    ensures
        t@.preferred_label == head + " "@ + part ==> r@ == head + " "@ + cpulist(
            ascending(t@.preferred),
        ) + " "@ + part,
        t@.non_preferred_label == head + " "@ + part ==> s@ == head + " "@ + cpulist(
            ascending(t@.non_preferred),
        ) + " "@ + part,
{
    assert(bracketed(part));
}

} // verus!
