//! The overview: the main figures, the rates, the busiest processes.

use vstd::prelude::*;
use vstd::string::*;

use crate::binary::{
    lemma_order, less, parts, product, quotient, single, within, Binary, Number, Single, SINGLE,
};
use crate::monitor::ProcInfo;
use crate::number::{
    dec, hundredths, parse_nat, push_hundredths, push_tenths, push_wide, read_u64, tenths,
};
use crate::sort::{sorted_places, sorts_before, Ranked};
use crate::text::{
    begins_with, chars_of, has_prefix, lines, sub_chars, text_lines, text_of, views, words,
    words_of,
};

verus! {

/// The tab, which keeps nothing of its own.
#[derive(Debug, Clone, Copy)]
pub struct OverviewTab;

impl OverviewTab {
    /// The tab.
    pub fn new() -> (r: OverviewTab)
        ensures
            r == OverviewTab,
    {
        OverviewTab
    }
}

// ── Memory ───────────────────────────────────────────────────────────────────

/// The number behind a key at the start of a line: its first word.
pub open spec fn keyed(line: Seq<char>, key: Seq<char>) -> Option<nat> {
    let w = words(line.skip(key.len() as int));
    if w.len() > 0 {
        parse_nat(w[0], u64::MAX as nat)
    } else {
        None
    }
}

/// The total and the available memory in KiB, as far as the lines tell; nothing
/// where a line of either cannot be read.
pub open spec fn mem_scan(ls: Seq<Seq<char>>) -> Option<(nat, nat)>
    decreases ls.len(),
{
    if ls.len() == 0 {
        Some((0nat, 0nat))
    } else {
        match mem_scan(ls.drop_last()) {
            None => None,
            Some((total, available)) => if has_prefix(ls.last(), "MemTotal:"@) {
                match keyed(ls.last(), "MemTotal:"@) {
                    Some(n) => Some((n, available)),
                    None => None,
                }
            } else if has_prefix(ls.last(), "MemAvailable:"@) {
                match keyed(ls.last(), "MemAvailable:"@) {
                    Some(n) => Some((total, n)),
                    None => None,
                }
            } else {
                Some((total, available))
            },
        }
    }
}

/// A scan that failed stays failed.
proof fn lemma_failed_scan(ls: Seq<Seq<char>>, n: int)
    requires
        0 <= n <= ls.len(),
        mem_scan(ls.take(n)) is None,
    ensures
        mem_scan(ls) is None,
    decreases ls.len() - n,
{
    if n < ls.len() {
        assert(ls.take(n + 1).drop_last() =~= ls.take(n));
        lemma_failed_scan(ls, n + 1);
    } else {
        assert(ls.take(n) =~= ls);
    }
}

/// Reads the number behind a key at the start of a line.
fn read_keyed(line: &Vec<char>, key: &str) -> (r: Option<u64>)
    requires
        has_prefix(line@, key@),
    ensures
        match r {
            Some(n) => keyed(line@, key@) == Some(n as nat),
            None => keyed(line@, key@) is None,
        },
{
    let k: usize = key.unicode_len();
    let n: usize = line.len();
    let rest = sub_chars(line, k, n);
    assert(rest@ =~= line@.skip(key@.len() as int));
    let w = words_of(&rest);
    assert(views(w@).len() == w.len());
    if w.len() == 0 {
        return None;
    }
    read_u64(&w[0])
}

/// The total and the available memory in KiB, out of the text of `meminfo`.
pub fn scan_meminfo(text: &str) -> (r: Option<(u64, u64)>)
    ensures
        match r {
            Some((t, a)) => mem_scan(lines(text@)) == Some((t as nat, a as nat)),
            None => mem_scan(lines(text@)) is None,
        },
{
    let ls = text_lines(text);
    let ghost all = lines(text@);
    let mut total: u64 = 0;
    let mut available: u64 = 0;
    let mut i: usize = 0;
    while i < ls.len()
        invariant
            i <= ls.len(),
            all == views(ls@),
            all == lines(text@),
            mem_scan(all.take(i as int)) == Some((total as nat, available as nat)),
        decreases ls.len() - i,
    {
        assert(all.take(i + 1).drop_last() =~= all.take(i as int));
        assert(all.take(i + 1).last() == ls@[i as int]@);
        if begins_with(&ls[i], "MemTotal:") {
            match read_keyed(&ls[i], "MemTotal:") {
                Some(n) => {
                    total = n;
                },
                None => {
                    proof {
                        lemma_failed_scan(all, i + 1);
                    }
                    return None;
                },
            }
        } else if begins_with(&ls[i], "MemAvailable:") {
            match read_keyed(&ls[i], "MemAvailable:") {
                Some(n) => {
                    available = n;
                },
                None => {
                    proof {
                        lemma_failed_scan(all, i + 1);
                    }
                    return None;
                },
            }
        }
        i += 1;
    }
    assert(all.take(i as int) =~= all);
    Some((total, available))
}

/// The used and the total memory in MiB; nothing where the total is not known.
pub open spec fn ram_mb(scan: Option<(nat, nat)>) -> Option<(nat, nat)> {
    match scan {
        Some((total, available)) => if total == 0 {
            None
        } else {
            Some(((total - available) as nat / 1024, total / 1024))
        },
        None => None,
    }
}

/// Reads the used and the total memory in MiB. More cannot be available than there
/// is in all.
pub fn read_ram_mb(text: &str) -> (r: Option<(u64, u64)>)
    requires
        match mem_scan(lines(text@)) {
            Some((total, available)) => total > 0 ==> available <= total,
            None => true,
        },
    ensures
        match r {
            Some((u, t)) => ram_mb(mem_scan(lines(text@))) == Some((u as nat, t as nat)),
            None => ram_mb(mem_scan(lines(text@))) is None,
        },
{
    match scan_meminfo(text) {
        None => None,
        Some((total, available)) => if total == 0 {
            None
        } else {
            Some(((total - available) / 1024, total / 1024))
        },
    }
}

/// Never more memory is used than there is.
pub proof fn law_used_memory_is_bounded(total: nat, available: nat)
    requires
        available <= total,
    ensures
        match ram_mb(Some((total, available))) {
            Some((used, all)) => used <= all,
            None => total == 0,
        },
{
}

/// The share of the memory that is used, in percent.
pub open spec fn used_percent(used_mb: u64, total_mb: u64) -> Number {
    let one = SINGLE as nat;
    product(
        quotient(single(used_mb as int, 1), single(total_mb as int, 1), one),
        single(100, 1),
        one,
    )
}

/// The memory figure: a percentage and a detail. The percentage of nothing is no
/// number, or has no end.
pub fn memory_figure(used_mb: u64, total_mb: u64) -> (r: (String, String))
    ensures
        r.0@ == if total_mb == 0 && used_mb == 0 {
            "NaN%"@
        } else if total_mb == 0 {
            "inf%"@
        } else {
            dec(parts(used_percent(used_mb, total_mb), 1)) + "%"@
        },
        r.1@ == tenths(parts(single(used_mb as int, 1024), 10)) + " of "@ + tenths(
            parts(single(total_mb as int, 1024), 10),
        ) + " GB"@,
{
    let value = if total_mb == 0 && used_mb == 0 {
        "NaN%".to_owned()
    } else if total_mb == 0 {
        "inf%".to_owned()
    } else {
        let (used, total) = (Binary::single(used_mb, 1), Binary::single(total_mb, 1));
        let share = used.over(total, SINGLE);
        let hundred = Binary::single(100, 1);
        assert(within(used@, 200) && within(total@, 200));
        assert(within(share@, 600) && within(hundred@, 600));
        let mut s = String::new();
        push_wide(&mut s, share.times(hundred, SINGLE).parts(1));
        s.append("%");
        assert(s@ =~= dec(parts(used_percent(used_mb, total_mb), 1)) + "%"@);
        s
    };
    let mut detail = String::new();
    push_tenths(&mut detail, Binary::single(used_mb, 1024).parts(10));
    detail.append(" of ");
    push_tenths(&mut detail, Binary::single(total_mb, 1024).parts(10));
    detail.append(" GB");
    assert(detail@ =~= tenths(parts(single(used_mb as int, 1024), 10)) + " of "@ + tenths(
        parts(single(total_mb as int, 1024), 10),
    ) + " GB"@);
    (value, detail)
}

// ── Load ─────────────────────────────────────────────────────────────────────

/// A load as a share of the cores in thousandths of a percent, at most all of them.
pub open spec fn load_share(load_micro: nat, cores: nat) -> nat {
    let c = if cores == 0 {
        1
    } else {
        cores
    };
    let share = load_micro / (10 * c);
    if share > 100_000 {
        100_000
    } else {
        share
    }
}

/// The load figure: the value, the detail, and the share of the cores. Loads are in
/// millionths.
pub fn load_figure(l1: u64, l5: u64, l15: u64, cores: u32) -> (r: (String, String, u32))
    ensures
        r.0@ == hundredths(parts(single(l1 as int, 1_000_000), 100)),
        r.1@ == hundredths(parts(single(l5 as int, 1_000_000), 100)) + " / "@ + hundredths(parts(single(l15 as int, 1_000_000), 100))
            + " (5 / 15 min)"@,
        r.2 == load_share(l1 as nat, cores as nat),
{
    let mut value = String::new();
    push_hundredths(&mut value, Binary::single(l1, 1_000_000).parts(100));
    assert(value@ =~= hundredths(parts(single(l1 as int, 1_000_000), 100)));
    let mut detail = String::new();
    push_hundredths(&mut detail, Binary::single(l5, 1_000_000).parts(100));
    detail.append(" / ");
    push_hundredths(&mut detail, Binary::single(l15, 1_000_000).parts(100));
    detail.append(" (5 / 15 min)");
    assert(detail@ =~= hundredths(parts(single(l5 as int, 1_000_000), 100)) + " / "@ + hundredths(
        parts(single(l15 as int, 1_000_000), 100),
    ) + " (5 / 15 min)"@);
    let c: u64 = if cores == 0 {
        1
    } else {
        cores as u64
    };
    let share: u64 = l1 / (10 * c);
    let capped: u32 = if share > 100_000 {
        100_000
    } else {
        share as u32
    };
    (value, detail, capped)
}

// ── CPU ──────────────────────────────────────────────────────────────────────

/// A load in whole percent.
pub fn percent_text(pct: Single) -> (r: String)
    ensures
        r@ == dec(parts(pct@, 1)) + "%"@,
{
    let mut s = String::new();
    push_wide(&mut s, pct.get().parts(1));
    s.append("%");
    assert(s@ =~= dec(parts(pct@, 1)) + "%"@);
    s
}

/// A temperature in whole degrees, given in thousandths; empty where it is unknown.
pub fn temp_text(temp_milli: Option<i64>) -> (r: String)
    ensures
        r@ == match temp_milli {
            Some(t) => if t < 0 {
                "-"@ + dec(parts(single(t as int, 1000), 1)) + " °C"@
            } else {
                dec(parts(single(t as int, 1000), 1)) + " °C"@
            },
            None => Seq::empty(),
        },
{
    match temp_milli {
        None => {
            let s = String::new();
            assert(s@ =~= Seq::empty());
            s
        },
        Some(t) => {
            if t < 0 {
                let n: u64 = (-(t + 1)) as u64 + 1;
                let mut s = "-".to_owned();
                push_wide(&mut s, Binary::single(n, 1000).parts(1));
                s.append(" °C");
                s
            } else {
                let mut s = String::new();
                push_wide(&mut s, Binary::single(t as u64, 1000).parts(1));
                s.append(" °C");
                assert(s@ =~= dec(parts(single(t as int, 1000), 1)) + " °C"@);
                s
            }
        },
    }
}

// ── Rates ────────────────────────────────────────────────────────────────────

/// A rate in MB/s, which is not below zero, behind what it is a rate of.
pub fn rate_text(label: &str, rate: Single) -> (r: String)
    ensures
        r@ == label@ + " "@ + tenths(parts(rate@, 10)),
{
    let mut r = label.to_owned();
    r.append(" ");
    push_tenths(&mut r, rate.get().parts(10));
    r
}

/// The greater of two numbers.
pub open spec fn greater(a: Number, b: Number) -> Number {
    if less(a, b) {
        b
    } else {
        a
    }
}

/// The greatest of all rates of two series, and at least a tenth.
pub open spec fn peak_rate(h: Seq<(Single, Single)>) -> Number
    decreases h.len(),
{
    if h.len() == 0 {
        single(1, 10)
    } else {
        let (a, b) = h.last();
        greater(peak_rate(h.drop_last()), greater(a@, b@))
    }
}

/// The greatest of all rates of two series, and at least a tenth.
pub fn peak_of(h: &[(Single, Single)]) -> (r: Single)
    ensures
        r@ == peak_rate(h@),
{
    let mut p = Single::of(1, 10);
    let mut i: usize = 0;
    assert(h@.take(0) =~= Seq::<(Single, Single)>::empty());
    while i < h.len()
        invariant
            i <= h.len(),
            p@ == peak_rate(h@.take(i as int)),
        decreases h.len() - i,
    {
        assert(h@.take(i + 1).drop_last() =~= h@.take(i as int));
        let (a, b) = h[i];
        let m = if a.is_less(b) {
            b
        } else {
            a
        };
        if p.is_less(m) {
            p = m;
        }
        i += 1;
    }
    assert(h@.take(i as int) =~= h@);
    p
}

/// No rate is above the peak, so every point of a graph lies within it.
pub proof fn law_peak_bounds_every_rate(h: Seq<(Single, Single)>, i: int)
    requires
        0 <= i < h.len(),
    ensures
        !less(peak_rate(h), h[i].0@),
        !less(peak_rate(h), h[i].1@),
        !less(peak_rate(h), single(1, 10)),
    decreases h.len(),
{
    let before = peak_rate(h.drop_last());
    let (a, b) = h.last();
    let m = greater(a@, b@);
    let p = peak_rate(h);
    lemma_peak_is_positive(h);
    lemma_order(a@, b@, b@);
    lemma_order(b@, a@, a@);
    lemma_order(before, m, m);
    lemma_order(m, before, before);
    assert(!less(m, a@) && !less(m, b@));
    assert(!less(p, m) && !less(p, before));
    if i < h.len() - 1 {
        law_peak_bounds_every_rate(h.drop_last(), i);
        lemma_order(p, before, h[i].0@);
        lemma_order(p, before, h[i].1@);
    } else {
        lemma_order(p, m, a@);
        lemma_order(p, m, b@);
    }
}

/// The peak is at least a tenth.
proof fn lemma_peak_is_positive(h: Seq<(Single, Single)>)
    ensures
        !less(peak_rate(h), single(1, 10)),
    decreases h.len(),
{
    let t = single(1, 10);
    if h.len() > 0 {
        lemma_peak_is_positive(h.drop_last());
        let before = peak_rate(h.drop_last());
        let m = greater(h.last().0@, h.last().1@);
        let p = peak_rate(h);
        lemma_order(before, m, m);
        lemma_order(m, before, before);
        lemma_order(p, before, t);
    } else {
        lemma_order(t, t, t);
    }
}

// ── Busiest processes ────────────────────────────────────────────────────────

/// How many of the busiest processes are listed.
pub const TOP_COUNT: usize = 10;

/// A load by which processes are ordered, the greatest first.
pub struct Busy {
    pub load: Single,
}

impl Ranked for Busy {
    open spec fn ranks(&self, other: &Self) -> bool {
        !less(self.load@, other.load@)
    }

    fn no_later(&self, other: &Self) -> (r: bool) {
        !self.load.is_less(other.load)
    }

    proof fn ranks_total(&self, other: &Self) {
        lemma_order(self.load@, other.load@, self.load@);
    }

    proof fn ranks_transitive(&self, mid: &Self, other: &Self) {
        lemma_order(self.load@, mid.load@, other.load@);
    }
}

/// A process is listed before another: it is busier, or as busy and stands before
/// it.
pub open spec fn busier(s: Seq<ProcInfo>, a: int, b: int) -> bool {
    let (x, y) = (s[a].cpu_percent@, s[b].cpu_percent@);
    less(y, x) || (!less(x, y) && a < b)
}

/// The places of the busiest processes, the busiest first.
pub open spec fn is_top(s: Seq<ProcInfo>, r: Seq<usize>) -> bool {
    &&& r.len() == if s.len() < TOP_COUNT {
        s.len()
    } else {
        TOP_COUNT as nat
    }
    &&& forall|i: int| 0 <= i < r.len() ==> (#[trigger] r[i]) < s.len()
    &&& forall|i: int, j: int| 0 <= i < j < r.len() ==> busier(s, r[i] as int, r[j] as int)
    &&& forall|x: usize, i: int|
        x < s.len() && !r.contains(x) && 0 <= i < r.len() ==> #[trigger] busier(
            s,
            r[i] as int,
            x as int,
        )
}

/// The places of the busiest processes.
pub fn top_processes(snapshot: &[ProcInfo]) -> (r: Vec<usize>)
    ensures
        is_top(snapshot@, r@),
{
    let mut keys: Vec<Busy> = Vec::new();
    let mut i: usize = 0;
    while i < snapshot.len()
        invariant
            i <= snapshot.len(),
            keys.len() == i,
            forall|k: int| 0 <= k < i ==> (#[trigger] keys@[k]).load@ == snapshot@[k].cpu_percent@,
        decreases snapshot.len() - i,
    {
        keys.push(Busy { load: snapshot[i].cpu_percent });
        i += 1;
    }
    let order = sorted_places(&keys);
    let mut r: Vec<usize> = Vec::new();
    let mut j: usize = 0;
    while j < order.len() && j < TOP_COUNT
        invariant
            j <= order.len(),
            j <= TOP_COUNT,
            r@ == order@.take(j as int),
        decreases order.len() - j,
    {
        r.push(order[j]);
        assert(order@.take(j + 1) =~= order@.take(j as int).push(order@[j as int]));
        j += 1;
    }
    proof {
        let s = snapshot@;
        assert forall|a: int, b: int| 0 <= a < b < order@.len() implies busier(
            s,
            order@[a] as int,
            order@[b] as int,
        ) by {
            let (x, y) = (order@[a] as int, order@[b] as int);
            assert(sorts_before(keys@, x, y));
            assert(keys@[x].load@ == s[x].cpu_percent@ && keys@[y].load@ == s[y].cpu_percent@);
        }
        assert forall|x: usize, i: int|
            x < s.len() && !r@.contains(x) && 0 <= i < r@.len() implies #[trigger] busier(
            s,
            r@[i] as int,
            x as int,
        ) by {
            assert(order@.contains(x));
            let k = choose|k: int| 0 <= k < order@.len() && order@[k] == x;
            if k < j {
                assert(r@[k] == x);
            }
            assert(i < k);
            assert(r@[i] == order@[i]);
        }
    }
    r
}

/// A name as it is listed: cut where it has more than 22 characters.
pub open spec fn listed_name(name: Seq<char>) -> Seq<char> {
    if name.len() > 22 {
        name.take(21) + "…"@
    } else {
        name
    }
}

/// A name as it is listed.
pub fn display_name(name: &str) -> (r: String)
    ensures
        r@ == listed_name(name@),
{
    if name.unicode_len() > 22 {
        let cs = chars_of(name);
        let head = sub_chars(&cs, 0, 21);
        assert(head@ =~= name@.take(21));
        let mut s = text_of(&head);
        s.append("…");
        s
    } else {
        name.to_owned()
    }
}

/// A listed name has at most 22 characters.
pub proof fn law_listed_name_is_short(name: Seq<char>)
    ensures
        listed_name(name).len() <= 22,
{
    reveal_strlit("…");
}

/// The busiest processes are listed, at most ten, the busiest first: none that is not
/// listed is busier than one that is.
pub proof fn law_busiest_processes_are_listed(
    snapshot: &[ProcInfo],
    r: Vec<usize>,
    i: int,
    j: int,
    x: usize,
)
    requires
        call_ensures(top_processes, (snapshot,), r),
        0 <= i < j < r@.len(),
        x < snapshot@.len(),
    ensures
        r@[i] < snapshot@.len() && r@[j] < snapshot@.len() && r@[i] != r@[j],
        !less(snapshot@[r@[i] as int].cpu_percent@, snapshot@[r@[j] as int].cpu_percent@),
        !r@.contains(x) ==> !less(
            snapshot@[r@[i] as int].cpu_percent@,
            snapshot@[x as int].cpu_percent@,
        ),
        r@.len() <= 10,
        r@.len() == 10 || r@.len() == snapshot@.len(),
{
    let (a, b) = (snapshot@[r@[i] as int].cpu_percent@, snapshot@[r@[j] as int].cpu_percent@);
    let c = snapshot@[x as int].cpu_percent@;
    assert(busier(snapshot@, r@[i] as int, r@[j] as int));
    crate::binary::lemma_order(b, a, b);
    crate::binary::lemma_order(c, a, c);
    crate::binary::lemma_order(a, a, a);
    if !r@.contains(x) {
        assert(busier(snapshot@, r@[i] as int, x as int));
    }
}

/// The peak of some rates is at least a tenth, at least as great as each of them, and one
/// of them or a tenth.
pub proof fn law_peak_is_the_greatest_rate(h: &[(Single, Single)], r: Single, i: int)
    requires
        call_ensures(peak_of, (h,), r),
        0 <= i < h@.len(),
    ensures
        !less(r@, h@[i].0@),
        !less(r@, h@[i].1@),
        !less(r@, single(1, 10)),
        r@ == single(1, 10) || exists|k: int|
            0 <= k < h@.len() && (r@ == (#[trigger] h@[k]).0@ || r@ == h@[k].1@),
{
    lemma_peak(h@, i);
}

/// What the peak is.
proof fn lemma_peak(h: Seq<(Single, Single)>, i: int)
    ensures
        0 <= i < h.len() ==> !less(peak_rate(h), h[i].0@) && !less(peak_rate(h), h[i].1@),
        !less(peak_rate(h), single(1, 10)),
        peak_rate(h) == single(1, 10) || exists|k: int|
            0 <= k < h.len() && (peak_rate(h) == (#[trigger] h[k]).0@ || peak_rate(h) == h[k].1@),
    decreases h.len(),
{
    let p = peak_rate(h);
    crate::binary::lemma_order(p, p, p);
    if h.len() > 0 {
        let d = h.drop_last();
        lemma_peak(d, i);
        let q = peak_rate(d);
        let (a, b) = (h.last().0@, h.last().1@);
        let m = greater(a, b);
        crate::binary::lemma_order(q, m, q);
        crate::binary::lemma_order(m, q, m);
        crate::binary::lemma_order(a, b, a);
        crate::binary::lemma_order(b, a, b);
        crate::binary::lemma_order(a, a, a);
        crate::binary::lemma_order(b, b, b);
        crate::binary::lemma_order(q, q, q);
        crate::binary::lemma_order(p, q, single(1, 10));
        crate::binary::lemma_order(p, m, a);
        crate::binary::lemma_order(p, m, b);
        if 0 <= i < d.len() {
            assert(d[i] == h[i]);
            crate::binary::lemma_order(p, q, h[i].0@);
            crate::binary::lemma_order(p, q, h[i].1@);
        }
        if p == q {
            if q != single(1, 10) {
                let k = choose|k: int|
                    0 <= k < d.len() && (q == (#[trigger] d[k]).0@ || q == d[k].1@);
                assert(h[k] == d[k]);
            }
        } else {
            assert(h[h.len() - 1] == h.last());
        }
    }
}

/// The line gives a number of KiB behind the key.
pub open spec fn gives(line: Seq<char>, key: Seq<char>, kib: u64) -> bool {
    exists|rest: Seq<char>| #[trigger] (key + rest) == line && words(rest).len() > 0 && words(rest)[0]
        == dec(kib as nat)
}

/// Memory is what the two lines of the kernel's file say, in whole MiB: what is used is
/// what is not available.
pub proof fn law_used_memory_is_what_is_not_available(
    text: &str,
    r: Option<(u64, u64)>,
    i: int,
    j: int,
    total: u64,
    available: u64,
)
    requires
        call_ensures(read_ram_mb, (text,), r),
        0 <= i < lines(text@).len(),
        0 <= j < lines(text@).len(),
        gives(lines(text@)[i], "MemTotal:"@, total),
        gives(lines(text@)[j], "MemAvailable:"@, available),
        forall|k: int| 0 <= k < lines(text@).len() && k != i ==> !has_prefix(
            #[trigger] lines(text@)[k],
            "MemTotal:"@,
        ),
        forall|k: int| 0 <= k < lines(text@).len() && k != j ==> !has_prefix(
            #[trigger] lines(text@)[k],
            "MemAvailable:"@,
        ),
        0 < total,
        available <= total,
    ensures
        r matches Some((used, all)) && {
            &&& all * 1024 <= total < (all + 1) * 1024
            &&& used * 1024 <= total - available < (used + 1) * 1024
        },
{
    let ls = lines(text@);
    lemma_keyed(ls[i], "MemTotal:"@, total);
    lemma_keyed(ls[j], "MemAvailable:"@, available);
    reveal_strlit("MemTotal:");
    reveal_strlit("MemAvailable:");
    assert(!has_prefix(ls[j], "MemTotal:"@)) by {
        let p = ls[j].take(13);
        assert(p == "MemAvailable:"@);
        assert(p[3] == 'A');
        if has_prefix(ls[j], "MemTotal:"@) {
            assert(ls[j].take(9)[3] == 'T');
            assert(ls[j][3] == 'T');
            assert(p[3] == ls[j][3]);
        }
    }
    lemma_mem_scan(ls, i, j, total, available);
}

/// A line that gives a number is read as that number.
proof fn lemma_keyed(line: Seq<char>, key: Seq<char>, kib: u64)
    requires
        gives(line, key, kib),
    ensures
        has_prefix(line, key),
        keyed(line, key) == Some(kib as nat),
{
    let rest = choose|rest: Seq<char>| #[trigger] (key + rest) == line && words(rest).len() > 0
        && words(rest)[0] == dec(kib as nat);
    assert(line == key + rest);
    assert(line.skip(key.len() as int) =~= rest);
    assert(line.take(key.len() as int) =~= key);
    crate::number::law_decimal_round_trip(kib as nat, u64::MAX as nat);
}

/// What the lines say of the memory.
proof fn lemma_mem_scan(ls: Seq<Seq<char>>, i: int, j: int, total: u64, available: u64)
    requires
        i < ls.len() ==> i >= 0 && keyed(ls[i], "MemTotal:"@) == Some(total as nat) && has_prefix(
            ls[i],
            "MemTotal:"@,
        ),
        j < ls.len() ==> j >= 0 && keyed(ls[j], "MemAvailable:"@) == Some(available as nat)
            && has_prefix(ls[j], "MemAvailable:"@) && !has_prefix(ls[j], "MemTotal:"@),
        forall|k: int| 0 <= k < ls.len() && k != i ==> !has_prefix(#[trigger] ls[k], "MemTotal:"@),
        forall|k: int|
            0 <= k < ls.len() && k != j ==> !has_prefix(#[trigger] ls[k], "MemAvailable:"@),
    ensures
        mem_scan(ls) == Some(
            (
                if i < ls.len() {
                    total as nat
                } else {
                    0
                },
                if j < ls.len() {
                    available as nat
                } else {
                    0
                },
            ),
        ),
    decreases ls.len(),
{
    if ls.len() > 0 {
        let d = ls.drop_last();
        assert forall|k: int| 0 <= k < d.len() && k != i implies !has_prefix(
            #[trigger] d[k],
            "MemTotal:"@,
        ) by {
            assert(ls[k] == d[k]);
        }
        assert forall|k: int| 0 <= k < d.len() && k != j implies !has_prefix(
            #[trigger] d[k],
            "MemAvailable:"@,
        ) by {
            assert(ls[k] == d[k]);
        }
        lemma_mem_scan(d, i, j, total, available);
        let n = ls.len() - 1;
        assert(ls.last() == ls[n]);
        assert(n != i ==> !has_prefix(ls[n], "MemTotal:"@));
        assert(n != j ==> !has_prefix(ls[n], "MemAvailable:"@));
        if n == i {
            assert(has_prefix(ls[n], "MemTotal:"@));
        }
    }
}

/// The load is shown as a share of the cores, in thousandths of a percent, up to all of
/// them.
pub proof fn law_load_is_shown_per_core(
    l1: u64,
    l5: u64,
    l15: u64,
    cores: u32,
    r: (String, String, u32),
)
    requires
        call_ensures(load_figure, (l1, l5, l15, cores), r),
        cores > 0,
    ensures
        r.2 <= 100_000,
        l1 >= 1_000_000 * cores ==> r.2 == 100_000,
        l1 < 1_000_000 * cores ==> r.2 * (10 * cores) <= l1 < (r.2 + 1) * (10 * cores),
{
    let c = 10 * cores;
    let q = l1 as int / c;
    assert(q * c <= l1 < (q + 1) * c) by (nonlinear_arith)
        requires
            c > 0,
            q == l1 as int / c,
    ;
    if l1 >= 1_000_000 * cores {
        assert(q >= 100_000) by (nonlinear_arith)
            requires
                l1 < (q + 1) * c,
                l1 >= 100_000 * c,
                c > 0,
        ;
    } else {
        assert(q < 100_000) by (nonlinear_arith)
            requires
                q * c <= l1,
                l1 < 100_000 * c,
                c > 0,
        ;
    }
}

/// A name that is listed has at most 22 characters; a longer one ends in an ellipsis.
pub proof fn law_listed_names_are_short(name: &str, r: String)
    requires
        call_ensures(display_name, (name,), r),
    ensures
        r@.len() <= 22,
        name@.len() <= 22 ==> r@ == name@,
        name@.len() > 22 ==> r@.len() == 22 && r@.take(21) == name@.take(21),
{
    reveal_strlit("…");
    if name@.len() > 22 {
        assert(r@.take(21) =~= name@.take(21));
    }
}

} // verus!
