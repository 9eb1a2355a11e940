//! The command line: what its commands print, and what the tray shows.

use vstd::prelude::*;
use vstd::string::*;

use crate::binary::{lemma_order, less, parts, whole_parts, Single};
use crate::hw_parse::{parse_micro, read_micro};
use crate::monitor::ProcInfo;
use crate::number::{dec, push_dec, push_wide};
use crate::sort::{sorted_places, sorts_before, Ranked};
use crate::text::{chars_of, views, words, words_of};

verus! {

// ── Commands ─────────────────────────────────────────────────────────────────

/// What is printed after a kill.
pub fn killed_text(pid: u32, force: bool) -> (r: String)
    ensures
        r@ == (if force {
            "Force killed PID "@
        } else {
            "Killed PID "@
        }) + dec(pid as nat),
{
    let mut s = if force {
        "Force killed PID ".to_owned()
    } else {
        "Killed PID ".to_owned()
    };
    push_dec(&mut s, pid as u64);
    s
}

/// What is printed after an affinity was set, or could not be.
pub fn affinity_text(pid: u32, mask: &str, ok: bool) -> (r: String)
    ensures
        r@ == if ok {
            "Affinity set to '"@ + mask@ + "' for PID "@ + dec(pid as nat)
        } else {
            "Failed to set affinity for PID "@ + dec(pid as nat)
        },
{
    if ok {
        let mut s = "Affinity set to '".to_owned();
        s.append(mask);
        s.append("' for PID ");
        push_dec(&mut s, pid as u64);
        s
    } else {
        let mut s = "Failed to set affinity for PID ".to_owned();
        push_dec(&mut s, pid as u64);
        s
    }
}

// ── Status ───────────────────────────────────────────────────────────────────

/// A process by which the status is ordered: the busiest first, those that are as
/// busy by their numbers.
pub struct StatusKey {
    pub load: Single,
    pub pid: u32,
}

impl Ranked for StatusKey {
    open spec fn ranks(&self, other: &Self) -> bool {
        less(other.load@, self.load@) || (!less(self.load@, other.load@) && self.pid <= other.pid)
    }

    fn no_later(&self, other: &Self) -> (r: bool) {
        other.load.is_less(self.load) || (!self.load.is_less(other.load) && self.pid <= other.pid)
    }

    proof fn ranks_total(&self, other: &Self) {
        lemma_order(self.load@, other.load@, self.load@);
    }

    proof fn ranks_transitive(&self, mid: &Self, other: &Self) {
        let (a, b, c) = (self.load@, mid.load@, other.load@);
        lemma_order(a, b, c);
        lemma_order(b, c, a);
        lemma_order(c, a, b);
        lemma_order(c, b, a);
        lemma_order(b, a, c);
        lemma_order(a, c, b);
    }
}

/// A process is listed before another.
pub open spec fn listed_before(s: Seq<ProcInfo>, a: int, b: int) -> bool {
    let (x, y) = (s[a].cpu_percent@, s[b].cpu_percent@);
    ||| less(y, x)
    ||| !less(x, y) && s[a].pid < s[b].pid
    ||| !less(x, y) && s[a].pid == s[b].pid && a < b
}

/// The places of the first `top` processes in the order of the status; all of them
/// for 0.
pub open spec fn is_status_order(s: Seq<ProcInfo>, top: usize, r: Seq<usize>) -> bool {
    &&& r.len() == if top > 0 && top < s.len() {
        top as nat
    } else {
        s.len()
    }
    &&& forall|i: int| 0 <= i < r.len() ==> (#[trigger] r[i]) < s.len()
    &&& forall|i: int, j: int| 0 <= i < j < r.len() ==> listed_before(s, r[i] as int, r[j] as int)
    &&& forall|x: usize, i: int|
        x < s.len() && !r.contains(x) && 0 <= i < r.len() ==> #[trigger] listed_before(
            s,
            r[i] as int,
            x as int,
        )
}

/// The places of the first `top` processes in the order of the status.
pub fn status_order(procs: &[ProcInfo], top: usize) -> (r: Vec<usize>)
    ensures
        is_status_order(procs@, top, r@),
{
    let mut keys: Vec<StatusKey> = Vec::new();
    let mut i: usize = 0;
    while i < procs.len()
        invariant
            i <= procs.len(),
            keys.len() == i,
            forall|k: int|
                0 <= k < i ==> (#[trigger] keys@[k]).load@ == procs@[k].cpu_percent@ && keys@[k].pid
                    == procs@[k].pid,
        decreases procs.len() - i,
    {
        keys.push(StatusKey { load: procs[i].cpu_percent, pid: procs[i].pid });
        i += 1;
    }
    let order = sorted_places(&keys);
    let n: usize = if top > 0 && top < order.len() {
        top
    } else {
        order.len()
    };
    let mut r: Vec<usize> = Vec::new();
    let mut j: usize = 0;
    while j < n
        invariant
            j <= n <= order.len(),
            r@ == order@.take(j as int),
        decreases n - j,
    {
        r.push(order[j]);
        assert(order@.take(j + 1) =~= order@.take(j as int).push(order@[j as int]));
        j += 1;
    }
    proof {
        let s = procs@;
        assert forall|a: int, b: int| 0 <= a < b < order@.len() implies listed_before(
            s,
            order@[a] as int,
            order@[b] as int,
        ) by {
            let (x, y) = (order@[a] as int, order@[b] as int);
            assert(sorts_before(keys@, x, y));
            assert(keys@[x].load@ == s[x].cpu_percent@ && keys@[y].load@ == s[y].cpu_percent@);
            lemma_order(keys@[x].load@, keys@[y].load@, keys@[x].load@);
            assert(keys@[x].pid == s[x].pid && keys@[y].pid == s[y].pid);
        }
        assert forall|x: usize, i: int|
            x < s.len() && !r@.contains(x) && 0 <= i < r@.len() implies #[trigger] listed_before(
            s,
            r@[i] as int,
            x as int,
        ) by {
            assert(order@.contains(x));
            let k = choose|k: int| 0 <= k < order@.len() && order@[k] == x;
            if k < j {
                assert(r@[k] == x);
            }
            assert(i < k);
            assert(r@[i] == order@[i]);
        }
    }
    r
}

/// The loads in the first three words of a text, in millionths; a word that is no
/// number is left out.
pub open spec fn loads_in(w: Seq<Seq<char>>, n: nat) -> Seq<i64>
    decreases n,
{
    if n == 0 {
        Seq::empty()
    } else {
        let before = loads_in(w, (n - 1) as nat);
        if n <= w.len() {
            match parse_micro(w[n - 1]) {
                Some(v) => before.push(v as i64),
                None => before,
            }
        } else {
            before
        }
    }
}

/// The loads in the first three words of the text of `loadavg`.
pub fn status_loads(text: &str) -> (r: Vec<i64>)
    ensures
        r@ == loads_in(words(text@), 3),
{
    let cs = chars_of(text);
    let w = words_of(&cs);
    let ghost wv = words(text@);
    let mut r: Vec<i64> = Vec::new();
    let mut i: usize = 0;
    while i < 3
        invariant
            i <= 3,
            wv == views(w@),
            r@ == loads_in(wv, i as nat),
        decreases 3 - i,
    {
        if i < w.len() {
            assert(wv[i as int] == w@[i as int]@);
            if let Some(v) = read_micro(&w[i]) {
                r.push(v);
            }
        }
        i += 1;
    }
    r
}

/// A load in tenths of a percent, halves rounded up.
pub fn status_tenths(load: Single) -> (r: u128)
    ensures
        r == (whole_parts(load@, 20) + 1) / 2,
{
    let q: u128 = load.get().whole_parts(20);
    q / 2 + q % 2
}

// ── Tray ─────────────────────────────────────────────────────────────────────

/// The title of the tray icon.
pub fn tray_title(avg: Single) -> (r: String)
    ensures
        r@ == "Argus-Lasso  CPU "@ + dec(parts(avg@, 1)) + "%"@,
{
    let mut s = "Argus-Lasso  CPU ".to_owned();
    push_wide(&mut s, avg.get().parts(1));
    s.append("%");
    s
}

/// The heading of the hint of the tray icon.
pub fn tray_hint(avg: Single) -> (r: String)
    ensures
        r@ == "Argus-Lasso — CPU "@ + dec(parts(avg@, 1)) + "%"@,
{
    let mut s = "Argus-Lasso — CPU ".to_owned();
    push_wide(&mut s, avg.get().parts(1));
    s.append("%");
    s
}

/// The processes are listed by their load, the greatest first, as many as were asked
/// for, each once; what is not listed has no greater load than what is.
pub proof fn law_greatest_loads_are_listed_first(
    procs: &[ProcInfo],
    top: usize,
    r: Vec<usize>,
    i: int,
    j: int,
    x: usize,
)
    requires
        call_ensures(status_order, (procs, top), r),
        0 <= i < j < r@.len(),
        x < procs@.len(),
    ensures
        r@[i] < procs@.len() && r@[j] < procs@.len(),
        r@[i] != r@[j],
        !less(procs@[r@[i] as int].cpu_percent@, procs@[r@[j] as int].cpu_percent@),
        !r@.contains(x) ==> !less(procs@[r@[i] as int].cpu_percent@, procs@[x as int].cpu_percent@),
        top > 0 ==> r@.len() <= top,
        r@.len() == top || r@.len() == procs@.len(),
{
    let (a, b) = (procs@[r@[i] as int].cpu_percent@, procs@[r@[j] as int].cpu_percent@);
    let c = procs@[x as int].cpu_percent@;
    assert(listed_before(procs@, r@[i] as int, r@[j] as int));
    crate::binary::lemma_order(b, a, b);
    crate::binary::lemma_order(a, b, a);
    crate::binary::lemma_order(c, a, c);
    crate::binary::lemma_order(a, c, a);
    if !r@.contains(x) {
        assert(listed_before(procs@, r@[i] as int, x as int));
    }
}

} // verus!
