//! The ProBalance tab: the processes that are held back now, and the settings.

use vstd::prelude::*;
use vstd::string::*;

use crate::binary::{difference, less, parts, single, within, Binary, Number, Single, SINGLE};
use crate::config::ProBalanceConfig;
use crate::monitor::ProcInfo;
use crate::number::{dec, dec_int, decimal, push_int, push_tenths, push_wide, tenths};
use crate::text::{holds_text, opt_text, same_text, texts, trim, trimmed_text};

verus! {

/// The tab.
pub struct ProBalanceTab {
    pub cfg: ProBalanceConfig,
    /// The pattern that is being entered.
    pub new_exempt: String,
    /// What was applied last.
    pub saved: ProBalanceConfig,
    /// A pattern is being entered.
    pub adding_exempt: bool,
}

impl ProBalanceTab {
    /// The tab at the start.
    pub fn new(cfg: ProBalanceConfig) -> (r: ProBalanceTab)
        ensures
            r.cfg == cfg,
            r.saved.same(&cfg),
            r.new_exempt@.len() == 0,
            !r.adding_exempt,
    {
        ProBalanceTab {
            saved: cfg.copy(),
            cfg,
            new_exempt: String::new(),
            adding_exempt: false,
        }
    }

    /// The thresholds, in words.
    pub fn summary(&self) -> (r: String)
        ensures
            r@ == "Throttles processes above "@ + dec(
                parts(single(self.cfg.cpu_threshold_mpct as int, 1000), 1),
            ) + "% CPU for "@ + dec(parts(single(self.cfg.consecutive_ms as int, 1000), 1))
                + " s · restores below "@ + dec(
                parts(single(self.cfg.restore_threshold_mpct as int, 1000), 1),
            ) + "%"@,
    {
        let mut s = "Throttles processes above ".to_owned();
        push_wide(&mut s, Binary::single(self.cfg.cpu_threshold_mpct as u64, 1000).parts(1));
        s.append("% CPU for ");
        push_wide(&mut s, Binary::single(self.cfg.consecutive_ms as u64, 1000).parts(1));
        s.append(" s · restores below ");
        push_wide(&mut s, Binary::single(self.cfg.restore_threshold_mpct as u64, 1000).parts(1));
        s.append("%");
        s
    }

    /// The state, in words.
    pub fn state_text(&self) -> (r: &'static str)
        ensures
            r@ == if self.cfg.enabled {
                "ProBalance is on"@
            } else {
                "ProBalance is off"@
            },
    {
        if self.cfg.enabled {
            "ProBalance is on"
        } else {
            "ProBalance is off"
        }
    }

    /// What is said where no process is held back.
    pub fn idle_text(&self) -> (r: &'static str)
        ensures
            r@ == if self.cfg.enabled {
                "No processes are being throttled right now."@
            } else {
                "ProBalance is off — nothing is being throttled."@
            },
    {
        if self.cfg.enabled {
            "No processes are being throttled right now."
        } else {
            "ProBalance is off — nothing is being throttled."
        }
    }

    /// Takes the pattern that was entered into the list: trimmed, unless it is blank
    /// or in the list already.
    pub fn commit_exempt(&mut self)
        ensures
            ({
                let pat = trim(old(self).new_exempt@);
                let before = texts(old(self).cfg.exempt_patterns@);
                texts(final(self).cfg.exempt_patterns@) == if pat.len() > 0 && !before.contains(
                    pat,
                ) {
                    before.push(pat)
                } else {
                    before
                }
            }),
            final(self).new_exempt@.len() == 0,
            *final(self) == (ProBalanceTab {
                cfg: ProBalanceConfig {
                    exempt_patterns: final(self).cfg.exempt_patterns,
                    ..old(self).cfg
                },
                new_exempt: final(self).new_exempt,
                adding_exempt: false,
                ..*old(self)
            }),
    {
        let pat = trimmed_text(self.new_exempt.as_str());
        if !pat.as_str().is_empty() && !holds_text(&self.cfg.exempt_patterns, pat.as_str()) {
            let ghost before = texts(self.cfg.exempt_patterns@);
            let ghost p = pat@;
            self.cfg.exempt_patterns.push(pat);
            assert(texts(self.cfg.exempt_patterns@) =~= before.push(p));
        }
        self.new_exempt = String::new();
        self.adding_exempt = false;
    }

    /// Drops the pattern that was entered.
    pub fn cancel_exempt(&mut self)
        ensures
            final(self).new_exempt@.len() == 0,
            *final(self) == (ProBalanceTab {
                new_exempt: final(self).new_exempt,
                adding_exempt: false,
                ..*old(self)
            }),
    {
        self.new_exempt = String::new();
        self.adding_exempt = false;
    }

    /// Removes a pattern from the list.
    pub fn remove_exempt(&mut self, i: usize)
        requires
            i < old(self).cfg.exempt_patterns@.len(),
        ensures
            final(self).cfg.exempt_patterns@ == old(self).cfg.exempt_patterns@.remove(i as int),
            *final(self) == (ProBalanceTab {
                cfg: ProBalanceConfig {
                    exempt_patterns: final(self).cfg.exempt_patterns,
                    ..old(self).cfg
                },
                ..*old(self)
            }),
    {
        self.cfg.exempt_patterns.remove(i);
    }

    /// Whether something was edited that is not applied.
    pub fn is_dirty(&self) -> (r: bool)
        ensures
            r == !self.cfg.same(&self.saved),
    {
        !self.cfg.equals(&self.saved)
    }

    /// Brings back what was applied last.
    pub fn discard(&mut self)
        ensures
            final(self).cfg.same(&old(self).saved),
            *final(self) == (ProBalanceTab { cfg: final(self).cfg, ..*old(self) }),
    {
        self.cfg = self.saved.copy();
    }

    /// Applies the settings; gives them.
    pub fn apply(&mut self) -> (r: ProBalanceConfig)
        ensures
            r.same(&old(self).cfg),
            final(self).saved.same(&old(self).cfg),
            *final(self) == (ProBalanceTab { saved: final(self).saved, ..*old(self) }),
    {
        self.saved = self.cfg.copy();
        self.cfg.copy()
    }
}

/// How many processes are held back, in words; nothing where there is none.
pub fn throttled_badge(n: usize) -> (r: Option<String>)
    ensures
        opt_text(r) == if n > 0 {
            Some(dec(n as nat) + " throttled now"@)
        } else {
            None
        },
{
    if n == 0 {
        return None;
    }
    let mut s = decimal(n as u64);
    s.append(" throttled now");
    Some(s)
}

/// The load of a process: that of its last entry in the list of processes, else the
/// one that is given.
pub open spec fn load_now(snapshot: Seq<ProcInfo>, pid: u32, otherwise: Single) -> Single
    decreases snapshot.len(),
{
    if snapshot.len() == 0 {
        otherwise
    } else if snapshot.last().pid == pid {
        snapshot.last().cpu_percent
    } else {
        load_now(snapshot.drop_last(), pid, otherwise)
    }
}

/// The load of a process: that of its last entry in the list of processes, else the
/// one that is given.
pub fn current_load(snapshot: &[ProcInfo], pid: u32, otherwise: Single) -> (r: Single)
    ensures
        r == load_now(snapshot@, pid, otherwise),
{
    let mut n: usize = snapshot.len();
    assert(snapshot@.take(n as int) =~= snapshot@);
    while n > 0
        invariant
            n <= snapshot.len(),
            load_now(snapshot@, pid, otherwise) == load_now(
                snapshot@.take(n as int),
                pid,
                otherwise,
            ),
        decreases n,
    {
        assert(snapshot@.take(n as int).last() == snapshot@[n - 1]);
        assert(snapshot@.take(n as int).drop_last() =~= snapshot@.take(n - 1));
        if snapshot[n - 1].pid == pid {
            return snapshot[n - 1].cpu_percent;
        }
        n -= 1;
    }
    otherwise
}

/// A load in percent with one decimal place.
pub fn load_text(load: Single) -> (r: String)
    ensures
        r@ == tenths(parts(load@, 10)),
{
    let mut r = String::new();
    push_tenths(&mut r, load.get().parts(10));
    assert(r@ =~= tenths(parts(load@, 10)));
    r
}

/// How a process is held back, in words: by the weight of its unit, or by its nice
/// value.
pub fn throttle_text(unit: Option<&str>, original_nice: i32, throttle_nice: i32) -> (r: String)
    ensures
        r@ == match unit {
            Some(u) => "unit "@ + u@,
            None => "nice "@ + dec_int(original_nice as int) + " → "@ + dec_int(
                throttle_nice as int,
            ),
        },
{
    match unit {
        Some(u) => {
            let mut s = "unit ".to_owned();
            s.append(u);
            s
        },
        None => {
            let mut s = "nice ".to_owned();
            push_int(&mut s, original_nice as i64);
            s.append(" → ");
            push_int(&mut s, throttle_nice as i64);
            s
        },
    }
}

/// The seconds until a process is restored, as single precision holds them; below zero
/// where it is overdue. Times are in milliseconds.
pub open spec fn seconds_left(elapsed_low: u64, hysteresis: u64) -> Number {
    difference(single(hysteresis as int, 1000), single(elapsed_low as int, 1000), SINGLE as nat)
}

/// When a process is restored, in words. Times are in milliseconds.
pub fn restore_text(elapsed_low: u64, hysteresis: u64) -> (r: String)
    ensures
        r@ == if less(seconds_left(elapsed_low, hysteresis), single(1, 2)) {
            "restoring…"@
        } else {
            tenths(parts(seconds_left(elapsed_low, hysteresis), 10)) + "s"@
        },
{
    let all = Binary::single(hysteresis, 1000);
    let gone = Binary::single(elapsed_low, 1000);
    let left = all.minus(gone, SINGLE);
    assert(within(left@, 400)) by {
        assert(within(all@, 200) && within(gone@, 200));
    }
    if left.is_less(Binary::single(1, 2), SINGLE) {
        "restoring…".to_owned()
    } else {
        let mut s = String::new();
        push_tenths(&mut s, left.parts(10));
        s.append("s");
        assert(s@ =~= tenths(parts(left@, 10)) + "s"@);
        s
    }
}

/// The label of a way to hold processes back.
pub fn method_label(method: &str) -> (r: &'static str)
    ensures
        r@ == if method@ == "cgroup"@ {
            "cgroup (per-app CPUWeight)"@
        } else if method@ == "auto"@ {
            "auto (cgroup, nice fallback)"@
        } else {
            "nice (process priority)"@
        },
{
    if same_text(method, "cgroup") {
        "cgroup (per-app CPUWeight)"
    } else if same_text(method, "auto") {
        "auto (cgroup, nice fallback)"
    } else {
        "nice (process priority)"
    }
}

/// A pattern stands in the list of exempt patterns at most once, if that held
/// before one was entered.
pub proof fn law_exempt_patterns_stay_distinct(before: Seq<Seq<char>>, pat: Seq<char>)
    requires
        before.no_duplicates(),
        !before.contains(pat),
    ensures
        before.push(pat).no_duplicates(),
{
    assert forall|i: int, j: int|
        0 <= i < before.push(pat).len() && 0 <= j < before.push(pat).len() && i
            != j implies before.push(pat)[i] != before.push(pat)[j] by {
        if i < before.len() && j < before.len() {
            assert(before[i] != before[j]);
        } else if i < before.len() {
            assert(before.contains(before[i]));
        } else {
            assert(before.contains(before[j]));
        }
    }
}

/// A pattern that was typed in is added without its blanks, once, at the end; an empty one
/// is not.
pub proof fn law_typed_pattern_is_added_once(
    tab: &mut ProBalanceTab,
    a: Seq<char>,
    p: Seq<char>,
    b: Seq<char>,
)
    requires
        call_ensures(ProBalanceTab::commit_exempt, (tab,), ()),
        old(tab).new_exempt@ == a + p + b,
        forall|i: int| 0 <= i < a.len() ==> crate::text::is_space(#[trigger] a[i]),
        forall|i: int| 0 <= i < b.len() ==> crate::text::is_space(#[trigger] b[i]),
        p.len() > 0 ==> !crate::text::is_space(p[0]) && !crate::text::is_space(p.last()),
    ensures
        ({
            let (x, y) = (
                texts(old(tab).cfg.exempt_patterns@),
                texts(final(tab).cfg.exempt_patterns@),
            );
            &&& p.len() > 0 ==> y.contains(p)
            &&& p.len() > 0 && !x.contains(p) ==> y == x.push(p)
            &&& p.len() == 0 || x.contains(p) ==> y == x
        }),
        final(tab).new_exempt@.len() == 0,
        !final(tab).adding_exempt,
{
    crate::text::law_trim_drops_blanks(a, p, b);
    let x = texts(old(tab).cfg.exempt_patterns@);
    if p.len() > 0 && !x.contains(p) {
        assert(x.push(p)[x.len() as int] == p);
    }
}

/// A pattern that was removed is gone; the others keep their order.
pub proof fn law_removed_pattern_is_gone(tab: &mut ProBalanceTab, i: usize, k: int)
    requires
        call_ensures(ProBalanceTab::remove_exempt, (tab, i), ()),
        i < old(tab).cfg.exempt_patterns@.len(),
    ensures
        final(tab).cfg.exempt_patterns@.len() == old(tab).cfg.exempt_patterns@.len() - 1,
        0 <= k < i ==> final(tab).cfg.exempt_patterns@[k] == old(tab).cfg.exempt_patterns@[k],
        i <= k < final(tab).cfg.exempt_patterns@.len() ==> final(tab).cfg.exempt_patterns@[k]
            == old(tab).cfg.exempt_patterns@[k + 1],
{
}

/// Once applied or discarded, there is nothing left to apply; any change leaves something.
pub proof fn law_changes_are_pending_until_applied(
    tab: &mut ProBalanceTab,
    back: &mut ProBalanceTab,
    cfg: ProBalanceConfig,
    applied: &ProBalanceTab,
    discarded: &ProBalanceTab,
    now: &ProBalanceTab,
    r: bool,
    s: bool,
    t: bool,
)
    requires
        call_ensures(ProBalanceTab::apply, (tab,), cfg),
        *applied == *final(tab),
        call_ensures(ProBalanceTab::is_dirty, (applied,), r),
        call_ensures(ProBalanceTab::discard, (back,), ()),
        *discarded == *final(back),
        call_ensures(ProBalanceTab::is_dirty, (discarded,), s),
        call_ensures(ProBalanceTab::is_dirty, (now,), t),
    ensures
        !r,
        !s,
        cfg.enabled == old(tab).cfg.enabled,
        cfg.cpu_threshold_mpct == old(tab).cfg.cpu_threshold_mpct,
        cfg.restore_threshold_mpct == old(tab).cfg.restore_threshold_mpct,
        cfg.consecutive_ms == old(tab).cfg.consecutive_ms,
        cfg.restore_hysteresis_ms == old(tab).cfg.restore_hysteresis_ms,
        cfg.nice_adjustment == old(tab).cfg.nice_adjustment,
        cfg.nice_floor == old(tab).cfg.nice_floor,
        texts(cfg.exempt_patterns@) == texts(old(tab).cfg.exempt_patterns@),
        final(back).cfg.cpu_threshold_mpct == old(back).saved.cpu_threshold_mpct,
        final(back).cfg.enabled == old(back).saved.enabled,
        !t ==> now.cfg.enabled == now.saved.enabled && now.cfg.cpu_threshold_mpct
            == now.saved.cpu_threshold_mpct && now.cfg.restore_threshold_mpct
            == now.saved.restore_threshold_mpct && now.cfg.consecutive_ms == now.saved.consecutive_ms
            && now.cfg.nice_floor == now.saved.nice_floor && now.cfg.nice_adjustment
            == now.saved.nice_adjustment && now.cfg.restore_hysteresis_ms
            == now.saved.restore_hysteresis_ms && texts(now.cfg.exempt_patterns@) == texts(
            now.saved.exempt_patterns@,
        ),
{
}

/// The load that is shown of a throttled process is that of its row; the last known one
/// where it has none.
pub proof fn law_shown_load_is_that_of_the_row(
    snapshot: &[ProcInfo],
    pid: u32,
    otherwise: Single,
    r: Single,
    i: int,
)
    requires
        call_ensures(current_load, (snapshot, pid, otherwise), r),
    ensures
        0 <= i < snapshot@.len() && snapshot@[i].pid == pid && (forall|k: int|
            i < k < snapshot@.len() ==> (#[trigger] snapshot@[k]).pid != pid) ==> r
            == snapshot@[i].cpu_percent,
        (forall|k: int| 0 <= k < snapshot@.len() ==> (#[trigger] snapshot@[k]).pid != pid) ==> r
            == otherwise,
{
    lemma_load_now(snapshot@, pid, otherwise, i);
}

/// The load of the last row of a process.
proof fn lemma_load_now(s: Seq<ProcInfo>, pid: u32, otherwise: Single, i: int)
    ensures
        0 <= i < s.len() && s[i].pid == pid && (forall|k: int|
            i < k < s.len() ==> (#[trigger] s[k]).pid != pid) ==> load_now(s, pid, otherwise)
            == s[i].cpu_percent,
        (forall|k: int| 0 <= k < s.len() ==> (#[trigger] s[k]).pid != pid) ==> load_now(
            s,
            pid,
            otherwise,
        ) == otherwise,
    decreases s.len(),
{
    if s.len() > 0 {
        let d = s.drop_last();
        lemma_load_now(d, pid, otherwise, i);
        assert forall|k: int| 0 <= k < d.len() implies #[trigger] d[k] == s[k] by {}
        assert(s[s.len() - 1] == s.last());
    }
}

} // verus!
