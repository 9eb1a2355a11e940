//! ProBalance: throttles CPU hogs through their nice value and restores them
//! once they are calm.
//!
//! Each process is `Normal` or `Throttled`. It is throttled after it has spent
//! the configured time above the threshold, and restored after it has spent the
//! configured time below the restore threshold. Setting a nice value is left to
//! the caller: a round first asks what to do with a process and is then told
//! whether doing it worked.

use vstd::prelude::*;
use vstd::string::*;

use crate::binary::{
    exceeds, falls_short, is_single, law_limits_compare_by_value, less, parts, single, Number, Single,
};
use crate::config::ProBalanceConfig;
use crate::idmap::IdMap;
use crate::idset::IdSet;
use crate::lower::{lowercase, lowered};
use crate::number::{dec, dec_int, push_dec, push_int, push_tenths, tenths};
use crate::text::{contains_text, has_substring, law_substring_stands_between, texts};

verus! {

// ── Exemption ────────────────────────────────────────────────────────────────

/// Some pattern that is not blank is a substring of the name, both already in
/// lower case.
pub open spec fn exempt_lowered(name: Seq<char>, blank: Seq<bool>, patterns: Seq<Seq<char>>) -> bool {
    exists|i: int|
        0 <= i < patterns.len() && !blank[i] && has_substring(name, #[trigger] patterns[i])
}

/// Some pattern that is not blank is a substring of the name if case is ignored.
pub open spec fn is_exempt_name(name: Seq<char>, patterns: Seq<Seq<char>>) -> bool {
    exists|i: int|
        0 <= i < patterns.len() && (#[trigger] patterns[i]).len() > 0 && has_substring(
            lowercase(name),
            lowercase(patterns[i]),
        )
}

/// Whether one of the lower-case patterns, other than those marked blank, is a
/// substring of the lower-case name.
pub fn is_exempt_lowered(name: &str, blank: &Vec<bool>, patterns: &Vec<String>) -> (r: bool)
    requires
        blank.len() == patterns.len(),
    ensures
        r == exempt_lowered(name@, blank@, texts(patterns@)),
{
    let mut i: usize = 0;
    let ghost all = texts(patterns@);
    while i < patterns.len()
        invariant
            i <= patterns.len(),
            blank.len() == patterns.len(),
            all == texts(patterns@),
            forall|j: int| 0 <= j < i ==> blank@[j] || !has_substring(name@, #[trigger] all[j]),
        decreases patterns.len() - i,
    {
        assert(all[i as int] == patterns@[i as int]@);
        if !blank[i] && contains_text(name, patterns[i].as_str()) {
            return true;
        }
        i += 1;
    }
    false
}

/// Whether a process name is exempt: a case-insensitive substring match against
/// any pattern. Blank patterns are ignored, so that a stray empty entry does not
/// exempt every process.
pub fn is_exempt_match(name: &str, patterns: &[String]) -> (r: bool)
    ensures
        r == is_exempt_name(name@, texts(patterns@)),
{
    let low = lowered(name);
    let mut blank: Vec<bool> = Vec::new();
    let mut lows: Vec<String> = Vec::new();
    let mut i: usize = 0;
    let ghost all = texts(patterns@);
    while i < patterns.len()
        invariant
            i <= patterns.len(),
            all == texts(patterns@),
            blank.len() == i,
            lows.len() == i,
            forall|j: int| 0 <= j < i ==> blank@[j] == (all[j].len() == 0),
            forall|j: int| 0 <= j < i ==> #[trigger] lows@[j]@ == lowercase(all[j]),
        decreases patterns.len() - i,
    {
        assert(all[i as int] == patterns@[i as int]@);
        blank.push(patterns[i].as_str().is_empty());
        lows.push(lowered(patterns[i].as_str()));
        i += 1;
    }
    let r = is_exempt_lowered(low.as_str(), &blank, &lows);
    proof {
        if r {
            let k = choose|k: int|
                0 <= k < lows@.len() && !blank@[k] && has_substring(low@, #[trigger] texts(lows@)[k]);
            assert(texts(lows@)[k] == lows@[k]@);
            assert(all[k].len() > 0);
        } else if is_exempt_name(name@, all) {
            let k = choose|k: int|
                0 <= k < all.len() && (#[trigger] all[k]).len() > 0 && has_substring(
                    lowercase(name@),
                    lowercase(all[k]),
                );
            assert(texts(lows@)[k] == lows@[k]@);
            assert(!blank@[k]);
        }
    }
    r
}

/// Matching ignores case: names that are equal in lower case are exempt alike.
pub proof fn law_exempt_ignores_case(a: Seq<char>, b: Seq<char>, patterns: Seq<Seq<char>>)
    requires
        lowercase(a) == lowercase(b),
    ensures
        is_exempt_name(a, patterns) == is_exempt_name(b, patterns),
{
    if is_exempt_name(a, patterns) {
        let i = choose|i: int|
            0 <= i < patterns.len() && (#[trigger] patterns[i]).len() > 0 && has_substring(
                lowercase(a),
                lowercase(patterns[i]),
            );
        assert(patterns[i].len() > 0);
    }
}

/// Blank patterns exempt nothing: adding one changes nothing.
pub proof fn law_blank_pattern_is_ignored(name: Seq<char>, patterns: Seq<Seq<char>>)
    ensures
        is_exempt_name(name, patterns.push(Seq::empty())) == is_exempt_name(name, patterns),
        !is_exempt_name(name, Seq::empty()),
{
    let more = patterns.push(Seq::empty());
    if is_exempt_name(name, patterns) {
        let i = choose|i: int|
            0 <= i < patterns.len() && (#[trigger] patterns[i]).len() > 0 && has_substring(
                lowercase(name),
                lowercase(patterns[i]),
            );
        assert(more[i] == patterns[i]);
    }
    if is_exempt_name(name, more) {
        let i = choose|i: int|
            0 <= i < more.len() && (#[trigger] more[i]).len() > 0 && has_substring(
                lowercase(name),
                lowercase(more[i]),
            );
        assert(patterns[i] == more[i]);
    }
}

// ── Per-process state ────────────────────────────────────────────────────────

/// Whether a process is held back.
#[derive(Debug, Clone, Copy, PartialEq, Eq, Structural)]
pub enum ProcState {
    Normal,
    Throttled,
}

/// What is remembered of one process. Times are in milliseconds.
#[derive(Debug, Clone, Copy, PartialEq, Eq, Structural)]
pub struct ProcEntry {
    pub state: ProcState,
    /// Time spent above the threshold.
    pub consecutive_high: u64,
    /// Time spent below the restore threshold.
    pub consecutive_low: u64,
    pub original_nice: Option<i32>,
    pub throttle_nice: Option<i32>,
}

impl ProcEntry {
    /// A process that has just been met.
    pub open spec fn fresh(nice: i32) -> ProcEntry {
        ProcEntry {
            state: ProcState::Normal,
            consecutive_high: 0,
            consecutive_low: 0,
            original_nice: Some(nice),
            throttle_nice: None,
        }
    }

    /// A process that has just been met.
    pub fn new(original_nice: i32) -> (r: ProcEntry)
        ensures
            r == ProcEntry::fresh(original_nice),
    {
        ProcEntry {
            state: ProcState::Normal,
            consecutive_high: 0,
            consecutive_low: 0,
            original_nice: Some(original_nice),
            throttle_nice: None,
        }
    }
}

/// One throttled process, for display.
#[derive(Debug)]
pub struct ThrottleInfo {
    pub pid: u32,
    pub name: String,
    pub cpu_percent: Single,
    pub original_nice: i32,
    pub throttle_nice: i32,
    /// Time spent below the restore threshold so far.
    pub consecutive_low: u64,
    /// Time below the restore threshold after which the process is restored.
    pub restore_hysteresis: u64,
}

/// One process as ProBalance sees it. The load is in percent of one core.
#[derive(Debug)]
pub struct ProcSnapshot {
    pub pid: u32,
    pub name: String,
    pub cpu_percent: Single,
    pub nice: i32,
}

/// What is to be done with a process.
#[derive(Debug, Clone, Copy, PartialEq, Eq, Structural)]
pub enum Decision {
    Keep,
    Throttle { new_nice: i32 },
    Restore { original_nice: i32 },
}

// ── One step ─────────────────────────────────────────────────────────────────

/// The sum, or the greatest number where it does not fit.
pub open spec fn capped_sum(a: u64, b: u64) -> u64 {
    if a + b > u64::MAX {
        u64::MAX
    } else {
        (a + b) as u64
    }
}

/// The nice value of a throttled process: raised by the adjustment, but not
/// above the floor.
pub open spec fn throttled_nice(nice: i32, adjustment: i32, floor: i32) -> i32 {
    let raised = nice + adjustment;
    if raised > floor {
        floor
    } else if raised < i32::MIN {
        i32::MIN
    } else {
        raised as i32
    }
}

/// A load lies above a threshold in thousandths of a percent.
pub open spec fn above(cpu: Number, mpct: u32) -> bool {
    less(single(mpct as int, 1000), cpu)
}

/// A load lies below a threshold in thousandths of a percent.
pub open spec fn below(cpu: Number, mpct: u32) -> bool {
    less(cpu, single(mpct as int, 1000))
}

/// One observation of a process: its counters after it, and what is to be done.
pub open spec fn step(
    e: ProcEntry,
    cpu: Number,
    nice: i32,
    tick: u64,
    cfg: &ProBalanceConfig,
) -> (ProcEntry, Decision) {
    match e.state {
        ProcState::Normal => if above(cpu, cfg.cpu_threshold_mpct) {
            let high = capped_sum(e.consecutive_high, tick);
            if high >= cfg.consecutive_ms {
                (
                    ProcEntry { consecutive_high: high, original_nice: Some(nice), ..e },
                    Decision::Throttle {
                        new_nice: throttled_nice(nice, cfg.nice_adjustment, cfg.nice_floor),
                    },
                )
            } else {
                (ProcEntry { consecutive_high: high, ..e }, Decision::Keep)
            }
        } else {
            let high = if e.consecutive_high >= tick {
                (e.consecutive_high - tick) as u64
            } else {
                0
            };
            (ProcEntry { consecutive_high: high, ..e }, Decision::Keep)
        },
        ProcState::Throttled => if below(cpu, cfg.restore_threshold_mpct) {
            let low = capped_sum(e.consecutive_low, tick);
            let after = ProcEntry { consecutive_low: low, ..e };
            if low >= cfg.restore_hysteresis_ms {
                (
                    after,
                    Decision::Restore {
                        original_nice: match e.original_nice {
                            Some(n) => n,
                            None => 0,
                        },
                    },
                )
            } else {
                (after, Decision::Keep)
            }
        } else {
            (ProcEntry { consecutive_low: 0, ..e }, Decision::Keep)
        },
    }
}

/// Advances the counters of a process and chooses what to do. The state itself
/// changes only once the outcome is known.
pub fn decide(
    entry: &mut ProcEntry,
    proc: &ProcSnapshot,
    tick_ms: u64,
    cfg: &ProBalanceConfig,
) -> (d: Decision)
    ensures
        (*final(entry), d) == step(*old(entry), proc.cpu_percent@, proc.nice, tick_ms, cfg),
{
    match entry.state {
        ProcState::Normal => {
            if Single::of(cfg.cpu_threshold_mpct as i64, 1000).is_less(proc.cpu_percent) {
                entry.consecutive_high = entry.consecutive_high.saturating_add(tick_ms);
                if entry.consecutive_high >= cfg.consecutive_ms {
                    let raised: i64 = proc.nice as i64 + cfg.nice_adjustment as i64;
                    let new_nice: i32 = if raised > cfg.nice_floor as i64 {
                        cfg.nice_floor
                    } else if raised < i32::MIN as i64 {
                        i32::MIN
                    } else {
                        raised as i32
                    };
                    entry.original_nice = Some(proc.nice);
                    return Decision::Throttle { new_nice };
                }
            } else {
                entry.consecutive_high = entry.consecutive_high.saturating_sub(tick_ms);
            }
        },
        ProcState::Throttled => {
            if proc.cpu_percent.is_less(Single::of(cfg.restore_threshold_mpct as i64, 1000)) {
                entry.consecutive_low = entry.consecutive_low.saturating_add(tick_ms);
                if entry.consecutive_low >= cfg.restore_hysteresis_ms {
                    let orig: i32 = match entry.original_nice {
                        Some(n) => n,
                        None => 0,
                    };
                    return Decision::Restore { original_nice: orig };
                }
            } else {
                entry.consecutive_low = 0;
            }
        },
    }
    Decision::Keep
}

/// The entry after a process was throttled, or after that failed.
pub open spec fn after_throttle(e: ProcEntry, new_nice: i32, ok: bool) -> ProcEntry {
    if ok {
        ProcEntry {
            state: ProcState::Throttled,
            throttle_nice: Some(new_nice),
            consecutive_high: 0,
            consecutive_low: 0,
            ..e
        }
    } else {
        e
    }
}

/// Takes in the outcome of throttling. Where it failed the entry stays as it is,
/// so that the next round tries again without waiting for the whole time anew.
pub fn finalize_throttle(entry: &mut ProcEntry, new_nice: i32, syscall_ok: bool)
    ensures
        *final(entry) == after_throttle(*old(entry), new_nice, syscall_ok),
{
    if syscall_ok {
        entry.state = ProcState::Throttled;
        entry.throttle_nice = Some(new_nice);
        entry.consecutive_high = 0;
        entry.consecutive_low = 0;
    }
}

/// The entry after a process was restored.
pub open spec fn after_restore(original_nice: i32) -> ProcEntry {
    ProcEntry {
        state: ProcState::Normal,
        consecutive_high: 0,
        consecutive_low: 0,
        original_nice: Some(original_nice),
        throttle_nice: None,
    }
}

/// Takes in that a process was restored. The state returns to `Normal` even
/// where setting the nice value failed.
pub fn finalize_restore(entry: &mut ProcEntry, original_nice: i32)
    ensures
        *final(entry) == after_restore(original_nice),
{
    entry.state = ProcState::Normal;
    entry.consecutive_high = 0;
    entry.consecutive_low = 0;
    entry.original_nice = Some(original_nice);
    entry.throttle_nice = None;
}

/// The entry after a decision was carried out, or failed to be.
pub open spec fn settled(e: ProcEntry, d: Decision, ok: bool) -> ProcEntry {
    match d {
        Decision::Keep => e,
        Decision::Throttle { new_nice } => after_throttle(e, new_nice, ok),
        Decision::Restore { original_nice } => after_restore(original_nice),
    }
}

// ── Properties of the steps ──────────────────────────────────────────────────

/// One observation: load, nice value, time since the observation before.
pub struct Sample {
    pub cpu: Number,
    pub nice: i32,
    pub tick: u64,
}

/// The entry after a series of observations on which nothing was done.
pub open spec fn watched(e: ProcEntry, obs: Seq<Sample>, cfg: &ProBalanceConfig) -> ProcEntry
    decreases obs.len(),
{
    if obs.len() == 0 {
        e
    } else {
        let o = obs.last();
        step(watched(e, obs.drop_last(), cfg), o.cpu, o.nice, o.tick, cfg).0
    }
}

/// The time spent above the threshold.
pub open spec fn time_high(obs: Seq<Sample>, cfg: &ProBalanceConfig) -> nat
    decreases obs.len(),
{
    if obs.len() == 0 {
        0
    } else {
        time_high(obs.drop_last(), cfg) + (if above(obs.last().cpu, cfg.cpu_threshold_mpct) {
            obs.last().tick as nat
        } else {
            0
        })
    }
}

/// The time spent below the restore threshold without a break up to the end.
pub open spec fn time_calm(obs: Seq<Sample>, cfg: &ProBalanceConfig) -> nat
    decreases obs.len(),
{
    if obs.len() > 0 && below(obs.last().cpu, cfg.restore_threshold_mpct) {
        time_calm(obs.drop_last(), cfg) + obs.last().tick as nat
    } else {
        0
    }
}

/// A throttled process is never set above the floor.
pub proof fn law_nice_is_capped(
    e: ProcEntry,
    cpu: Number,
    nice: i32,
    tick: u64,
    cfg: &ProBalanceConfig,
)
    ensures
        match step(e, cpu, nice, tick, cfg).1 {
            Decision::Throttle { new_nice } => new_nice <= cfg.nice_floor,
            _ => true,
        },
{
}

/// Deciding never changes the state; only the outcome does.
pub proof fn law_deciding_keeps_the_state(e: ProcEntry, obs: Seq<Sample>, cfg: &ProBalanceConfig)
    ensures
        watched(e, obs, cfg).state == e.state,
        watched(e, obs, cfg).throttle_nice == e.throttle_nice,
        e.state is Throttled ==> watched(e, obs, cfg).original_nice == e.original_nice,
    decreases obs.len(),
{
    if obs.len() > 0 {
        law_deciding_keeps_the_state(e, obs.drop_last(), cfg);
    }
}

/// Restoring gives back the nice value that the process had when it was
/// throttled, whatever was observed in between.
pub proof fn law_restore_gives_back_the_nice_value(
    e: ProcEntry,
    hot: Sample,
    obs: Seq<Sample>,
    calm: Sample,
    cfg: &ProBalanceConfig,
    new_nice: i32,
    back: i32,
)
    requires
        step(e, hot.cpu, hot.nice, hot.tick, cfg).1 == (Decision::Throttle { new_nice }),
        ({
            let held = after_throttle(step(e, hot.cpu, hot.nice, hot.tick, cfg).0, new_nice, true);
            step(watched(held, obs, cfg), calm.cpu, calm.nice, calm.tick, cfg).1
                == (Decision::Restore { original_nice: back })
        }),
    ensures
        back == hot.nice,
        after_restore(back) == ProcEntry::fresh(hot.nice),
{
    let held = after_throttle(step(e, hot.cpu, hot.nice, hot.tick, cfg).0, new_nice, true);
    law_deciding_keeps_the_state(held, obs, cfg);
}

/// After a failed attempt the next observation above the threshold tries again.
pub proof fn law_failed_throttle_is_retried(
    e: ProcEntry,
    first: Sample,
    second: Sample,
    cfg: &ProBalanceConfig,
)
    requires
        step(e, first.cpu, first.nice, first.tick, cfg).1 is Throttle,
        above(second.cpu, cfg.cpu_threshold_mpct),
    ensures
        ({
            let (seen, d) = step(e, first.cpu, first.nice, first.tick, cfg);
            step(settled(seen, d, false), second.cpu, second.nice, second.tick, cfg).1 is Throttle
        }),
{
}

/// A process is throttled only after it has spent the whole window above the
/// threshold.
pub proof fn law_throttle_needs_the_window(
    nice: i32,
    obs: Seq<Sample>,
    cfg: &ProBalanceConfig,
)
    requires
        obs.len() > 0,
        ({
            let o = obs.last();
            step(
                watched(ProcEntry::fresh(nice), obs.drop_last(), cfg),
                o.cpu,
                o.nice,
                o.tick,
                cfg,
            ).1 is Throttle
        }),
    ensures
        time_high(obs, cfg) >= cfg.consecutive_ms,
{
    lemma_high_is_bounded(ProcEntry::fresh(nice), obs.drop_last(), cfg);
    law_deciding_keeps_the_state(ProcEntry::fresh(nice), obs.drop_last(), cfg);
}

/// The counter never exceeds the time spent above the threshold.
proof fn lemma_high_is_bounded(e: ProcEntry, obs: Seq<Sample>, cfg: &ProBalanceConfig)
    requires
        e.state is Normal,
    ensures
        watched(e, obs, cfg).consecutive_high <= e.consecutive_high + time_high(obs, cfg),
    decreases obs.len(),
{
    law_deciding_keeps_the_state(e, obs, cfg);
    if obs.len() > 0 {
        law_deciding_keeps_the_state(e, obs.drop_last(), cfg);
        lemma_high_is_bounded(e, obs.drop_last(), cfg);
    }
}

/// A process that was just throttled is restored exactly when it has been calm
/// without a break for the whole hysteresis time.
pub proof fn law_restore_needs_calm(e: ProcEntry, obs: Seq<Sample>, cfg: &ProBalanceConfig)
    requires
        e.state is Throttled,
        e.consecutive_low == 0,
        obs.len() > 0,
        time_calm(obs, cfg) <= u64::MAX,
    ensures
        ({
            let o = obs.last();
            step(watched(e, obs.drop_last(), cfg), o.cpu, o.nice, o.tick, cfg).1 is Restore
        }) <==> below(obs.last().cpu, cfg.restore_threshold_mpct) && time_calm(obs, cfg)
            >= cfg.restore_hysteresis_ms,
{
    law_deciding_keeps_the_state(e, obs.drop_last(), cfg);
    if below(obs.last().cpu, cfg.restore_threshold_mpct) {
        lemma_low_is_calm_time(e, obs.drop_last(), cfg);
    }
}

/// The counter is the calm time.
proof fn lemma_low_is_calm_time(e: ProcEntry, obs: Seq<Sample>, cfg: &ProBalanceConfig)
    requires
        e.state is Throttled,
        e.consecutive_low == 0,
        time_calm(obs, cfg) <= u64::MAX,
    ensures
        watched(e, obs, cfg).consecutive_low == time_calm(obs, cfg),
    decreases obs.len(),
{
    if obs.len() > 0 {
        law_deciding_keeps_the_state(e, obs.drop_last(), cfg);
        if below(obs.last().cpu, cfg.restore_threshold_mpct) {
            lemma_low_is_calm_time(e, obs.drop_last(), cfg);
        }
    }
}

// ── A round over all processes ───────────────────────────────────────────────

/// The process ids of a snapshot.
pub open spec fn pid_set(snapshot: Seq<ProcSnapshot>) -> Set<u32> {
    Set::new(|pid: u32| exists|i: int| 0 <= i < snapshot.len() && (#[trigger] snapshot[i]).pid == pid)
}

/// The entry of a process, or a fresh one.
pub open spec fn entry_or_fresh(states: Map<u32, ProcEntry>, pid: u32, nice: i32) -> ProcEntry {
    if states.contains_key(pid) {
        states[pid]
    } else {
        ProcEntry::fresh(nice)
    }
}

/// One process looked at: the entries after it, and what is to be done. Exempt
/// processes are passed over.
pub open spec fn considered(
    states: Map<u32, ProcEntry>,
    p: ProcSnapshot,
    tick: u64,
    cfg: &ProBalanceConfig,
) -> (Map<u32, ProcEntry>, Decision) {
    if is_exempt_name(p.name@, texts(cfg.exempt_patterns@)) {
        (states, Decision::Keep)
    } else {
        let (e, d) = step(entry_or_fresh(states, p.pid, p.nice), p.cpu_percent@, p.nice, tick, cfg);
        (states.insert(p.pid, e), d)
    }
}

/// The entries after a decision on a process was carried out, or failed to be.
pub open spec fn concluded(
    states: Map<u32, ProcEntry>,
    pid: u32,
    d: Decision,
    ok: bool,
) -> Map<u32, ProcEntry> {
    if d is Keep || !states.contains_key(pid) {
        states
    } else {
        states.insert(pid, settled(states[pid], d, ok))
    }
}

/// What is logged of a change.
pub open spec fn change_text(verb: Seq<char>, p: ProcSnapshot, to: i32) -> Seq<char> {
    "[ProBalance] "@ + verb + " "@ + p.name@ + "("@ + dec(p.pid as nat) + ") cpu="@ + tenths(
        parts(p.cpu_percent@, 10),
    ) + "% nice "@ + dec_int(p.nice as int) + "→"@ + dec_int(to as int)
}

/// What is logged after a decision was carried out; nothing where it failed.
pub open spec fn log_of(p: ProcSnapshot, d: Decision, ok: bool) -> Option<Seq<char>> {
    match d {
        Decision::Throttle { new_nice } if ok => Some(change_text("THROTTLE"@, p, new_nice)),
        Decision::Restore { original_nice } if ok => Some(
            change_text("RESTORE"@, p, original_nice),
        ),
        _ => None,
    }
}

/// The entries and the log after the first `n` processes, where `ok[i]` says
/// whether setting the nice value of the `i`th worked.
pub open spec fn round(
    states: Map<u32, ProcEntry>,
    snapshot: Seq<ProcSnapshot>,
    ok: Seq<bool>,
    n: nat,
    tick: u64,
    cfg: &ProBalanceConfig,
) -> (Map<u32, ProcEntry>, Seq<Seq<char>>)
    decreases n,
{
    if n == 0 {
        (states, Seq::empty())
    } else {
        let i = n - 1;
        let (before, log) = round(states, snapshot, ok, (n - 1) as nat, tick, cfg);
        let (seen, d) = considered(before, snapshot[i], tick, cfg);
        (
            concluded(seen, snapshot[i].pid, d, ok[i]),
            match log_of(snapshot[i], d, ok[i]) {
                Some(line) => log.push(line),
                None => log,
            },
        )
    }
}

/// The log line of a change.
fn change_line(verb: &str, p: &ProcSnapshot, to: i32) -> (s: String)
    ensures
        s@ == change_text(verb@, *p, to),
{
    let mut s = "[ProBalance] ".to_owned();
    s.append(verb);
    s.append(" ");
    s.append(p.name.as_str());
    s.append("(");
    push_dec(&mut s, p.pid as u64);
    s.append(") cpu=");
    push_tenths(&mut s, p.cpu_percent.get().parts(10));
    s.append("% nice ");
    push_int(&mut s, p.nice as i64);
    s.append("→");
    push_int(&mut s, to as i64);
    s
}

/// The balancer: its settings and what it remembers of each process.
pub struct ProBalance {
    pub cfg: ProBalanceConfig,
    pub states: IdMap<ProcEntry>,
}

impl ProBalance {
    /// A balancer that has met no process.
    pub fn new(cfg: ProBalanceConfig) -> (r: ProBalance)
        ensures
            r.cfg == cfg,
            r.states@ == Map::<u32, ProcEntry>::empty(),
    {
        ProBalance { cfg, states: IdMap::new() }
    }

    /// Changes the settings.
    pub fn update_config(&mut self, cfg: ProBalanceConfig)
        ensures
            final(self).cfg == cfg,
            final(self).states@ == old(self).states@,
    {
        self.cfg = cfg;
    }

    /// Whether a process name is exempt.
    pub fn is_exempt(&self, name: &str) -> (r: bool)
        ensures
            r == is_exempt_name(name@, texts(self.cfg.exempt_patterns@)),
    {
        is_exempt_match(name, self.cfg.exempt_patterns.as_slice())
    }

    /// Begins a round: forgets the processes that are gone. Does nothing while
    /// switched off.
    pub fn begin(&mut self, snapshot: &[ProcSnapshot])
        ensures
            final(self).cfg == old(self).cfg,
            final(self).states@ == if old(self).cfg.enabled {
                old(self).states@.restrict(pid_set(snapshot@))
            } else {
                old(self).states@
            },
    {
        if !self.cfg.enabled {
            return;
        }
        let alive = snapshot_pids(snapshot);
        self.states.retain_keys(&alive);
    }

    /// Looks at one process and says what is to be done with it.
    pub fn consider(&mut self, proc: &ProcSnapshot, tick_ms: u64) -> (d: Decision)
        ensures
            final(self).cfg == old(self).cfg,
            (final(self).states@, d) == if old(self).cfg.enabled {
                considered(old(self).states@, *proc, tick_ms, &old(self).cfg)
            } else {
                (old(self).states@, Decision::Keep)
            },
    {
        if !self.cfg.enabled || self.is_exempt(proc.name.as_str()) {
            return Decision::Keep;
        }
        let mut entry = match self.states.get(proc.pid) {
            Some(e) => *e,
            None => ProcEntry::new(proc.nice),
        };
        let d = decide(&mut entry, proc, tick_ms, &self.cfg);
        self.states.insert(proc.pid, entry);
        d
    }

    /// Takes in whether a decision could be carried out. Gives the line to log.
    pub fn conclude(&mut self, proc: &ProcSnapshot, d: Decision, ok: bool) -> (line: Option<String>)
        ensures
            final(self).cfg == old(self).cfg,
            final(self).states@ == concluded(old(self).states@, proc.pid, d, ok),
            match line {
                Some(s) => log_of(*proc, d, ok) == Some(s@),
                None => log_of(*proc, d, ok) is None,
            },
    {
        let known = match self.states.get(proc.pid) {
            Some(e) => Some(*e),
            None => None,
        };
        match d {
            Decision::Keep => None,
            Decision::Throttle { new_nice } => {
                if let Some(mut entry) = known {
                    finalize_throttle(&mut entry, new_nice, ok);
                    self.states.insert(proc.pid, entry);
                }
                if ok {
                    Some(change_line("THROTTLE", proc, new_nice))
                } else {
                    None
                }
            },
            Decision::Restore { original_nice } => {
                if let Some(mut entry) = known {
                    finalize_restore(&mut entry, original_nice);
                    self.states.insert(proc.pid, entry);
                }
                if ok {
                    Some(change_line("RESTORE", proc, original_nice))
                } else {
                    None
                }
            },
        }
    }

    /// A whole round, for a caller that knows what setting each process's nice
    /// value gives: `ok[i]` belongs to `snapshot[i]`. Gives the lines to log.
    pub fn tick(&mut self, snapshot: &[ProcSnapshot], tick_ms: u64, ok: &[bool]) -> (log: Vec<
        String,
    >)
        requires
            ok.len() == snapshot.len(),
        ensures
            final(self).cfg == old(self).cfg,
            (final(self).states@, texts(log@)) == if old(self).cfg.enabled {
                round(
                    old(self).states@.restrict(pid_set(snapshot@)),
                    snapshot@,
                    ok@,
                    snapshot@.len(),
                    tick_ms,
                    &old(self).cfg,
                )
            } else {
                (old(self).states@, Seq::empty())
            },
    {
        let mut log: Vec<String> = Vec::new();
        if !self.cfg.enabled {
            assert(texts(log@) =~= Seq::<Seq<char>>::empty());
            return log;
        }
        self.begin(snapshot);
        let ghost start = self.states@;
        let ghost cfg = self.cfg;
        let mut i: usize = 0;
        assert(texts(log@) =~= Seq::<Seq<char>>::empty());
        while i < snapshot.len()
            invariant
                i <= snapshot.len(),
                ok.len() == snapshot.len(),
                self.cfg == cfg,
                cfg.enabled,
                (self.states@, texts(log@)) == round(
                    start,
                    snapshot@,
                    ok@,
                    i as nat,
                    tick_ms,
                    &cfg,
                ),
            decreases snapshot.len() - i,
        {
            let ghost lines = texts(log@);
            let d = self.consider(&snapshot[i], tick_ms);
            match self.conclude(&snapshot[i], d, ok[i]) {
                Some(line) => {
                    let ghost l = line@;
                    log.push(line);
                    assert(texts(log@) =~= lines.push(l));
                },
                None => {},
            }
            i += 1;
        }
        log
    }

    /// The processes that are throttled now.
    pub fn throttled_pids(&self) -> (r: IdSet)
        ensures
            forall|pid: u32| #[trigger]
                r@.contains(pid) <==> self.states@.contains_key(pid) && self.states@[pid].state
                    is Throttled,
    {
        let mut r = IdSet::new();
        let pairs = self.states.pairs();
        let mut i: usize = 0;
        while i < pairs.len()
            invariant
                i <= pairs.len(),
                forall|pid: u32| #[trigger]
                    r@.contains(pid) <==> exists|j: int|
                        0 <= j < i && (#[trigger] pairs@[j]).0 == pid && pairs@[j].1.state
                            is Throttled,
            decreases pairs.len() - i,
        {
            let ghost before = r@;
            if pairs[i].1.state == ProcState::Throttled {
                r.insert(pairs[i].0);
            }
            proof {
                let n = i + 1;
                assert forall|pid: u32| #[trigger] r@.contains(pid) <==> exists|j: int|
                    0 <= j < n && (#[trigger] pairs@[j]).0 == pid && pairs@[j].1.state
                        is Throttled by {
                    if before.contains(pid) {
                        let j = choose|j: int|
                            0 <= j < i && (#[trigger] pairs@[j]).0 == pid && pairs@[j].1.state
                                is Throttled;
                        assert(pairs@[j].0 == pid);
                    }
                    if r@.contains(pid) && !before.contains(pid) {
                        assert(pairs@[i as int].0 == pid);
                    }
                }
            }
            i += 1;
        }
        proof {
            assert forall|pid: u32| #[trigger] r@.contains(pid) <==> self.states@.contains_key(pid)
                && self.states@[pid].state is Throttled by {
                if r@.contains(pid) {
                    let j = choose|j: int|
                        0 <= j < i && (#[trigger] pairs@[j]).0 == pid && pairs@[j].1.state
                            is Throttled;
                    assert(pairs@[j].0 == pid);
                }
                if self.states@.contains_key(pid) {
                    assert(crate::idmap::keys_of(pairs@).contains(pid));
                    let ks = crate::idmap::keys_of(pairs@);
                    let j = choose|j: int| 0 <= j < ks.len() && ks[j] == pid;
                    assert(pairs@[j].0 == pid);
                }
            }
        }
        r
    }

    /// The number of processes that are remembered.
    pub fn tracked_pid_count(&self) -> (n: usize)
        ensures
            n == self.states@.dom().len(),
    {
        self.states.len()
    }
}

/// The process ids of a snapshot.
pub fn snapshot_pids(snapshot: &[ProcSnapshot]) -> (r: IdSet)
    ensures
        r@ == pid_set(snapshot@),
{
    let mut r = IdSet::new();
    let mut i: usize = 0;
    while i < snapshot.len()
        invariant
            i <= snapshot.len(),
            forall|pid: u32| #[trigger]
                r@.contains(pid) <==> exists|j: int|
                    0 <= j < i && (#[trigger] snapshot@[j]).pid == pid,
        decreases snapshot.len() - i,
    {
        let ghost before = r@;
        r.insert(snapshot[i].pid);
        proof {
            let n = i + 1;
            assert forall|pid: u32| #[trigger] r@.contains(pid) <==> exists|j: int|
                0 <= j < n && (#[trigger] snapshot@[j]).pid == pid by {
                if before.contains(pid) {
                    let j = choose|j: int| 0 <= j < i && (#[trigger] snapshot@[j]).pid == pid;
                    assert(snapshot@[j].pid == pid);
                }
                assert(snapshot@[i as int].pid == snapshot@[i as int].pid);
            }
        }
        i += 1;
    }
    assert(r@ =~= pid_set(snapshot@));
    r
}

// ── Display ──────────────────────────────────────────────────────────────────

/// The throttled ones among the entries, in their order.
pub open spec fn throttled_of(s: Seq<(u32, ProcEntry)>) -> Seq<(u32, ProcEntry)>
    decreases s.len(),
{
    if s.len() == 0 {
        s
    } else if s.last().1.state is Throttled {
        throttled_of(s.drop_last()).push(s.last())
    } else {
        throttled_of(s.drop_last())
    }
}

/// The last place in the snapshot at which a process stands.
pub open spec fn last_seen(snapshot: Seq<ProcSnapshot>, pid: u32) -> Option<int>
    decreases snapshot.len(),
{
    if snapshot.len() == 0 {
        None
    } else if snapshot.last().pid == pid {
        Some(snapshot.len() - 1)
    } else {
        last_seen(snapshot.drop_last(), pid)
    }
}

/// What is shown of a throttled process. One that the snapshot lacks is called
/// `unknown`.
pub open spec fn shows(
    info: ThrottleInfo,
    pair: (u32, ProcEntry),
    snapshot: Seq<ProcSnapshot>,
    hysteresis: u64,
) -> bool {
    &&& info.pid == pair.0
    &&& match last_seen(snapshot, pair.0) {
        Some(i) => info.name@ == snapshot[i].name@ && info.cpu_percent == snapshot[i].cpu_percent,
        None => info.name@ == "unknown"@ && info.cpu_percent@ == single(0, 1),
    }
    &&& info.original_nice == (match pair.1.original_nice {
        Some(n) => n,
        None => 0,
    })
    &&& info.throttle_nice == (match pair.1.throttle_nice {
        Some(n) => n,
        None => 0,
    })
    &&& info.consecutive_low == pair.1.consecutive_low
    &&& info.restore_hysteresis == hysteresis
}

/// Finds the last place in the snapshot at which a process stands.
fn find_last(snapshot: &[ProcSnapshot], pid: u32) -> (r: Option<usize>)
    ensures
        match r {
            Some(i) => i < snapshot@.len() && last_seen(snapshot@, pid) == Some(i as int),
            None => last_seen(snapshot@, pid) is None,
        },
{
    let mut n: usize = snapshot.len();
    assert(snapshot@.take(n as int) =~= snapshot@);
    while n > 0
        invariant
            n <= snapshot.len(),
            last_seen(snapshot@, pid) == last_seen(snapshot@.take(n as int), pid),
        decreases n,
    {
        assert(snapshot@.take(n as int).drop_last() =~= snapshot@.take(n - 1));
        if snapshot[n - 1].pid == pid {
            return Some(n - 1);
        }
        n -= 1;
    }
    None
}

impl ProBalance {
    /// What is shown of all throttled processes, in the order of their ids.
    pub fn throttle_infos(&self, snapshot: &[ProcSnapshot]) -> (r: Vec<ThrottleInfo>)
        ensures
            r.len() == throttled_of(self.states.order()).len(),
            forall|i: int|
                0 <= i < r.len() ==> shows(
                    #[trigger] r[i],
                    throttled_of(self.states.order())[i],
                    snapshot@,
                    self.cfg.restore_hysteresis_ms,
                ),
    {
        let mut out: Vec<ThrottleInfo> = Vec::new();
        let pairs = self.states.pairs();
        let mut i: usize = 0;
        while i < pairs.len()
            invariant
                i <= pairs.len(),
                out.len() == throttled_of(pairs@.take(i as int)).len(),
                forall|j: int|
                    0 <= j < out.len() ==> shows(
                        #[trigger] out[j],
                        throttled_of(pairs@.take(i as int))[j],
                        snapshot@,
                        self.cfg.restore_hysteresis_ms,
                    ),
            decreases pairs.len() - i,
        {
            assert(pairs@.take(i + 1).drop_last() =~= pairs@.take(i as int));
            let (pid, e) = pairs[i];
            if e.state == ProcState::Throttled {
                let (name, cpu_percent) = match find_last(snapshot, pid) {
                    Some(k) => (snapshot[k].name.clone(), snapshot[k].cpu_percent),
                    None => ("unknown".to_owned(), Single::whole(0)),
                };
                out.push(
                    ThrottleInfo {
                        pid,
                        name,
                        cpu_percent,
                        original_nice: match e.original_nice {
                            Some(n) => n,
                            None => 0,
                        },
                        throttle_nice: match e.throttle_nice {
                            Some(n) => n,
                            None => 0,
                        },
                        consecutive_low: e.consecutive_low,
                        restore_hysteresis: self.cfg.restore_hysteresis_ms,
                    },
                );
            }
            i += 1;
        }
        assert(pairs@.take(i as int) =~= pairs@);
        out
    }
}

// ── Properties of a round ────────────────────────────────────────────────────

/// A round remembers no process that the snapshot lacks.
pub proof fn law_dead_processes_are_forgotten(
    states: Map<u32, ProcEntry>,
    snapshot: Seq<ProcSnapshot>,
    ok: Seq<bool>,
    tick: u64,
    cfg: &ProBalanceConfig,
    pid: u32,
)
    requires
        !pid_set(snapshot).contains(pid),
    ensures
        !round(
            states.restrict(pid_set(snapshot)),
            snapshot,
            ok,
            snapshot.len(),
            tick,
            cfg,
        ).0.contains_key(pid),
{
    lemma_round_keys(states.restrict(pid_set(snapshot)), snapshot, ok, snapshot.len(), tick, cfg, pid);
}

/// A round touches only processes of the snapshot.
proof fn lemma_round_keys(
    states: Map<u32, ProcEntry>,
    snapshot: Seq<ProcSnapshot>,
    ok: Seq<bool>,
    n: nat,
    tick: u64,
    cfg: &ProBalanceConfig,
    pid: u32,
)
    requires
        n <= snapshot.len(),
        !pid_set(snapshot).contains(pid),
        !states.contains_key(pid),
    ensures
        !round(states, snapshot, ok, n, tick, cfg).0.contains_key(pid),
    decreases n,
{
    if n > 0 {
        lemma_round_keys(states, snapshot, ok, (n - 1) as nat, tick, cfg, pid);
        assert(snapshot[n - 1].pid != pid);
    }
}

/// Exempt processes are left alone: what is remembered of them does not change,
/// and one that was not tracked stays untracked.
pub proof fn law_exempt_processes_are_left_alone(
    states: Map<u32, ProcEntry>,
    snapshot: Seq<ProcSnapshot>,
    ok: Seq<bool>,
    n: nat,
    tick: u64,
    cfg: &ProBalanceConfig,
    pid: u32,
)
    requires
        n <= snapshot.len(),
        forall|i: int|
            0 <= i < n && (#[trigger] snapshot[i]).pid == pid ==> is_exempt_name(
                snapshot[i].name@,
                texts(cfg.exempt_patterns@),
            ),
    ensures
        ({
            let after = round(states, snapshot, ok, n, tick, cfg).0;
            &&& after.contains_key(pid) == states.contains_key(pid)
            &&& states.contains_key(pid) ==> after[pid] == states[pid]
        }),
    decreases n,
{
    if n > 0 {
        law_exempt_processes_are_left_alone(states, snapshot, ok, (n - 1) as nat, tick, cfg, pid);
        assert(snapshot[n - 1].pid == pid ==> is_exempt_name(
            snapshot[n - 1].name@,
            texts(cfg.exempt_patterns@),
        ));
    }
}

/// Every process of the snapshot that is not exempt is remembered after a round.
pub proof fn law_others_are_tracked(
    states: Map<u32, ProcEntry>,
    snapshot: Seq<ProcSnapshot>,
    ok: Seq<bool>,
    n: nat,
    tick: u64,
    cfg: &ProBalanceConfig,
    i: int,
)
    requires
        0 <= i < n <= snapshot.len(),
        !is_exempt_name(snapshot[i].name@, texts(cfg.exempt_patterns@)),
    ensures
        round(states, snapshot, ok, n, tick, cfg).0.contains_key(snapshot[i].pid),
    decreases n,
{
    if i < n - 1 {
        law_others_are_tracked(states, snapshot, ok, (n - 1) as nat, tick, cfg, i);
    }
}

/// Processes that stay at or below the threshold are never throttled: a round in
/// which none is above it, begun with none throttled, throttles none and logs
/// nothing.
pub proof fn law_calm_processes_are_not_throttled(
    states: Map<u32, ProcEntry>,
    snapshot: Seq<ProcSnapshot>,
    ok: Seq<bool>,
    n: nat,
    tick: u64,
    cfg: &ProBalanceConfig,
)
    requires
        n <= snapshot.len(),
        forall|i: int| 0 <= i < n ==> !above((#[trigger] snapshot[i]).cpu_percent@, cfg.cpu_threshold_mpct),
        forall|pid: u32| #[trigger] states.contains_key(pid) ==> states[pid].state is Normal,
    ensures
        ({
            let (after, log) = round(states, snapshot, ok, n, tick, cfg);
            &&& forall|pid: u32| #[trigger] after.contains_key(pid) ==> after[pid].state is Normal
            &&& log.len() == 0
        }),
    decreases n,
{
    if n > 0 {
        law_calm_processes_are_not_throttled(states, snapshot, ok, (n - 1) as nat, tick, cfg);
        assert(!above(snapshot[n - 1].cpu_percent@, cfg.cpu_threshold_mpct));
    }
}

// ── What a decision means ────────────────────────────────────────────────────

/// A process that is not throttled gathers time while its load, as a number of percent,
/// exceeds the threshold, and loses time otherwise. It is throttled as soon as the time
/// has come, to its own nice value raised by the adjustment but not above the floor.
/// A load at or below the threshold never has it throttled.
pub proof fn law_only_hogs_gather_time(
    entry: &mut ProcEntry,
    proc: &ProcSnapshot,
    tick: u64,
    cfg: &ProBalanceConfig,
    d: Decision,
)
    requires
        call_ensures(decide, (entry, proc, tick, cfg), d),
        is_single(proc.cpu_percent@),
        old(entry).state is Normal,
        old(entry).consecutive_high + tick <= u64::MAX,
    ensures
        ({
            let load = proc.cpu_percent@;
            let limit = cfg.cpu_threshold_mpct as int;
            let (before, after) = (old(entry).consecutive_high, final(entry).consecutive_high);
            let raised = proc.nice + cfg.nice_adjustment;
            &&& !exceeds(load, limit, 1000) ==> {
                &&& d == Decision::Keep
                &&& after as int == if before >= tick {
                    before - tick
                } else {
                    0
                }
                &&& final(entry).original_nice == old(entry).original_nice
            }
            &&& exceeds(load, limit, 1000) && load != single(limit, 1000) ==> {
                &&& after as int == before + tick
                &&& before + tick < cfg.consecutive_ms ==> d == Decision::Keep
                &&& before + tick >= cfg.consecutive_ms ==> {
                    &&& d is Throttle
                    &&& final(entry).original_nice == Some(proc.nice)
                    &&& d->new_nice <= cfg.nice_floor
                    &&& i32::MIN <= raised <= cfg.nice_floor ==> d->new_nice as int == raised
                    &&& raised > cfg.nice_floor ==> d->new_nice == cfg.nice_floor
                }
            }
            &&& final(entry).state is Normal
            &&& final(entry).consecutive_low == old(entry).consecutive_low
            &&& final(entry).throttle_nice == old(entry).throttle_nice
        }),
{
    law_limits_compare_by_value(proc.cpu_percent@, cfg.cpu_threshold_mpct as int, 1000);
}

/// A throttled process gathers calm time while its load, as a number of percent, is
/// below the restore threshold, and loses all of it otherwise. It is restored as soon as
/// the time has come, to the nice value that it had.
pub proof fn law_only_calm_is_restored(
    entry: &mut ProcEntry,
    proc: &ProcSnapshot,
    tick: u64,
    cfg: &ProBalanceConfig,
    d: Decision,
)
    requires
        call_ensures(decide, (entry, proc, tick, cfg), d),
        is_single(proc.cpu_percent@),
        old(entry).state is Throttled,
        old(entry).consecutive_low + tick <= u64::MAX,
    ensures
        ({
            let load = proc.cpu_percent@;
            let limit = cfg.restore_threshold_mpct as int;
            let (before, after) = (old(entry).consecutive_low, final(entry).consecutive_low);
            &&& !falls_short(load, limit, 1000) ==> d == Decision::Keep && after == 0
            &&& falls_short(load, limit, 1000) && load != single(limit, 1000) ==> {
                &&& after as int == before + tick
                &&& before + tick < cfg.restore_hysteresis_ms ==> d == Decision::Keep
                &&& before + tick >= cfg.restore_hysteresis_ms ==> d is Restore && (
                old(entry).original_nice is Some ==> d->original_nice
                    == old(entry).original_nice->0)
            }
            &&& final(entry).state is Throttled
            &&& final(entry).consecutive_high == old(entry).consecutive_high
            &&& final(entry).original_nice == old(entry).original_nice
            &&& final(entry).throttle_nice == old(entry).throttle_nice
        }),
{
    law_limits_compare_by_value(proc.cpu_percent@, cfg.restore_threshold_mpct as int, 1000);
}

/// A process becomes throttled only where setting its nice value worked; where it
/// failed, nothing that was gathered is lost.
pub proof fn law_throttled_only_on_success(entry: &mut ProcEntry, new_nice: i32, ok: bool)
    requires
        call_ensures(finalize_throttle, (entry, new_nice, ok), ()),
    ensures
        !ok ==> *final(entry) == *old(entry),
        ok ==> {
            &&& final(entry).state is Throttled
            &&& final(entry).throttle_nice == Some(new_nice)
            &&& final(entry).original_nice == old(entry).original_nice
            &&& final(entry).consecutive_high == 0
            &&& final(entry).consecutive_low == 0
        },
{
}

/// A process that was restored starts anew.
pub proof fn law_restored_process_starts_anew(entry: &mut ProcEntry, nice: i32, r: ProcEntry)
    requires
        call_ensures(finalize_restore, (entry, nice), ()),
        call_ensures(ProcEntry::new, (nice,), r),
    ensures
        *final(entry) == r,
        r.state is Normal,
        r.consecutive_high == 0,
        r.consecutive_low == 0,
        r.original_nice == Some(nice),
        r.throttle_nice is None,
{
}

/// A name is exempt just where it holds one of the patterns, other than the empty one,
/// with whatever before and behind it. Case is ignored.
pub proof fn law_exempt_names_hold_a_pattern(name: &str, patterns: &[String], r: bool)
    requires
        call_ensures(is_exempt_match, (name, patterns), r),
    ensures
        r <==> exists|i: int, a: Seq<char>, b: Seq<char>|
            0 <= i < patterns@.len() && patterns@[i]@.len() > 0 && lowercase(name@)
                == #[trigger] (a + lowercase((#[trigger] patterns@[i])@) + b),
{
    let all = texts(patterns@);
    let low = lowercase(name@);
    if r {
        let i = choose|i: int|
            0 <= i < all.len() && (#[trigger] all[i]).len() > 0 && has_substring(
                low,
                lowercase(all[i]),
            );
        assert(all[i] == patterns@[i]@);
        law_substring_stands_between(low, lowercase(patterns@[i]@));
        let (a, b) = choose|a: Seq<char>, b: Seq<char>|
            low == #[trigger] (a + lowercase(patterns@[i]@) + b);
        assert(low == a + lowercase(patterns@[i]@) + b);
    }
    if exists|i: int, a: Seq<char>, b: Seq<char>|
        0 <= i < patterns@.len() && patterns@[i]@.len() > 0 && low == #[trigger] (a + lowercase(
            (#[trigger] patterns@[i])@,
        ) + b) {
        let (i, a, b) = choose|i: int, a: Seq<char>, b: Seq<char>|
            0 <= i < patterns@.len() && patterns@[i]@.len() > 0 && low == #[trigger] (a + lowercase(
                (#[trigger] patterns@[i])@,
            ) + b);
        crate::text::lemma_substring_of_concat(a, lowercase(patterns@[i]@), b);
        assert(all[i] == patterns@[i]@);
    }
}

/// Looking at a process changes the entry of that process only, and nothing at all while
/// ProBalance is off. A process that is met for the first time is throttled only where
/// its load exceeds the threshold and one look makes up the whole time.
pub proof fn law_looking_touches_one_process(
    pb: &mut ProBalance,
    proc: &ProcSnapshot,
    tick: u64,
    d: Decision,
)
    requires
        call_ensures(ProBalance::consider, (pb, proc, tick), d),
        is_single(proc.cpu_percent@),
    ensures
        !old(pb).cfg.enabled ==> d == Decision::Keep && final(pb).states@ == old(pb).states@,
        forall|pid: u32|
            pid != proc.pid ==> #[trigger] final(pb).states@.contains_key(pid)
                == old(pb).states@.contains_key(pid),
        forall|pid: u32|
            pid != proc.pid && old(pb).states@.contains_key(pid) ==> #[trigger]
                final(pb).states@[pid] == old(pb).states@[pid],
        !old(pb).states@.contains_key(proc.pid) && d is Throttle ==> {
            &&& exceeds(proc.cpu_percent@, old(pb).cfg.cpu_threshold_mpct as int, 1000)
            &&& tick >= old(pb).cfg.consecutive_ms
        },
        d is Restore ==> {
            &&& old(pb).states@.contains_key(proc.pid)
            &&& old(pb).states@[proc.pid].state is Throttled
            &&& falls_short(proc.cpu_percent@, old(pb).cfg.restore_threshold_mpct as int, 1000)
        },
{
    let load = proc.cpu_percent@;
    law_limits_compare_by_value(load, old(pb).cfg.cpu_threshold_mpct as int, 1000);
    law_limits_compare_by_value(load, old(pb).cfg.restore_threshold_mpct as int, 1000);
}

/// A round with one process is one look at it: what has ended is forgotten, the process is
/// considered, and what came of that is noted.
pub proof fn law_round_is_a_look_at_each_process(
    b: &mut ProBalance,
    begun: &mut ProBalance,
    seen: &mut ProBalance,
    done: &mut ProBalance,
    snapshot: &[ProcSnapshot],
    p: &ProcSnapshot,
    tick: u64,
    ok: &[bool],
    log: Vec<String>,
    d: Decision,
    line: Option<String>,
)
    requires
        call_ensures(ProBalance::tick, (b, snapshot, tick, ok), log),
        snapshot@.len() == 1,
        ok@.len() == 1,
        *p == snapshot@[0],
        *old(begun) == *old(b),
        call_ensures(ProBalance::begin, (begun, snapshot), ()),
        *old(seen) == *final(begun),
        call_ensures(ProBalance::consider, (seen, p, tick), d),
        *old(done) == *final(seen),
        call_ensures(ProBalance::conclude, (done, p, d, ok@[0]), line),
        old(b).cfg.enabled,
    ensures
        final(b).states@ == final(done).states@,
        line is Some ==> log@.len() == 1 && log@[0]@ == line->0@,
        line is None ==> log@.len() == 0,
        final(b).cfg == old(b).cfg,
{
    let m = old(b).states@.restrict(pid_set(snapshot@));
    assert(round(m, snapshot@, ok@, 0, tick, &old(b).cfg) == (m, Seq::<Seq<char>>::empty()));
    assert(texts(log@).len() == log@.len());
    if log@.len() > 0 {
        assert(texts(log@)[0] == log@[0]@);
    }
    let (s, l) = round(m, snapshot@, ok@, 1, tick, &old(b).cfg);
    assert(texts(log@) == l);
    assert(log_of(*p, d, ok@[0]) is Some ==> l =~= seq![log_of(*p, d, ok@[0])->0]);
    assert(log_of(*p, d, ok@[0]) is None ==> l =~= Seq::<Seq<char>>::empty());
}

/// While balancing is switched off nothing is looked at and nothing changes.
pub proof fn law_nothing_happens_while_switched_off(
    b: &mut ProBalance,
    snapshot: &[ProcSnapshot],
    tick: u64,
    ok: &[bool],
    log: Vec<String>,
    c: &mut ProBalance,
    p: &ProcSnapshot,
    d: Decision,
)
    requires
        call_ensures(ProBalance::tick, (b, snapshot, tick, ok), log),
        call_ensures(ProBalance::consider, (c, p, tick), d),
        ok@.len() == snapshot@.len(),
        !old(b).cfg.enabled,
        !old(c).cfg.enabled,
    ensures
        log@.len() == 0,
        final(b).states@ == old(b).states@,
        d == Decision::Keep,
        final(c).states@ == old(c).states@,
{
    assert(texts(log@).len() == log@.len());
}

/// What has ended is forgotten when a round begins, and nothing else.
pub proof fn law_round_begins_with_what_still_runs(
    b: &mut ProBalance,
    snapshot: &[ProcSnapshot],
    pid: u32,
)
    requires
        call_ensures(ProBalance::begin, (b, snapshot), ()),
        old(b).cfg.enabled,
    ensures
        final(b).states@.contains_key(pid) <==> old(b).states@.contains_key(pid) && exists|i: int|
            0 <= i < snapshot@.len() && (#[trigger] snapshot@[i]).pid == pid,
        final(b).states@.contains_key(pid) ==> final(b).states@[pid] == old(b).states@[pid],
{
}

/// A process counts as throttled only after its priority was lowered, and as restored in
/// any case; only what succeeded is reported.
pub proof fn law_only_success_is_reported(
    b: &mut ProBalance,
    p: &ProcSnapshot,
    d: Decision,
    ok: bool,
    line: Option<String>,
)
    requires
        call_ensures(ProBalance::conclude, (b, p, d, ok), line),
        old(b).states@.contains_key(p.pid),
    ensures
        final(b).states@.contains_key(p.pid),
        d is Keep ==> line is None && final(b).states@ == old(b).states@,
        !ok ==> line is None,
        ok && !(d is Keep) ==> line is Some,
        d is Throttle && ok ==> final(b).states@[p.pid].state is Throttled
            && final(b).states@[p.pid].throttle_nice == Some(d->new_nice),
        d is Throttle && !ok ==> final(b).states@[p.pid] == old(b).states@[p.pid],
        d matches Decision::Restore { original_nice } ==> final(b).states@[p.pid].state is Normal
            && final(b).states@[p.pid].original_nice == Some(original_nice),
{
}

/// The list of throttled processes holds each process that is throttled, with the
/// priorities that it had and has.
pub proof fn law_every_throttled_process_is_listed(
    b: &ProBalance,
    snapshot: &[ProcSnapshot],
    r: Vec<ThrottleInfo>,
    set: IdSet,
    pid: u32,
)
    requires
        call_ensures(ProBalance::throttle_infos, (b, snapshot), r),
        call_ensures(ProBalance::throttled_pids, (b,), set),
    ensures
        set@.contains(pid) <==> exists|i: int| 0 <= i < r@.len() && (#[trigger] r@[i]).pid == pid,
        forall|i: int| 0 <= i < r@.len() ==> {
            let e = b.states@[(#[trigger] r@[i]).pid];
            &&& e.state is Throttled
            &&& e.original_nice is Some ==> r@[i].original_nice == e.original_nice->0
            &&& e.throttle_nice is Some ==> r@[i].throttle_nice == e.throttle_nice->0
            &&& r@[i].consecutive_low == e.consecutive_low
        },
{
    let o = crate::idmap::ordered_pairs(b.states@);
    crate::idmap::law_order_holds_the_pairs(b.states@);
    let t = throttled_of(o);
    lemma_throttled_of(o);
    assert forall|i: int| 0 <= i < r@.len() implies b.states@.contains_key((#[trigger] r@[i]).pid)
        && b.states@[r@[i].pid] == t[i].1 && t[i].1.state is Throttled && shows(
        r@[i],
        t[i],
        snapshot@,
        b.cfg.restore_hysteresis_ms,
    ) by {
        assert(shows(r@[i], t[i], snapshot@, b.cfg.restore_hysteresis_ms));
        assert(t.contains(t[i]));
        assert(o.contains((t[i].0, t[i].1)));
    }
    if set@.contains(pid) {
        assert(o.contains((pid, b.states@[pid])));
        let x = (pid, b.states@[pid]);
        assert(t.contains(x));
        let i = choose|i: int| 0 <= i < t.len() && t[i] == x;
        assert(shows(r@[i], t[i], snapshot@, b.cfg.restore_hysteresis_ms));
        assert(r@[i].pid == pid);
    }
}

/// Which pairs are those of throttled processes.
proof fn lemma_throttled_of(s: Seq<(u32, ProcEntry)>)
    ensures
        forall|x: (u32, ProcEntry)| #[trigger]
            throttled_of(s).contains(x) <==> s.contains(x) && x.1.state is Throttled,
    decreases s.len(),
{
    if s.len() > 0 {
        let d = s.drop_last();
        lemma_throttled_of(d);
        let (a, b) = (throttled_of(d), throttled_of(s));
        assert forall|x: (u32, ProcEntry)| #[trigger] b.contains(x) <==> s.contains(x) && x.1.state
            is Throttled by {
            assert(a.contains(x) <==> d.contains(x) && x.1.state is Throttled);
            if d.contains(x) {
                let i = choose|i: int| 0 <= i < d.len() && d[i] == x;
                assert(s[i] == x);
            }
            if s.contains(x) && x != s.last() {
                let i = choose|i: int| 0 <= i < s.len() && s[i] == x;
                assert(d[i] == x);
            }
            assert(s[s.len() - 1] == s.last());
            if s.last().1.state is Throttled {
                assert(b[a.len() as int] == s.last());
                if a.contains(x) {
                    let i = choose|i: int| 0 <= i < a.len() && a[i] == x;
                    assert(b[i] == x);
                }
                if b.contains(x) && x != s.last() {
                    let i = choose|i: int| 0 <= i < b.len() && b[i] == x;
                    assert(a[i] == x);
                }
            }
        }
    } else {
        assert(throttled_of(s) =~= s);
    }
}

/// A look at a process decides as for its entry, or for a new one where it has none; an
/// exempt process is left alone.
pub proof fn law_looking_decides_for_the_entry(
    b: &mut ProBalance,
    p: &ProcSnapshot,
    tick: u64,
    d: Decision,
    fresh: ProcEntry,
    entry: &mut ProcEntry,
    cfg: &ProBalanceConfig,
    e: Decision,
    name: &str,
    patterns: &[String],
    exempt: bool,
)
    requires
        call_ensures(ProBalance::consider, (b, p, tick), d),
        call_ensures(ProcEntry::new, (p.nice,), fresh),
        *old(entry) == if old(b).states@.contains_key(p.pid) {
            old(b).states@[p.pid]
        } else {
            fresh
        },
        *cfg == old(b).cfg,
        call_ensures(decide, (entry, p, tick, cfg), e),
        name@ == p.name@,
        patterns@ == old(b).cfg.exempt_patterns@,
        call_ensures(is_exempt_match, (name, patterns), exempt),
        old(b).cfg.enabled,
    ensures
        exempt ==> d == Decision::Keep && final(b).states@ == old(b).states@,
        !exempt ==> d == e && final(b).states@.contains_key(p.pid) && final(b).states@[p.pid]
            == *final(entry),
        fresh.state is Normal && fresh.original_nice == Some(p.nice) && fresh.consecutive_high == 0,
{
}

} // verus!
