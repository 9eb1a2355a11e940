//! The monitor's loop: what is due when, and what is done about new processes,
//! games, manual changes and throttled processes.
//!
//! The caller runs the loop. It reads the clock and the processes, hands them in,
//! and carries out what comes back. Times are in milliseconds of its clock.

use vstd::prelude::*;
use vstd::string::*;

use crate::binary::{single, Single};
use crate::config::MonitorConfig;
use crate::cpu_park::{bracket_list, bracketed};
use crate::idmap::{keys_of, IdMap};
use crate::idset::IdSet;
use crate::monitor::{is_game_process, looks_like_game, ProcInfo};
use crate::number::{dec, push_dec};
use crate::probalance::{ProcSnapshot, ThrottleInfo};
use crate::text::{same_text, texts};

verus! {

// ── Timing ───────────────────────────────────────────────────────────────────

/// What is due now.
#[derive(Debug, Clone, Copy, PartialEq, Eq, Structural)]
pub struct Due {
    /// A new snapshot has to be taken first.
    pub snapshot: bool,
    pub enforce: bool,
    pub probalance: bool,
    pub publish: bool,
}

/// `ms` have passed since `last`.
pub open spec fn passed(now: u64, last: u64, ms: u64) -> bool {
    now >= last && now - last >= ms
}

/// Whether `ms` have passed since `last`.
fn has_passed(now: u64, last: u64, ms: u64) -> (r: bool)
    ensures
        r == passed(now, last, ms),
{
    now >= last && now - last >= ms
}

/// How long the loop sleeps: as long as the enforcement interval, but between 50
/// and 500.
pub fn sleep_ms(cfg: &MonitorConfig) -> (r: u64)
    ensures
        r == if cfg.rule_enforce_interval_ms < 50 {
            50
        } else if cfg.rule_enforce_interval_ms > 500 {
            500
        } else {
            cfg.rule_enforce_interval_ms
        },
{
    let e: u64 = cfg.rule_enforce_interval_ms;
    if e < 50 {
        50
    } else if e > 500 {
        500
    } else {
        e
    }
}

// ── Gaming mode ──────────────────────────────────────────────────────────────

/// Whether gaming mode is on, and on whose behalf.
#[derive(Debug, Clone, Copy, PartialEq, Eq, Structural)]
pub struct Gaming {
    pub active: bool,
    /// Games get a higher priority.
    pub elevate_nice: bool,
    /// It was switched on because a game was seen.
    pub auto: bool,
    /// Snapshots in a row without a game.
    pub absent: u32,
}

/// What follows from a look at the processes.
#[derive(Debug, Clone, Copy, PartialEq, Eq, Structural)]
pub enum GamingChange {
    Unchanged,
    /// Gaming mode goes on because of the process at this place.
    Enabled { game: usize },
    /// Gaming mode goes off because the game is gone.
    Disabled,
}

/// Off, and nothing seen.
pub open spec fn gaming_off() -> Gaming {
    Gaming { active: false, elevate_nice: false, auto: false, absent: 0 }
}

/// A switch by hand. It takes ownership: what was switched by hand is not switched
/// back automatically.
pub open spec fn gaming_set(active: bool, elevate_nice: bool) -> Gaming {
    Gaming { active, elevate_nice, auto: false, absent: 0 }
}

/// The first process that looks like a game.
pub open spec fn first_game(rows: Seq<ProcInfo>) -> Option<int>
    decreases rows.len(),
{
    if rows.len() == 0 {
        None
    } else {
        match first_game(rows.drop_last()) {
            Some(i) => Some(i),
            None => if looks_like_game(rows.last().cmdline@) {
                Some(rows.len() - 1)
            } else {
                None
            },
        }
    }
}

/// One look at the processes while detection is on. Gaming mode goes off only where
/// it went on automatically, and only after two looks without a game, so that a
/// restart of the game does not toggle it.
pub open spec fn gaming_observed(g: Gaming, game: Option<int>) -> (Gaming, GamingChange) {
    match game {
        Some(i) => if g.active {
            (Gaming { absent: 0, ..g }, GamingChange::Unchanged)
        } else {
            (
                Gaming { active: true, elevate_nice: true, auto: true, absent: 0 },
                GamingChange::Enabled { game: i as usize },
            )
        },
        None => if g.auto && g.active {
            if g.absent >= 1 {
                (
                    Gaming { active: false, auto: false, absent: 0, ..g },
                    GamingChange::Disabled,
                )
            } else {
                (Gaming { absent: 1, ..g }, GamingChange::Unchanged)
            }
        } else {
            (g, GamingChange::Unchanged)
        },
    }
}

/// Finds the first process that looks like a game.
fn find_game(rows: &Vec<ProcInfo>) -> (r: Option<usize>)
    ensures
        match r {
            Some(i) => i < rows.len() && first_game(rows@) == Some(i as int),
            None => first_game(rows@) is None,
        },
{
    let mut i: usize = 0;
    assert(rows@.take(0) =~= Seq::<ProcInfo>::empty());
    while i < rows.len()
        invariant
            i <= rows.len(),
            first_game(rows@.take(i as int)) is None,
        decreases rows.len() - i,
    {
        assert(rows@.take(i + 1).drop_last() =~= rows@.take(i as int));
        if is_game_process(&rows[i]) {
            proof {
                lemma_first_game_prefix(rows@, i + 1);
            }
            return Some(i);
        }
        i += 1;
    }
    assert(rows@.take(i as int) =~= rows@);
    None
}

/// The first game of a beginning is the first of all.
proof fn lemma_first_game_prefix(rows: Seq<ProcInfo>, n: int)
    requires
        0 <= n <= rows.len(),
        first_game(rows.take(n)) is Some,
    ensures
        first_game(rows) == first_game(rows.take(n)),
    decreases rows.len() - n,
{
    if n < rows.len() {
        assert(rows.take(n + 1).drop_last() =~= rows.take(n));
        lemma_first_game_prefix(rows, n + 1);
    } else {
        assert(rows.take(n) =~= rows);
    }
}

impl Gaming {
    /// Off, and nothing seen.
    pub fn new() -> (r: Gaming)
        ensures
            r == gaming_off(),
    {
        Gaming { active: false, elevate_nice: false, auto: false, absent: 0 }
    }

    /// Switches by hand.
    pub fn set(&mut self, active: bool, elevate_nice: bool)
        ensures
            *final(self) == gaming_set(active, elevate_nice),
    {
        *self = Gaming { active, elevate_nice, auto: false, absent: 0 };
    }

    /// Looks for a game among the processes.
    pub fn observe(&mut self, auto_detect: bool, rows: &Vec<ProcInfo>) -> (change: GamingChange)
        ensures
            (*final(self), change) == if auto_detect {
                gaming_observed(*old(self), first_game(rows@))
            } else {
                (*old(self), GamingChange::Unchanged)
            },
    {
        if !auto_detect {
            return GamingChange::Unchanged;
        }
        match find_game(rows) {
            Some(i) => {
                self.absent = 0;
                if self.active {
                    GamingChange::Unchanged
                } else {
                    self.active = true;
                    self.elevate_nice = true;
                    self.auto = true;
                    GamingChange::Enabled { game: i }
                }
            },
            None => {
                if self.auto && self.active {
                    if self.absent >= 1 {
                        self.active = false;
                        self.auto = false;
                        self.absent = 0;
                        GamingChange::Disabled
                    } else {
                        self.absent = 1;
                        GamingChange::Unchanged
                    }
                } else {
                    GamingChange::Unchanged
                }
            },
        }
    }
}

/// Gaming mode after a series of looks, each of which saw a game or none.
pub open spec fn gaming_after(g: Gaming, games: Seq<Option<int>>) -> Gaming
    decreases games.len(),
{
    if games.len() == 0 {
        g
    } else {
        gaming_observed(gaming_after(g, games.drop_last()), games.last()).0
    }
}

/// What was switched on by hand stays on, whatever is seen.
pub proof fn law_manual_mode_is_never_switched_off(elevate_nice: bool, games: Seq<Option<int>>)
    ensures
        gaming_after(gaming_set(true, elevate_nice), games).active,
        !gaming_after(gaming_set(true, elevate_nice), games).auto,
    decreases games.len(),
{
    if games.len() > 0 {
        law_manual_mode_is_never_switched_off(elevate_nice, games.drop_last());
    }
}

/// One look without a game does not switch off; the second in a row does, where
/// gaming mode went on automatically.
pub proof fn law_auto_mode_ends_after_two_looks(g: Gaming, game: int)
    requires
        !g.active,
    ensures
        ({
            let on = gaming_observed(g, Some(game)).0;
            let once = gaming_observed(on, None);
            let twice = gaming_observed(once.0, None);
            &&& on.active
            &&& once.0.active && once.1 is Unchanged
            &&& !twice.0.active && twice.1 is Disabled
        }),
{
}

/// A game that comes back in time starts the count anew.
pub proof fn law_returning_game_keeps_mode_on(g: Gaming, game: int, again: int)
    requires
        !g.active,
    ensures
        ({
            let on = gaming_observed(g, Some(game)).0;
            let gone = gaming_observed(on, None).0;
            gaming_observed(gone, Some(again)).0 == on
        }),
{
}

// ── The daemon ───────────────────────────────────────────────────────────────

/// What the loop remembers.
pub struct Daemon {
    pub known_pids: IdSet,
    pub first_snapshot: bool,
    pub prev_throttled: IdSet,
    /// The CPUs that a process might run on before anything was changed.
    pub original_affinities: IdMap<IdSet>,
    /// Until when the rules leave a process alone.
    pub manual_overrides: IdMap<u64>,
    pub gaming: Gaming,
    /// The nice values of processes before gaming mode raised them.
    pub gaming_niced: IdMap<i32>,
    /// The rules and processes for which setting the nice value failed while rules were
    /// enforced; it is not tried again.
    pub nice_failed: Vec<(String, u32)>,
    pub last_enforce: u64,
    pub last_pb: u64,
    pub last_snapshot: u64,
}

/// What is done with a process that has just appeared.
#[derive(Debug)]
pub enum NewPidAction {
    LeaveAlone,
    /// Raise its priority and pin it to the preferred cores.
    Elevate,
    /// Give it the default affinity.
    SetDefault(String),
}

/// The process ids of a snapshot.
pub open spec fn row_pids(rows: Seq<ProcInfo>) -> Set<u32> {
    Set::new(|pid: u32| exists|i: int| 0 <= i < rows.len() && (#[trigger] rows[i]).pid == pid)
}

/// The places of the processes, among the first `n`, whose id is not in a set.
pub open spec fn places_outside(rows: Seq<ProcInfo>, s: Set<u32>, n: nat) -> Seq<int>
    decreases n,
{
    if n == 0 {
        Seq::empty()
    } else if s.contains(rows[n - 1].pid) {
        places_outside(rows, s, (n - 1) as nat)
    } else {
        places_outside(rows, s, (n - 1) as nat).push(n - 1)
    }
}

/// Places as mathematical integers.
pub open spec fn as_ints(s: Seq<usize>) -> Seq<int> {
    Seq::new(s.len(), |i: int| s[i] as int)
}

/// The process ids of a snapshot.
pub fn pids_of(rows: &Vec<ProcInfo>) -> (r: IdSet)
    ensures
        r@ == row_pids(rows@),
{
    let mut r = IdSet::new();
    let mut i: usize = 0;
    while i < rows.len()
        invariant
            i <= rows.len(),
            forall|pid: u32| #[trigger]
                r@.contains(pid) <==> exists|j: int|
                    0 <= j < i && (#[trigger] rows@[j]).pid == pid,
        decreases rows.len() - i,
    {
        let ghost before = r@;
        r.insert(rows[i].pid);
        proof {
            let n = i + 1;
            assert forall|pid: u32| #[trigger] r@.contains(pid) <==> exists|j: int|
                0 <= j < n && (#[trigger] rows@[j]).pid == pid by {
                if before.contains(pid) {
                    let j = choose|j: int| 0 <= j < i && (#[trigger] rows@[j]).pid == pid;
                    assert(rows@[j].pid == pid);
                }
                assert(rows@[i as int].pid == rows@[i as int].pid);
            }
        }
        i += 1;
    }
    assert(r@ =~= row_pids(rows@));
    r
}

/// Finds the processes whose id is not in a set.
fn find_outside(rows: &Vec<ProcInfo>, s: &IdSet) -> (r: Vec<usize>)
    ensures
        as_ints(r@) == places_outside(rows@, s@, rows@.len()),
        forall|i: int| 0 <= i < r.len() ==> (#[trigger] r[i]) < rows.len(),
{
    let mut r: Vec<usize> = Vec::new();
    let mut i: usize = 0;
    assert(as_ints(r@) =~= Seq::<int>::empty());
    while i < rows.len()
        invariant
            i <= rows.len(),
            as_ints(r@) == places_outside(rows@, s@, i as nat),
            forall|k: int| 0 <= k < r.len() ==> (#[trigger] r[k]) < rows.len(),
        decreases rows.len() - i,
    {
        let ghost before = as_ints(r@);
        if !s.contains(rows[i].pid) {
            r.push(i);
            assert(as_ints(r@) =~= before.push(i as int));
        }
        i += 1;
    }
    r
}

/// The overrides that have not run out.
pub open spec fn live_overrides(m: Map<u32, u64>, now: u64) -> Map<u32, u64> {
    m.restrict(Set::new(|pid: u32| m.contains_key(pid) && m[pid] > now))
}

/// The name of a process: that of the last row with its id.
pub open spec fn name_of(rows: Seq<ProcInfo>, pid: u32) -> Seq<char>
    decreases rows.len(),
{
    if rows.len() == 0 {
        "unknown"@
    } else if rows.last().pid == pid {
        rows.last().name@
    } else {
        name_of(rows.drop_last(), pid)
    }
}

/// A notice of one process.
pub open spec fn notice(verb: Seq<char>, rows: Seq<ProcInfo>, pid: u32) -> Seq<char> {
    verb + ": "@ + name_of(rows, pid) + " (PID "@ + dec(pid as nat) + ")"@
}

/// Notices of some processes.
pub open spec fn notices(verb: Seq<char>, rows: Seq<ProcInfo>, pids: Seq<u32>) -> Seq<Seq<char>> {
    Seq::new(pids.len(), |i: int| notice(verb, rows, pids[i]))
}

/// Finds the name of a process.
fn find_name(rows: &Vec<ProcInfo>, pid: u32) -> (r: String)
    ensures
        r@ == name_of(rows@, pid),
{
    let mut n: usize = rows.len();
    assert(rows@.take(n as int) =~= rows@);
    while n > 0
        invariant
            n <= rows.len(),
            name_of(rows@, pid) == name_of(rows@.take(n as int), pid),
        decreases n,
    {
        assert(rows@.take(n as int).drop_last() =~= rows@.take(n - 1));
        if rows[n - 1].pid == pid {
            return rows[n - 1].name.clone();
        }
        n -= 1;
    }
    "unknown".to_owned()
}

/// Appends notices of some processes.
fn add_notices(out: &mut Vec<String>, verb: &str, rows: &Vec<ProcInfo>, pids: &IdSet)
    ensures
        texts(final(out)@) == texts(old(out)@) + notices(verb@, rows@, pids.order()),
{
    let ghost start = texts(out@);
    let list = pids.items();
    let mut i: usize = 0;
    assert(start =~= start + notices(verb@, rows@, list@).take(0));
    while i < list.len()
        invariant
            i <= list.len(),
            texts(out@) == start + notices(verb@, rows@, list@).take(i as int),
        decreases list.len() - i,
    {
        let ghost before = texts(out@);
        let pid: u32 = list[i];
        let mut s = verb.to_owned();
        s.append(": ");
        let name = find_name(rows, pid);
        s.append(name.as_str());
        s.append(" (PID ");
        push_dec(&mut s, pid as u64);
        s.append(")");
        let ghost text = s@;
        out.push(s);
        i += 1;
        proof {
            let all = notices(verb@, rows@, list@);
            assert(text == all[i - 1]);
            assert(texts(out@) =~= before.push(text));
            assert(start + all.take(i as int) =~= (start + all.take(i - 1)).push(text));
        }
    }
    assert(notices(verb@, rows@, list@).take(i as int) =~= notices(verb@, rows@, list@));
}

/// The failures of a list: rule and process.
pub open spec fn failures(s: Seq<(String, u32)>) -> Seq<(Seq<char>, u32)> {
    Seq::new(s.len(), |i: int| (s[i].0@, s[i].1))
}

/// The failures of the processes in a set.
pub open spec fn failures_among(s: Seq<(Seq<char>, u32)>, pids: Set<u32>) -> Seq<(Seq<char>, u32)>
    decreases s.len(),
{
    if s.len() == 0 {
        s
    } else if pids.contains(s.last().1) {
        failures_among(s.drop_last(), pids).push(s.last())
    } else {
        failures_among(s.drop_last(), pids)
    }
}

/// Keeps the failures of the processes in a set.
fn keep_failures(list: &Vec<(String, u32)>, pids: &IdSet) -> (r: Vec<(String, u32)>)
    ensures
        failures(r@) == failures_among(failures(list@), pids@),
{
    let ghost all = failures(list@);
    let mut r: Vec<(String, u32)> = Vec::new();
    let mut i: usize = 0;
    assert(failures(r@) =~= failures_among(all.take(0), pids@));
    while i < list.len()
        invariant
            i <= list.len(),
            all == failures(list@),
            failures(r@) == failures_among(all.take(i as int), pids@),
        decreases list.len() - i,
    {
        assert(all.take(i + 1).drop_last() =~= all.take(i as int));
        assert(all.take(i + 1).last() == all[i as int]);
        let ghost before = failures(r@);
        if pids.contains(list[i].1) {
            r.push((list[i].0.clone(), list[i].1));
            assert(failures(r@) =~= before.push(all[i as int]));
        }
        i += 1;
    }
    assert(all.take(i as int) =~= all);
    r
}

/// A process as ProBalance sees it.
pub open spec fn seen_as(p: ProcInfo, s: ProcSnapshot) -> bool {
    s.pid == p.pid && s.name@ == p.name@ && s.cpu_percent == p.cpu_percent && s.nice == p.nice
}

/// The processes as ProBalance sees them.
pub fn balance_rows(rows: &Vec<ProcInfo>) -> (r: Vec<ProcSnapshot>)
    ensures
        r@.len() == rows@.len(),
        forall|i: int| 0 <= i < rows@.len() ==> seen_as(rows@[i], #[trigger] r@[i]),
{
    let mut r: Vec<ProcSnapshot> = Vec::new();
    let mut i: usize = 0;
    while i < rows.len()
        invariant
            i <= rows.len(),
            r.len() == i,
            forall|k: int| 0 <= k < i ==> seen_as(rows@[k], #[trigger] r@[k]),
        decreases rows.len() - i,
    {
        r.push(
            ProcSnapshot {
                pid: rows[i].pid,
                name: rows[i].name.clone(),
                cpu_percent: rows[i].cpu_percent,
                nice: rows[i].nice,
            },
        );
        i += 1;
    }
    r
}

/// The row of a process with its share of the graphics processor, 0 where it has none.
pub open spec fn has_gpu_share(p: ProcInfo, before: ProcInfo, util: Map<u32, Single>) -> bool {
    &&& p.gpu_percent@ == if util.contains_key(before.pid) {
        util[before.pid]@
    } else {
        single(0, 1)
    }
    &&& p == (ProcInfo { gpu_percent: p.gpu_percent, ..before })
}

/// Takes in the shares of the graphics processor; without any nothing changes.
pub fn merge_gpu(rows: &mut Vec<ProcInfo>, util: &IdMap<Single>)
    ensures
        util@ == Map::<u32, Single>::empty() ==> final(rows)@ == old(rows)@,
        util@ != Map::<u32, Single>::empty() ==> {
            &&& final(rows)@.len() == old(rows)@.len()
            &&& forall|i: int|
                0 <= i < old(rows)@.len() ==> has_gpu_share(
                    #[trigger] final(rows)@[i],
                    old(rows)@[i],
                    util@,
                )
        },
{
    if util.is_empty() {
        return;
    }
    let ghost before = rows@;
    let mut todo: Vec<ProcInfo> = Vec::new();
    std::mem::swap(rows, &mut todo);
    let ghost start = todo@;
    while todo.len() > 0
        invariant
            start == before,
            todo.len() + rows.len() == before.len(),
            forall|k: int| 0 <= k < todo.len() ==> todo@[k] == before[k],
            forall|k: int|
                0 <= k < rows.len() ==> has_gpu_share(
                    #[trigger] rows@[k],
                    before[before.len() - 1 - k],
                    util@,
                ),
        decreases todo.len(),
    {
        if let Some(p) = todo.pop() {
            let mut q = p;
            q.gpu_percent = match util.get(q.pid) {
                Some(v) => *v,
                None => Single::whole(0),
            };
            rows.push(q);
        }
    }
    reverse(rows);
}

/// Turns a list round.
fn reverse(rows: &mut Vec<ProcInfo>)
    ensures
        final(rows)@.len() == old(rows)@.len(),
        forall|i: int|
            0 <= i < old(rows)@.len() ==> #[trigger] final(rows)@[i] == old(rows)@[old(rows)@.len()
                - 1 - i],
{
    let ghost before = rows@;
    let mut back: Vec<ProcInfo> = Vec::new();
    std::mem::swap(rows, &mut back);
    while back.len() > 0
        invariant
            back.len() + rows.len() == before.len(),
            forall|k: int| 0 <= k < back.len() ==> back@[k] == before[k],
            forall|k: int|
                0 <= k < rows.len() ==> #[trigger] rows@[k] == before[before.len() - 1 - k],
        decreases back.len(),
    {
        if let Some(p) = back.pop() {
            rows.push(p);
        }
    }
}

/// What is done with a running process once the rules have changed: the default
/// affinity that it gets, if no rule is for it.
pub fn reapply_default(matched: bool, default_affinity: &Option<String>) -> (r: Option<String>)
    ensures
        match r {
            Some(a) => !matched && default_affinity is Some && a@ == default_affinity->0@ && a@.len()
                > 0,
            None => matched || default_affinity is None || default_affinity->0@.len() == 0,
        },
{
    if matched {
        return None;
    }
    match default_affinity {
        Some(a) => if a.as_str().is_empty() {
            None
        } else {
            Some(a.clone())
        },
        None => None,
    }
}

impl Daemon {
    /// A loop that begins now.
    pub fn new(now: u64) -> (r: Daemon)
        ensures
            r.known_pids@ == Set::<u32>::empty(),
            r.first_snapshot,
            r.prev_throttled@ == Set::<u32>::empty(),
            r.original_affinities@ == Map::<u32, IdSet>::empty(),
            r.manual_overrides@ == Map::<u32, u64>::empty(),
            r.gaming == gaming_off(),
            r.gaming_niced@ == Map::<u32, i32>::empty(),
            r.nice_failed@.len() == 0,
            r.last_enforce == now,
            r.last_pb == now,
            r.last_snapshot == now,
    {
        Daemon {
            known_pids: IdSet::new(),
            first_snapshot: true,
            prev_throttled: IdSet::new(),
            original_affinities: IdMap::new(),
            manual_overrides: IdMap::new(),
            gaming: Gaming::new(),
            gaming_niced: IdMap::new(),
            nice_failed: Vec::new(),
            last_enforce: now,
            last_pb: now,
            last_snapshot: now,
        }
    }

    /// What is due now. ProBalance runs every second.
    pub fn due(&self, now: u64, cfg: &MonitorConfig) -> (r: Due)
        ensures
            r.enforce == passed(now, self.last_enforce, cfg.rule_enforce_interval_ms),
            r.probalance == passed(now, self.last_pb, 1000),
            r.publish == passed(now, self.last_snapshot, cfg.display_refresh_interval_ms),
            r.snapshot == (r.enforce || r.probalance || r.publish),
    {
        let enforce = has_passed(now, self.last_enforce, cfg.rule_enforce_interval_ms);
        let probalance = has_passed(now, self.last_pb, 1000);
        let publish = has_passed(now, self.last_snapshot, cfg.display_refresh_interval_ms);
        Due { snapshot: enforce || probalance || publish, enforce, probalance, publish }
    }

    /// Switches gaming mode by hand. Gives whether raised priorities have to be
    /// restored.
    pub fn set_gaming_mode(&mut self, active: bool, elevate_nice: bool) -> (restore: bool)
        ensures
            restore == (!active && old(self).gaming_niced@ != Map::<u32, i32>::empty()),
            *final(self) == (Daemon { gaming: gaming_set(active, elevate_nice), ..*old(self) }),
    {
        self.gaming.set(active, elevate_nice);
        !active && !self.gaming_niced.is_empty()
    }

    /// The user changed a process by hand: the rules leave it alone for a while.
    pub fn set_manual_override(&mut self, pid: u32, now: u64, duration_ms: u64)
        ensures
            final(self).manual_overrides@ == old(self).manual_overrides@.insert(
                pid,
                if now + duration_ms > u64::MAX {
                    u64::MAX
                } else {
                    (now + duration_ms) as u64
                },
            ),
            *final(self) == (Daemon {
                manual_overrides: final(self).manual_overrides,
                ..*old(self)
            }),
    {
        let until: u64 = now.saturating_add(duration_ms);
        self.manual_overrides.insert(pid, until);
    }

    /// The priorities to restore, in the order of the process ids; none is
    /// remembered afterwards.
    pub fn take_gaming_nices(&mut self) -> (r: Vec<(u32, i32)>)
        ensures
            r@ == old(self).gaming_niced.order(),
            final(self).gaming_niced@ == Map::<u32, i32>::empty(),
            *final(self) == (Daemon { gaming_niced: final(self).gaming_niced, ..*old(self) }),
    {
        let pairs = self.gaming_niced.pairs();
        let mut r: Vec<(u32, i32)> = Vec::new();
        let mut i: usize = 0;
        while i < pairs.len()
            invariant
                i <= pairs.len(),
                r@ == pairs@.take(i as int),
            decreases pairs.len() - i,
        {
            r.push(pairs[i]);
            i += 1;
            assert(pairs@.take(i as int) =~= pairs@.take(i - 1).push(pairs@[i - 1]));
        }
        assert(r@ =~= pairs@);
        self.gaming_niced = IdMap::new();
        r
    }

    /// Takes in a snapshot: forgets what is remembered of processes that are gone,
    /// and gives the places of those that are new.
    pub fn take_snapshot(&mut self, rows: &Vec<ProcInfo>) -> (fresh: Vec<usize>)
        ensures
            as_ints(fresh@) == places_outside(rows@, old(self).known_pids@, rows@.len()),
            forall|i: int| 0 <= i < fresh.len() ==> (#[trigger] fresh[i]) < rows.len(),
            final(self).known_pids@ == row_pids(rows@),
            !final(self).first_snapshot,
            final(self).original_affinities@ == old(self).original_affinities@.restrict(
                row_pids(rows@),
            ),
            final(self).gaming_niced@ == old(self).gaming_niced@.restrict(row_pids(rows@)),
            failures(final(self).nice_failed@) == failures_among(
                failures(old(self).nice_failed@),
                row_pids(rows@),
            ),
            *final(self) == (Daemon {
                known_pids: final(self).known_pids,
                first_snapshot: false,
                original_affinities: final(self).original_affinities,
                gaming_niced: final(self).gaming_niced,
                nice_failed: final(self).nice_failed,
                ..*old(self)
            }),
    {
        let current = pids_of(rows);
        self.original_affinities.retain_keys(&current);
        self.gaming_niced.retain_keys(&current);
        self.nice_failed = keep_failures(&self.nice_failed, &current);
        let fresh = find_outside(rows, &self.known_pids);
        self.known_pids = current;
        self.first_snapshot = false;
        fresh
    }

    /// Whether setting the nice value of a process for a rule has failed before.
    pub fn has_nice_failed(&self, rule_id: &str, pid: u32) -> (r: bool)
        ensures
            r == failures(self.nice_failed@).contains((rule_id@, pid)),
    {
        let mut i: usize = 0;
        while i < self.nice_failed.len()
            invariant
                i <= self.nice_failed.len(),
                forall|k: int|
                    0 <= k < i ==> failures(self.nice_failed@)[k] != (rule_id@, pid),
            decreases self.nice_failed.len() - i,
        {
            if self.nice_failed[i].1 == pid && same_text(self.nice_failed[i].0.as_str(), rule_id) {
                assert(failures(self.nice_failed@)[i as int] == (rule_id@, pid));
                return true;
            }
            i += 1;
        }
        false
    }

    /// Setting the nice value of a process for a rule has failed.
    pub fn note_nice_failed(&mut self, rule_id: &str, pid: u32)
        ensures
            failures(final(self).nice_failed@) == if failures(
                old(self).nice_failed@,
            ).contains((rule_id@, pid)) {
                failures(old(self).nice_failed@)
            } else {
                failures(old(self).nice_failed@).push((rule_id@, pid))
            },
            *final(self) == (Daemon { nice_failed: final(self).nice_failed, ..*old(self) }),
    {
        if !self.has_nice_failed(rule_id, pid) {
            let ghost before = failures(self.nice_failed@);
            self.nice_failed.push((rule_id.to_owned(), pid));
            assert(failures(self.nice_failed@) =~= before.push((rule_id@, pid)));
        }
    }

    /// The rules have changed: what failed is tried again.
    pub fn forget_nice_failures(&mut self)
        ensures
            final(self).nice_failed@.len() == 0,
            *final(self) == (Daemon { nice_failed: final(self).nice_failed, ..*old(self) }),
    {
        self.nice_failed = Vec::new();
    }

    /// A snapshot was published.
    pub fn note_published(&mut self, now: u64)
        ensures
            *final(self) == (Daemon { last_snapshot: now, ..*old(self) }),
    {
        self.last_snapshot = now;
    }

    /// Remembers the CPUs of a process before anything is changed, unless they are
    /// remembered already.
    pub fn capture_original(&mut self, pid: u32, cpus: IdSet)
        ensures
            final(self).original_affinities@ == if old(self).original_affinities@.contains_key(
                pid,
            ) {
                old(self).original_affinities@
            } else {
                old(self).original_affinities@.insert(pid, cpus)
            },
            *final(self) == (Daemon {
                original_affinities: final(self).original_affinities,
                ..*old(self)
            }),
    {
        if !self.original_affinities.contains_key(pid) {
            self.original_affinities.insert(pid, cpus);
        }
    }

    /// What is done with a process that has just appeared. `matched` says whether a
    /// rule is for it; then the rule stands, and the default affinity does not
    /// overrule it.
    pub fn new_pid_action(&self, pid: u32, matched: bool, default_affinity: &Option<String>) -> (r:
        NewPidAction)
        ensures
            match r {
                NewPidAction::Elevate => matched && self.gaming.active && self.gaming.elevate_nice
                    && !self.gaming_niced@.contains_key(pid),
                NewPidAction::SetDefault(s) => !matched && default_affinity is Some && s@
                    == default_affinity->0@ && s@.len() > 0,
                NewPidAction::LeaveAlone => if matched {
                    !self.gaming.active || !self.gaming.elevate_nice
                        || self.gaming_niced@.contains_key(pid)
                } else {
                    default_affinity is None || default_affinity->0@.len() == 0
                },
            },
    {
        if matched {
            if self.gaming.active && self.gaming.elevate_nice && !self.gaming_niced.contains_key(
                pid,
            ) {
                return NewPidAction::Elevate;
            }
            return NewPidAction::LeaveAlone;
        }
        match default_affinity {
            Some(a) => if a.as_str().is_empty() {
                NewPidAction::LeaveAlone
            } else {
                NewPidAction::SetDefault(a.clone())
            },
            None => NewPidAction::LeaveAlone,
        }
    }

    /// The priority of a process was raised.
    pub fn note_raised(&mut self, pid: u32, original_nice: i32)
        ensures
            final(self).gaming_niced@ == old(self).gaming_niced@.insert(pid, original_nice),
            *final(self) == (Daemon { gaming_niced: final(self).gaming_niced, ..*old(self) }),
    {
        self.gaming_niced.insert(pid, original_nice);
    }

    /// The processes on which the rules are enforced now: all but those that the
    /// user changed by hand a short while ago.
    pub fn enforce_targets(&mut self, now: u64, rows: &Vec<ProcInfo>) -> (targets: Vec<usize>)
        ensures
            final(self).manual_overrides@ == live_overrides(old(self).manual_overrides@, now),
            as_ints(targets@) == places_outside(
                rows@,
                live_overrides(old(self).manual_overrides@, now).dom(),
                rows@.len(),
            ),
            forall|i: int| 0 <= i < targets.len() ==> (#[trigger] targets[i]) < rows.len(),
            final(self).last_enforce == now,
            *final(self) == (Daemon {
                manual_overrides: final(self).manual_overrides,
                last_enforce: now,
                ..*old(self)
            }),
    {
        let mut live = IdSet::new();
        let pairs = self.manual_overrides.pairs();
        let ghost m = self.manual_overrides@;
        let ghost ks = crate::idmap::keys_of(pairs@);
        let mut i: usize = 0;
        while i < pairs.len()
            invariant
                i <= pairs.len(),
                ks == crate::idmap::keys_of(pairs@),
                m.dom() == ks.to_set(),
                forall|k: int|
                    0 <= k < pairs@.len() ==> m.contains_key((#[trigger] pairs@[k]).0)
                        && m[pairs@[k].0] == pairs@[k].1,
                forall|pid: u32| #[trigger]
                    live@.contains(pid) <==> ks.take(i as int).contains(pid) && m.contains_key(pid)
                        && m[pid] > now,
            decreases pairs.len() - i,
        {
            let (pid, until) = pairs[i];
            let ghost before = live@;
            if until > now {
                live.insert(pid);
            }
            proof {
                let a = ks.take(i as int);
                let b = ks.take(i + 1);
                assert(pairs@[i as int].0 == pid);
                assert forall|x: u32| #[trigger] live@.contains(x) <==> b.contains(x)
                    && m.contains_key(x) && m[x] > now by {
                    assert(b =~= a.push(pid));
                    assert(b[i as int] == pid);
                    if a.contains(x) {
                        let k = choose|k: int| 0 <= k < a.len() && a[k] == x;
                        assert(b[k] == x);
                    }
                    if b.contains(x) && x != pid {
                        let k = choose|k: int| 0 <= k < b.len() && b[k] == x;
                        assert(a[k] == x);
                    }
                    assert(before.contains(x) <==> a.contains(x) && m.contains_key(x) && m[x]
                        > now);
                }
            }
            i += 1;
        }
        assert(ks.take(i as int) =~= ks);
        assert(live@ =~= Set::new(|pid: u32| m.contains_key(pid) && m[pid] > now));
        self.manual_overrides.retain_keys(&live);
        assert(live_overrides(m, now).dom() =~= live@);
        let targets = find_outside(rows, &live);
        self.last_enforce = now;
        targets
    }

    /// Begins a round of ProBalance. Gives the time since the last one.
    pub fn begin_probalance(&mut self, now: u64) -> (elapsed: u64)
        ensures
            elapsed == if now >= old(self).last_pb {
                (now - old(self).last_pb) as u64
            } else {
                0
            },
            *final(self) == (Daemon { last_pb: now, ..*old(self) }),
    {
        let elapsed: u64 = now.saturating_sub(self.last_pb);
        self.last_pb = now;
        elapsed
    }

    /// What the user is told of processes that have been throttled or restored since
    /// the last time. Nothing is said while notifications are off, but the change
    /// is taken in.
    pub fn throttle_notices(
        &mut self,
        throttled: IdSet,
        rows: &Vec<ProcInfo>,
        notifications: bool,
    ) -> (r: Vec<String>)
        ensures
            texts(r@) == if notifications {
                notices(
                    "Throttled"@,
                    rows@,
                    crate::idset::ascending(throttled@.difference(old(self).prev_throttled@)),
                ) + notices(
                    "Restored"@,
                    rows@,
                    crate::idset::ascending(old(self).prev_throttled@.difference(throttled@)),
                )
            } else {
                Seq::empty()
            },
            *final(self) == (Daemon { prev_throttled: throttled, ..*old(self) }),
    {
        let mut r: Vec<String> = Vec::new();
        assert(texts(r@) =~= Seq::<Seq<char>>::empty());
        if notifications {
            let fresh = throttled.difference(&self.prev_throttled);
            let gone = self.prev_throttled.difference(&throttled);
            add_notices(&mut r, "Throttled", rows, &fresh);
            add_notices(&mut r, "Restored", rows, &gone);
            assert(texts(r@) =~= notices("Throttled"@, rows@, fresh.order()) + notices(
                "Restored"@,
                rows@,
                gone.order(),
            ));
        }
        self.prev_throttled = throttled;
        r
    }

    /// The CPUs to give back to every changed process, in the order of the process
    /// ids; nothing is remembered afterwards. A process of which no CPU is known
    /// gets all of them.
    pub fn take_original_affinities(&mut self, cpu_count: u32) -> (r: Vec<(u32, IdSet)>)
        ensures
            r.len() == old(self).original_affinities.order().len(),
            forall|i: int|
                0 <= i < r.len() ==> {
                    let (pid, cpus) = old(self).original_affinities.order()[i];
                    &&& (#[trigger] r[i]).0 == pid
                    &&& if cpus@ == Set::<u32>::empty() {
                        forall|c: u32| r[i].1@.contains(c) <==> c < cpu_count
                    } else {
                        r[i].1@ == cpus@
                    }
                },
            final(self).original_affinities@ == Map::<u32, IdSet>::empty(),
            *final(self) == (Daemon {
                original_affinities: final(self).original_affinities,
                ..*old(self)
            }),
    {
        let pairs = self.original_affinities.pairs();
        let mut r: Vec<(u32, IdSet)> = Vec::new();
        let mut i: usize = 0;
        while i < pairs.len()
            invariant
                i <= pairs.len(),
                r.len() == i,
                forall|k: int|
                    0 <= k < i ==> {
                        let (pid, cpus) = pairs@[k];
                        &&& (#[trigger] r[k]).0 == pid
                        &&& if cpus@ == Set::<u32>::empty() {
                            forall|c: u32| r[k].1@.contains(c) <==> c < cpu_count
                        } else {
                            r[k].1@ == cpus@
                        }
                    },
            decreases pairs.len() - i,
        {
            let mask = if pairs[i].1.is_empty() {
                IdSet::first(cpu_count)
            } else {
                pairs[i].1.copy()
            };
            r.push((pairs[i].0, mask));
            i += 1;
        }
        self.original_affinities = IdMap::new();
        r
    }
}

// ── Switching gaming mode ────────────────────────────────────────────────────

/// One step of switching gaming mode on or off.
#[derive(Debug, Clone, Copy, PartialEq, Eq, Structural)]
pub enum GamingStep {
    /// Give a raised process its nice value back.
    RestoreNice(u32, i32),
    /// Tell how many of the raised processes got their nice value back.
    ReportNices,
    /// Show whether the mode is on.
    ShowActive(bool),
    /// Park the cores that are not preferred.
    Park,
    /// Bring all CPUs back.
    Unpark,
}

/// The steps that give raised processes their nice values back: none where no
/// process was raised.
pub open spec fn restore_steps(raised: Seq<(u32, i32)>) -> Seq<GamingStep> {
    if raised.len() == 0 {
        Seq::empty()
    } else {
        raised.map_values(|p: (u32, i32)| GamingStep::RestoreNice(p.0, p.1)).push(
            GamingStep::ReportNices,
        )
    }
}

/// The steps of a switch. Nice values are given back when the mode ends, before
/// anything is parked or brought back.
pub open spec fn switch_steps(active: bool, raised: Seq<(u32, i32)>, park: bool) -> Seq<GamingStep> {
    let nices = if active {
        Seq::empty()
    } else {
        restore_steps(raised)
    };
    let shown = nices.push(GamingStep::ShowActive(active));
    if park {
        shown.push(
            if active {
                GamingStep::Park
            } else {
                GamingStep::Unpark
            },
        )
    } else {
        shown
    }
}

/// Cores are parked where they differ and the helper is there to do it; they are
/// always brought back.
pub open spec fn parks(active: bool, park: bool, asymmetric: bool, helper_installed: bool) -> bool {
    park && (active ==> asymmetric && helper_installed)
}

impl Daemon {
    /// The steps that give raised processes their nice values back; none is
    /// remembered afterwards.
    fn plan_restore(&mut self) -> (r: Vec<GamingStep>)
        ensures
            r@ == restore_steps(old(self).gaming_niced.order()),
            final(self).gaming_niced@ == Map::<u32, i32>::empty(),
            *final(self) == (Daemon { gaming_niced: final(self).gaming_niced, ..*old(self) }),
    {
        let raised = self.take_gaming_nices();
        let ghost all = raised@.map_values(|p: (u32, i32)| GamingStep::RestoreNice(p.0, p.1));
        let mut r: Vec<GamingStep> = Vec::new();
        let mut i: usize = 0;
        while i < raised.len()
            invariant
                i <= raised.len(),
                all == raised@.map_values(|p: (u32, i32)| GamingStep::RestoreNice(p.0, p.1)),
                r@ == all.take(i as int),
            decreases raised.len() - i,
        {
            let (pid, nice) = raised[i];
            r.push(GamingStep::RestoreNice(pid, nice));
            i += 1;
            assert(all.take(i as int) =~= all.take(i - 1).push(all[i - 1]));
        }
        assert(all.take(i as int) =~= all);
        if raised.len() > 0 {
            r.push(GamingStep::ReportNices);
        } else {
            assert(r@ =~= Seq::<GamingStep>::empty());
        }
        r
    }

    /// What is done once gaming mode is on or off. When it ends, no raised process is
    /// remembered.
    pub fn switch_plan(
        &mut self,
        active: bool,
        park: bool,
        asymmetric: bool,
        helper_installed: bool,
    ) -> (r: Vec<GamingStep>)
        ensures
            r@ == switch_steps(
                active,
                old(self).gaming_niced.order(),
                parks(active, park, asymmetric, helper_installed),
            ),
            active ==> *final(self) == *old(self),
            !active ==> final(self).gaming_niced@ == Map::<u32, i32>::empty(),
            *final(self) == (Daemon { gaming_niced: final(self).gaming_niced, ..*old(self) }),
    {
        let mut r: Vec<GamingStep> = Vec::new();
        if !active {
            r = self.plan_restore();
        }
        r.push(GamingStep::ShowActive(active));
        if park {
            if !active {
                r.push(GamingStep::Unpark);
            } else if park_non_preferred(asymmetric, helper_installed) {
                r.push(GamingStep::Park);
            }
        }
        r
    }

    /// Switches gaming mode by hand and says what is done about it.
    pub fn gaming_plan(
        &mut self,
        active: bool,
        elevate_nice: bool,
        park: bool,
        asymmetric: bool,
        helper_installed: bool,
    ) -> (r: Vec<GamingStep>)
        ensures
            r@ == switch_steps(
                active,
                old(self).gaming_niced.order(),
                parks(active, park, asymmetric, helper_installed),
            ),
            active ==> final(self).gaming_niced == old(self).gaming_niced,
            !active ==> final(self).gaming_niced@ == Map::<u32, i32>::empty(),
            *final(self) == (Daemon {
                gaming: gaming_set(active, elevate_nice),
                gaming_niced: final(self).gaming_niced,
                ..*old(self)
            }),
    {
        self.set_gaming_mode(active, elevate_nice);
        self.switch_plan(active, park, asymmetric, helper_installed)
    }
}

// ── The end ──────────────────────────────────────────────────────────────────

/// One step of the end: everything that was changed is restored.
#[derive(Debug, Clone, Copy, PartialEq, Eq, Structural)]
pub enum ShutdownStep {
    /// Say that the system is being restored.
    Announce,
    /// Give a process that gaming mode raised its nice value back.
    RestoreNice(u32, i32),
    /// Tell how many of the raised processes got their nice value back.
    ReportNices,
    /// Give a throttled process its nice value back.
    Unthrottle(u32, i32),
    /// Bring all CPUs back.
    Unpark,
    /// Say that everything is restored; the loop ends.
    Complete,
}

/// The steps of the end, in their order.
pub open spec fn shutdown_steps(
    raised: Seq<(u32, i32)>,
    throttled: Seq<ThrottleInfo>,
    any_offline: bool,
) -> Seq<ShutdownStep> {
    let nices = if raised.len() == 0 {
        Seq::empty()
    } else {
        raised.map_values(|p: (u32, i32)| ShutdownStep::RestoreNice(p.0, p.1)).push(
            ShutdownStep::ReportNices,
        )
    };
    let throttles = throttled.map_values(
        |t: ThrottleInfo| ShutdownStep::Unthrottle(t.pid, t.original_nice),
    );
    let cores = if any_offline {
        seq![ShutdownStep::Unpark]
    } else {
        Seq::empty()
    };
    seq![ShutdownStep::Announce] + nices + throttles + cores + seq![ShutdownStep::Complete]
}

impl Daemon {
    /// What is done before the program ends: every raised process and every throttled
    /// one gets its nice value back, then the CPUs come back where one is offline, and
    /// last of all the end is made known. Nothing follows.
    pub fn shutdown_plan(&mut self, throttled: &Vec<ThrottleInfo>, any_offline: bool) -> (r: Vec<
        ShutdownStep,
    >)
        ensures
            r@ == shutdown_steps(old(self).gaming_niced.order(), throttled@, any_offline),
            forall|pid: u32| #[trigger]
                old(self).gaming_niced@.contains_key(pid) ==> r@.contains(
                    ShutdownStep::RestoreNice(pid, old(self).gaming_niced@[pid]),
                ),
            forall|i: int|
                0 <= i < throttled.len() ==> r@.contains(
                    ShutdownStep::Unthrottle(
                        (#[trigger] throttled[i]).pid,
                        throttled[i].original_nice,
                    ),
                ),
            any_offline == r@.contains(ShutdownStep::Unpark),
            forall|i: int| 0 <= i < r.len() ==> (#[trigger] r[i] == ShutdownStep::Complete) == (i
                == r.len() - 1),
            final(self).gaming_niced@ == Map::<u32, i32>::empty(),
            *final(self) == (Daemon { gaming_niced: final(self).gaming_niced, ..*old(self) }),
    {
        let ghost niced = self.gaming_niced@;
        let dom = self.gaming_niced.pairs();
        proof {
            assert forall|pid: u32| #[trigger] niced.contains_key(pid) implies dom@.contains(
                (pid, niced[pid]),
            ) by {
                assert(keys_of(dom@).to_set().contains(pid));
                let k = choose|k: int| 0 <= k < dom@.len() && keys_of(dom@)[k] == pid;
                assert(dom@[k] == (pid, niced[pid]));
            }
        }
        let ghost pairs = dom@;
        let raised = self.take_gaming_nices();
        let ghost nices = raised@.map_values(
            |p: (u32, i32)| ShutdownStep::RestoreNice(p.0, p.1),
        );
        let ghost throttles = throttled@.map_values(
            |t: ThrottleInfo| ShutdownStep::Unthrottle(t.pid, t.original_nice),
        );
        let mut r: Vec<ShutdownStep> = Vec::new();
        r.push(ShutdownStep::Announce);
        let mut i: usize = 0;
        while i < raised.len()
            invariant
                i <= raised.len(),
                nices == raised@.map_values(
                    |p: (u32, i32)| ShutdownStep::RestoreNice(p.0, p.1),
                ),
                r@ == seq![ShutdownStep::Announce] + nices.take(i as int),
            decreases raised.len() - i,
        {
            let (pid, nice) = raised[i];
            r.push(ShutdownStep::RestoreNice(pid, nice));
            i += 1;
            assert(nices.take(i as int) =~= nices.take(i - 1).push(nices[i - 1]));
        }
        assert(nices.take(i as int) =~= nices);
        if raised.len() > 0 {
            r.push(ShutdownStep::ReportNices);
        }
        let ghost before = r@;
        let mut j: usize = 0;
        while j < throttled.len()
            invariant
                j <= throttled.len(),
                throttles == throttled@.map_values(
                    |t: ThrottleInfo| ShutdownStep::Unthrottle(t.pid, t.original_nice),
                ),
                r@ == before + throttles.take(j as int),
            decreases throttled.len() - j,
        {
            r.push(ShutdownStep::Unthrottle(throttled[j].pid, throttled[j].original_nice));
            j += 1;
            assert(throttles.take(j as int) =~= throttles.take(j - 1).push(throttles[j - 1]));
        }
        assert(throttles.take(j as int) =~= throttles);
        if any_offline {
            r.push(ShutdownStep::Unpark);
        }
        r.push(ShutdownStep::Complete);
        proof {
            let steps = shutdown_steps(pairs, throttled@, any_offline);
            assert(r@ =~= steps);
            assert forall|pid: u32| #[trigger] niced.contains_key(pid) implies r@.contains(
                ShutdownStep::RestoreNice(pid, niced[pid]),
            ) by {
                let k = choose|k: int| 0 <= k < pairs.len() && pairs[k] == (pid, niced[pid]);
                assert(r@[1 + k] == nices[k]);
            }
            assert forall|k: int| 0 <= k < throttled.len() implies r@.contains(
                ShutdownStep::Unthrottle((#[trigger] throttled[k]).pid, throttled[k].original_nice),
            ) by {
                assert(r@[before.len() + k] == throttles[k]);
            }
            if any_offline {
                assert(r@[r@.len() - 2] == ShutdownStep::Unpark);
            }
        }
        r
    }
}

/// While an override lasts the rules leave the process alone.
pub proof fn law_overridden_processes_are_left_alone(
    overrides: Map<u32, u64>,
    now: u64,
    rows: Seq<ProcInfo>,
    n: nat,
    i: int,
)
    requires
        n <= rows.len(),
        0 <= i < n,
        overrides.contains_key(rows[i].pid),
        overrides[rows[i].pid] > now,
    ensures
        !places_outside(rows, live_overrides(overrides, now).dom(), n).contains(i),
    decreases n,
{
    let s = live_overrides(overrides, now).dom();
    assert(s.contains(rows[i].pid));
    let before = places_outside(rows, s, (n - 1) as nat);
    let all = places_outside(rows, s, n);
    if i < n - 1 {
        law_overridden_processes_are_left_alone(overrides, now, rows, (n - 1) as nat, i);
    } else {
        lemma_places_below(rows, s, (n - 1) as nat);
    }
    if all.contains(i) {
        let k = choose|k: int| 0 <= k < all.len() && all[k] == i;
        if k < before.len() {
            assert(before[k] == i);
        }
    }
}

/// Only places below `n` are listed.
proof fn lemma_places_below(rows: Seq<ProcInfo>, s: Set<u32>, n: nat)
    ensures
        forall|k: int|
            0 <= k < places_outside(rows, s, n).len() ==> 0 <= #[trigger] places_outside(
                rows,
                s,
                n,
            )[k] < n,
    decreases n,
{
    if n > 0 {
        let before = places_outside(rows, s, (n - 1) as nat);
        let all = places_outside(rows, s, n);
        lemma_places_below(rows, s, (n - 1) as nat);
        assert forall|k: int| 0 <= k < all.len() implies 0 <= #[trigger] all[k] < n by {
            if k < before.len() {
                assert(all[k] == before[k]);
            }
        }
    }
}

/// A process that was raised and then ended is not restored: its id may belong to
/// another process by then.
pub proof fn law_ended_processes_are_not_restored(
    niced: Map<u32, i32>,
    rows: Seq<ProcInfo>,
    pid: u32,
)
    requires
        !row_pids(rows).contains(pid),
    ensures
        !niced.restrict(row_pids(rows)).contains_key(pid),
{
}

// ── Log lines ────────────────────────────────────────────────────────────────

/// `on` or `off`.
pub open spec fn switch_text(on: bool) -> Seq<char> {
    if on {
        "on"@
    } else {
        "off"@
    }
}

/// `on` or `off`.
fn switch(on: bool) -> (r: &'static str)
    ensures
        r@ == switch_text(on),
{
    if on {
        "on"
    } else {
        "off"
    }
}

/// The line at the start.
pub fn startup_line(probalance: bool, cfg: &MonitorConfig) -> (r: String)
    ensures
        r@ == "Argus-Lasso started — ProBalance: "@ + switch_text(probalance)
            + "  |  Display refresh: "@ + dec(cfg.display_refresh_interval_ms as nat)
            + "ms  |  Rule enforce: "@ + dec(cfg.rule_enforce_interval_ms as nat) + "ms"@,
{
    let mut r = "Argus-Lasso started — ProBalance: ".to_owned();
    r.append(switch(probalance));
    r.append("  |  Display refresh: ");
    push_dec(&mut r, cfg.display_refresh_interval_ms);
    r.append("ms  |  Rule enforce: ");
    push_dec(&mut r, cfg.rule_enforce_interval_ms);
    r.append("ms");
    r
}

/// The line after a change of the settings.
pub fn config_line(probalance: bool, notifications: bool) -> (r: String)
    ensures
        r@ == "Config updated — ProBalance: "@ + switch_text(probalance) + "  |  Notifications: "@
            + switch_text(notifications),
{
    let mut r = "Config updated — ProBalance: ".to_owned();
    r.append(switch(probalance));
    r.append("  |  Notifications: ");
    r.append(switch(notifications));
    r
}

/// The line after the first snapshot.
pub fn initial_scan_line(count: usize) -> (r: String)
    ensures
        r@ == "Initial scan: "@ + dec(count as nat) + " processes found."@,
{
    let mut r = "Initial scan: ".to_owned();
    push_dec(&mut r, count as u64);
    r.append(" processes found.");
    r
}

/// A process by name and id.
pub open spec fn named_pid(name: Seq<char>, pid: u32) -> Seq<char> {
    name + "("@ + dec(pid as nat) + ")"@
}

/// Appends a process by name and id.
fn push_named(s: &mut String, name: &str, pid: u32)
    ensures
        final(s)@ == old(s)@ + named_pid(name@, pid),
{
    let ghost start = s@;
    s.append(name);
    s.append("(");
    push_dec(s, pid as u64);
    s.append(")");
    assert(s@ =~= start + named_pid(name@, pid));
}

/// The line when a game switches gaming mode on.
pub fn game_detected_line(name: &str, pid: u32) -> (r: String)
    ensures
        r@ == "[Gaming Mode] Auto-enabled — game detected: "@ + name@ + " ("@ + dec(pid as nat)
            + ")"@,
{
    let mut r = "[Gaming Mode] Auto-enabled — game detected: ".to_owned();
    r.append(name);
    r.append(" (");
    push_dec(&mut r, pid as u64);
    r.append(")");
    r
}

/// The line when the priority of a process was raised.
pub fn raised_line(name: &str, pid: u32) -> (r: String)
    ensures
        r@ == "[Gaming Mode] nice -1 → "@ + named_pid(name@, pid),
{
    let mut r = "[Gaming Mode] nice -1 → ".to_owned();
    push_named(&mut r, name, pid);
    r
}

/// The line when a process was pinned to the preferred cores.
pub fn pinned_line(label: &str, list: &str, name: &str, pid: u32) -> (r: String)
    ensures
        r@ == "[Gaming Mode] affinity → "@ + label@ + " ("@ + list@ + ") for "@ + named_pid(
            name@,
            pid,
        ),
{
    let mut r = "[Gaming Mode] affinity → ".to_owned();
    r.append(label);
    r.append(" (");
    r.append(list);
    r.append(") for ");
    push_named(&mut r, name, pid);
    r
}

/// The line when a process got the default affinity.
pub fn default_line(affinity: &str, name: &str, pid: u32) -> (r: String)
    ensures
        r@ == "[Default] affinity="@ + affinity@ + " → "@ + named_pid(name@, pid),
{
    let mut r = "[Default] affinity=".to_owned();
    r.append(affinity);
    r.append(" → ");
    push_named(&mut r, name, pid);
    r
}

/// The line after all affinities were given back.
pub fn reset_line(count: usize) -> (r: String)
    ensures
        r@ == "[Reset] Restored affinity on "@ + dec(count as nat)
            + " processes to original state."@,
{
    let mut r = "[Reset] Restored affinity on ".to_owned();
    push_dec(&mut r, count as u64);
    r.append(" processes to original state.");
    r
}

/// The number of successes.
pub open spec fn successes(ok: Seq<bool>) -> nat
    decreases ok.len(),
{
    if ok.len() == 0 {
        0
    } else {
        successes(ok.drop_last()) + (if ok.last() {
            1nat
        } else {
            0
        })
    }
}

/// The line after the priorities were restored, of which some succeeded.
pub fn restore_gaming_nices(ok: &Vec<bool>) -> (r: String)
    ensures
        r@ == "[Gaming Mode] Restored nice for "@ + dec(successes(ok@)) + " processes."@,
{
    let mut count: usize = 0;
    let mut i: usize = 0;
    assert(ok@.take(0) =~= Seq::<bool>::empty());
    while i < ok.len()
        invariant
            i <= ok.len(),
            count <= i,
            count as nat == successes(ok@.take(i as int)),
        decreases ok.len() - i,
    {
        assert(ok@.take(i + 1).drop_last() =~= ok@.take(i as int));
        if ok[i] {
            count += 1;
        }
        i += 1;
    }
    assert(ok@.take(i as int) =~= ok@);
    let mut r = "[Gaming Mode] Restored nice for ".to_owned();
    push_dec(&mut r, count as u64);
    r.append(" processes.");
    r
}

/// Whether gaming mode parks cores: not where all cores are equal or the helper is
/// missing.
pub fn park_non_preferred(asymmetric: bool, helper_installed: bool) -> (r: bool)
    ensures
        r == (asymmetric && helper_installed),
{
    asymmetric && helper_installed
}

/// What is said before cores are parked by hand.
pub fn parking_line(cpus: &IdSet) -> (r: String)
    ensures
        r@ == "[Gaming Mode] Parking CPUs "@ + bracketed(cpus.order()) + "…"@,
{
    let mut r = "[Gaming Mode] Parking CPUs ".to_owned();
    let list = bracket_list(cpus);
    r.append(list.as_str());
    r.append("…");
    r
}

/// What is said after cores were parked by hand, or failed to be.
pub fn hand_parked_line(ok: bool) -> (r: &'static str)
    ensures
        r@ == if ok {
            "[Gaming Mode] ACTIVE — non-preferred CPUs offline."@
        } else {
            "[Gaming Mode] Parking failed — check log."@
        },
{
    if ok {
        "[Gaming Mode] ACTIVE — non-preferred CPUs offline."
    } else {
        "[Gaming Mode] Parking failed — check log."
    }
}

/// What is said after a game's mode parked the other cores, or failed to.
pub fn parked_line(ok: bool) -> (r: &'static str)
    ensures
        r@ == if ok {
            "[Gaming Mode] Non-preferred CPUs parked."@
        } else {
            "[Gaming Mode] Parking failed — check log."@
        },
{
    if ok {
        "[Gaming Mode] Non-preferred CPUs parked."
    } else {
        "[Gaming Mode] Parking failed — check log."
    }
}

/// Rules are enforced, processes balanced and the state published each when its
/// interval is over: by the configured ones, and each second.
pub proof fn law_work_is_due_after_its_interval(d: &Daemon, now: u64, cfg: &MonitorConfig, r: Due)
    requires
        call_ensures(Daemon::due, (d, now, cfg), r),
    ensures
        r.enforce <==> now >= d.last_enforce + cfg.rule_enforce_interval_ms,
        r.probalance <==> now >= d.last_pb + 1000,
        r.publish <==> now >= d.last_snapshot + cfg.display_refresh_interval_ms,
        r.snapshot <==> r.enforce || r.probalance || r.publish,
{
}

/// A process at `i` is the first game of a snapshot.
proof fn lemma_first_game(rows: Seq<ProcInfo>)
    ensures
        match first_game(rows) {
            Some(i) => 0 <= i < rows.len() && looks_like_game(rows[i].cmdline@) && forall|k: int|
                0 <= k < i ==> !looks_like_game((#[trigger] rows[k]).cmdline@),
            None => forall|k: int|
                0 <= k < rows.len() ==> !looks_like_game((#[trigger] rows[k]).cmdline@),
        },
    decreases rows.len(),
{
    if rows.len() > 0 {
        lemma_first_game(rows.drop_last());
        assert forall|k: int| 0 <= k < rows.len() - 1 implies #[trigger] rows[k]
            == rows.drop_last()[k] by {}
    }
}

/// Automatic detection switches gaming mode on, with the priority of games raised, when
/// it is off and a game runs; a game that runs keeps it on as it is.
pub proof fn law_a_game_switches_gaming_mode_on(
    g: &mut Gaming,
    auto_detect: bool,
    rows: &Vec<ProcInfo>,
    game: int,
    r: GamingChange,
)
    requires
        call_ensures(Gaming::observe, (g, auto_detect, rows), r),
        0 <= game < rows@.len(),
        looks_like_game(rows@[game].cmdline@),
        forall|k: int| 0 <= k < game ==> !looks_like_game((#[trigger] rows@[k]).cmdline@),
    ensures
        !auto_detect ==> r is Unchanged && *final(g) == *old(g),
        auto_detect ==> final(g).active && final(g).absent == 0,
        auto_detect && old(g).active ==> r is Unchanged && final(g).auto == old(g).auto
            && final(g).elevate_nice == old(g).elevate_nice,
        auto_detect && !old(g).active ==> final(g).auto && final(g).elevate_nice,
        auto_detect && !old(g).active ==> (r matches GamingChange::Enabled { game: at } && at == game),
{
    lemma_first_game(rows@);
    assert(rows.len() == rows@.len());
}

/// Two looks in a row without a game switch gaming mode off where it was switched on by
/// a game, and only then; one look switches nothing off.
pub proof fn law_two_looks_without_a_game_switch_gaming_mode_off(
    g: &mut Gaming,
    h: &mut Gaming,
    rows: &Vec<ProcInfo>,
    later: &Vec<ProcInfo>,
    r: GamingChange,
    s: GamingChange,
)
    requires
        call_ensures(Gaming::observe, (g, true, rows), r),
        *old(h) == *final(g),
        call_ensures(Gaming::observe, (h, true, later), s),
        forall|k: int| 0 <= k < rows@.len() ==> !looks_like_game((#[trigger] rows@[k]).cmdline@),
        forall|k: int| 0 <= k < later@.len() ==> !looks_like_game((#[trigger] later@[k]).cmdline@),
    ensures
        old(g).absent == 0 ==> r is Unchanged && final(g).active == old(g).active,
        old(g).absent == 0 && old(g).active && old(g).auto ==> s is Disabled && !final(h).active
            && !final(h).auto,
        !(old(g).active && old(g).auto) ==> r is Unchanged && s is Unchanged && *final(h) == *old(g),
{
    lemma_first_game(rows@);
    lemma_first_game(later@);
}

/// Switched by hand, gaming mode is what was asked for, and no game was seen.
pub proof fn law_gaming_mode_is_what_was_asked_for(g: &mut Gaming, active: bool, elevate_nice: bool)
    requires
        call_ensures(Gaming::set, (g, active, elevate_nice), ()),
    ensures
        final(g).active == active,
        final(g).elevate_nice == elevate_nice,
        !final(g).auto,
        final(g).absent == 0,
{
}

/// What lies at the places outside a set.
proof fn lemma_places_outside(rows: Seq<ProcInfo>, s: Set<u32>, n: nat)
    requires
        n <= rows.len(),
    ensures
        forall|i: int| #[trigger]
            places_outside(rows, s, n).contains(i) <==> 0 <= i < n && !s.contains(rows[i].pid),
        forall|a: int, b: int|
            0 <= a < b < places_outside(rows, s, n).len() ==> places_outside(rows, s, n)[a]
                < places_outside(rows, s, n)[b],
    decreases n,
{
    if n > 0 {
        lemma_places_outside(rows, s, (n - 1) as nat);
        let p = places_outside(rows, s, (n - 1) as nat);
        let q = places_outside(rows, s, n);
        if !s.contains(rows[n - 1].pid) {
            assert forall|i: int| #[trigger] q.contains(i) <==> 0 <= i < n && !s.contains(
                rows[i].pid,
            ) by {
                if i == n - 1 {
                    assert(q[p.len() as int] == i);
                } else if p.contains(i) {
                    let k = choose|k: int| 0 <= k < p.len() && p[k] == i;
                    assert(q[k] == i);
                }
                if q.contains(i) && i != n - 1 {
                    let k = choose|k: int| 0 <= k < q.len() && q[k] == i;
                    assert(p[k] == i);
                }
            }
            assert forall|a: int, b: int| 0 <= a < b < q.len() implies q[a] < q[b] by {
                assert(p.contains(p[a]));
            }
        }
    }
}

/// What the machine's numbers of places hold.
proof fn lemma_as_ints(s: Seq<usize>, i: usize)
    ensures
        s.contains(i) <==> as_ints(s).contains(i as int),
{
    if s.contains(i) {
        let k = choose|k: int| 0 <= k < s.len() && s[k] == i;
        assert(as_ints(s)[k] == i);
    }
    if as_ints(s).contains(i as int) {
        let k = choose|k: int| 0 <= k < as_ints(s).len() && as_ints(s)[k] == i as int;
        assert(s[k] == i);
    }
}

/// A process is new where the snapshot before did not show it, and after the snapshot
/// exactly the processes that it shows are known.
pub proof fn law_new_processes_were_not_known(
    d: &mut Daemon,
    rows: &Vec<ProcInfo>,
    r: Vec<usize>,
    i: usize,
    pid: u32,
)
    requires
        call_ensures(Daemon::take_snapshot, (d, rows), r),
    ensures
        r@.contains(i) <==> i < rows@.len() && !old(d).known_pids@.contains(rows@[i as int].pid),
        final(d).known_pids@.contains(pid) <==> exists|k: int|
            0 <= k < rows@.len() && (#[trigger] rows@[k]).pid == pid,
        final(d).gaming_niced@.contains_key(pid) <==> old(d).gaming_niced@.contains_key(pid)
            && final(d).known_pids@.contains(pid),
        final(d).gaming_niced@.contains_key(pid)
            ==> final(d).gaming_niced@[pid] == old(d).gaming_niced@[pid],
        final(d).original_affinities@.contains_key(pid)
            <==> old(d).original_affinities@.contains_key(pid) && final(d).known_pids@.contains(pid),
        final(d).original_affinities@.contains_key(pid) ==> final(d).original_affinities@[pid]
            == old(d).original_affinities@[pid],
{
    lemma_places_outside(rows@, old(d).known_pids@, rows@.len());
    lemma_as_ints(r@, i);
}

/// After a change by hand the rules leave the process alone until the time is over, and
/// only that process.
pub proof fn law_changes_by_hand_hold_for_their_time(
    d: &mut Daemon,
    e: &mut Daemon,
    pid: u32,
    now: u64,
    duration: u64,
    later: u64,
    rows: &Vec<ProcInfo>,
    r: Vec<usize>,
    i: usize,
)
    requires
        call_ensures(Daemon::set_manual_override, (d, pid, now, duration), ()),
        *old(e) == *final(d),
        call_ensures(Daemon::enforce_targets, (e, later, rows), r),
        now + duration <= u64::MAX,
        i < rows@.len(),
    ensures
        rows@[i as int].pid == pid ==> (r@.contains(i) <==> later >= now + duration),
        !old(d).manual_overrides@.contains_key(rows@[i as int].pid) && rows@[i as int].pid != pid
            ==> r@.contains(i),
        forall|a: int, b: int| 0 <= a < b < r@.len() ==> r@[a] < r@[b],
        final(e).last_enforce == later,
{
    let live = live_overrides(old(e).manual_overrides@, later).dom();
    lemma_places_outside(rows@, live, rows@.len());
    lemma_as_ints(r@, i);
    assert forall|a: int, b: int| 0 <= a < b < r@.len() implies r@[a] < r@[b] by {
        assert(as_ints(r@)[a] < as_ints(r@)[b]);
    }
}

/// Switching gaming mode off gives every process whose priority was raised its own
/// priority back, and no other; switching it on gives none back. CPUs are parked when it
/// goes on, if that is wanted and possible, and unparked when it goes off.
pub proof fn law_switching_off_restores_priorities(
    d: &mut Daemon,
    active: bool,
    elevate_nice: bool,
    park: bool,
    asymmetric: bool,
    helper_installed: bool,
    r: Vec<GamingStep>,
    pid: u32,
    nice: i32,
)
    requires
        call_ensures(
            Daemon::gaming_plan,
            (d, active, elevate_nice, park, asymmetric, helper_installed),
            r,
        ),
    ensures
        r@.contains(GamingStep::RestoreNice(pid, nice)) <==> !active
            && old(d).gaming_niced@.contains_key(pid) && old(d).gaming_niced@[pid] == nice,
        r@.contains(GamingStep::ShowActive(true)) <==> active,
        r@.contains(GamingStep::ShowActive(false)) <==> !active,
        r@.contains(GamingStep::Park) <==> active && park && asymmetric && helper_installed,
        r@.contains(GamingStep::Unpark) <==> !active && park,
        final(d).gaming.active == active,
        final(d).gaming.elevate_nice == elevate_nice,
        !final(d).gaming.auto,
        active ==> final(d).gaming_niced@ == old(d).gaming_niced@,
        !active ==> !final(d).gaming_niced@.contains_key(pid),
{
    lemma_switch_steps(
        old(d).gaming_niced@,
        active,
        parks(active, park, asymmetric, helper_installed),
        r@,
        pid,
        nice,
    );
}

/// The same of a switch that a game brought about, which leaves gaming mode itself as
/// it is.
pub proof fn law_automatic_switches_restore_priorities(
    d: &mut Daemon,
    active: bool,
    park: bool,
    asymmetric: bool,
    helper_installed: bool,
    r: Vec<GamingStep>,
    pid: u32,
    nice: i32,
)
    requires
        call_ensures(Daemon::switch_plan, (d, active, park, asymmetric, helper_installed), r),
    ensures
        r@.contains(GamingStep::RestoreNice(pid, nice)) <==> !active
            && old(d).gaming_niced@.contains_key(pid) && old(d).gaming_niced@[pid] == nice,
        r@.contains(GamingStep::ShowActive(true)) <==> active,
        r@.contains(GamingStep::ShowActive(false)) <==> !active,
        r@.contains(GamingStep::Park) <==> active && park && asymmetric && helper_installed,
        r@.contains(GamingStep::Unpark) <==> !active && park,
        final(d).gaming == old(d).gaming,
{
    lemma_switch_steps(
        old(d).gaming_niced@,
        active,
        parks(active, park, asymmetric, helper_installed),
        r@,
        pid,
        nice,
    );
}

/// Which steps a switch of gaming mode has.
proof fn lemma_switch_steps(
    niced: Map<u32, i32>,
    active: bool,
    park: bool,
    r: Seq<GamingStep>,
    pid: u32,
    nice: i32,
)
    requires
        r == switch_steps(active, crate::idmap::ordered_pairs(niced), park),
    ensures
        r.contains(GamingStep::RestoreNice(pid, nice)) <==> !active && niced.contains_key(pid)
            && niced[pid] == nice,
        r.contains(GamingStep::ShowActive(true)) <==> active,
        r.contains(GamingStep::ShowActive(false)) <==> !active,
        r.contains(GamingStep::Park) <==> active && park,
        r.contains(GamingStep::Unpark) <==> !active && park,
{
    let o = crate::idmap::ordered_pairs(niced);
    crate::idmap::law_order_holds_the_pairs(niced);
    let step = GamingStep::RestoreNice(pid, nice);
    let nices = if active {
        Seq::empty()
    } else {
        restore_steps(o)
    };
    let n = nices.len() as int;
    assert(r[n] == GamingStep::ShowActive(active));
    if park {
        assert(r[n + 1] == if active {
            GamingStep::Park
        } else {
            GamingStep::Unpark
        });
    }
    assert forall|i: int| 0 <= i < n implies #[trigger] r[i] == nices[i] by {}
    assert forall|i: int| 0 <= i < n implies (#[trigger] nices[i]) is RestoreNice || nices[i]
        is ReportNices by {}
    assert(o.contains((pid, nice)) <==> niced.contains_key(pid) && niced[pid] == nice);
    if !active && o.contains((pid, nice)) {
        let i = choose|i: int| 0 <= i < o.len() && o[i] == (pid, nice);
        assert(nices[i] == step);
        assert(r[i] == step);
    }
    if r.contains(step) {
        let i = choose|i: int| 0 <= i < r.len() && r[i] == step;
        assert(i < n && nices[i] == step);
        assert(i < o.len());
        assert(o[i] == (pid, nice));
    }
}

/// The user is told of exactly the processes that are throttled now and were not before,
/// and of those that were and are no longer.
pub proof fn law_notices_follow_the_changes(
    d: &mut Daemon,
    throttled: IdSet,
    rows: &Vec<ProcInfo>,
    r: Vec<String>,
    name: Seq<char>,
    pid: u32,
    i: int,
)
    requires
        call_ensures(Daemon::throttle_notices, (d, throttled, rows, true), r),
        0 <= i < rows@.len(),
        rows@[i].pid == pid,
        rows@[i].name@ == name,
        forall|k: int| i < k < rows@.len() ==> (#[trigger] rows@[k]).pid != pid,
    ensures
        throttled@.contains(pid) && !old(d).prev_throttled@.contains(pid) ==> texts(r@).contains(
            "Throttled: "@ + name + " (PID "@ + dec(pid as nat) + ")"@,
        ),
        !throttled@.contains(pid) && old(d).prev_throttled@.contains(pid) ==> texts(r@).contains(
            "Restored: "@ + name + " (PID "@ + dec(pid as nat) + ")"@,
        ),
        (forall|c: u32| throttled@.contains(c) == old(d).prev_throttled@.contains(c)) ==> r@.len() == 0,
        final(d).prev_throttled@ == throttled@,
{
    reveal_strlit("Throttled");
    reveal_strlit("Restored");
    reveal_strlit(": ");
    reveal_strlit("Throttled: ");
    reveal_strlit("Restored: ");
    let up = throttled@.difference(old(d).prev_throttled@);
    let down = old(d).prev_throttled@.difference(throttled@);
    crate::idset::law_ascending_holds_the_members(up);
    crate::idset::law_ascending_holds_the_members(down);
    let (a, b) = (crate::idset::ascending(up), crate::idset::ascending(down));
    let (x, y) = (notices("Throttled"@, rows@, a), notices("Restored"@, rows@, b));
    assert("Throttled"@ + ": "@ =~= "Throttled: "@);
    assert("Restored"@ + ": "@ =~= "Restored: "@);
    lemma_name_of(rows@, i);
    assert(up.contains(pid) == a.contains(pid));
    assert(down.contains(pid) == b.contains(pid));
    if up.contains(pid) {
        let k = choose|k: int| 0 <= k < a.len() && a[k] == pid;
        assert(texts(r@)[k] == x[k]);
    }
    if down.contains(pid) {
        let k = choose|k: int| 0 <= k < b.len() && b[k] == pid;
        assert((x + y)[x.len() + k] == y[k]);
    }
    if forall|c: u32| throttled@.contains(c) == old(d).prev_throttled@.contains(c) {
        if a.len() > 0 {
            assert(a.contains(a[0]));
        }
        if b.len() > 0 {
            assert(b.contains(b[0]));
        }
        assert(texts(r@).len() == 0);
    }
}

/// The name of a process is the one in its last row.
proof fn lemma_name_of(rows: Seq<ProcInfo>, i: int)
    requires
        0 <= i < rows.len(),
        forall|k: int| i < k < rows.len() ==> (#[trigger] rows[k]).pid != rows[i].pid,
    ensures
        name_of(rows, rows[i].pid) == rows[i].name@,
    decreases rows.len(),
{
    if i < rows.len() - 1 {
        assert(rows[rows.len() - 1].pid != rows[i].pid);
        let s = rows.drop_last();
        assert forall|k: int| i < k < s.len() implies (#[trigger] s[k]).pid != s[i].pid by {
            assert(rows[k].pid != rows[i].pid);
        }
        lemma_name_of(s, i);
    }
}

/// The CPUs that a process could use when the library first changed them are the ones
/// that it gets back; all CPUs where none were known.
pub proof fn law_first_affinity_comes_back(
    d: &mut Daemon,
    e: &mut Daemon,
    pid: u32,
    cpus: IdSet,
    cpu_count: u32,
    r: Vec<(u32, IdSet)>,
    k: u32,
)
    requires
        call_ensures(Daemon::capture_original, (d, pid, cpus), ()),
        *old(e) == *final(d),
        call_ensures(Daemon::take_original_affinities, (e, cpu_count), r),
    ensures
        (exists|i: int| 0 <= i < r@.len() && (#[trigger] r@[i]).0 == k) <==> k == pid
            || old(d).original_affinities@.contains_key(k),
        forall|i: int| 0 <= i < r@.len() && (#[trigger] r@[i]).0 == k ==> {
            let kept = if old(d).original_affinities@.contains_key(k) {
                old(d).original_affinities@[k]
            } else {
                cpus
            };
            forall|c: u32| #[trigger] r@[i].1@.contains(c) <==> kept@.contains(c) || (kept@
                =~= Set::empty() && c < cpu_count)
        },
        !final(e).original_affinities@.contains_key(k),
{
    let m = old(e).original_affinities@;
    let o = crate::idmap::ordered_pairs(m);
    crate::idmap::law_order_holds_the_pairs(m);
    assert forall|i: int| 0 <= i < r@.len() implies (#[trigger] r@[i]).0 == o[i].0 && m.contains_key(
        r@[i].0,
    ) && m[r@[i].0] == o[i].1 by {
        assert(o.contains((o[i].0, o[i].1)));
    }
    if m.contains_key(k) {
        assert(o.contains((k, m[k])));
        let i = choose|i: int| 0 <= i < o.len() && o[i] == (k, m[k]);
        assert(r@[i].0 == k);
    }
}

/// What is new of a process is decided by the rules first: one that they match is raised
/// once while gaming mode raises, one that they do not match gets the default CPUs.
pub proof fn law_new_processes_are_raised_once(
    d: &mut Daemon,
    e: &Daemon,
    pid: u32,
    nice: i32,
    default_affinity: &Option<String>,
    r: NewPidAction,
    s: NewPidAction,
)
    requires
        call_ensures(Daemon::new_pid_action, (old(d), pid, true, default_affinity), r),
        call_ensures(Daemon::note_raised, (d, pid, nice), ()),
        *e == *final(d),
        call_ensures(Daemon::new_pid_action, (e, pid, true, default_affinity), s),
    ensures
        r is Elevate <==> old(d).gaming.active && old(d).gaming.elevate_nice
            && !old(d).gaming_niced@.contains_key(pid),
        r is Elevate || r is LeaveAlone,
        s is LeaveAlone,
        final(d).gaming_niced@[pid] == nice,
{
}

/// When the program ends, every priority that was raised and every process that was
/// throttled is restored, parked CPUs are brought back, and nothing else is restored; the
/// end is announced first and reported last.
pub proof fn law_shutdown_restores_everything(
    d: &mut Daemon,
    throttled: &Vec<ThrottleInfo>,
    any_offline: bool,
    r: Vec<ShutdownStep>,
    pid: u32,
    nice: i32,
)
    requires
        call_ensures(Daemon::shutdown_plan, (d, throttled, any_offline), r),
    ensures
        r@.len() >= 2,
        r@[0] == ShutdownStep::Announce,
        r@.last() == ShutdownStep::Complete,
        r@.contains(ShutdownStep::RestoreNice(pid, nice)) <==> old(d).gaming_niced@.contains_key(pid)
            && old(d).gaming_niced@[pid] == nice,
        r@.contains(ShutdownStep::Unthrottle(pid, nice)) <==> exists|i: int|
            0 <= i < throttled@.len() && (#[trigger] throttled@[i]).pid == pid
                && throttled@[i].original_nice == nice,
        r@.contains(ShutdownStep::Unpark) <==> any_offline,
        !final(d).gaming_niced@.contains_key(pid),
{
    let o = crate::idmap::ordered_pairs(old(d).gaming_niced@);
    crate::idmap::law_order_holds_the_pairs(old(d).gaming_niced@);
    let nices = if o.len() == 0 {
        Seq::empty()
    } else {
        o.map_values(|p: (u32, i32)| ShutdownStep::RestoreNice(p.0, p.1)).push(
            ShutdownStep::ReportNices,
        )
    };
    let throttles = throttled@.map_values(
        |t: ThrottleInfo| ShutdownStep::Unthrottle(t.pid, t.original_nice),
    );
    let n = nices.len() as int;
    let m = throttles.len() as int;
    assert(r@[0] == ShutdownStep::Announce);
    assert forall|i: int| 1 <= i < 1 + n implies #[trigger] r@[i] == nices[i - 1] by {}
    assert forall|i: int| 1 + n <= i < 1 + n + m implies #[trigger] r@[i] == throttles[i - 1 - n] by {}
    assert forall|i: int| 1 + n + m <= i < r@.len() implies (#[trigger] r@[i]) is Unpark
        || r@[i] is Complete by {}
    let step = ShutdownStep::RestoreNice(pid, nice);
    assert(o.contains((pid, nice)) <==> old(d).gaming_niced@.contains_key(pid)
        && old(d).gaming_niced@[pid] == nice);
    if o.contains((pid, nice)) {
        let i = choose|i: int| 0 <= i < o.len() && o[i] == (pid, nice);
        assert(nices[i] == step);
        assert(r@[i + 1] == step);
    }
    if r@.contains(step) {
        let i = choose|i: int| 0 <= i < r@.len() && r@[i] == step;
        assert(1 <= i < 1 + n);
        assert(nices[i - 1] == step);
        assert(o[i - 1] == (pid, nice));
    }
    let un = ShutdownStep::Unthrottle(pid, nice);
    if exists|i: int|
        0 <= i < throttled@.len() && (#[trigger] throttled@[i]).pid == pid
            && throttled@[i].original_nice == nice {
        let i = choose|i: int|
            0 <= i < throttled@.len() && (#[trigger] throttled@[i]).pid == pid
                && throttled@[i].original_nice == nice;
        assert(throttles[i] == un);
        assert(r@[1 + n + i] == un);
    }
    if r@.contains(un) {
        let i = choose|i: int| 0 <= i < r@.len() && r@[i] == un;
        assert(1 + n <= i < 1 + n + m);
        assert(throttles[i - 1 - n] == un);
        assert(throttled@[i - 1 - n].pid == pid);
    }
}

/// The share of the graphics card is that of each process, nothing where it has none;
/// nothing else changes.
pub proof fn law_graphics_share_goes_to_its_process(
    rows: &mut Vec<ProcInfo>,
    util: &IdMap<Single>,
    i: int,
)
    requires
        call_ensures(merge_gpu, (rows, util), ()),
        0 <= i < old(rows)@.len(),
    ensures
        final(rows)@.len() == old(rows)@.len(),
        util@.contains_key(old(rows)@[i].pid) ==> final(rows)@[i].gpu_percent@
            == util@[old(rows)@[i].pid]@,
        !util@.contains_key(old(rows)@[i].pid) ==> final(rows)@[i].gpu_percent@.mant == 0
            || util@ =~= Map::<u32, Single>::empty(),
        final(rows)@[i].pid == old(rows)@[i].pid,
        final(rows)@[i].cpu_percent == old(rows)@[i].cpu_percent,
        final(rows)@[i].name == old(rows)@[i].name,
{
    if util@ != Map::<u32, Single>::empty() {
        assert(has_gpu_share(final(rows)@[i], old(rows)@[i], util@));
    }
}

/// Balancing sees each process with its number, name, load and priority.
pub proof fn law_balancing_sees_every_process(rows: &Vec<ProcInfo>, r: Vec<ProcSnapshot>, i: int)
    requires
        call_ensures(balance_rows, (rows,), r),
        0 <= i < rows@.len(),
    ensures
        r@.len() == rows@.len(),
        r@[i].pid == rows@[i].pid,
        r@[i].name@ == rows@[i].name@,
        r@[i].cpu_percent == rows@[i].cpu_percent,
        r@[i].nice == rows@[i].nice,
{
    assert(seen_as(rows@[i], r@[i]));
}

/// The default CPUs are set where no rule matches and there are any.
pub proof fn law_default_is_for_processes_without_rules(
    matched: bool,
    default_affinity: &Option<String>,
    r: Option<String>,
    d: &Daemon,
    pid: u32,
    a: NewPidAction,
)
    requires
        call_ensures(reapply_default, (matched, default_affinity), r),
        call_ensures(Daemon::new_pid_action, (d, pid, matched, default_affinity), a),
    ensures
        matched ==> r is None && !(a is SetDefault),
        *default_affinity is None ==> r is None && !(a is SetDefault),
        !matched ==> (r is Some <==> a is SetDefault),
        !matched && (*default_affinity matches Some(s) && s@.len() > 0) ==> r is Some && r->0@
            == default_affinity->0@,
{
}

/// A process whose priority could not be set is remembered with its rule, until it ends or
/// the rules change.
pub proof fn law_failures_are_remembered(
    d: &mut Daemon,
    after: &Daemon,
    f: &mut Daemon,
    cleared: &Daemon,
    rule: &str,
    pid: u32,
    other: &str,
    q: u32,
    before: &Daemon,
    noted: bool,
    was: bool,
    is: bool,
    gone: bool,
)
    requires
        call_ensures(Daemon::note_nice_failed, (d, rule, pid), ()),
        *after == *final(d),
        *before == *old(d),
        call_ensures(Daemon::has_nice_failed, (after, rule, pid), noted),
        call_ensures(Daemon::has_nice_failed, (before, other, q), was),
        call_ensures(Daemon::has_nice_failed, (after, other, q), is),
        call_ensures(Daemon::forget_nice_failures, (f,), ()),
        *cleared == *final(f),
        call_ensures(Daemon::has_nice_failed, (cleared, other, q), gone),
    ensures
        noted,
        other@ != rule@ || q != pid ==> was == is,
        !gone,
{
    let (x, y) = (failures(old(d).nice_failed@), failures(final(d).nice_failed@));
    let k = (rule@, pid);
    if !x.contains(k) {
        assert(y[x.len() as int] == k);
        let m = (other@, q);
        if x.contains(m) {
            let i = choose|i: int| 0 <= i < x.len() && x[i] == m;
            assert(y[i] == m);
        }
        if y.contains(m) && m != k {
            let i = choose|i: int| 0 <= i < y.len() && y[i] == m;
            assert(x[i] == m);
        }
    }
    assert(failures(final(f).nice_failed@).len() == 0);
}

/// Balancing is told how much time has passed since it was done last.
pub proof fn law_balancing_knows_the_time(
    d: &mut Daemon,
    e: &mut Daemon,
    now: u64,
    later: u64,
    first: u64,
    second: u64,
)
    requires
        call_ensures(Daemon::begin_probalance, (d, now), first),
        *old(e) == *final(d),
        call_ensures(Daemon::begin_probalance, (e, later), second),
        old(d).last_pb <= now <= later,
    ensures
        first + second == later - old(d).last_pb,
        first == now - old(d).last_pb,
        final(e).last_pb == later,
{
}

/// The loop sleeps between 50 and 500 milliseconds, and otherwise as long as the interval.
pub proof fn law_loop_sleeps_within_bounds(cfg: &MonitorConfig, r: u64)
    requires
        call_ensures(sleep_ms, (cfg,), r),
    ensures
        50 <= r <= 500,
        50 <= cfg.rule_enforce_interval_ms <= 500 ==> r == cfg.rule_enforce_interval_ms,
        cfg.rule_enforce_interval_ms < 50 ==> r == 50,
        cfg.rule_enforce_interval_ms > 500 ==> r == 500,
{
}

/// The report on restored priorities counts those that were restored: one more where one
/// more succeeded.
pub proof fn law_report_counts_what_succeeded(
    ok: &Vec<bool>,
    more: &Vec<bool>,
    last: bool,
    r: String,
    s: String,
    n: nat,
)
    requires
        call_ensures(restore_gaming_nices, (ok,), r),
        call_ensures(restore_gaming_nices, (more,), s),
        more@ == ok@.push(last),
        r@ == "[Gaming Mode] Restored nice for "@ + dec(n) + " processes."@,
    ensures
        s@ == "[Gaming Mode] Restored nice for "@ + dec(
            if last {
                n + 1
            } else {
                n
            },
        ) + " processes."@,
        ok@.len() == 0 ==> n == 0,
{
    assert(more@.drop_last() =~= ok@);
    let (h, t) = ("[Gaming Mode] Restored nice for "@, " processes."@);
    let (a, b) = (dec(successes(ok@)), dec(n));
    let x = h + a + t;
    let y = h + b + t;
    assert(x == y);
    assert(x.len() == h.len() + a.len() + t.len());
    assert(y.len() == h.len() + b.len() + t.len());
    assert(a =~= b) by {
        assert(x.subrange(h.len() as int, (h.len() + a.len()) as int) =~= a);
        assert(y.subrange(h.len() as int, (h.len() + b.len()) as int) =~= b);
    }
    crate::number::law_decimal_injective(successes(ok@), n);
}

/// Gaming mode that is switched off by hand restores priorities where some were raised;
/// what is handed out then is every one of them, with its own priority, once.
pub proof fn law_raised_priorities_are_handed_out_once(
    d: &mut Daemon,
    active: bool,
    elevate_nice: bool,
    restore: bool,
    t: &mut Daemon,
    r: Vec<(u32, i32)>,
    again: &mut Daemon,
    s: Vec<(u32, i32)>,
    pid: u32,
    nice: i32,
)
    requires
        call_ensures(Daemon::set_gaming_mode, (d, active, elevate_nice), restore),
        *old(t) == *final(d),
        call_ensures(Daemon::take_gaming_nices, (t,), r),
        *old(again) == *final(t),
        call_ensures(Daemon::take_gaming_nices, (again,), s),
    ensures
        old(d).gaming_niced@.contains_key(pid) && !active ==> restore,
        active ==> !restore,
        restore ==> r@.len() > 0,
        r@.contains((pid, nice)) <==> old(d).gaming_niced@.contains_key(pid)
            && old(d).gaming_niced@[pid] == nice,
        s@.len() == 0,
        final(d).gaming.active == active,
{
    let m = old(d).gaming_niced@;
    crate::idmap::law_order_holds_the_pairs(m);
    crate::idmap::law_order_holds_the_pairs(final(t).gaming_niced@);
    if restore {
        let k = choose|k: u32| m.contains_key(k);
        if forall|k: u32| !m.contains_key(k) {
            assert(m =~= Map::<u32, i32>::empty());
        }
        assert(r@.contains((k, m[k])));
    }
    if s@.len() > 0 {
        let x = s@[0];
        assert(s@.contains((x.0, x.1)));
    }
}

} // verus!
