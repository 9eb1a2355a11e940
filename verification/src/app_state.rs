//! The state that the monitor shares with the user interface.

use std::collections::VecDeque;
use vstd::prelude::*;
use vstd::string::*;

use crate::binary::{numbers_of, single, Single};
use crate::gui::cpu_bars::{average_load, load_average};
use crate::idmap::IdMap;
use crate::idset::IdSet;
use crate::monitor::ProcInfo;
use crate::number::{dec, push_dec};
use crate::probalance::ThrottleInfo;
use crate::ring::{newest, push_capped};
use crate::text::{contains_text, has_substring};

verus! {

// ── Time of day ──────────────────────────────────────────────────────────────

/// A number with at least two digits.
pub open spec fn two_digits(n: nat) -> Seq<char> {
    if n < 10 {
        "0"@ + dec(n)
    } else {
        dec(n)
    }
}

/// A time of day, `HH:MM:SS`.
pub open spec fn clock_text(h: nat, m: nat, s: nat) -> Seq<char> {
    two_digits(h) + ":"@ + two_digits(m) + ":"@ + two_digits(s)
}

/// Appends a number with at least two digits.
fn push_two(s: &mut String, n: u32)
    ensures
        final(s)@ == old(s)@ + two_digits(n as nat),
{
    let ghost start = s@;
    if n < 10 {
        s.append("0");
    }
    push_dec(s, n as u64);
    assert(s@ =~= start + two_digits(n as nat));
}

/// Writes a time of day.
pub fn clock(h: u32, m: u32, s: u32) -> (r: String)
    ensures
        r@ == clock_text(h as nat, m as nat, s as nat),
{
    let mut r = String::new();
    push_two(&mut r, h);
    r.append(":");
    push_two(&mut r, m);
    r.append(":");
    push_two(&mut r, s);
    assert(r@ =~= clock_text(h as nat, m as nat, s as nat));
    r
}

// ── Log ──────────────────────────────────────────────────────────────────────

/// The number of log lines that are kept.
pub const LOG_CAP: usize = 2000;

/// The number of notable events that are kept.
pub const NOTABLE_CAP: usize = 50;

/// The number of samples of each graph.
pub const GRAPH_CAP: usize = 120;

/// The number of samples of the load of one process.
pub const PROC_CAP: usize = 30;

/// A message that the user is told of, not only the log.
pub open spec fn is_notable(msg: Seq<char>) -> bool {
    ||| has_substring(msg, "[ProBalance] THROTTLE"@)
    ||| has_substring(msg, "[ProBalance] RESTORE"@)
    ||| has_substring(msg, "[HW Alert]"@)
    ||| has_substring(msg, "[Gaming Mode]"@)
    ||| has_substring(msg, "[Shutdown]"@)
    ||| has_substring(msg, "illed "@)
    ||| has_substring(msg, "[Park]"@)
    ||| has_substring(msg, "[Power]"@)
}

/// Whether the user is told of a message.
pub fn notable(msg: &str) -> (r: bool)
    ensures
        r == is_notable(msg@),
{
    contains_text(msg, "[ProBalance] THROTTLE") || contains_text(msg, "[ProBalance] RESTORE")
        || contains_text(msg, "[HW Alert]") || contains_text(msg, "[Gaming Mode]")
        || contains_text(msg, "[Shutdown]") || contains_text(msg, "illed ") || contains_text(
        msg,
        "[Park]",
    ) || contains_text(msg, "[Power]")
}

/// A log line.
pub open spec fn line_text(time: Seq<char>, msg: Seq<char>) -> Seq<char> {
    "["@ + time + "] "@ + msg
}

/// The state that the user interface reads.
pub struct AppState {
    pub snapshot: Vec<ProcInfo>,
    /// Load by CPU number; 0 for parked CPUs.
    pub cpu_percents: Vec<Single>,
    /// Counts the updates of `cpu_percents`.
    pub cpu_generation: u64,
    /// The average loads in percent.
    pub cpu_history: VecDeque<Single>,
    /// Disk rates, read and written.
    pub disk_io_history: VecDeque<(Single, Single)>,
    /// Network rates, received and sent.
    pub net_io_history: VecDeque<(Single, Single)>,
    pub throttled_pids: IdSet,
    pub throttle_infos: Vec<ThrottleInfo>,
    pub log_lines: VecDeque<String>,
    pub gaming_active: bool,
    /// The average load in percent.
    pub cpu_avg: Single,
    pub proc_cpu_history: IdMap<Vec<Single>>,
    pub cpu_model: String,
    /// Processes that the user has stopped.
    pub suspended_pids: IdSet,
    /// Everything that was changed has been restored.
    pub shutdown_complete: bool,
    pub notable_events: VecDeque<String>,
}

impl Default for AppState {
    fn default() -> (r: Self)
        ensures
            r.snapshot@.len() == 0,
            r.cpu_percents@.len() == 0,
            r.cpu_generation == 0,
            r.cpu_history@.len() == 0,
            r.disk_io_history@.len() == 0,
            r.net_io_history@.len() == 0,
            r.throttled_pids@ == Set::<u32>::empty(),
            r.throttle_infos@.len() == 0,
            r.log_lines@.len() == 0,
            !r.gaming_active,
            r.cpu_avg@ == single(0, 1),
            r.proc_cpu_history@ == Map::<u32, Vec<Single>>::empty(),
            r.cpu_model@.len() == 0,
            r.suspended_pids@ == Set::<u32>::empty(),
            !r.shutdown_complete,
            r.notable_events@.len() == 0,
    {
        AppState {
            snapshot: Vec::new(),
            cpu_percents: Vec::new(),
            cpu_generation: 0,
            cpu_history: VecDeque::new(),
            disk_io_history: VecDeque::new(),
            net_io_history: VecDeque::new(),
            throttled_pids: IdSet::new(),
            throttle_infos: Vec::new(),
            log_lines: VecDeque::new(),
            gaming_active: false,
            cpu_avg: Single::whole(0),
            proc_cpu_history: IdMap::new(),
            cpu_model: String::new(),
            suspended_pids: IdSet::new(),
            shutdown_complete: false,
            notable_events: VecDeque::new(),
        }
    }
}

/// The lines of a ring.
pub open spec fn line_views(s: Seq<String>) -> Seq<Seq<char>> {
    Seq::new(s.len(), |i: int| s[i]@)
}

/// The load histories as sequences.
pub open spec fn history_views(m: Map<u32, Vec<Single>>) -> Map<u32, Seq<Single>> {
    Map::new(|k: u32| m.contains_key(k), |k: u32| m[k]@)
}

/// The load histories after the first `n` processes of a snapshot: each process of
/// it has one more sample, and processes that are gone have none.
pub open spec fn histories(
    before: Map<u32, Seq<Single>>,
    rows: Seq<ProcInfo>,
    n: nat,
) -> Map<u32, Seq<Single>>
    decreases n,
{
    if n == 0 {
        Map::empty()
    } else {
        let done = histories(before, rows, (n - 1) as nat);
        let p = rows[n - 1];
        let base = if done.contains_key(p.pid) {
            done[p.pid]
        } else if before.contains_key(p.pid) {
            before[p.pid]
        } else {
            Seq::empty()
        };
        done.insert(p.pid, newest(base.push(p.cpu_percent), PROC_CAP as nat))
    }
}

/// A history with one more sample.
fn extend(base: Option<&Vec<Single>>, x: Single) -> (r: Vec<Single>)
    ensures
        r@ == newest(
            (match base {
                Some(b) => b@,
                None => Seq::empty(),
            }).push(x),
            PROC_CAP as nat,
        ),
{
    let mut all: Vec<Single> = Vec::new();
    if let Some(b) = base {
        let mut i: usize = 0;
        while i < b.len()
            invariant
                i <= b.len(),
                all@ == b@.take(i as int),
            decreases b.len() - i,
        {
            all.push(b[i]);
            i += 1;
            assert(b@.take(i as int) =~= b@.take(i - 1).push(b@[i - 1]));
        }
        assert(all@ =~= b@);
    } else {
        assert(all@ =~= Seq::<Single>::empty());
    }
    all.push(x);
    let n: usize = all.len();
    if n <= PROC_CAP {
        return all;
    }
    let mut r: Vec<Single> = Vec::new();
    let mut k: usize = n - PROC_CAP;
    while k < n
        invariant
            n - PROC_CAP <= k <= n,
            n == all.len(),
            n > PROC_CAP,
            r@ == all@.subrange(n - PROC_CAP, k as int),
        decreases n - k,
    {
        r.push(all[k]);
        k += 1;
        assert(all@.subrange(n - PROC_CAP, k as int) =~= all@.subrange(n - PROC_CAP, k - 1).push(
            all@[k - 1],
        ));
    }
    assert(r@ =~= newest(all@, PROC_CAP as nat));
    r
}

impl AppState {
    /// Adds a message to the log, with the time of day before it. Notable messages
    /// are also kept apart. Gives the line, for the log file.
    pub fn append_log(&mut self, time: &str, msg: &str) -> (line: String)
        ensures
            line@ == line_text(time@, msg@),
            line_views(final(self).log_lines@) == newest(
                line_views(old(self).log_lines@).push(line@),
                LOG_CAP as nat,
            ),
            line_views(final(self).notable_events@) == if is_notable(msg@) {
                newest(line_views(old(self).notable_events@).push(line@), NOTABLE_CAP as nat)
            } else {
                line_views(old(self).notable_events@)
            },
            *final(self) == (AppState {
                log_lines: final(self).log_lines,
                notable_events: final(self).notable_events,
                ..*old(self)
            }),
    {
        let mut line = "[".to_owned();
        line.append(time);
        line.append("] ");
        line.append(msg);
        if notable(msg) {
            let ghost before = self.notable_events@;
            let copy = line.clone();
            push_capped(&mut self.notable_events, copy, NOTABLE_CAP);
            assert(line_views(self.notable_events@) =~= newest(
                line_views(before).push(line@),
                NOTABLE_CAP as nat,
            ));
        }
        let ghost before = self.log_lines@;
        let copy = line.clone();
        push_capped(&mut self.log_lines, copy, LOG_CAP);
        assert(line_views(self.log_lines@) =~= newest(
            line_views(before).push(line@),
            LOG_CAP as nat,
        ));
        line
    }

    /// Takes in a new snapshot with all that is shown beside it.
    pub fn publish(
        &mut self,
        snapshot: Vec<ProcInfo>,
        cpu_percents: Vec<Single>,
        throttled: IdSet,
        infos: Vec<ThrottleInfo>,
        disk: (Single, Single),
        net: (Single, Single),
    )
        ensures
            final(self).snapshot == snapshot,
            final(self).cpu_percents == cpu_percents,
            final(self).cpu_generation as int == (old(self).cpu_generation + 1) % 0x1_0000_0000_0000_0000,
            final(self).throttled_pids == throttled,
            final(self).throttle_infos == infos,
            final(self).cpu_avg@ == load_average(numbers_of(cpu_percents@)),
            final(self).cpu_history@ == newest(
                old(self).cpu_history@.push(final(self).cpu_avg),
                GRAPH_CAP as nat,
            ),
            final(self).disk_io_history@ == newest(
                old(self).disk_io_history@.push(disk),
                GRAPH_CAP as nat,
            ),
            final(self).net_io_history@ == newest(
                old(self).net_io_history@.push(net),
                GRAPH_CAP as nat,
            ),
            history_views(final(self).proc_cpu_history@) == histories(
                history_views(old(self).proc_cpu_history@),
                snapshot@,
                snapshot@.len(),
            ),
            final(self).log_lines == old(self).log_lines,
            final(self).gaming_active == old(self).gaming_active,
            final(self).cpu_model == old(self).cpu_model,
            final(self).suspended_pids == old(self).suspended_pids,
            final(self).shutdown_complete == old(self).shutdown_complete,
            final(self).notable_events == old(self).notable_events,
    {
        let avg = average_load(cpu_percents.as_slice());
        push_capped(&mut self.cpu_history, avg, GRAPH_CAP);
        push_capped(&mut self.disk_io_history, disk, GRAPH_CAP);
        push_capped(&mut self.net_io_history, net, GRAPH_CAP);
        let mut hist: IdMap<Vec<Single>> = IdMap::new();
        let ghost before = history_views(self.proc_cpu_history@);
        let mut i: usize = 0;
        assert(history_views(hist@) =~= Map::<u32, Seq<Single>>::empty());
        while i < snapshot.len()
            invariant
                i <= snapshot.len(),
                before == history_views(self.proc_cpu_history@),
                history_views(hist@) == histories(before, snapshot@, i as nat),
            decreases snapshot.len() - i,
        {
            let p = &snapshot[i];
            let ghost done = history_views(hist@);
            let next = match hist.get(p.pid) {
                Some(h) => extend(Some(h), p.cpu_percent),
                None => extend(self.proc_cpu_history.get(p.pid), p.cpu_percent),
            };
            let ghost nv = next@;
            proof {
                assert(done.contains_key(p.pid) == hist@.contains_key(p.pid));
                assert(before.contains_key(p.pid) == self.proc_cpu_history@.contains_key(p.pid));
            }
            hist.insert(p.pid, next);
            assert(history_views(hist@) =~= done.insert(p.pid, nv));
            i += 1;
        }
        self.proc_cpu_history = hist;
        self.cpu_generation = self.cpu_generation.wrapping_add(1);
        self.cpu_avg = avg;
        self.snapshot = snapshot;
        self.cpu_percents = cpu_percents;
        self.throttled_pids = throttled;
        self.throttle_infos = infos;
    }
}

/// The histories hold exactly the processes of the last snapshot, at most thirty
/// samples of each.
pub proof fn law_histories_follow_the_snapshot(
    before: Map<u32, Seq<Single>>,
    rows: Seq<ProcInfo>,
    n: nat,
    pid: u32,
)
    requires
        n <= rows.len(),
    ensures
        histories(before, rows, n).contains_key(pid) <==> exists|i: int|
            0 <= i < n && (#[trigger] rows[i]).pid == pid,
        histories(before, rows, n).contains_key(pid) ==> histories(before, rows, n)[pid].len()
            <= PROC_CAP,
    decreases n,
{
    if n > 0 {
        law_histories_follow_the_snapshot(before, rows, (n - 1) as nat, pid);
        if histories(before, rows, (n - 1) as nat).contains_key(pid) {
            let i = choose|i: int| 0 <= i < n - 1 && (#[trigger] rows[i]).pid == pid;
            assert(rows[i].pid == pid);
        }
        assert(rows[n - 1].pid == rows[n - 1].pid);
    }
}

/// The log takes in every message, the newest last, and forgets the oldest beyond two
/// thousand; a message about throttling, games, parking, power, heat, shutdown or a
/// killed process is kept apart too, the last fifty of them.
pub proof fn law_log_keeps_the_newest_lines(s: &mut AppState, time: &str, msg: &str, r: String)
    requires
        call_ensures(AppState::append_log, (s, time, msg), r),
        old(s).log_lines@.len() <= 2000,
        old(s).notable_events@.len() <= 50,
    ensures
        r@ == seq!['['] + time@ + seq![']', ' '] + msg@,
        ({
            let (before, after) = (old(s).log_lines@, final(s).log_lines@);
            &&& after.len() == if before.len() < 2000 {
                before.len() + 1
            } else {
                2000
            }
            &&& after.last()@ == r@
            &&& forall|i: int|
                1 <= i < after.len() ==> (#[trigger] after[after.len() - 1 - i])@
                    == before[before.len() - i]@
        }),
        ({
            let (before, after) = (old(s).notable_events@, final(s).notable_events@);
            let told = exists|a: Seq<char>, w: Seq<char>, b: Seq<char>|
                msg@ == #[trigger] (a + w + b) && (w == "[ProBalance] THROTTLE"@ || w
                    == "[ProBalance] RESTORE"@ || w == "[HW Alert]"@ || w == "[Gaming Mode]"@ || w
                    == "[Shutdown]"@ || w == "illed "@ || w == "[Park]"@ || w == "[Power]"@);
            &&& told ==> after.len() == (if before.len() < 50 {
                before.len() + 1
            } else {
                50
            }) && after.last()@ == r@
            &&& !told ==> line_views(after) == line_views(before)
        }),
{
    reveal_strlit("[");
    reveal_strlit("] ");
    assert("["@ =~= seq!['[']);
    assert("] "@ =~= seq![']', ' ']);
    let (before, after) = (old(s).log_lines@, final(s).log_lines@);
    let v = line_views(after);
    assert(v.len() == after.len());
    assert(v.last() == after.last()@);
    assert forall|i: int| 1 <= i < after.len() implies (#[trigger] after[after.len() - 1 - i])@
        == before[before.len() - i]@ by {
        assert(v[after.len() - 1 - i] == line_views(before)[before.len() - i]);
    }
    let e = line_views(final(s).notable_events@);
    assert(e.len() == final(s).notable_events@.len());
    assert(e.len() > 0 ==> e.last() == final(s).notable_events@.last()@);
    let ws = seq![
        "[ProBalance] THROTTLE"@,
        "[ProBalance] RESTORE"@,
        "[HW Alert]"@,
        "[Gaming Mode]"@,
        "[Shutdown]"@,
        "illed "@,
        "[Park]"@,
        "[Power]"@,
    ];
    assert forall|w: Seq<char>| #[trigger] has_substring(msg@, w)
        <==> exists|a: Seq<char>, b: Seq<char>|
        msg@ == #[trigger] (a + w + b) by {
        crate::text::law_substring_stands_between(msg@, w);
    }
    assert(is_notable(msg@) == exists|k: int|
        0 <= k < ws.len() && has_substring(msg@, #[trigger] ws[k])) by {
        assert(ws[0] == "[ProBalance] THROTTLE"@ && ws[1] == "[ProBalance] RESTORE"@ && ws[2]
            == "[HW Alert]"@ && ws[3] == "[Gaming Mode]"@ && ws[4] == "[Shutdown]"@ && ws[5]
            == "illed "@ && ws[6] == "[Park]"@ && ws[7] == "[Power]"@);
    }
    if is_notable(msg@) {
        let k = choose|k: int| 0 <= k < ws.len() && has_substring(msg@, #[trigger] ws[k]);
        let (a, b) = choose|a: Seq<char>, b: Seq<char>| msg@ == #[trigger] (a + ws[k] + b);
        assert(msg@ == a + ws[k] + b);
    }
}

/// A published snapshot is what is shown, and each graph has one more sample: the last
/// one of a process is its load, that of the disks and the network what came in.
pub proof fn law_published_values_are_shown(
    s: &mut AppState,
    snapshot: Vec<ProcInfo>,
    cpu_percents: Vec<Single>,
    throttled: IdSet,
    infos: Vec<ThrottleInfo>,
    disk: (Single, Single),
    net: (Single, Single),
    i: int,
)
    requires
        call_ensures(
            AppState::publish,
            (s, snapshot, cpu_percents, throttled, infos, disk, net),
            (),
        ),
        0 <= i < snapshot@.len(),
        forall|k: int| i < k < snapshot@.len() ==> (#[trigger] snapshot@[k]).pid != snapshot@[i].pid,
    ensures
        final(s).snapshot@ == snapshot@,
        final(s).throttled_pids@ == throttled@,
        final(s).throttle_infos@ == infos@,
        final(s).disk_io_history@.last() == disk,
        final(s).net_io_history@.last() == net,
        final(s).cpu_history@.last() == final(s).cpu_avg,
        old(s).cpu_history@.len() < 120 ==> final(s).cpu_history@.len() == old(s).cpu_history@.len()
            + 1,
        old(s).cpu_history@.len() == 120 ==> final(s).cpu_history@.len() == 120,
        final(s).proc_cpu_history@.contains_key(snapshot@[i].pid),
        final(s).proc_cpu_history@[snapshot@[i].pid]@.len() <= 30,
        final(s).proc_cpu_history@[snapshot@[i].pid]@.last() == snapshot@[i].cpu_percent,
{
    let before = history_views(old(s).proc_cpu_history@);
    lemma_last_sample(before, snapshot@, snapshot@.len(), i);
    assert(history_views(final(s).proc_cpu_history@).contains_key(snapshot@[i].pid));
}

/// The last sample of a process is the load in its last row.
proof fn lemma_last_sample(before: Map<u32, Seq<Single>>, rows: Seq<ProcInfo>, n: nat, i: int)
    requires
        0 <= i < n <= rows.len(),
        forall|k: int| i < k < n ==> (#[trigger] rows[k]).pid != rows[i].pid,
    ensures
        histories(before, rows, n).contains_key(rows[i].pid),
        0 < histories(before, rows, n)[rows[i].pid].len() <= 30,
        histories(before, rows, n)[rows[i].pid].last() == rows[i].cpu_percent,
    decreases n,
{
    if i < n - 1 {
        lemma_last_sample(before, rows, (n - 1) as nat, i);
        assert(rows[n - 1].pid != rows[i].pid);
    }
}

} // verus!
