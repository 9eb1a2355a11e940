//! The monitor: process scanning, rule enforcement, gaming mode, logging.

use vstd::prelude::*;
use vstd::string::*;

use crate::binary::{
    exceeds, falls_short, law_fractions_are_near, law_near_is_within, law_products_are_near,
    law_quotients_are_near, law_whole_differences_are_exact, law_whole_numbers_are_exact,
    lemma_between, lemma_not_below_zero, lemma_order, lemma_smaller_fraction, lemma_zero_products,
    less, near, numbers_of, signed, single, single_difference, single_product, single_quotient,
    within, Number, Single,
};
use crate::idmap::IdMap;
use crate::number::{
    dec, is_digit, law_decimal_round_trip, lemma_dec_digits, parse_nat, push_dec, read_u32, read_u64,
};
use crate::text::{
    begins_with, contains_text, has_prefix, has_substring, lines, split_first, split_once_at,
    sub_chars, text_lines, text_of, trim, trimmed, views, words, words_of,
};

verus! {

/// One process of a snapshot. Loads are in percent of one core.
#[derive(Debug)]
pub struct ProcInfo {
    pub pid: u32,
    pub ppid: u32,
    pub name: String,
    pub cpu_percent: Single,
    pub gpu_percent: Single,
    /// Resident memory in bytes.
    pub mem_rss: u64,
    pub nice: i32,
    pub affinity: String,
    /// I/O priority as `class/level`.
    pub ionice: String,
    pub disk_read_bps: u64,
    pub disk_write_bps: u64,
    pub cmdline: String,
}

/// Two rows say the same of a process.
pub open spec fn same_row(a: ProcInfo, b: ProcInfo) -> bool {
    &&& a.pid == b.pid
    &&& a.ppid == b.ppid
    &&& a.name@ == b.name@
    &&& a.cpu_percent == b.cpu_percent
    &&& a.gpu_percent == b.gpu_percent
    &&& a.mem_rss == b.mem_rss
    &&& a.nice == b.nice
    &&& a.affinity@ == b.affinity@
    &&& a.ionice@ == b.ionice@
    &&& a.disk_read_bps == b.disk_read_bps
    &&& a.disk_write_bps == b.disk_write_bps
    &&& a.cmdline@ == b.cmdline@
}

impl ProcInfo {
    /// The same row.
    pub fn copy(&self) -> (r: ProcInfo)
        ensures
            same_row(r, *self),
    {
        ProcInfo {
            pid: self.pid,
            ppid: self.ppid,
            name: self.name.clone(),
            cpu_percent: self.cpu_percent,
            gpu_percent: self.gpu_percent,
            mem_rss: self.mem_rss,
            nice: self.nice,
            affinity: self.affinity.clone(),
            ionice: self.ionice.clone(),
            disk_read_bps: self.disk_read_bps,
            disk_write_bps: self.disk_write_bps,
            cmdline: self.cmdline.clone(),
        }
    }
}

impl Default for ProcInfo {
    fn default() -> (r: Self)
        ensures
            r.pid == 0,
            r.ppid == 0,
            r.name@.len() == 0,
            r.cpu_percent@ == single(0, 1),
            r.gpu_percent@ == single(0, 1),
            r.mem_rss == 0,
            r.nice == 0,
            r.affinity@.len() == 0,
            r.ionice@.len() == 0,
            r.disk_read_bps == 0,
            r.disk_write_bps == 0,
            r.cmdline@.len() == 0,
    {
        ProcInfo {
            pid: 0,
            ppid: 0,
            name: String::new(),
            cpu_percent: Single::whole(0),
            gpu_percent: Single::whole(0),
            mem_rss: 0,
            nice: 0,
            affinity: String::new(),
            ionice: String::new(),
            disk_read_bps: 0,
            disk_write_bps: 0,
            cmdline: String::new(),
        }
    }
}

// ── Processor model ──────────────────────────────────────────────────────────

/// The first line that begins with `prefix`.
pub open spec fn first_with(ls: Seq<Seq<char>>, prefix: Seq<char>) -> Option<Seq<char>>
    decreases ls.len(),
{
    if ls.len() == 0 {
        None
    } else if has_prefix(ls[0], prefix) {
        Some(ls[0])
    } else {
        first_with(ls.drop_first(), prefix)
    }
}

/// The model in the text of `cpuinfo`: what stands behind the colon of the first
/// line that begins with `model name`.
pub open spec fn model_in(cpuinfo: Seq<char>) -> Option<Seq<char>> {
    match first_with(lines(cpuinfo), "model name"@) {
        None => None,
        Some(l) => match split_first(l, ':') {
            Some((_, b)) => Some(trim(b)),
            None => None,
        },
    }
}

/// The processor model, from the text of `cpuinfo` where it could be read.
pub fn read_cpu_model(cpuinfo: Option<&str>) -> (r: String)
    ensures
        r@ == match cpuinfo {
            Some(t) => match model_in(t@) {
                Some(m) => m,
                None => "Unknown CPU"@,
            },
            None => "Unknown CPU"@,
        },
{
    if let Some(t) = cpuinfo {
        let ls = text_lines(t);
        let ghost all = views(ls@);
        let mut i: usize = 0;
        assert(all.skip(0) =~= all);
        while i < ls.len()
            invariant
                i <= ls.len(),
                all == views(ls@),
                all == lines(t@),
                cpuinfo == Some(t),
                first_with(all, "model name"@) == first_with(all.skip(i as int), "model name"@),
            decreases ls.len() - i,
        {
            assert(all.skip(i as int)[0] == ls@[i as int]@);
            if begins_with(&ls[i], "model name") {
                return match split_once_at(&ls[i], ':') {
                    Some((_, b)) => {
                        let m = trimmed(&b);
                        text_of(&m)
                    },
                    None => "Unknown CPU".to_owned(),
                };
            }
            assert(all.skip(i as int).drop_first() =~= all.skip(i + 1));
            i += 1;
        }
    }
    "Unknown CPU".to_owned()
}

// ── Counters of one process ──────────────────────────────────────────────────

/// The number behind a prefix, 0 where it is none.
pub open spec fn number_behind(line: Seq<char>, prefix: Seq<char>) -> u64 {
    match parse_nat(trim(line.skip(prefix.len() as int)), u64::MAX as nat) {
        Some(n) => n as u64,
        None => 0,
    }
}

/// The bytes read and written, from the lines of a process's `io` file; the last
/// line of a kind counts.
pub open spec fn io_bytes(ls: Seq<Seq<char>>) -> (u64, u64)
    decreases ls.len(),
{
    if ls.len() == 0 {
        (0, 0)
    } else {
        let (r, w) = io_bytes(ls.drop_last());
        let l = ls.last();
        if has_prefix(l, "read_bytes: "@) {
            (number_behind(l, "read_bytes: "@), w)
        } else if has_prefix(l, "write_bytes: "@) {
            (r, number_behind(l, "write_bytes: "@))
        } else {
            (r, w)
        }
    }
}

/// Reads the number behind a prefix.
fn read_behind(line: &[char], prefix: &str) -> (n: u64)
    requires
        has_prefix(line@, prefix@),
    ensures
        n == number_behind(line@, prefix@),
{
    let from: usize = prefix.unicode_len();
    let rest = sub_chars(line, from, line.len());
    assert(rest@ =~= line@.skip(prefix@.len() as int));
    let t = trimmed(&rest);
    match read_u64(&t) {
        Some(n) => n,
        None => 0,
    }
}

/// Reads a process's `io` file.
pub fn parse_proc_io(text: &str) -> (r: (u64, u64))
    ensures
        r == io_bytes(lines(text@)),
{
    let ls = text_lines(text);
    let ghost all = views(ls@);
    let mut read: u64 = 0;
    let mut written: u64 = 0;
    let mut i: usize = 0;
    assert(all.take(0) =~= Seq::<Seq<char>>::empty());
    while i < ls.len()
        invariant
            i <= ls.len(),
            all == views(ls@),
            (read, written) == io_bytes(all.take(i as int)),
        decreases ls.len() - i,
    {
        assert(all.take(i + 1).drop_last() =~= all.take(i as int));
        assert(all.take(i + 1).last() == ls@[i as int]@);
        if begins_with(&ls[i], "read_bytes: ") {
            read = read_behind(&ls[i], "read_bytes: ");
        } else if begins_with(&ls[i], "write_bytes: ") {
            written = read_behind(&ls[i], "write_bytes: ");
        }
        i += 1;
    }
    assert(all.take(i as int) =~= all);
    (read, written)
}

/// The difference, 0 where it would be negative.
pub open spec fn grown(now: u64, before: u64) -> u64 {
    if now >= before {
        (now - before) as u64
    } else {
        0
    }
}

/// An I/O priority as the kernel encodes it, as `class/level`; nothing where it
/// could not be read.
pub open spec fn ioprio_text(prio: i64) -> Seq<char> {
    if prio < 0 {
        Seq::empty()
    } else {
        dec(((prio as u64) / 8192 % 8) as nat) + "/"@ + dec(((prio as u64) % 8192) as nat)
    }
}

/// Writes an I/O priority: the class stands above the thirteen bits of the level.
pub fn read_ionice(prio: i64) -> (r: String)
    ensures
        r@ == ioprio_text(prio),
{
    if prio < 0 {
        return String::new();
    }
    let p: u64 = prio as u64;
    let mut r = String::new();
    push_dec(&mut r, p / 8192 % 8);
    r.append("/");
    push_dec(&mut r, p % 8192);
    assert(r@ =~= ioprio_text(prio));
    r
}

// ── Counters of the system ───────────────────────────────────────────────────

/// The sum, or the greatest number where it does not fit.
pub open spec fn capped(a: u64, b: u64) -> u64 {
    if a + b > u64::MAX {
        u64::MAX
    } else {
        (a + b) as u64
    }
}

/// The sum of the numbers among the words from the second on.
pub open spec fn tick_sum(w: Seq<Seq<char>>) -> u64
    decreases w.len(),
{
    if w.len() <= 1 {
        0
    } else {
        match parse_nat(w.last(), u64::MAX as nat) {
            Some(n) => capped(tick_sum(w.drop_last()), n as u64),
            None => tick_sum(w.drop_last()),
        }
    }
}

/// The ticks of the whole system: the sum over the first line of `stat`.
pub open spec fn system_ticks(stat: Seq<char>) -> u64 {
    let ls = lines(stat);
    if ls.len() == 0 {
        0
    } else {
        tick_sum(words(ls[0]))
    }
}

/// Reads the ticks of the whole system from the text of `stat`.
pub fn read_sys_cpu_total(stat: &str) -> (r: u64)
    ensures
        r == system_ticks(stat@),
{
    let ls = text_lines(stat);
    let ghost all = views(ls@);
    if ls.len() == 0 {
        return 0;
    }
    assert(all[0] == ls@[0]@);
    let w = words_of(&ls[0]);
    let ghost wv = views(w@);
    let mut sum: u64 = 0;
    if w.len() == 0 {
        return 0;
    }
    let mut i: usize = 1;
    while i < w.len()
        invariant
            1 <= i <= w.len(),
            wv == views(w@),
            sum == tick_sum(wv.take(i as int)),
        decreases w.len() - i,
    {
        assert(wv.take(i + 1).drop_last() =~= wv.take(i as int));
        assert(wv.take(i + 1).last() == w@[i as int]@);
        if let Some(n) = read_u64(&w[i]) {
            sum = sum.saturating_add(n);
        }
        i += 1;
    }
    assert(wv.take(i as int) =~= wv);
    sum
}

/// The ticks of one CPU: of all kinds, and idle.
#[derive(Debug, Clone, Copy, PartialEq, Eq, Structural)]
pub struct CpuTicks {
    pub total: u64,
    pub idle: u64,
}

/// The first ten numbers behind the label, the others 0.
pub open spec fn tick_field(w: Seq<Seq<char>>, i: int) -> u64 {
    if i + 1 < w.len() {
        match parse_nat(w[i + 1], u64::MAX as nat) {
            Some(n) => n as u64,
            None => 0,
        }
    } else {
        0
    }
}

/// The sum of the first `n` fields.
pub open spec fn field_sum(w: Seq<Seq<char>>, n: nat) -> u64
    decreases n,
{
    if n == 0 {
        0
    } else {
        capped(field_sum(w, (n - 1) as nat), tick_field(w, n - 1))
    }
}

/// The ticks of a CPU in a line of `stat`: the label is `cpu` with a number. The
/// fourth field is the idle time.
pub open spec fn percpu_line(line: Seq<char>) -> Option<(u32, CpuTicks)> {
    let w = words(line);
    if has_prefix(line, "cpu"@) && line.len() > 3 && is_digit(line[3]) && w.len() > 0 {
        match parse_nat(w[0].skip(3), u32::MAX as nat) {
            Some(n) => Some((n as u32, CpuTicks { total: field_sum(w, 10), idle: tick_field(w, 3) })),
            None => None,
        }
    } else {
        None
    }
}

/// The ticks of all CPUs in the first `n` lines.
pub open spec fn percpu_ticks(ls: Seq<Seq<char>>, n: nat) -> Seq<(u32, CpuTicks)>
    decreases n,
{
    if n == 0 {
        Seq::empty()
    } else {
        let before = percpu_ticks(ls, (n - 1) as nat);
        match percpu_line(ls[n - 1]) {
            Some(e) => before.push(e),
            None => before,
        }
    }
}

/// Reads one field of a line of `stat`.
fn read_tick_field(w: &Vec<Vec<char>>, i: usize) -> (n: u64)
    requires
        i < 10,
    ensures
        n == tick_field(views(w@), i as int),
{
    let ghost wv = views(w@);
    if i + 1 < w.len() {
        assert(wv[i + 1] == w@[i + 1]@);
        match read_u64(&w[i + 1]) {
            Some(n) => n,
            None => 0,
        }
    } else {
        0
    }
}

/// A line that begins with `cpu` and a digit has a first word that does, too.
proof fn lemma_first_word(line: Seq<char>)
    requires
        line.len() > 3,
        !crate::text::is_space(line[0]),
        !crate::text::is_space(line[1]),
        !crate::text::is_space(line[2]),
        !crate::text::is_space(line[3]),
    ensures
        words(line).len() > 0,
        words(line)[0].len() >= 3,
{
    lemma_scan_keeps_head(line, line.len() as int);
    assert(line.take(line.len() as int) =~= line);
}

/// Reading on, the first word keeps its first four characters.
proof fn lemma_scan_keeps_head(line: Seq<char>, n: int)
    requires
        4 <= n <= line.len(),
        !crate::text::is_space(line[0]),
        !crate::text::is_space(line[1]),
        !crate::text::is_space(line[2]),
        !crate::text::is_space(line[3]),
    ensures
        ({
            let (done, cur) = crate::text::word_scan(line.take(n));
            if done.len() > 0 {
                done[0].len() >= 4
            } else {
                cur.len() >= 4
            }
        }),
    decreases n,
{
    let t = line.take(n);
    if n == 4 {
        reveal_with_fuel(crate::text::word_scan, 5);
        assert(t.drop_last() =~= line.take(3));
        assert(line.take(3).drop_last() =~= line.take(2));
        assert(line.take(2).drop_last() =~= line.take(1));
        assert(line.take(1).drop_last() =~= line.take(0));
    } else {
        lemma_scan_keeps_head(line, n - 1);
        assert(t.drop_last() =~= line.take(n - 1));
    }
}

/// Reads a line of `stat`.
fn read_percpu_line(line: &[char]) -> (r: Option<(u32, CpuTicks)>)
    ensures
        r == percpu_line(line@),
{
    if !begins_with(line, "cpu") || line.len() <= 3 {
        return None;
    }
    let c: char = line[3];
    if !('0' <= c && c <= '9') {
        return None;
    }
    proof {
        reveal_strlit("cpu");
        assert(line@.take(3)[0] == 'c' && line@.take(3)[1] == 'p' && line@.take(3)[2] == 'u');
        assert(line@[0] == 'c' && line@[1] == 'p' && line@[2] == 'u');
        lemma_first_word(line@);
    }
    let w = words_of(line);
    let ghost wv = views(w@);
    assert(wv[0] == w@[0]@);
    let label = sub_chars(&w[0], 3, w[0].len());
    assert(label@ =~= wv[0].skip(3));
    match read_u32(&label) {
        None => None,
        Some(n) => {
            let mut total: u64 = 0;
            let mut i: usize = 0;
            while i < 10
                invariant
                    i <= 10,
                    wv == views(w@),
                    total == field_sum(wv, i as nat),
                decreases 10 - i,
            {
                total = total.saturating_add(read_tick_field(&w, i));
                i += 1;
            }
            Some((n, CpuTicks { total, idle: read_tick_field(&w, 3) }))
        },
    }
}

/// Reads the ticks of all CPUs from the text of `stat`.
pub fn read_percpu_stats(stat: &str) -> (r: Vec<(u32, CpuTicks)>)
    ensures
        r@ == percpu_ticks(lines(stat@), lines(stat@).len()),
{
    let ls = text_lines(stat);
    let ghost all = views(ls@);
    let mut r: Vec<(u32, CpuTicks)> = Vec::new();
    let mut i: usize = 0;
    while i < ls.len()
        invariant
            i <= ls.len(),
            all == views(ls@),
            r@ == percpu_ticks(all, i as nat),
        decreases ls.len() - i,
    {
        assert(all[i as int] == ls@[i as int]@);
        if let Some(e) = read_percpu_line(&ls[i]) {
            r.push(e);
        }
        i += 1;
    }
    r
}

/// The load of a CPU between two readings, in percent.
pub open spec fn busy_share(now: CpuTicks, before: CpuTicks) -> Number {
    let total = grown(now.total, before.total);
    let (all, idle) = (single(total as int, 1), single(grown(now.idle, before.idle) as int, 1));
    let (none, most) = (single(0, 1), single(100, 1));
    let share = single_product(single_quotient(single_difference(all, idle), all), most);
    if total == 0 || less(share, none) {
        none
    } else if less(most, share) {
        most
    } else {
        share
    }
}

/// Computes the load of a CPU between two readings.
fn compute_share(now: CpuTicks, before: CpuTicks) -> (r: Single)
    ensures
        r@ == busy_share(now, before),
{
    let total: u64 = now.total.saturating_sub(before.total);
    let idle: u64 = now.idle.saturating_sub(before.idle);
    let (none, most) = (Single::whole(0), Single::whole(100));
    if total == 0 {
        return none;
    }
    let all = Single::whole(total);
    let share = all.minus(Single::whole(idle)).over(all).times(most);
    if share.is_less(none) {
        none
    } else if most.is_less(share) {
        most
    } else {
        share
    }
}

/// The loads after the first `n` readings: the reading of a CPU without an earlier
/// one, or outside the range, changes nothing.
pub open spec fn cpu_loads(
    count: nat,
    prev: Map<u32, CpuTicks>,
    now: Seq<(u32, CpuTicks)>,
    n: nat,
) -> Seq<Number>
    decreases n,
{
    if n == 0 {
        Seq::new(count, |i: int| single(0, 1))
    } else {
        let before = cpu_loads(count, prev, now, (n - 1) as nat);
        let (cpu, ticks) = now[n - 1];
        if prev.contains_key(cpu) && cpu < count {
            before.update(cpu as int, busy_share(ticks, prev[cpu]))
        } else {
            before
        }
    }
}

/// The loads of `total_cpus` CPUs between two readings. CPUs are told apart by their
/// numbers, not by the order of the lines, which changes when CPUs are parked.
pub fn collect_cpu_percents(
    total_cpus: usize,
    prev: &IdMap<CpuTicks>,
    now: &Vec<(u32, CpuTicks)>,
) -> (r: Vec<Single>)
    ensures
        numbers_of(r@) == cpu_loads(total_cpus as nat, prev@, now@, now@.len()),
{
    let mut r: Vec<Single> = Vec::new();
    let mut k: usize = 0;
    while k < total_cpus
        invariant
            k <= total_cpus,
            r.len() == k,
            forall|j: int| 0 <= j < k ==> (#[trigger] r@[j])@ == single(0, 1),
        decreases total_cpus - k,
    {
        r.push(Single::whole(0));
        k += 1;
    }
    assert(numbers_of(r@) =~= cpu_loads(total_cpus as nat, prev@, now@, 0));
    let mut i: usize = 0;
    while i < now.len()
        invariant
            i <= now.len(),
            numbers_of(r@) == cpu_loads(total_cpus as nat, prev@, now@, i as nat),
            r.len() == total_cpus,
        decreases now.len() - i,
    {
        let (cpu, ticks) = now[i];
        if let Some(p) = prev.get(cpu) {
            if (cpu as usize) < total_cpus {
                let ghost before = numbers_of(r@);
                r.set(cpu as usize, compute_share(ticks, *p));
                assert(numbers_of(r@) =~= before.update(cpu as int, busy_share(ticks, *p)));
            }
        }
        i += 1;
    }
    r
}

/// The readings by CPU number; of two for the same CPU the later counts.
pub open spec fn ticks_by_cpu(now: Seq<(u32, CpuTicks)>, n: nat) -> Map<u32, CpuTicks>
    decreases n,
{
    if n == 0 {
        Map::empty()
    } else {
        ticks_by_cpu(now, (n - 1) as nat).insert(now[n - 1].0, now[n - 1].1)
    }
}

/// Keeps readings for the next time.
pub fn remember_ticks(now: &Vec<(u32, CpuTicks)>) -> (r: IdMap<CpuTicks>)
    ensures
        r@ == ticks_by_cpu(now@, now@.len()),
{
    let mut r: IdMap<CpuTicks> = IdMap::new();
    let mut i: usize = 0;
    while i < now.len()
        invariant
            i <= now.len(),
            r@ == ticks_by_cpu(now@, i as nat),
        decreases now.len() - i,
    {
        r.insert(now[i].0, now[i].1);
        i += 1;
    }
    r
}

// ── Snapshots ────────────────────────────────────────────────────────────────

/// What was read of one process.
pub struct ProcSample {
    pub pid: u32,
    pub ppid: u32,
    pub name: String,
    /// User and system time.
    pub ticks: u64,
    pub mem_rss: u64,
    pub nice: i32,
    pub affinity: String,
    /// The encoded I/O priority, negative where it could not be read.
    pub ioprio: i64,
    /// The text of the `io` file, where it could be read.
    pub io: Option<String>,
    pub cmdline: String,
}

/// The load of a process in percent of one core: its share of the system's ticks, times
/// the number of CPUs, at most all of them.
pub open spec fn process_load(ticks: u64, sys: u64, cpus: nat) -> Number {
    let (n, hundred) = (single(cpus as int, 1), single(100, 1));
    let most = single_product(n, hundred);
    let share = single_product(
        single_product(single_quotient(single(ticks as int, 1), single(sys as int, 1)), n),
        hundred,
    );
    if sys == 0 {
        single(0, 1)
    } else if less(most, share) {
        most
    } else {
        share
    }
}

/// Computes the load of a process.
pub fn cpu_share(delta_ticks: u64, sys_delta: u64, cpus: u32) -> (r: Single)
    ensures
        r@ == process_load(delta_ticks, sys_delta, cpus as nat),
{
    if sys_delta == 0 {
        return Single::whole(0);
    }
    let (n, hundred) = (Single::whole(cpus as u64), Single::whole(100));
    let most = n.times(hundred);
    let ratio = Single::whole(delta_ticks).over(Single::whole(sys_delta));
    let share = ratio.times(n).times(hundred);
    if most.is_less(share) {
        most
    } else {
        share
    }
}

/// A process never shows more load than the machine has cores.
pub proof fn law_load_is_capped(ticks: u64, sys: u64, cpus: nat)
    ensures
        !less(
            single_product(single(cpus as int, 1), single(100, 1)),
            process_load(ticks, sys, cpus),
        ),
{
    let h: int = 100;
    let (n, hundred) = (single(cpus as int, 1), single(100, 1));
    let most = single_product(n, hundred);
    lemma_order(most, most, most);
    if sys == 0 {
        let (x, y) = (signed(n), signed(hundred));
        assert(x * y >= 0) by (nonlinear_arith)
            requires
                x >= 0,
                y >= 0,
        ;
        lemma_not_below_zero(most);
    }
}

/// The value at a key, or another.
pub open spec fn at_or<V>(m: Map<u32, V>, k: u32, other: V) -> V {
    if m.contains_key(k) {
        m[k]
    } else {
        other
    }
}

/// What a sample gives, compared with the sample before.
pub open spec fn info_shows(
    info: ProcInfo,
    s: ProcSample,
    prev_ticks: Map<u32, u64>,
    prev_io: Map<u32, (u64, u64)>,
    sys_delta: u64,
    cpus: nat,
) -> bool {
    &&& info.pid == s.pid
    &&& info.ppid == s.ppid
    &&& info.name@ == s.name@
    &&& info.cpu_percent@ == process_load(
        grown(s.ticks, at_or(prev_ticks, s.pid, s.ticks)),
        sys_delta,
        cpus,
    )
    &&& info.gpu_percent@ == single(0, 1)
    &&& info.mem_rss == s.mem_rss
    &&& info.nice == s.nice
    &&& info.affinity@ == s.affinity@
    &&& info.ionice@ == ioprio_text(s.ioprio)
    &&& match s.io {
        Some(t) => {
            let now = io_bytes(lines(t@));
            let before = at_or(prev_io, s.pid, now);
            info.disk_read_bps == grown(now.0, before.0) && info.disk_write_bps == grown(
                now.1,
                before.1,
            )
        },
        None => info.disk_read_bps == 0 && info.disk_write_bps == 0,
    }
    &&& info.cmdline@ == s.cmdline@
}

/// The ticks of the first `n` samples.
pub open spec fn sample_ticks(s: Seq<ProcSample>, n: nat) -> Map<u32, u64>
    decreases n,
{
    if n == 0 {
        Map::empty()
    } else {
        sample_ticks(s, (n - 1) as nat).insert(s[n - 1].pid, s[n - 1].ticks)
    }
}

/// The bytes read and written of the first `n` samples.
pub open spec fn sample_io(s: Seq<ProcSample>, n: nat) -> Map<u32, (u64, u64)>
    decreases n,
{
    if n == 0 {
        Map::empty()
    } else {
        let before = sample_io(s, (n - 1) as nat);
        match s[n - 1].io {
            Some(t) => before.insert(s[n - 1].pid, io_bytes(lines(t@))),
            None => before,
        }
    }
}

/// The counters of the last snapshot.
pub struct Sampler {
    pub ticks: IdMap<u64>,
    pub io: IdMap<(u64, u64)>,
    pub sys_total: u64,
}

impl Sampler {
    /// A sampler without an earlier snapshot.
    pub fn new() -> (r: Sampler)
        ensures
            r.ticks@ == Map::<u32, u64>::empty(),
            r.io@ == Map::<u32, (u64, u64)>::empty(),
            r.sys_total == 0,
    {
        Sampler { ticks: IdMap::new(), io: IdMap::new(), sys_total: 0 }
    }

    /// Turns what was read into a snapshot, and keeps the counters for the next.
    /// Loads are per core: 100 percent is one core fully busy. Without the factor of
    /// the number of CPUs a busy loop on a large machine would show a few percent
    /// only.
    pub fn collect_snapshot(
        &mut self,
        samples: &Vec<ProcSample>,
        sys_total: u64,
        online_cpus: u32,
    ) -> (r: Vec<ProcInfo>)
        ensures
            r.len() == samples.len(),
            forall|i: int|
                0 <= i < r.len() ==> info_shows(
                    #[trigger] r[i],
                    samples[i],
                    old(self).ticks@,
                    old(self).io@,
                    grown(sys_total, old(self).sys_total),
                    (if online_cpus == 0 {
                        1
                    } else {
                        online_cpus
                    }) as nat,
                ),
            final(self).ticks@ == sample_ticks(samples@, samples@.len()),
            final(self).io@ == sample_io(samples@, samples@.len()),
            final(self).sys_total == sys_total,
    {
        let sys_delta: u64 = sys_total.saturating_sub(self.sys_total);
        let cpus: u32 = if online_cpus == 0 {
            1
        } else {
            online_cpus
        };
        let mut ticks: IdMap<u64> = IdMap::new();
        let mut io: IdMap<(u64, u64)> = IdMap::new();
        let mut r: Vec<ProcInfo> = Vec::new();
        let mut i: usize = 0;
        while i < samples.len()
            invariant
                i <= samples.len(),
                r.len() == i,
                ticks@ == sample_ticks(samples@, i as nat),
                io@ == sample_io(samples@, i as nat),
                self.ticks@ == old(self).ticks@,
                self.io@ == old(self).io@,
                forall|k: int|
                    0 <= k < i ==> info_shows(
                        #[trigger] r[k],
                        samples[k],
                        old(self).ticks@,
                        old(self).io@,
                        sys_delta,
                        cpus as nat,
                    ),
            decreases samples.len() - i,
        {
            let s = &samples[i];
            ticks.insert(s.pid, s.ticks);
            let prev: u64 = match self.ticks.get(s.pid) {
                Some(p) => *p,
                None => s.ticks,
            };
            let cpu_percent = cpu_share(s.ticks.saturating_sub(prev), sys_delta, cpus);
            let (rd, wr): (u64, u64) = match &s.io {
                Some(t) => {
                    let now = parse_proc_io(t.as_str());
                    let before = match self.io.get(s.pid) {
                        Some(p) => *p,
                        None => now,
                    };
                    io.insert(s.pid, now);
                    (now.0.saturating_sub(before.0), now.1.saturating_sub(before.1))
                },
                None => (0, 0),
            };
            r.push(
                ProcInfo {
                    pid: s.pid,
                    ppid: s.ppid,
                    name: s.name.clone(),
                    cpu_percent,
                    gpu_percent: Single::whole(0),
                    mem_rss: s.mem_rss,
                    nice: s.nice,
                    affinity: s.affinity.clone(),
                    ionice: read_ionice(s.ioprio),
                    disk_read_bps: rd,
                    disk_write_bps: wr,
                    cmdline: s.cmdline.clone(),
                },
            );
            i += 1;
        }
        self.ticks = ticks;
        self.io = io;
        self.sys_total = sys_total;
        r
    }
}

// ── Games ────────────────────────────────────────────────────────────────────

/// A command line that looks like a running game: a program below a Steam library,
/// or one run through Proton.
pub open spec fn looks_like_game(cmdline: Seq<char>) -> bool {
    has_substring(cmdline, "steamapps/common"@) || has_substring(cmdline, "/proton "@)
}

/// Whether a process looks like a running game. The launchers that match alongside
/// the game end with it.
pub fn is_game_process(p: &ProcInfo) -> (r: bool)
    ensures
        r == looks_like_game(p.cmdline@),
{
    contains_text(p.cmdline.as_str(), "steamapps/common") || contains_text(
        p.cmdline.as_str(),
        "/proton ",
    )
}

// ── What a snapshot shows ────────────────────────────────────────────────────

/// The counters that are kept of a process that was sampled once.
proof fn lemma_kept_counters(s: Seq<ProcSample>, n: nat, i: int)
    requires
        n <= s.len(),
        0 <= i < s.len(),
        forall|k: int| 0 <= k < s.len() && k != i ==> (#[trigger] s[k]).pid != s[i].pid,
    ensures
        sample_ticks(s, n).contains_key(s[i].pid) <==> i < n,
        i < n ==> sample_ticks(s, n)[s[i].pid] == s[i].ticks,
        sample_io(s, n).contains_key(s[i].pid) <==> i < n && s[i].io is Some,
        i < n && s[i].io is Some ==> sample_io(s, n)[s[i].pid] == io_bytes(lines(s[i].io->0@)),
    decreases n,
{
    if n > 0 {
        lemma_kept_counters(s, (n - 1) as nat, i);
    }
}

/// The counters that are kept are those of processes that were sampled.
proof fn lemma_unknown_counters(s: Seq<ProcSample>, n: nat, pid: u32)
    requires
        n <= s.len(),
        forall|k: int| 0 <= k < s.len() ==> (#[trigger] s[k]).pid != pid,
    ensures
        !sample_ticks(s, n).contains_key(pid),
        !sample_io(s, n).contains_key(pid),
    decreases n,
{
    if n > 0 {
        lemma_unknown_counters(s, (n - 1) as nat, pid);
    }
}

/// The disk rates of a process are the bytes by which its counters have grown since the
/// snapshot before: nothing where they stand still, and nothing where there is no
/// earlier reading.
pub proof fn law_disk_rates_are_growth(
    first: &mut Sampler,
    second: &mut Sampler,
    s1: &Vec<ProcSample>,
    s2: &Vec<ProcSample>,
    sys: (u64, u64),
    cpus: (u32, u32),
    r1: Vec<ProcInfo>,
    r2: Vec<ProcInfo>,
    at: (int, int),
    io: (&str, &str),
    c1: (u64, u64),
    c2: (u64, u64),
)
    requires
        call_ensures(Sampler::collect_snapshot, (first, s1, sys.0, cpus.0), r1),
        call_ensures(Sampler::collect_snapshot, (second, s2, sys.1, cpus.1), r2),
        *old(second) == *final(first),
        0 <= at.0 < s1@.len(),
        0 <= at.1 < s2@.len(),
        s1@[at.0].pid == s2@[at.1].pid,
        forall|k: int| 0 <= k < s1@.len() && k != at.0 ==> (#[trigger] s1@[k]).pid != s1@[at.0].pid,
        s1@[at.0].io is Some && s1@[at.0].io->0@ == io.0@,
        s2@[at.1].io is Some && s2@[at.1].io->0@ == io.1@,
        call_ensures(parse_proc_io, (io.0,), c1),
        call_ensures(parse_proc_io, (io.1,), c2),
    ensures
        c2.0 >= c1.0 ==> r2@[at.1].disk_read_bps as int == c2.0 - c1.0,
        c2.1 >= c1.1 ==> r2@[at.1].disk_write_bps as int == c2.1 - c1.1,
        c2.0 < c1.0 ==> r2@[at.1].disk_read_bps == 0,
        c2.1 < c1.1 ==> r2@[at.1].disk_write_bps == 0,
        !old(first).io@.contains_key(s1@[at.0].pid) ==> r1@[at.0].disk_read_bps == 0
            && r1@[at.0].disk_write_bps == 0,
{
    lemma_kept_counters(s1@, s1@.len(), at.0);
    assert(second.io@ == sample_io(s1@, s1@.len()));
    let (p, q) = (r1@[at.0], r2@[at.1]);
    assert(r1[at.0] == p && r2[at.1] == q);
}

/// A process that was not in the snapshot before, or whose counters cannot be read, has
/// no disk rates.
pub proof fn law_new_processes_have_no_rates(
    first: &mut Sampler,
    second: &mut Sampler,
    s1: &Vec<ProcSample>,
    s2: &Vec<ProcSample>,
    sys: (u64, u64),
    cpus: (u32, u32),
    r1: Vec<ProcInfo>,
    r2: Vec<ProcInfo>,
    j: int,
    none: Single,
)
    requires
        call_ensures(Sampler::collect_snapshot, (first, s1, sys.0, cpus.0), r1),
        call_ensures(Sampler::collect_snapshot, (second, s2, sys.1, cpus.1), r2),
        *old(second) == *final(first),
        0 <= j < s2@.len(),
        call_ensures(
            cpu_share,
            (
                0,
                if sys.1 >= sys.0 {
                    (sys.1 - sys.0) as u64
                } else {
                    0
                },
                if cpus.1 == 0 {
                    1
                } else {
                    cpus.1
                },
            ),
            none,
        ),
    ensures
        s2@[j].io is None ==> r2@[j].disk_read_bps == 0 && r2@[j].disk_write_bps == 0,
        (forall|k: int| 0 <= k < s1@.len() ==> (#[trigger] s1@[k]).pid != s2@[j].pid) ==> {
            &&& r2@[j].disk_read_bps == 0
            &&& r2@[j].disk_write_bps == 0
            &&& r2@[j].cpu_percent@ == none@
        },
{
    assert(r2[j] == r2@[j]);
    if forall|k: int| 0 <= k < s1@.len() ==> (#[trigger] s1@[k]).pid != s2@[j].pid {
        lemma_unknown_counters(s1@, s1@.len(), s2@[j].pid);
        assert(second.io@ == sample_io(s1@, s1@.len()));
        assert(second.ticks@ == sample_ticks(s1@, s1@.len()));
    }
}

/// The load of a process is its share of the ticks that passed between two snapshots:
/// those that it has used against those of the whole system.
pub proof fn law_load_is_the_share_of_the_ticks(
    first: &mut Sampler,
    second: &mut Sampler,
    s1: &Vec<ProcSample>,
    s2: &Vec<ProcSample>,
    sys: (u64, u64),
    cpus: (u32, u32),
    r1: Vec<ProcInfo>,
    r2: Vec<ProcInfo>,
    at: (int, int),
    share: Single,
)
    requires
        call_ensures(Sampler::collect_snapshot, (first, s1, sys.0, cpus.0), r1),
        call_ensures(Sampler::collect_snapshot, (second, s2, sys.1, cpus.1), r2),
        *old(second) == *final(first),
        0 <= at.0 < s1@.len(),
        0 <= at.1 < s2@.len(),
        s1@[at.0].pid == s2@[at.1].pid,
        forall|k: int| 0 <= k < s1@.len() && k != at.0 ==> (#[trigger] s1@[k]).pid != s1@[at.0].pid,
        sys.0 <= sys.1,
        s1@[at.0].ticks <= s2@[at.1].ticks,
        cpus.1 > 0,
        call_ensures(
            cpu_share,
            ((s2@[at.1].ticks - s1@[at.0].ticks) as u64, (sys.1 - sys.0) as u64, cpus.1),
            share,
        ),
    ensures
        r2@[at.1].cpu_percent@ == share@,
{
    lemma_kept_counters(s1@, s1@.len(), at.0);
    assert(second.ticks@ == sample_ticks(s1@, s1@.len()));
    assert(r2[at.1] == r2@[at.1]);
}

/// A snapshot has a row for each process that was read, in the same order, and what was
/// read stands in it.
pub proof fn law_rows_show_what_was_read(
    sampler: &mut Sampler,
    samples: &Vec<ProcSample>,
    sys: u64,
    cpus: u32,
    r: Vec<ProcInfo>,
    i: int,
    ionice: String,
)
    requires
        call_ensures(Sampler::collect_snapshot, (sampler, samples, sys, cpus), r),
        0 <= i < samples@.len(),
        call_ensures(read_ionice, (samples@[i].ioprio,), ionice),
    ensures
        r@.len() == samples@.len(),
        r@[i].pid == samples@[i].pid,
        r@[i].ppid == samples@[i].ppid,
        r@[i].name@ == samples@[i].name@,
        r@[i].mem_rss == samples@[i].mem_rss,
        r@[i].nice == samples@[i].nice,
        r@[i].affinity@ == samples@[i].affinity@,
        r@[i].cmdline@ == samples@[i].cmdline@,
        r@[i].ionice@ == ionice@,
{
    assert(r[i] == r@[i]);
}

/// The class of an I/O priority stands above the thirteen bits of its level.
pub proof fn law_io_priority_is_class_and_level(class: u8, level: u16, prio: i64, r: String)
    requires
        class < 8,
        level < 8192,
        prio == class * 8192 + level,
        call_ensures(read_ionice, (prio,), r),
    ensures
        r@ == dec(class as nat) + "/"@ + dec(level as nat),
{
    assert((prio as u64) / 8192 == class);
    assert((prio as u64) % 8192 == level);
}

/// The lines of a process's `io` file that name the bytes read and written give the
/// counters, wherever they stand.
pub proof fn law_io_file_gives_both_counters(
    text: &str,
    head: Seq<char>,
    tail: Seq<char>,
    n: (u64, u64),
    r: (u64, u64),
)
    requires
        call_ensures(parse_proc_io, (text,), r),
        text@ == head + seq!['\n'] + ("read_bytes: "@ + dec(n.0 as nat)) + seq!['\n'] + (
        "write_bytes: "@ + dec(n.1 as nat)) + seq!['\n'] + tail,
        forall|i: int|
            0 <= i < lines(tail).len() ==> !has_prefix(#[trigger] lines(tail)[i], "read_bytes: "@)
                && !has_prefix(lines(tail)[i], "write_bytes: "@),
    ensures
        r == n,
{
    let x = "read_bytes: "@ + dec(n.0 as nat);
    let y = "write_bytes: "@ + dec(n.1 as nat);
    lemma_no_break(n.0);
    lemma_no_break(n.1);
    let c = y + seq!['\n'] + tail;
    let b = x + seq!['\n'] + c;
    assert(text@ =~= head + seq!['\n'] + b);
    crate::text::law_lines_part_at_any_break(head, b);
    crate::text::law_lines_end_at_breaks(x, c);
    crate::text::law_lines_end_at_breaks(y, tail);
    let before = lines(head + seq!['\n']);
    let all = lines(text@);
    assert(x.last() == dec(n.0 as nat).last() && y.last() == dec(n.1 as nat).last());
    assert(all == before + (seq![x] + (seq![y] + lines(tail))));
    assert(all =~= before.push(x).push(y) + lines(tail));
    let known = before.push(x).push(y);
    lemma_io_tail(known, lines(tail));
    assert(known.drop_last() =~= before.push(x));
    assert(before.push(x).drop_last() =~= before);
    assert(x.take("read_bytes: "@.len() as int) =~= "read_bytes: "@);
    assert(y.take("write_bytes: "@.len() as int) =~= "write_bytes: "@);
    assert(x.skip("read_bytes: "@.len() as int) =~= dec(n.0 as nat));
    assert(y.skip("write_bytes: "@.len() as int) =~= dec(n.1 as nat));
    assert(!has_prefix(y, "read_bytes: "@)) by {
        reveal_strlit("read_bytes: ");
        reveal_strlit("write_bytes: ");
        assert(y[0] == 'w');
        assert(y.take(12)[0] == 'w');
    }
    lemma_number_is_bare(n.0);
    lemma_number_is_bare(n.1);
    let one = before.push(x);
    assert(one.last() == x && known.last() == y);
    assert(has_prefix(x, "read_bytes: "@));
    assert(has_prefix(y, "write_bytes: "@));
    assert(number_behind(x, "read_bytes: "@) == n.0);
    assert(number_behind(y, "write_bytes: "@) == n.1);
    assert(io_bytes(one).0 == n.0);
    assert(io_bytes(known) == (io_bytes(one).0, n.1));
}

/// A written number has no line break and no blank.
proof fn lemma_no_break(n: u64)
    ensures
        !("read_bytes: "@ + dec(n as nat)).contains('\n'),
        !("write_bytes: "@ + dec(n as nat)).contains('\n'),
        dec(n as nat).len() > 0,
        dec(n as nat).last() != '\r',
{
    crate::number::lemma_dec_digits(n as nat);
    reveal_strlit("read_bytes: ");
    reveal_strlit("write_bytes: ");
    let d = dec(n as nat);
    assert forall|i: int| 0 <= i < d.len() implies #[trigger] d[i] != '\n' by {
        assert(is_digit(d[i]));
    }
    assert(is_digit(d[d.len() - 1]));
    let (x, y) = ("read_bytes: "@ + d, "write_bytes: "@ + d);
    if x.contains('\n') {
        let k = choose|k: int| 0 <= k < x.len() && x[k] == '\n';
        if k >= 12 {
            assert(x[k] == d[k - 12]);
        }
    }
    if y.contains('\n') {
        let k = choose|k: int| 0 <= k < y.len() && y[k] == '\n';
        if k >= 13 {
            assert(y[k] == d[k - 13]);
        }
    }
}

/// A written number is read back, with no blanks to drop.
proof fn lemma_number_is_bare(n: u64)
    ensures
        parse_nat(trim(dec(n as nat)), u64::MAX as nat) == Some(n as nat),
{
    crate::number::lemma_dec_digits(n as nat);
    crate::number::law_decimal_round_trip(n as nat, u64::MAX as nat);
    let d = dec(n as nat);
    assert(is_digit(d[0]) && is_digit(d[d.len() - 1]));
    crate::text::law_trim_drops_blanks(Seq::empty(), d, Seq::empty());
    assert(Seq::<char>::empty() + d + Seq::<char>::empty() =~= d);
}

/// Lines that name neither counter change nothing.
proof fn lemma_io_tail(s: Seq<Seq<char>>, t: Seq<Seq<char>>)
    requires
        forall|i: int|
            0 <= i < t.len() ==> !has_prefix(#[trigger] t[i], "read_bytes: "@) && !has_prefix(
                t[i],
                "write_bytes: "@,
            ),
    ensures
        io_bytes(s + t) == io_bytes(s),
    decreases t.len(),
{
    if t.len() == 0 {
        assert(s + t =~= s);
    } else {
        let d = t.drop_last();
        assert((s + t).drop_last() =~= s + d);
        assert((s + t).last() == t[t.len() - 1]);
        assert forall|i: int| 0 <= i < d.len() implies !has_prefix(#[trigger] d[i], "read_bytes: "@)
            && !has_prefix(d[i], "write_bytes: "@) by {
            assert(d[i] == t[i]);
        }
        lemma_io_tail(s, d);
    }
}

/// A process looks like a game just where its command line names a Steam library or goes
/// through Proton, wherever in the line that stands.
pub proof fn law_games_are_known_by_their_command_line(p: &ProcInfo, r: bool)
    requires
        call_ensures(is_game_process, (p,), r),
    ensures
        r <==> (exists|a: Seq<char>, b: Seq<char>|
            p.cmdline@ == #[trigger] (a + "steamapps/common"@ + b)) || (exists|
            a: Seq<char>,
            b: Seq<char>,
        | p.cmdline@ == #[trigger] (a + "/proton "@ + b)),
{
    crate::text::law_substring_stands_between(p.cmdline@, "steamapps/common"@);
    crate::text::law_substring_stands_between(p.cmdline@, "/proton "@);
}

/// The load of a process is the number of ticks that it used, times the number of CPUs
/// and 100, over the ticks of the whole system, to within one part in a million; 0 where
/// it used none, and the load of all CPUs where it used them all.
pub proof fn law_load_is_near_the_exact_share(ticks: u64, sys: u64, cpus: u32, r: Single)
    requires
        call_ensures(cpu_share, (ticks, sys, cpus), r),
        ticks <= sys,
        sys > 0,
        0 < cpus < 0x100_0000,
    ensures
        ticks == 0 ==> r@.mant == 0,
        ticks > 0 ==> {
            let exact = 100 * cpus * ticks;
            &&& !exceeds(r@, exact * 1_000_001, sys * 1_000_000)
            &&& !falls_short(r@, exact * 999_999, sys * 1_000_000)
        },
{
    let h: int = 100;
    let (n, hundred) = (single(cpus as int, 1), single(100, 1));
    law_whole_numbers_are_exact(cpus as u64);
    law_whole_numbers_are_exact(100);
    let q = single_quotient(single(ticks as int, 1), single(sys as int, 1));
    let most = single_product(n, hundred);
    let (c, t, s) = (cpus as int, ticks as int, sys as int);
    if ticks == 0 {
        lemma_zero_products(single(sys as int, 1), n, hundred);
        law_products_are_near(n, c, 1, 0, hundred, 100, 1, 0);
        let share = single_product(single_product(q, n), hundred);
        lemma_not_below_zero(most);
        lemma_order(most, single(0, 1), single(0, 1));
        assert(share == single(0, 1));
    } else {
        law_fractions_are_near(ticks, 1);
        law_fractions_are_near(sys, 1);
        law_quotients_are_near(single(t, 1), t, 1, 1, single(s, 1), s, 1, 1);
        assert(within(q, h + h + 100)) by {
            assert(within(single(t, 1), 100) && within(single(s, 1), 100));
            assert(within(q, h + h + 100));
        }
        let (x, y) = (t * 1, 1 * s);
        law_products_are_near(q, x, y, 4, n, c, 1, 0);
        let p = single_product(q, n);
        assert(within(p, (h + h + 100) + h + 100));
        let (x2, y2) = (x * c, y * 1);
        assert(x2 > 0) by (nonlinear_arith)
            requires
                x2 == x * c,
                x > 0,
                c > 0,
        ;
        law_products_are_near(p, x2, y2, 6, hundred, 100, 1, 0);
        law_products_are_near(n, c, 1, 0, hundred, 100, 1, 0);
        let share = single_product(p, hundred);
        let exact = 100 * c * t;
        assert(x2 * 100 == exact && y2 * 1 == s) by (nonlinear_arith)
            requires
                x2 == x * c,
                x == t * 1,
                y2 == y * 1,
                y == 1 * s,
                exact == 100 * c * t,
        ;
        assert(near(share, exact, s, 8));
        assert(exact > 0) by (nonlinear_arith)
            requires
                exact == 100 * c * t,
                c > 0,
                t > 0,
        ;
        law_near_is_within(share, exact, s, 8);
        if less(most, share) {
            assert(c * 100 > 0);
            law_near_is_within(most, c * 100, 1, 2);
            lemma_between(most, share, exact * 1_000_001, s * 1_000_000);
            let (a, b) = ((c * 100) * 999_999, 1 * 1_000_000int);
            assert(a * (s * 1_000_000) >= (exact * 999_999) * b) by (nonlinear_arith)
                requires
                    a == (c * 100) * 999_999,
                    b == 1_000_000,
                    exact == 100 * c * t,
                    t <= s,
                    c > 0,
            ;
            lemma_smaller_fraction(most, a, b, exact * 999_999, s * 1_000_000);
        }
        assert(exact == 100 * cpus * ticks) by (nonlinear_arith)
            requires
                exact == 100 * c * t,
                c == cpus,
                t == ticks,
        ;
    }
}

/// The load of a CPU is the part of its ticks that it was not idle, in percent, to within
/// one part in a million: nothing where it was idle all the time. A CPU without an
/// earlier reading shows nothing.
pub proof fn law_busy_share_is_near_the_exact_share(
    count: usize,
    prev: &IdMap<CpuTicks>,
    now: &Vec<(u32, CpuTicks)>,
    r: Vec<Single>,
    i: int,
)
    requires
        call_ensures(collect_cpu_percents, (count, prev, now), r),
        0 <= i < now@.len(),
        now@[i].0 < count,
        forall|k: int| 0 <= k < now@.len() && k != i ==> (#[trigger] now@[k]).0 != now@[i].0,
    ensures
        r@.len() == count,
        !prev@.contains_key(now@[i].0) ==> r@[now@[i].0 as int]@.mant == 0,
        prev@.contains_key(now@[i].0) ==> {
            let load = r@[now@[i].0 as int]@;
            let before = prev@[now@[i].0];
            let total = now@[i].1.total - before.total;
            let idle = now@[i].1.idle - before.idle;
            0 <= idle <= total < 0x100_0000 && total > 0 ==> {
                &&& idle == total ==> load.mant == 0
                &&& idle < total ==> !exceeds(load, 100 * (total - idle) * 1_000_001, total * 1_000_000)
                    && !falls_short(load, 100 * (total - idle) * 999_999, total * 1_000_000)
            }
        },
{
    lemma_cpu_loads(count as nat, prev@, now@, now@.len(), i);
    assert(numbers_of(r@).len() == r@.len());
    assert(numbers_of(r@)[now@[i].0 as int] == r@[now@[i].0 as int]@);
    if prev@.contains_key(now@[i].0) {
        let before = prev@[now@[i].0];
        let total = now@[i].1.total - before.total;
        let idle = now@[i].1.idle - before.idle;
        if 0 <= idle <= total < 0x100_0000 && total > 0 {
            lemma_busy_share(now@[i].1, before, total as u64, idle as u64);
        }
    }
}

/// The load of the CPU of one reading.
proof fn lemma_cpu_loads(
    count: nat,
    prev: Map<u32, CpuTicks>,
    now: Seq<(u32, CpuTicks)>,
    n: nat,
    i: int,
)
    requires
        n <= now.len(),
        0 <= i < now.len(),
        now[i].0 < count,
        forall|k: int| 0 <= k < now.len() && k != i ==> (#[trigger] now[k]).0 != now[i].0,
    ensures
        cpu_loads(count, prev, now, n).len() == count,
        cpu_loads(count, prev, now, n)[now[i].0 as int] == if i < n && prev.contains_key(now[i].0) {
            busy_share(now[i].1, prev[now[i].0])
        } else {
            single(0, 1)
        },
    decreases n,
{
    if n > 0 {
        lemma_cpu_loads(count, prev, now, (n - 1) as nat, i);
    }
}

/// The load of a CPU is near to the exact share.
proof fn lemma_busy_share(now: CpuTicks, before: CpuTicks, total: u64, idle: u64)
    requires
        now.total == before.total + total,
        now.idle == before.idle + idle,
        idle <= total < 0x100_0000,
        total > 0,
    ensures
        ({
            let load = busy_share(now, before);
            let (t, b) = (total as int, (total - idle) as int);
            &&& idle == total ==> load.mant == 0
            &&& idle < total ==> !exceeds(load, 100 * b * 1_000_001, t * 1_000_000) && !falls_short(
                load,
                100 * b * 999_999,
                t * 1_000_000,
            )
        }),
{
    let h: int = 100;
    let (all, hundred) = (single(total as int, 1), single(100, 1));
    let b = (total - idle) as u64;
    law_whole_differences_are_exact(total, idle);
    law_whole_numbers_are_exact(total);
    law_whole_numbers_are_exact(b);
    law_whole_numbers_are_exact(100);
    let busy = single(b as int, 1);
    assert(single_difference(all, single(idle as int, 1)) == busy);
    let q = single_quotient(busy, all);
    let share = single_product(q, hundred);
    if b == 0 {
        lemma_zero_products(all, hundred, hundred);
        lemma_order(single(0, 1), single(0, 1), single(0, 1));
        lemma_not_below_zero(hundred);
        lemma_order(hundred, single(0, 1), single(0, 1));
    } else {
        let (t, x) = (total as int, b as int);
        law_quotients_are_near(busy, x, 1, 0, all, t, 1, 0);
        assert(within(busy, 100) && within(all, 100));
        assert(within(q, h + h + 100));
        law_products_are_near(q, x * 1, 1 * t, 2, hundred, 100, 1, 0);
        assert((x * 1) * 100 == 100 * x && (1 * t) * 1 == t);
        assert(near(share, 100 * x, t, 4));
        law_near_is_within(share, 100 * x, t, 4);
        lemma_not_below_zero(share);
        if less(hundred, share) {
            lemma_between(hundred, share, 100 * x * 1_000_001, t * 1_000_000);
            lemma_smaller_fraction(hundred, 100, 1, 100 * x * 999_999, t * 1_000_000);
        }
    }
}

/// The ticks of the system are the sum of the numbers in the first line: one number more
/// adds its ticks.
pub proof fn law_system_ticks_are_added_up(
    stat: &str,
    more: &str,
    r: u64,
    s: u64,
    n: u64,
)
    requires
        call_ensures(read_sys_cpu_total, (stat,), r),
        call_ensures(read_sys_cpu_total, (more,), s),
        lines(stat@).len() > 0,
        lines(more@).len() > 0,
        words(lines(stat@)[0]).len() >= 1,
        words(lines(more@)[0]) == words(lines(stat@)[0]).push(dec(n as nat)),
        r + n <= u64::MAX,
    ensures
        s == r + n,
        words(lines(stat@)[0]).len() == 1 ==> r == 0,
{
    let w = words(lines(stat@)[0]);
    let v = w.push(dec(n as nat));
    assert(v.drop_last() =~= w);
    law_decimal_round_trip(n as nat, u64::MAX as nat);
}

/// A line of one CPU gives its number, the sum of its ten counters, and the fourth of
/// them as the time that it was idle.
pub proof fn law_cpu_line_gives_total_and_idle(
    stat: &str,
    r: Vec<(u32, CpuTicks)>,
    cpu: u32,
    rest: Seq<char>,
    a: Seq<u64>,
)
    requires
        call_ensures(read_percpu_stats, (stat,), r),
        stat@ == seq!['c', 'p', 'u'] + dec(cpu as nat) + rest,
        !stat@.contains('\n'),
        a.len() == 10,
        a[0] + a[1] + a[2] + a[3] + a[4] + a[5] + a[6] + a[7] + a[8] + a[9] <= u64::MAX,
        words(stat@).len() == 11,
        words(stat@)[0] == seq!['c', 'p', 'u'] + dec(cpu as nat),
        forall|i: int| 0 <= i < 10 ==> #[trigger] words(stat@)[i + 1] == dec(a[i] as nat),
    ensures
        r@.len() == 1,
        r@[0].0 == cpu,
        r@[0].1.total == a[0] + a[1] + a[2] + a[3] + a[4] + a[5] + a[6] + a[7] + a[8] + a[9],
        r@[0].1.idle == a[3],
{
    let line = stat@;
    let w = words(line);
    let name = seq!['c', 'p', 'u'] + dec(cpu as nat);
    reveal_strlit("cpu");
    lemma_dec_digits(cpu as nat);
    assert(line[3] == dec(cpu as nat)[0]);
    assert(is_digit(dec(cpu as nat)[0]));
    assert(line.take(3) =~= "cpu"@);
    assert(name.skip(3) =~= dec(cpu as nat));
    law_decimal_round_trip(cpu as nat, u32::MAX as nat);
    assert forall|i: int| 0 <= i < 10 implies #[trigger] tick_field(w, i) == a[i] by {
        assert(w[i + 1] == dec(a[i] as nat));
        law_decimal_round_trip(a[i] as nat, u64::MAX as nat);
    }
    reveal_with_fuel(field_sum, 11);
    assert(tick_field(w, 0) == a[0] && tick_field(w, 1) == a[1] && tick_field(w, 2) == a[2]
        && tick_field(w, 3) == a[3] && tick_field(w, 4) == a[4] && tick_field(w, 5) == a[5]
        && tick_field(w, 6) == a[6] && tick_field(w, 7) == a[7] && tick_field(w, 8) == a[8]
        && tick_field(w, 9) == a[9]);
    crate::text::law_lines_end_at_breaks(line, line);
    let ls = lines(line);
    assert(ls =~= seq![line]);
    assert(percpu_ticks(ls, 0) =~= Seq::<(u32, CpuTicks)>::empty());
    assert(percpu_line(line) is Some);
    assert(percpu_ticks(ls, 1) =~= seq![percpu_line(line)->0]);
}

/// What is remembered of a CPU is its last reading.
pub proof fn law_last_reading_is_remembered(
    now: &Vec<(u32, CpuTicks)>,
    r: IdMap<CpuTicks>,
    i: int,
)
    requires
        call_ensures(remember_ticks, (now,), r),
        0 <= i < now@.len(),
        forall|k: int| i < k < now@.len() ==> (#[trigger] now@[k]).0 != now@[i].0,
    ensures
        r@.contains_key(now@[i].0),
        r@[now@[i].0] == now@[i].1,
{
    lemma_ticks_by_cpu(now@, now@.len(), i);
}

/// The last reading of a CPU.
proof fn lemma_ticks_by_cpu(now: Seq<(u32, CpuTicks)>, n: nat, i: int)
    requires
        0 <= i < n <= now.len(),
        forall|k: int| i < k < n ==> (#[trigger] now[k]).0 != now[i].0,
    ensures
        ticks_by_cpu(now, n).contains_key(now[i].0),
        ticks_by_cpu(now, n)[now[i].0] == now[i].1,
    decreases n,
{
    if i < n - 1 {
        lemma_ticks_by_cpu(now, (n - 1) as nat, i);
        assert(now[n - 1].0 != now[i].0);
    }
}

/// The model is what stands behind the colon of the first line that names it.
pub proof fn law_model_stands_behind_the_colon(
    cpuinfo: Option<&str>,
    r: String,
    head: Seq<char>,
    model: Seq<char>,
)
    requires
        call_ensures(read_cpu_model, (cpuinfo,), r),
    ensures
        cpuinfo is None ==> r@ == "Unknown CPU"@,
        cpuinfo is Some && lines(cpuinfo->0@).len() > 0 && lines(cpuinfo->0@)[0] == head + seq![':']
            + model && has_prefix(head, "model name"@) && !head.contains(':') ==> r@ == trim(model),
{
    if cpuinfo is Some && lines(cpuinfo->0@).len() > 0 && lines(cpuinfo->0@)[0] == head + seq![':']
        + model && has_prefix(head, "model name"@) && !head.contains(':') {
        crate::text::law_cut_at_the_first(head, model, ':');
        let l = head + seq![':'] + model;
        let n = "model name"@.len();
        assert(l.take(n as int) =~= head.take(n as int));
    }
}

} // verus!
