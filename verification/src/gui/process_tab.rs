//! The process table: columns, filters, sorting, the process tree, and how the
//! cells are written.

use vstd::prelude::*;
use vstd::string::*;

use crate::binary::{
    double, exceeds, falls_short, is_single, law_limits_compare_by_value, law_whole_numbers_are_exact,
    lemma_order, less, numbers_of, parts, single, Binary, Single,
};
use crate::cpulist::{cpulist, cpulist_to_set, cpuset_to_cpulist, parse_cpulist};
use crate::gui::cpu_bars::{average_load, load_average, CpuBarsWidget, CpuHistoryWidget};
use crate::gui::process_rows::{are_columns, laid_out, Columns};
use crate::gui::proc_tree::{items, shape, tree, tree_rows, Node, RowItem, TreeNode};
use crate::idmap::IdMap;
use crate::idset::{ascending, IdSet};
use crate::lower::{lowercase, lowered};
use crate::monitor::ProcInfo;
use crate::number::{
    dec, dec_int, decimal, decimal_int, decimals, decs, parse_nat, push_dec, push_tenths,
    push_wide, read_u32, tenths,
};
use crate::sort::{sorted_places, sorts_before, Ranked};
use crate::ring::newest;
use crate::text::{
    at_most, chars_of, contains_text, copy_texts, has_substring, holds_text, join, joined,
    law_substring_stands_between, lemma_text_le_total, lemma_text_le_transitive, remove_text,
    same_text, split_first,
    split_once_at, sub_chars, text_le, text_of, texts, without_text,
};

verus! {

// ── Columns ──────────────────────────────────────────────────────────────────

/// A column of the table, by which it can be sorted.
#[derive(Debug, Clone, Copy, PartialEq, Eq, Structural)]
pub enum SortCol {
    Pid,
    Name,
    Cpu,
    Gpu,
    Mem,
    Nice,
    Affinity,
    Ionice,
    Status,
}

/// The heading of a column.
pub open spec fn label_text(c: SortCol) -> Seq<char> {
    match c {
        SortCol::Pid => "PID"@,
        SortCol::Name => "NAME"@,
        SortCol::Cpu => "CPU%"@,
        SortCol::Gpu => "GPU%"@,
        SortCol::Mem => "MEM(MB)"@,
        SortCol::Nice => "NICE"@,
        SortCol::Affinity => "AFFINITY"@,
        SortCol::Ionice => "I/O PRI"@,
        SortCol::Status => "STATUS"@,
    }
}

/// The columns in table order.
pub open spec fn columns() -> Seq<SortCol> {
    seq![
        SortCol::Pid,
        SortCol::Name,
        SortCol::Cpu,
        SortCol::Gpu,
        SortCol::Mem,
        SortCol::Nice,
        SortCol::Affinity,
        SortCol::Ionice,
        SortCol::Status,
    ]
}

impl SortCol {
    /// The heading of the column.
    pub fn label(&self) -> (r: &'static str)
        ensures
            r@ == label_text(*self),
    {
        match self {
            SortCol::Pid => "PID",
            SortCol::Name => "NAME",
            SortCol::Cpu => "CPU%",
            SortCol::Gpu => "GPU%",
            SortCol::Mem => "MEM(MB)",
            SortCol::Nice => "NICE",
            SortCol::Affinity => "AFFINITY",
            SortCol::Ionice => "I/O PRI",
            SortCol::Status => "STATUS",
        }
    }

    /// The columns in table order.
    pub fn all() -> (r: Vec<SortCol>)
        ensures
            r@ == columns(),
    {
        let mut v: Vec<SortCol> = Vec::new();
        v.push(SortCol::Pid);
        v.push(SortCol::Name);
        v.push(SortCol::Cpu);
        v.push(SortCol::Gpu);
        v.push(SortCol::Mem);
        v.push(SortCol::Nice);
        v.push(SortCol::Affinity);
        v.push(SortCol::Ionice);
        v.push(SortCol::Status);
        assert(v@ =~= columns());
        v
    }
}

// ── Cells ────────────────────────────────────────────────────────────────────

/// A part of an I/O priority: a number, 0 where it is none.
pub open spec fn ionice_part(s: Seq<char>) -> nat {
    match parse_nat(s, u32::MAX as nat) {
        Some(n) => n,
        None => 0,
    }
}

/// An I/O priority `class/level` as it is shown.
pub open spec fn ionice_text(s: Seq<char>) -> Seq<char> {
    let (class, level) = match split_first(s, '/') {
        Some((a, b)) => (ionice_part(a), ionice_part(b)),
        None => (ionice_part(s), 0),
    };
    if s.len() == 0 || class == 0 {
        "—"@
    } else if class == 1 {
        "RT-"@ + dec(level)
    } else if class == 2 {
        "BE-"@ + dec(level)
    } else if class == 3 {
        "Idle"@
    } else {
        s
    }
}

/// Reads a part of an I/O priority.
fn read_ionice_part(s: &[char]) -> (n: u32)
    ensures
        n as nat == ionice_part(s@),
{
    match read_u32(s) {
        Some(n) => n,
        None => 0,
    }
}

/// An I/O priority `class/level` in words.
pub fn fmt_ionice(s: &str) -> (r: String)
    ensures
        r@ == ionice_text(s@),
{
    if s.is_empty() {
        return "—".to_owned();
    }
    let cs = chars_of(s);
    let (class, level): (u32, u32) = match split_once_at(&cs, '/') {
        Some((a, b)) => (read_ionice_part(&a), read_ionice_part(&b)),
        None => (read_ionice_part(&cs), 0),
    };
    if class == 0 {
        "—".to_owned()
    } else if class == 1 {
        let mut r = "RT-".to_owned();
        push_dec(&mut r, level as u64);
        r
    } else if class == 2 {
        let mut r = "BE-".to_owned();
        push_dec(&mut r, level as u64);
        r
    } else if class == 3 {
        "Idle".to_owned()
    } else {
        s.to_owned()
    }
}

/// A rate in bytes per second as it is shown.
pub open spec fn bps_text(bytes: u64) -> Seq<char> {
    if bytes == 0 {
        "—"@
    } else if bytes >= 1_048_576 {
        tenths(parts(double(bytes as int, 1_048_576), 10)) + " MB/s"@
    } else if bytes >= 1024 {
        dec(parts(double(bytes as int, 1024), 1)) + " KB/s"@
    } else {
        dec(bytes as nat) + " B/s"@
    }
}

/// A rate in bytes per second, with its unit.
pub fn fmt_bps(bytes: u64) -> (r: String)
    ensures
        r@ == bps_text(bytes),
{
    if bytes == 0 {
        return "—".to_owned();
    }
    let mut r = String::new();
    if bytes >= 1_048_576 {
        push_tenths(&mut r, Binary::double(bytes, 1_048_576).parts(10));
        r.append(" MB/s");
    } else if bytes >= 1024 {
        push_wide(&mut r, Binary::double(bytes, 1024).parts(1));
        r.append(" KB/s");
    } else {
        push_dec(&mut r, bytes);
        r.append(" B/s");
    }
    assert(r@ =~= bps_text(bytes));
    r
}

/// The text of a cell, except those of the name, affinity and status columns,
/// which have their own.
pub open spec fn cell_text(p: ProcInfo, c: SortCol) -> Seq<char> {
    match c {
        SortCol::Pid => dec(p.pid as nat),
        SortCol::Name => p.name@,
        SortCol::Cpu => tenths(parts(p.cpu_percent@, 10)),
        SortCol::Gpu => if less(single(0, 1), p.gpu_percent@) {
            dec(parts(p.gpu_percent@, 1))
        } else {
            "—"@
        },
        SortCol::Mem => tenths(parts(double(p.mem_rss as int, 1_048_576), 10)),
        SortCol::Nice => dec_int(p.nice as int),
        SortCol::Affinity => p.affinity@,
        SortCol::Ionice => ionice_text(p.ionice@),
        SortCol::Status => Seq::empty(),
    }
}

/// Writes a cell.
pub fn fmt_cell(p: &ProcInfo, c: SortCol) -> (r: String)
    ensures
        r@ == cell_text(*p, c),
{
    match c {
        SortCol::Pid => decimal(p.pid as u64),
        SortCol::Name => p.name.clone(),
        SortCol::Cpu => {
            let mut r = String::new();
            push_tenths(&mut r, p.cpu_percent.get().parts(10));
            assert(r@ =~= cell_text(*p, c));
            r
        },
        SortCol::Gpu => if Single::whole(0).is_less(p.gpu_percent) {
            let mut r = String::new();
            push_wide(&mut r, p.gpu_percent.get().parts(1));
            assert(r@ =~= cell_text(*p, c));
            r
        } else {
            "—".to_owned()
        },
        SortCol::Mem => {
            let mut r = String::new();
            push_tenths(&mut r, Binary::double(p.mem_rss, 1_048_576).parts(10));
            assert(r@ =~= cell_text(*p, c));
            r
        },
        SortCol::Nice => decimal_int(p.nice as i64),
        SortCol::Affinity => p.affinity.clone(),
        SortCol::Ionice => fmt_ionice(p.ionice.as_str()),
        SortCol::Status => String::new(),
    }
}

/// The number of bytes of a character.
pub open spec fn char_bytes(c: char) -> nat {
    if (c as u32) < 0x80 {
        1
    } else if (c as u32) < 0x800 {
        2
    } else if (c as u32) < 0x1_0000 {
        3
    } else {
        4
    }
}

/// The number of bytes of a text.
pub open spec fn text_bytes(s: Seq<char>) -> nat
    decreases s.len(),
{
    if s.len() == 0 {
        0
    } else {
        text_bytes(s.drop_last()) + char_bytes(s.last())
    }
}

/// The first characters of a text that together have at most `n` bytes.
pub open spec fn first_bytes(s: Seq<char>, n: nat) -> Seq<char>
    decreases s.len(),
{
    if text_bytes(s) <= n {
        s
    } else {
        first_bytes(s.drop_last(), n)
    }
}

/// A text cut to 13 bytes and an ellipsis where it is longer than 14.
pub open spec fn shortened(s: Seq<char>) -> Seq<char> {
    if text_bytes(s) > 14 {
        first_bytes(s, 13) + "…"@
    } else {
        s
    }
}

/// A part of a text has no more bytes than the text.
proof fn lemma_text_bytes(s: Seq<char>, n: int)
    requires
        0 <= n <= s.len(),
    ensures
        n <= text_bytes(s.take(n)) <= text_bytes(s),
        n < s.len() ==> text_bytes(s.take(n)) < text_bytes(s),
    decreases s.len(),
{
    if n < s.len() {
        lemma_text_bytes(s.drop_last(), n);
        assert(s.drop_last().take(n) =~= s.take(n));
    } else {
        assert(s.take(n) =~= s);
        if n > 0 {
            lemma_text_bytes(s.drop_last(), n - 1);
            assert(s.drop_last().take(n - 1) =~= s.drop_last());
        }
    }
}

/// The first characters of at most `n` bytes are as many as fit.
proof fn lemma_first_bytes(s: Seq<char>, n: nat, k: int)
    requires
        0 <= k < s.len(),
        text_bytes(s.take(k)) <= n,
        text_bytes(s.take(k + 1)) > n,
    ensures
        first_bytes(s, n) == s.take(k),
    decreases s.len(),
{
    lemma_text_bytes(s, k + 1);
    let t = s.drop_last();
    if k < s.len() - 1 {
        assert(t.take(k) =~= s.take(k));
        assert(t.take(k + 1) =~= s.take(k + 1));
        lemma_first_bytes(t, n, k);
    } else {
        assert(t =~= s.take(k));
        assert(first_bytes(t, n) == t);
        assert(s.take(k + 1) =~= s);
    }
}

/// The number of bytes of a character.
fn bytes_of_char(c: char) -> (n: usize)
    ensures
        n as nat == char_bytes(c),
        1 <= n <= 4,
{
    let code: u32 = c as u32;
    if code < 0x80 {
        1
    } else if code < 0x800 {
        2
    } else if code < 0x1_0000 {
        3
    } else {
        4
    }
}

/// Cuts the text of an affinity cell.
pub fn shorten_affinity(s: &str) -> (r: String)
    ensures
        r@ == shortened(s@),
{
    let cs = chars_of(s);
    let mut bytes: usize = 0;
    let mut cut: usize = 0;
    let mut i: usize = 0;
    assert(cs@.take(0) =~= Seq::<char>::empty());
    while i < cs.len() && bytes <= 14
        invariant
            cut <= i <= cs.len(),
            bytes <= 18,
            bytes as nat == text_bytes(cs@.take(i as int)),
            text_bytes(cs@.take(cut as int)) <= 13,
            bytes <= 13 ==> cut == i,
            bytes > 13 ==> cut < i && text_bytes(cs@.take(cut + 1)) > 13,
        decreases cs.len() - i,
    {
        assert(cs@.take(i + 1).drop_last() =~= cs@.take(i as int));
        bytes += bytes_of_char(cs[i]);
        i += 1;
        if bytes <= 13 {
            cut = i;
        }
    }
    proof {
        lemma_text_bytes(cs@, i as int);
    }
    if bytes > 14 {
        proof {
            lemma_first_bytes(cs@, 13, cut as int);
        }
        let head = sub_chars(&cs, 0, cut);
        assert(head@ =~= cs@.take(cut as int));
        let mut r = text_of(&head);
        r.append("…");
        r
    } else {
        assert(cs@.take(i as int) =~= cs@);
        s.to_owned()
    }
}

// ── Actions ──────────────────────────────────────────────────────────────────

/// What the user asked for.
#[allow(inconsistent_fields)]
#[derive(Debug)]
pub enum TableAction {
    Kill { pid: u32, name: String, force: bool },
    Suspend { pid: u32, name: String },
    Resume { pid: u32, name: String },
    SetAffinity { pid: u32, name: String, current: String },
    SetNice { pid: u32, name: String, current: i32 },
    SetIonice { pid: u32, name: String },
    AddRule { name: String },
    ShowDetails { pid: u32 },
    Nothing,
}

/// A kill that waits for its deadline, so that it can be undone. The deadline is
/// in milliseconds of the caller's clock.
#[derive(Debug)]
pub struct PendingKill {
    pub pid: u32,
    pub name: String,
    pub force: bool,
    pub deadline_ms: u64,
}

// ── Filtering ────────────────────────────────────────────────────────────────

/// A compiled regular expression (`regex::Regex`).
#[verifier::external_type_specification]
#[verifier::external_body]
pub struct ExRegex(regex::Regex);

/// What `regex::RegexBuilder::build` gives for a pattern; none where the pattern is
/// not valid.
pub uninterp spec fn built_regex(pattern: Seq<char>, ignore_case: bool) -> Option<regex::Regex>;

/// What `regex::Regex::is_match` gives.
pub uninterp spec fn regex_finds(re: regex::Regex, text: Seq<char>) -> bool;

/// A filter as a regular expression, in which case is ignored.
pub open spec fn filter_regex(pattern: Seq<char>) -> Option<regex::Regex> {
    built_regex(pattern, true)
}

/// Calls `regex::RegexBuilder::build` after `case_insensitive`. Whether the pattern
/// is valid, and what it is compiled to, depends on the two arguments alone.
#[verifier::external_body]
fn build_regex(pattern: &str, ignore_case: bool) -> (r: Option<regex::Regex>)
    ensures
        r == built_regex(pattern@, ignore_case),
{
    regex::RegexBuilder::new(pattern).case_insensitive(ignore_case).build().ok()
}

/// Calls `regex::Regex::is_match`: whether the expression matches somewhere in the
/// text, which depends on the two alone.
#[verifier::external_body]
fn regex_is_match(re: &regex::Regex, text: &str) -> (r: bool)
    ensures
        r == regex_finds(*re, text@),
{
    re.is_match(text)
}

/// A plain filter hits a row: it is part of the name, the process id or the
/// command line, all but the id in lower case.
pub open spec fn plain_hit(name: Seq<char>, pid: u32, cmdline: Seq<char>, filter: Seq<char>) -> bool {
    has_substring(name, filter) || has_substring(dec(pid as nat), filter) || has_substring(
        cmdline,
        filter,
    )
}

/// Whether a plain filter hits a row, all texts being in lower case.
pub fn hits_lowered(name: &str, pid: u32, cmdline: &str, filter: &str) -> (r: bool)
    ensures
        r == plain_hit(name@, pid, cmdline@, filter@),
{
    let id = decimal(pid as u64);
    contains_text(name, filter) || contains_text(id.as_str(), filter) || contains_text(
        cmdline,
        filter,
    )
}

/// What the filter line says of a row. An empty filter and an invalid regular
/// expression let every row through.
pub open spec fn filter_hit(p: ProcInfo, filter: Seq<char>, is_regex: bool) -> bool {
    if filter.len() == 0 {
        true
    } else if is_regex {
        match filter_regex(filter) {
            Some(re) => regex_finds(re, p.name@) || regex_finds(re, p.cmdline@),
            None => true,
        }
    } else {
        plain_hit(lowercase(p.name@), p.pid, lowercase(p.cmdline@), lowercase(filter))
    }
}

/// The quick filters that are on.
#[derive(Debug, Clone, Copy, PartialEq, Eq, Structural)]
pub struct Chips {
    pub high_cpu: bool,
    pub throttled: bool,
    pub suspended: bool,
}

/// A row passes the quick filters: at least 25 % of a core, throttled, suspended.
pub open spec fn chips_pass(
    p: ProcInfo,
    chips: Chips,
    throttled: Set<u32>,
    suspended: Set<u32>,
) -> bool {
    &&& chips.high_cpu ==> !less(p.cpu_percent@, single(25, 1))
    &&& chips.throttled ==> throttled.contains(p.pid)
    &&& chips.suspended ==> suspended.contains(p.pid)
}

/// The rows that are shown, in the order of the snapshot: those whose mark is set
/// and that pass the quick filters.
pub open spec fn shown_rows(
    rows: Seq<ProcInfo>,
    hits: Seq<bool>,
    chips: Chips,
    throttled: Set<u32>,
    suspended: Set<u32>,
) -> Seq<int>
    decreases rows.len(),
{
    if rows.len() == 0 {
        Seq::empty()
    } else {
        let before = shown_rows(rows.drop_last(), hits.drop_last(), chips, throttled, suspended);
        if hits.last() && chips_pass(rows.last(), chips, throttled, suspended) {
            before.push(rows.len() - 1)
        } else {
            before
        }
    }
}

/// Places as mathematical integers.
pub open spec fn ints(s: Seq<usize>) -> Seq<int> {
    Seq::new(s.len(), |i: int| s[i] as int)
}

/// The marked rows that pass the quick filters.
pub fn retain_rows(
    rows: &[ProcInfo],
    hits: &Vec<bool>,
    chips: Chips,
    throttled: &IdSet,
    suspended: &IdSet,
) -> (r: Vec<usize>)
    requires
        hits.len() == rows.len(),
    ensures
        ints(r@) == shown_rows(rows@, hits@, chips, throttled@, suspended@),
        forall|i: int| 0 <= i < r.len() ==> (#[trigger] r[i]) < rows.len(),
        forall|i: int, j: int| 0 <= i < j < r.len() ==> r[i] < r[j],
{
    let mut r: Vec<usize> = Vec::new();
    let mut i: usize = 0;
    proof {
        assert(rows@.take(0) =~= Seq::<ProcInfo>::empty());
        assert(ints(r@) =~= Seq::<int>::empty());
    }
    while i < rows.len()
        invariant
            i <= rows.len(),
            hits.len() == rows.len(),
            ints(r@) == shown_rows(
                rows@.take(i as int),
                hits@.take(i as int),
                chips,
                throttled@,
                suspended@,
            ),
            forall|k: int| 0 <= k < r.len() ==> (#[trigger] r[k]) < i,
            forall|k: int, m: int| 0 <= k < m < r.len() ==> r[k] < r[m],
        decreases rows.len() - i,
    {
        let ghost before = ints(r@);
        proof {
            assert(rows@.take(i + 1).drop_last() =~= rows@.take(i as int));
            assert(hits@.take(i + 1).drop_last() =~= hits@.take(i as int));
        }
        let p = &rows[i];
        if hits[i] && (!chips.high_cpu || !p.cpu_percent.is_less(Single::whole(25))) && (!chips.throttled
            || throttled.contains(p.pid)) && (!chips.suspended || suspended.contains(p.pid)) {
            r.push(i);
            assert(ints(r@) =~= before.push(i as int));
        }
        i += 1;
    }
    proof {
        assert(rows@.take(i as int) =~= rows@);
        assert(hits@.take(i as int) =~= hits@);
    }
    r
}

/// What the filter line says of each row.
pub open spec fn filter_hits(rows: Seq<ProcInfo>, filter: Seq<char>, is_regex: bool) -> Seq<bool> {
    Seq::new(rows.len(), |i: int| filter_hit(rows[i], filter, is_regex))
}

/// Marks the rows that the filter line hits. The compiled expression of the
/// filter is given where there is one.
fn mark_hits(
    rows: &[ProcInfo],
    filter: &str,
    is_regex: bool,
    compiled: &Option<regex::Regex>,
) -> (hits: Vec<bool>)
    requires
        is_regex && filter@.len() > 0 ==> *compiled == filter_regex(filter@),
    ensures
        hits@ == filter_hits(rows@, filter@, is_regex),
{
    let low = lowered(filter);
    let mut hits: Vec<bool> = Vec::new();
    let mut i: usize = 0;
    while i < rows.len()
        invariant
            i <= rows.len(),
            hits.len() == i,
            low@ == lowercase(filter@),
            is_regex && filter@.len() > 0 ==> *compiled == filter_regex(filter@),
            forall|k: int| 0 <= k < i ==> #[trigger] hits@[k] == filter_hit(rows@[k], filter@, is_regex),
        decreases rows.len() - i,
    {
        let p = &rows[i];
        let hit = if filter.is_empty() {
            true
        } else if is_regex {
            match compiled {
                Some(re) => regex_is_match(re, p.name.as_str()) || regex_is_match(
                    re,
                    p.cmdline.as_str(),
                ),
                None => true,
            }
        } else {
            let n = lowered(p.name.as_str());
            let c = lowered(p.cmdline.as_str());
            hits_lowered(n.as_str(), p.pid, c.as_str(), low.as_str())
        };
        hits.push(hit);
        i += 1;
    }
    assert(hits@ =~= filter_hits(rows@, filter@, is_regex));
    hits
}

// ── Sorting ──────────────────────────────────────────────────────────────────

/// How a process stands: suspended above throttled above running.
pub open spec fn status_rank(pid: u32, throttled: Set<u32>, suspended: Set<u32>) -> int {
    if suspended.contains(pid) {
        2
    } else if throttled.contains(pid) {
        1
    } else {
        0
    }
}

/// The cell of `a` is at most that of `b`.
pub open spec fn cell_le(
    a: ProcInfo,
    b: ProcInfo,
    col: SortCol,
    throttled: Set<u32>,
    suspended: Set<u32>,
) -> bool {
    match col {
        SortCol::Pid => a.pid <= b.pid,
        SortCol::Name => text_le(a.name@, b.name@),
        SortCol::Cpu => !less(b.cpu_percent@, a.cpu_percent@),
        SortCol::Gpu => !less(b.gpu_percent@, a.gpu_percent@),
        SortCol::Mem => a.mem_rss <= b.mem_rss,
        SortCol::Nice => a.nice <= b.nice,
        SortCol::Affinity => text_le(a.affinity@, b.affinity@),
        SortCol::Ionice => text_le(a.ionice@, b.ionice@),
        SortCol::Status => status_rank(a.pid, throttled, suspended) <= status_rank(
            b.pid,
            throttled,
            suspended,
        ),
    }
}

/// The row `a` comes no later than `b`: by the column, ascending or descending,
/// and by the process id where the cells are equal.
pub open spec fn row_le(
    a: ProcInfo,
    b: ProcInfo,
    col: SortCol,
    asc: bool,
    throttled: Set<u32>,
    suspended: Set<u32>,
) -> bool {
    let (x, y) = if asc {
        (a, b)
    } else {
        (b, a)
    };
    cell_le(x, y, col, throttled, suspended) && (cell_le(y, x, col, throttled, suspended) ==> a.pid
        <= b.pid)
}

/// A cell reduced to what it is sorted by.
pub enum CellKey {
    Number(i128),
    Load(Single),
    Text(Vec<char>),
}

impl CellKey {
    /// Keys of different kinds are kept apart.
    fn kind(&self) -> (r: u8)
        ensures
            r == (match *self {
                CellKey::Number(_) => 0u8,
                CellKey::Load(_) => 1,
                CellKey::Text(_) => 2,
            }),
    {
        match self {
            CellKey::Number(_) => 0,
            CellKey::Load(_) => 1,
            CellKey::Text(_) => 2,
        }
    }
}

/// A row reduced to what it is sorted by.
pub struct RowKey {
    pub cell: CellKey,
    pub asc: bool,
    pub pid: u32,
}

impl RowKey {
    /// Keys of different kinds are kept apart.
    pub open spec fn class(&self) -> int {
        (match self.cell {
            CellKey::Number(_) => 0int,
            CellKey::Load(_) => 2,
            CellKey::Text(_) => 4,
        }) + (if self.asc {
            1int
        } else {
            0
        })
    }

    /// The cell is at most the other.
    pub open spec fn cell_at_most(&self, other: &RowKey) -> bool {
        match (self.cell, other.cell) {
            (CellKey::Number(a), CellKey::Number(b)) => a <= b,
            (CellKey::Load(a), CellKey::Load(b)) => !less(b@, a@),
            (CellKey::Text(a), CellKey::Text(b)) => text_le(a@, b@),
            _ => false,
        }
    }
}

impl Ranked for RowKey {
    open spec fn ranks(&self, other: &Self) -> bool {
        if self.class() != other.class() {
            self.class() < other.class()
        } else {
            let (x, y) = if self.asc {
                (self, other)
            } else {
                (other, self)
            };
            x.cell_at_most(y) && (y.cell_at_most(x) ==> self.pid <= other.pid)
        }
    }

    fn no_later(&self, other: &Self) -> (r: bool) {
        let (a_kind, b_kind): (u8, u8) = (self.cell.kind(), other.cell.kind());
        if a_kind != b_kind {
            return a_kind < b_kind;
        }
        if self.asc != other.asc {
            return other.asc;
        }
        let (le, ge) = match (&self.cell, &other.cell) {
            (CellKey::Number(a), CellKey::Number(b)) => (*a <= *b, *b <= *a),
            (CellKey::Load(a), CellKey::Load(b)) => (!b.is_less(*a), !a.is_less(*b)),
            (CellKey::Text(a), CellKey::Text(b)) => (at_most(a, b), at_most(b, a)),
            _ => (false, false),
        };
        if self.asc {
            le && (!ge || self.pid <= other.pid)
        } else {
            ge && (!le || self.pid <= other.pid)
        }
    }

    proof fn ranks_total(&self, other: &Self) {
        match (self.cell, other.cell) {
            (CellKey::Text(a), CellKey::Text(b)) => {
                lemma_text_le_total(a@, b@);
            },
            (CellKey::Load(a), CellKey::Load(b)) => {
                lemma_order(a@, b@, a@);
            },
            _ => {},
        }
    }

    proof fn ranks_transitive(&self, mid: &Self, other: &Self) {
        if self.class() == mid.class() && mid.class() == other.class() {
            match (self.cell, mid.cell, other.cell) {
                (CellKey::Text(a), CellKey::Text(b), CellKey::Text(c)) => {
                    if self.asc {
                        lemma_text_le_transitive(a@, b@, c@);
                        if text_le(c@, a@) {
                            lemma_text_le_transitive(c@, a@, b@);
                            lemma_text_le_transitive(b@, c@, a@);
                        }
                    } else {
                        lemma_text_le_transitive(c@, b@, a@);
                        if text_le(a@, c@) {
                            lemma_text_le_transitive(a@, c@, b@);
                            lemma_text_le_transitive(b@, a@, c@);
                        }
                    }
                },
                (CellKey::Load(a), CellKey::Load(b), CellKey::Load(c)) => {
                    lemma_order(a@, b@, c@);
                    lemma_order(b@, c@, a@);
                    lemma_order(c@, a@, b@);
                    lemma_order(c@, b@, a@);
                    lemma_order(b@, a@, c@);
                    lemma_order(a@, c@, b@);
                },
                _ => {},
            }
        }
    }
}

/// What a row is sorted by.
fn row_key(p: &ProcInfo, col: SortCol, asc: bool, throttled: &IdSet, suspended: &IdSet) -> (k:
    RowKey)
    ensures
        key_of(k, *p, col, asc, throttled@, suspended@),
{
    let cell = match col {
        SortCol::Pid => CellKey::Number(p.pid as i128),
        SortCol::Name => CellKey::Text(chars_of(p.name.as_str())),
        SortCol::Cpu => CellKey::Load(p.cpu_percent),
        SortCol::Gpu => CellKey::Load(p.gpu_percent),
        SortCol::Mem => CellKey::Number(p.mem_rss as i128),
        SortCol::Nice => CellKey::Number(p.nice as i128),
        SortCol::Affinity => CellKey::Text(chars_of(p.affinity.as_str())),
        SortCol::Ionice => CellKey::Text(chars_of(p.ionice.as_str())),
        SortCol::Status => CellKey::Number(
            if suspended.contains(p.pid) {
                2
            } else if throttled.contains(p.pid) {
                1
            } else {
                0
            },
        ),
    };
    RowKey { cell, asc, pid: p.pid }
}

/// One place comes before another in the sorted table: by `row_le`, and by the
/// place in the snapshot where that does not tell them apart.
pub open spec fn row_before(
    rows: Seq<ProcInfo>,
    a: int,
    b: int,
    col: SortCol,
    asc: bool,
    throttled: Set<u32>,
    suspended: Set<u32>,
) -> bool {
    &&& row_le(rows[a], rows[b], col, asc, throttled, suspended)
    &&& row_le(rows[b], rows[a], col, asc, throttled, suspended) ==> a < b
}

/// The places `out` are those of `kept`, put in order.
pub open spec fn sorts_rows(
    rows: Seq<ProcInfo>,
    kept: Seq<int>,
    out: Seq<int>,
    col: SortCol,
    asc: bool,
    throttled: Set<u32>,
    suspended: Set<u32>,
) -> bool {
    &&& out.len() == kept.len()
    &&& forall|x: int| out.contains(x) <==> kept.contains(x)
    &&& forall|i: int, j: int|
        0 <= i < j < out.len() ==> row_before(
            rows,
            out[i],
            out[j],
            col,
            asc,
            throttled,
            suspended,
        )
}

/// Sorts the rows that are kept.
pub fn sort_rows(
    rows: &[ProcInfo],
    kept: &Vec<usize>,
    col: SortCol,
    asc: bool,
    throttled: &IdSet,
    suspended: &IdSet,
) -> (out: Vec<usize>)
    requires
        forall|i: int| 0 <= i < kept.len() ==> (#[trigger] kept[i]) < rows.len(),
        forall|i: int, j: int| 0 <= i < j < kept.len() ==> kept[i] < kept[j],
    ensures
        sorts_rows(rows@, ints(kept@), ints(out@), col, asc, throttled@, suspended@),
        forall|i: int| 0 <= i < out.len() ==> (#[trigger] out[i]) < rows.len(),
{
    let mut keys: Vec<RowKey> = Vec::new();
    let mut i: usize = 0;
    while i < kept.len()
        invariant
            i <= kept.len(),
            keys.len() == i,
            forall|k: int| 0 <= k < kept.len() ==> (#[trigger] kept[k]) < rows.len(),
            forall|a: int, b: int|
                0 <= a < i && 0 <= b < i ==> (#[trigger] keys[a]).ranks(#[trigger] &keys[b])
                    == row_le(
                    rows@[kept[a] as int],
                    rows@[kept[b] as int],
                    col,
                    asc,
                    throttled@,
                    suspended@,
                ),
            forall|a: int|
                0 <= a < i ==> key_of(
                    #[trigger] keys[a],
                    rows@[kept[a] as int],
                    col,
                    asc,
                    throttled@,
                    suspended@,
                ),
        decreases kept.len() - i,
    {
        let ghost before = keys@;
        let k = row_key(&rows[kept[i]], col, asc, throttled, suspended);
        keys.push(k);
        proof {
            assert forall|a: int| 0 <= a < i + 1 implies key_of(
                #[trigger] keys[a],
                rows@[kept[a] as int],
                col,
                asc,
                throttled@,
                suspended@,
            ) by {
                if a < i {
                    assert(keys[a] == before[a]);
                }
            }
            assert forall|a: int, b: int| 0 <= a < i + 1 && 0 <= b < i + 1 implies (
            #[trigger] keys[a]).ranks(#[trigger] &keys[b]) == row_le(
                rows@[kept[a] as int],
                rows@[kept[b] as int],
                col,
                asc,
                throttled@,
                suspended@,
            ) by {
                lemma_key_order(
                    keys[a],
                    keys[b],
                    rows@[kept[a] as int],
                    rows@[kept[b] as int],
                    col,
                    asc,
                    throttled@,
                    suspended@,
                );
            }
        }
        i += 1;
    }
    let places = sorted_places(&keys);
    let mut out: Vec<usize> = Vec::new();
    let mut j: usize = 0;
    while j < places.len()
        invariant
            j <= places.len(),
            out.len() == j,
            forall|k: int| 0 <= k < places.len() ==> (#[trigger] places[k]) < kept.len(),
            forall|k: int| 0 <= k < kept.len() ==> (#[trigger] kept[k]) < rows.len(),
            forall|k: int| 0 <= k < j ==> #[trigger] out[k] == kept[places[k] as int],
        decreases places.len() - j,
    {
        out.push(kept[places[j]]);
        j += 1;
    }
    proof {
        let (o, k) = (ints(out@), ints(kept@));
        assert forall|x: int| o.contains(x) <==> k.contains(x) by {
            if o.contains(x) {
                let a = choose|a: int| 0 <= a < o.len() && o[a] == x;
                assert(out[a] == kept[places[a] as int]);
                assert(k[places[a] as int] == x);
            }
            if k.contains(x) {
                let b = choose|b: int| 0 <= b < k.len() && k[b] == x;
                assert(places@.contains(b as usize));
                let a = choose|a: int| 0 <= a < places@.len() && places@[a] == b as usize;
                assert(out[a] == kept[places[a] as int]);
                assert(o[a] == x);
            }
        }
        assert forall|a: int, b: int| 0 <= a < b < o.len() implies row_before(
            rows@,
            o[a],
            o[b],
            col,
            asc,
            throttled@,
            suspended@,
        ) by {
            assert(out[a] == kept[places[a] as int] && out[b] == kept[places[b] as int]);
            assert(sorts_before(keys@, places[a] as int, places[b] as int));
            let (x, y) = (places[a] as int, places[b] as int);
            assert(keys[x].ranks(&keys[y]));
            assert(keys[y].ranks(&keys[x]) == row_le(
                rows@[kept[y] as int],
                rows@[kept[x] as int],
                col,
                asc,
                throttled@,
                suspended@,
            ));
        }
    }
    out
}

/// `k` is what the row `p` is sorted by.
spec fn key_of(
    k: RowKey,
    p: ProcInfo,
    col: SortCol,
    asc: bool,
    throttled: Set<u32>,
    suspended: Set<u32>,
) -> bool {
    &&& k.asc == asc
    &&& k.pid == p.pid
    &&& match col {
        SortCol::Pid => k.cell == CellKey::Number(p.pid as i128),
        SortCol::Name => k.cell is Text && k.cell->Text_0@ == p.name@,
        SortCol::Cpu => k.cell == CellKey::Load(p.cpu_percent),
        SortCol::Gpu => k.cell == CellKey::Load(p.gpu_percent),
        SortCol::Mem => k.cell == CellKey::Number(p.mem_rss as i128),
        SortCol::Nice => k.cell == CellKey::Number(p.nice as i128),
        SortCol::Affinity => k.cell is Text && k.cell->Text_0@ == p.affinity@,
        SortCol::Ionice => k.cell is Text && k.cell->Text_0@ == p.ionice@,
        SortCol::Status => k.cell == CellKey::Number(
            status_rank(p.pid, throttled, suspended) as i128,
        ),
    }
}

/// The keys are ordered as the rows are.
proof fn lemma_key_order(
    x: RowKey,
    y: RowKey,
    a: ProcInfo,
    b: ProcInfo,
    col: SortCol,
    asc: bool,
    throttled: Set<u32>,
    suspended: Set<u32>,
)
    requires
        key_of(x, a, col, asc, throttled, suspended),
        key_of(y, b, col, asc, throttled, suspended),
    ensures
        x.ranks(&y) == row_le(a, b, col, asc, throttled, suspended),
{
}

// ── Affinity with physical cores and their siblings grouped ──────────────────

/// The siblings of a core that are shown with it: visible and not shown yet.
pub open spec fn shown_siblings(sibs: Seq<u32>, visible: Set<u32>, seen: Set<u32>) -> Seq<u32>
    decreases sibs.len(),
{
    if sibs.len() == 0 {
        sibs
    } else {
        let before = shown_siblings(sibs.drop_last(), visible, seen);
        if visible.contains(sibs.last()) && !seen.contains(sibs.last()) {
            before.push(sibs.last())
        } else {
            before
        }
    }
}

/// The siblings on record for a core.
pub open spec fn siblings_of(pairs: Map<u32, Vec<u32>>, cpu: u32) -> Seq<u32> {
    if pairs.contains_key(cpu) {
        pairs[cpu]@
    } else {
        Seq::empty()
    }
}

/// After the first `n` visible CPUs: the groups, and the CPUs that stand in them.
/// A group is a CPU with its siblings, such as `0+16`.
pub open spec fn core_groups(
    vis: Seq<u32>,
    pairs: Map<u32, Vec<u32>>,
    n: nat,
) -> (Seq<Seq<char>>, Set<u32>)
    decreases n,
{
    if n == 0 {
        (Seq::empty(), Set::empty())
    } else {
        let (parts, seen) = core_groups(vis, pairs, (n - 1) as nat);
        let cpu = vis[n - 1];
        if seen.contains(cpu) {
            (parts, seen)
        } else {
            let with = seen.insert(cpu);
            let sibs = shown_siblings(siblings_of(pairs, cpu), vis.to_set(), with);
            if sibs.len() == 0 {
                (parts.push(dec(cpu as nat)), with)
            } else {
                (
                    parts.push(dec(cpu as nat) + "+"@ + join(decs(sibs), "+"@)),
                    with.union(sibs.to_set()),
                )
            }
        }
    }
}

/// How an affinity is shown. While parked CPUs are hidden, they are left out and
/// the others are grouped by core; a text that is no CPU list is shown as it is.
pub open spec fn affinity_text(
    affinity: Seq<char>,
    offline: Set<u32>,
    pairs: Map<u32, Vec<u32>>,
    hide_parked: bool,
) -> Seq<char> {
    if !hide_parked || offline == Set::<u32>::empty() {
        affinity
    } else {
        match parse_cpulist(affinity) {
            None => affinity,
            Some(cpus) => if cpus == Set::<u32>::empty() {
                affinity
            } else if cpus.difference(offline) == Set::<u32>::empty() {
                "—"@
            } else {
                visible_text(ascending(cpus.difference(offline)), pairs)
            },
        }
    }
}

/// How the visible CPUs, given in ascending order, are shown.
pub open spec fn visible_text(vis: Seq<u32>, pairs: Map<u32, Vec<u32>>) -> Seq<char> {
    if pairs.dom() == Set::<u32>::empty() {
        cpulist(vis)
    } else {
        join(core_groups(vis, pairs, vis.len()).0, ","@)
    }
}

/// The siblings of a core that are shown with it.
fn pick_siblings(sibs: &Vec<u32>, visible: &IdSet, seen: &IdSet) -> (r: Vec<u32>)
    ensures
        r@ == shown_siblings(sibs@, visible@, seen@),
{
    let mut r: Vec<u32> = Vec::new();
    let mut i: usize = 0;
    assert(sibs@.take(0) =~= Seq::<u32>::empty());
    while i < sibs.len()
        invariant
            i <= sibs.len(),
            r@ == shown_siblings(sibs@.take(i as int), visible@, seen@),
        decreases sibs.len() - i,
    {
        assert(sibs@.take(i + 1).drop_last() =~= sibs@.take(i as int));
        if visible.contains(sibs[i]) && !seen.contains(sibs[i]) {
            r.push(sibs[i]);
        }
        i += 1;
    }
    assert(sibs@.take(i as int) =~= sibs@);
    r
}

/// Adds the members of a list to a set.
fn insert_all(set: &mut IdSet, list: &Vec<u32>)
    ensures
        final(set)@ == old(set)@.union(list@.to_set()),
{
    let more = IdSet::from_list(list.as_slice());
    *set = set.union(&more);
}

/// The visible CPUs grouped by core.
fn group_cores(vis: &IdSet, pairs: &IdMap<Vec<u32>>) -> (r: String)
    ensures
        r@ == join(core_groups(vis.order(), pairs@, vis.order().len()).0, ","@),
{
    let list = vis.items();
    let mut seen = IdSet::new();
    let mut parts: Vec<String> = Vec::new();
    let mut i: usize = 0;
    assert(texts(parts@) =~= Seq::<Seq<char>>::empty());
    while i < list.len()
        invariant
            i <= list.len(),
            list@ == vis.order(),
            list@.to_set() == vis@,
            (texts(parts@), seen@) == core_groups(list@, pairs@, i as nat),
        decreases list.len() - i,
    {
        let cpu: u32 = list[i];
        let ghost before = texts(parts@);
        if !seen.contains(cpu) {
            seen.insert(cpu);
            let none: Vec<u32> = Vec::new();
            let sibs = match pairs.get(cpu) {
                Some(s) => pick_siblings(s, vis, &seen),
                None => pick_siblings(&none, vis, &seen),
            };
            proof {
                assert(none@ =~= Seq::<u32>::empty());
                assert(sibs@ == shown_siblings(siblings_of(pairs@, cpu), vis@, seen@));
            }
            let mut part = decimal(cpu as u64);
            if sibs.len() > 0 {
                part.append("+");
                let ds = decimals(&sibs);
                let tail = joined(&ds, "+");
                part.append(tail.as_str());
                insert_all(&mut seen, &sibs);
            }
            let ghost text = part@;
            parts.push(part);
            assert(texts(parts@) =~= before.push(text));
        }
        i += 1;
    }
    joined(&parts, ",")
}

/// How an affinity is shown.
pub fn format_affinity_display(
    affinity_str: &str,
    offline: &IdSet,
    core_pairs: &IdMap<Vec<u32>>,
    hide_parked: bool,
) -> (r: String)
    ensures
        r@ == affinity_text(affinity_str@, offline@, core_pairs@, hide_parked),
{
    if !hide_parked || offline.is_empty() {
        return affinity_str.to_owned();
    }
    match cpulist_to_set(affinity_str) {
        Err(_) => affinity_str.to_owned(),
        Ok(cpus) => {
            if cpus.is_empty() {
                return affinity_str.to_owned();
            }
            let visible = cpus.difference(offline);
            if visible.is_empty() {
                return "—".to_owned();
            }
            if core_pairs.is_empty() {
                cpuset_to_cpulist(&visible)
            } else {
                group_cores(&visible, core_pairs)
            }
        },
    }
}

/// Every visible CPU stands in a group, and no other does.
pub proof fn law_groups_hold_the_visible_cpus(vis: Seq<u32>, pairs: Map<u32, Vec<u32>>, n: nat)
    requires
        n <= vis.len(),
    ensures
        core_groups(vis, pairs, n).1.subset_of(vis.to_set()),
        forall|i: int| 0 <= i < n ==> core_groups(vis, pairs, n).1.contains(#[trigger] vis[i]),
    decreases n,
{
    if n > 0 {
        law_groups_hold_the_visible_cpus(vis, pairs, (n - 1) as nat);
        let seen = core_groups(vis, pairs, (n - 1) as nat).1;
        let cpu = vis[n - 1];
        assert(vis.to_set().contains(cpu)) by {
            assert(vis.contains(cpu));
        }
        let sibs = shown_siblings(siblings_of(pairs, cpu), vis.to_set(), seen.insert(cpu));
        lemma_shown_siblings(siblings_of(pairs, cpu), vis.to_set(), seen.insert(cpu));
        assert forall|x: u32| sibs.to_set().contains(x) implies vis.to_set().contains(x) by {
            let k = choose|k: int| 0 <= k < sibs.len() && sibs[k] == x;
            assert(vis.to_set().contains(sibs[k]));
        }
    }
}

/// The siblings shown are visible.
proof fn lemma_shown_siblings(sibs: Seq<u32>, visible: Set<u32>, seen: Set<u32>)
    ensures
        forall|i: int|
            0 <= i < shown_siblings(sibs, visible, seen).len() ==> visible.contains(
                #[trigger] shown_siblings(sibs, visible, seen)[i],
            ),
    decreases sibs.len(),
{
    if sibs.len() > 0 {
        let before = shown_siblings(sibs.drop_last(), visible, seen);
        let all = shown_siblings(sibs, visible, seen);
        lemma_shown_siblings(sibs.drop_last(), visible, seen);
        assert forall|i: int| 0 <= i < all.len() implies visible.contains(#[trigger] all[i]) by {
            if i < before.len() {
                assert(all[i] == before[i]);
            }
        }
    }
}

// ── The tab ──────────────────────────────────────────────────────────────────

/// The filter of the last frame and what it was compiled to, so that it is not
/// compiled anew for every frame.
pub struct FilterCache {
    pattern: String,
    compiled: Option<regex::Regex>,
}

impl FilterCache {
    #[verifier::type_invariant]
    closed spec fn well_formed(self) -> bool {
        self.compiled == filter_regex(self.pattern@)
    }

    /// The filter that was compiled.
    pub closed spec fn source(&self) -> Seq<char> {
        self.pattern@
    }

    /// Compiles a filter.
    pub fn new(filter: &str) -> (r: FilterCache)
        ensures
            r.source() == filter@,
    {
        FilterCache { pattern: filter.to_owned(), compiled: build_regex(filter, true) }
    }

    /// Whether this is the given filter, compiled.
    pub fn is_for(&self, filter: &str) -> (r: bool)
        ensures
            r == (self.source() == filter@),
    {
        same_text(self.pattern.as_str(), filter)
    }

    /// Whether the filter is found in a text; an invalid one is found in none.
    pub fn finds(&self, text: &str) -> (r: bool)
        ensures
            r == match filter_regex(self.source()) {
                Some(re) => regex_finds(re, text@),
                None => false,
            },
    {
        match self.compiled() {
            Some(re) => regex_is_match(re, text),
            None => false,
        }
    }

    /// What the filter was compiled to.
    pub fn compiled(&self) -> (r: &Option<regex::Regex>)
        ensures
            *r == filter_regex(self.source()),
    {
        proof {
            use_type_invariant(self);
        }
        &self.compiled
    }
}

/// The width of the columns before the user changes them, in thousandths of a
/// point. The name column fills what is left.
pub open spec fn default_widths() -> Seq<u32> {
    seq![60_000u32, 0, 90_000, 55_000, 75_000, 45_000, 110_000, 58_000, 85_000]
}

/// The widths to begin with: those on record, with the width of the GPU column
/// added to a record from before that column; else the defaults.
pub open spec fn initial_widths(on_record: Seq<u32>) -> Seq<u32> {
    if on_record.len() == 9 {
        on_record
    } else if on_record.len() == 8 {
        on_record.insert(3, 55_000)
    } else {
        default_widths()
    }
}

/// The widths to begin with.
pub fn starting_widths(on_record: &[u32]) -> (r: Vec<u32>)
    ensures
        r@ == initial_widths(on_record@),
        r.len() == 9,
{
    let n: usize = on_record.len();
    let mut v: Vec<u32> = Vec::new();
    if n == 9 || n == 8 {
        let mut i: usize = 0;
        while i < n
            invariant
                i <= n,
                n == on_record.len(),
                v@ == on_record@.take(i as int),
            decreases n - i,
        {
            v.push(on_record[i]);
            i += 1;
            assert(on_record@.take(i as int) =~= on_record@.take(i - 1).push(on_record[i - 1]));
        }
        assert(on_record@.take(n as int) =~= on_record@);
        if n == 8 {
            v.insert(3, 55_000);
        }
    } else {
        v.push(60_000);
        v.push(0);
        v.push(90_000);
        v.push(55_000);
        v.push(75_000);
        v.push(45_000);
        v.push(110_000);
        v.push(58_000);
        v.push(85_000);
        assert(v@ =~= default_widths());
    }
    v
}

/// The state of the process table.
pub struct ProcessTab {
    pub history: CpuHistoryWidget,
    pub bars: CpuBarsWidget,
    pub filter: String,
    /// The filter is a regular expression.
    pub filter_is_regex: bool,
    pub filter_cache: Option<FilterCache>,
    pub sort_col: SortCol,
    pub sort_asc: bool,
    pub selected_pid: Option<u32>,
    /// Hide parked CPUs, and group the others by core, in the affinity column.
    pub hide_parked_in_proc_view: bool,
    pub tree_view: bool,
    /// Physical core to its siblings.
    pub core_pairs: IdMap<Vec<u32>>,
    pub columns: Columns,
    pub chips: Chips,
    /// Headings of the columns that the user has hidden.
    pub hidden_cols: Vec<String>,
    /// The hidden columns have changed since they were saved.
    pub hidden_dirty: bool,
    pub cached_offline: IdSet,
}

/// Whether a heading is in a list.
pub open spec fn lists(hidden: Seq<String>, label: Seq<char>) -> bool {
    texts(hidden).contains(label)
}

/// A column is shown. The name always is.
pub open spec fn col_shown(hidden: Seq<String>, c: SortCol) -> bool {
    c is Name || !lists(hidden, label_text(c))
}

/// The places of the columns that are shown, among the first `n`.
pub open spec fn visible_cols(hidden: Seq<String>, n: nat) -> Seq<int>
    decreases n,
{
    if n == 0 {
        Seq::empty()
    } else if col_shown(hidden, columns()[n - 1]) {
        visible_cols(hidden, (n - 1) as nat).push(n - 1)
    } else {
        visible_cols(hidden, (n - 1) as nat)
    }
}

/// The processes at the places `order`, as the tree sees them.
pub open spec fn nodes_at(rows: Seq<ProcInfo>, order: Seq<int>) -> Seq<Node> {
    Seq::new(
        order.len(),
        |i: int|
            Node {
                pid: rows[order[i]].pid,
                ppid: rows[order[i]].ppid,
                name: rows[order[i]].name@,
            },
    )
}

/// A list without indentation.
pub open spec fn flat(n: nat) -> Seq<(int, nat)> {
    Seq::new(n, |i: int| (i, 0nat))
}

impl ProcessTab {
    /// A table sorted by load, with the widths and hidden columns on record.
    pub fn new(
        cfg_col_widths: &[u32],
        cfg_hidden_cols: &Vec<String>,
        core_pairs: IdMap<Vec<u32>>,
        offline: IdSet,
    ) -> (r: ProcessTab)
        ensures
            r.history.history@.len() == 0,
            r.history.max_samples == 120,
            r.bars.cpu_pcts@.len() == 0,
            r.bars.cpu_freqs@.len() == 0,
            r.bars.offline@ == Set::<u32>::empty(),
            r.filter@.len() == 0,
            !r.filter_is_regex,
            r.filter_cache is None,
            r.sort_col == SortCol::Cpu,
            !r.sort_asc,
            r.selected_pid is None,
            r.hide_parked_in_proc_view,
            !r.tree_view,
            r.core_pairs == core_pairs,
            r.columns.well_formed(),
            r.columns.widths@ == initial_widths(cfg_col_widths@),
            !r.columns.initialized,
            r.columns.last_avail == 0,
            !r.columns.dirty,
            r.chips == (Chips { high_cpu: false, throttled: false, suspended: false }),
            texts(r.hidden_cols@) == texts(cfg_hidden_cols@),
            !r.hidden_dirty,
            r.cached_offline == offline,
    {
        ProcessTab {
            history: CpuHistoryWidget::new(),
            bars: CpuBarsWidget::new(),
            filter: String::new(),
            filter_is_regex: false,
            filter_cache: None,
            sort_col: SortCol::Cpu,
            sort_asc: false,
            selected_pid: None,
            hide_parked_in_proc_view: true,
            tree_view: false,
            core_pairs,
            columns: Columns::new(cfg_col_widths),
            chips: Chips { high_cpu: false, throttled: false, suspended: false },
            hidden_cols: copy_texts(cfg_hidden_cols),
            hidden_dirty: false,
            cached_offline: offline,
        }
    }

    /// Takes in the loads of the CPUs, their frequencies and which are offline.
    pub fn update_cpu(&mut self, pcts: Vec<Single>, freqs: Vec<Option<u64>>, offline: &IdSet)
        ensures
            numbers_of(final(self).history.history@) == newest(
                numbers_of(old(self).history.history@).push(load_average(numbers_of(pcts@))),
                old(self).history.max_samples as nat,
            ),
            final(self).history.max_samples == old(self).history.max_samples,
            final(self).bars.cpu_pcts == pcts,
            final(self).bars.cpu_freqs == freqs,
            final(self).bars.offline@ == offline@,
            final(self).cached_offline@ == offline@,
            *final(self) == (ProcessTab {
                history: final(self).history,
                bars: final(self).bars,
                cached_offline: final(self).cached_offline,
                ..*old(self)
            }),
    {
        let avg = average_load(&pcts);
        let ghost were = self.history.history@;
        self.history.push(avg);
        assert(numbers_of(self.history.history@) =~= newest(
            numbers_of(were).push(avg@),
            old(self).history.max_samples as nat,
        ));
        self.bars.update(pcts, freqs, offline.copy());
        self.cached_offline = offline.copy();
    }

    /// Lays the visible columns out in the width that there is.
    pub fn fit_columns(&mut self, avail: u32) -> (visible: Vec<usize>)
        requires
            old(self).columns.well_formed(),
        ensures
            ints(visible@) == visible_cols(old(self).hidden_cols@, 9),
            are_columns(visible@),
            final(self).columns.well_formed(),
            final(self).columns.widths@ == laid_out(old(self).columns, avail, visible@),
            *final(self) == (ProcessTab { columns: final(self).columns, ..*old(self) }),
    {
        let visible = self.visible_columns();
        self.columns.fit(avail, &visible);
        visible
    }

    /// Compiles the filter where it is a regular expression that has changed.
    /// Gives whether it is invalid.
    pub fn refresh_filter(&mut self) -> (invalid: bool)
        ensures
            invalid == (old(self).filter_is_regex && old(self).filter@.len() > 0 && filter_regex(
                old(self).filter@,
            ) is None),
            old(self).filter_is_regex && old(self).filter@.len() > 0 ==> final(self).filter_cache is Some && final(self).filter_cache->0.source() == old(self).filter@,
            *final(self) == (ProcessTab { filter_cache: final(self).filter_cache, ..*old(self) }),
    {
        if !self.filter_is_regex || self.filter.as_str().is_empty() {
            return false;
        }
        let stale = match &self.filter_cache {
            Some(c) => !c.is_for(self.filter.as_str()),
            None => true,
        };
        if stale {
            self.filter_cache = Some(FilterCache::new(self.filter.as_str()));
        }
        match &self.filter_cache {
            Some(c) => c.compiled().is_none(),
            None => false,
        }
    }

    /// The rows that are shown, sorted: places in the snapshot.
    pub fn rows(&mut self, snapshot: &[ProcInfo], throttled: &IdSet, suspended: &IdSet) -> (out:
        Vec<usize>)
        ensures
            sorts_rows(
                snapshot@,
                shown_rows(
                    snapshot@,
                    filter_hits(snapshot@, old(self).filter@, old(self).filter_is_regex),
                    old(self).chips,
                    throttled@,
                    suspended@,
                ),
                ints(out@),
                old(self).sort_col,
                old(self).sort_asc,
                throttled@,
                suspended@,
            ),
            forall|i: int| 0 <= i < out.len() ==> (#[trigger] out[i]) < snapshot.len(),
            *final(self) == (ProcessTab { filter_cache: final(self).filter_cache, ..*old(self) }),
    {
        let _ = self.refresh_filter();
        let none: Option<regex::Regex> = None;
        let compiled = match &self.filter_cache {
            Some(c) => c.compiled(),
            None => &none,
        };
        let hits = mark_hits(snapshot, self.filter.as_str(), self.filter_is_regex, compiled);
        let kept = retain_rows(snapshot, &hits, self.chips, throttled, suspended);
        sort_rows(snapshot, &kept, self.sort_col, self.sort_asc, throttled, suspended)
    }

    /// The rows as they stand below each other: the places in `order`, and how
    /// far they are indented.
    pub fn layout(&self, snapshot: &[ProcInfo], order: &Vec<usize>) -> (out: Vec<RowItem>)
        requires
            forall|i: int| 0 <= i < order.len() ==> (#[trigger] order[i]) < snapshot.len(),
        ensures
            items(out@) == if self.tree_view {
                tree(nodes_at(snapshot@, ints(order@)))
            } else {
                flat(order@.len())
            },
    {
        if self.tree_view {
            let mut nodes: Vec<TreeNode> = Vec::new();
            let mut i: usize = 0;
            while i < order.len()
                invariant
                    i <= order.len(),
                    forall|k: int| 0 <= k < order.len() ==> (#[trigger] order[k]) < snapshot.len(),
                    nodes.len() == i,
                    forall|k: int|
                        0 <= k < i ==> (#[trigger] nodes@[k])@ == nodes_at(
                            snapshot@,
                            ints(order@),
                        )[k],
                decreases order.len() - i,
            {
                let p = &snapshot[order[i]];
                let name = chars_of(p.name.as_str());
                nodes.push(TreeNode { pid: p.pid, ppid: p.ppid, name });
                i += 1;
            }
            assert(shape(nodes@) =~= nodes_at(snapshot@, ints(order@)));
            tree_rows(&nodes)
        } else {
            let mut out: Vec<RowItem> = Vec::new();
            let mut i: usize = 0;
            while i < order.len()
                invariant
                    i <= order.len(),
                    out.len() == i,
                    forall|k: int|
                        0 <= k < i ==> #[trigger] out@[k] == (RowItem { place: k as usize, depth: 0 }),
                decreases order.len() - i,
            {
                out.push(RowItem { place: i, depth: 0 });
                i += 1;
            }
            assert(items(out@) =~= flat(order@.len()));
            out
        }
    }

    /// A click on a heading: the sorted column changes its direction, another is
    /// sorted by from now on, names and affinities ascending, the rest descending.
    /// In the tree nothing is sorted.
    pub fn click_header(&mut self, col: SortCol)
        ensures
            *final(self) == if old(self).tree_view {
                *old(self)
            } else if col == old(self).sort_col {
                ProcessTab { sort_asc: !old(self).sort_asc, ..*old(self) }
            } else {
                ProcessTab {
                    sort_col: col,
                    sort_asc: col is Name || col is Affinity,
                    ..*old(self)
                }
            },
    {
        if self.tree_view {
            return;
        }
        if col == self.sort_col {
            self.sort_asc = !self.sort_asc;
        } else {
            self.sort_col = col;
            self.sort_asc = matches!(col, SortCol::Name | SortCol::Affinity);
        }
    }

    /// The text of a heading: the sorted column carries an arrow.
    pub fn header_text(&self, col: SortCol) -> (r: String)
        ensures
            r@ == if col == self.sort_col && !self.tree_view {
                label_text(col) + " "@ + (if self.sort_asc {
                    "▲"@
                } else {
                    "▼"@
                })
            } else {
                label_text(col)
            },
    {
        let mut r = col.label().to_owned();
        if col == self.sort_col && !self.tree_view {
            r.append(" ");
            if self.sort_asc {
                r.append("▲");
            } else {
                r.append("▼");
            }
        }
        r
    }

    /// Shows or hides a column. The name cannot be hidden. Where the sorted column
    /// is hidden, the table falls back to the load, descending.
    pub fn set_column_shown(&mut self, col: SortCol, shown: bool)
        ensures
            col is Name ==> *final(self) == *old(self),
            !(col is Name) ==> {
                &&& texts(final(self).hidden_cols@) == if shown {
                    without_text(texts(old(self).hidden_cols@), label_text(col))
                } else if lists(old(self).hidden_cols@, label_text(col)) {
                    texts(old(self).hidden_cols@)
                } else {
                    texts(old(self).hidden_cols@).push(label_text(col))
                }
                &&& final(self).hidden_dirty
                &&& (final(self).sort_col, final(self).sort_asc) == if !shown && col == old(self).sort_col {
                    (SortCol::Cpu, false)
                } else {
                    (old(self).sort_col, old(self).sort_asc)
                }
                &&& *final(self) == (ProcessTab {
                    hidden_cols: final(self).hidden_cols,
                    hidden_dirty: true,
                    sort_col: final(self).sort_col,
                    sort_asc: final(self).sort_asc,
                    ..*old(self)
                })
            },
    {
        if col == SortCol::Name {
            return;
        }
        if shown {
            self.hidden_cols = remove_text(&self.hidden_cols, col.label());
        } else {
            if !holds_text(&self.hidden_cols, col.label()) {
                let ghost before = texts(self.hidden_cols@);
                self.hidden_cols.push(col.label().to_owned());
                assert(texts(self.hidden_cols@) =~= before.push(label_text(col)));
            }
            if col == self.sort_col {
                self.sort_col = SortCol::Cpu;
                self.sort_asc = false;
            }
        }
        self.hidden_dirty = true;
    }

    /// Whether a column is shown.
    pub fn is_column_shown(&self, col: SortCol) -> (r: bool)
        ensures
            r == col_shown(self.hidden_cols@, col),
    {
        col == SortCol::Name || !holds_text(&self.hidden_cols, col.label())
    }

    /// The places of the columns that are shown, in table order.
    pub fn visible_columns(&self) -> (r: Vec<usize>)
        ensures
            ints(r@) == visible_cols(self.hidden_cols@, 9),
            are_columns(r@),
    {
        let cols = SortCol::all();
        let mut r: Vec<usize> = Vec::new();
        let mut i: usize = 0;
        assert(ints(r@) =~= Seq::<int>::empty());
        while i < cols.len()
            invariant
                i <= cols.len(),
                cols@ == columns(),
                ints(r@) == visible_cols(self.hidden_cols@, i as nat),
                r.len() <= i,
                forall|k: int| 0 <= k < r.len() ==> #[trigger] r@[k] < 9,
            decreases cols.len() - i,
        {
            let ghost before = ints(r@);
            if self.is_column_shown(cols[i]) {
                r.push(i);
                assert(ints(r@) =~= before.push(i as int));
            }
            i += 1;
        }
        r
    }

    /// The delete key: asks to kill the selected process where it is among the
    /// rows shown. While a text field has the focus the key belongs to that.
    pub fn delete_pressed(
        &self,
        text_has_focus: bool,
        snapshot: &[ProcInfo],
        order: &Vec<usize>,
    ) -> (action: TableAction)
        requires
            forall|i: int| 0 <= i < order.len() ==> (#[trigger] order[i]) < snapshot.len(),
        ensures
            match action {
                TableAction::Kill { pid, name, force } => {
                    &&& !text_has_focus
                    &&& self.selected_pid == Some(pid)
                    &&& !force
                    &&& exists|i: int|
                        0 <= i < order.len() && snapshot@[(#[trigger] order[i]) as int].pid == pid
                            && snapshot@[order[i] as int].name@ == name@ && forall|j: int|
                            0 <= j < i ==> snapshot@[(#[trigger] order[j]) as int].pid != pid
                },
                TableAction::Nothing => text_has_focus || self.selected_pid is None || forall|i: int|
                    0 <= i < order.len() ==> Some(snapshot@[(#[trigger] order[i]) as int].pid)
                        != self.selected_pid,
                _ => false,
            },
    {
        if text_has_focus {
            return TableAction::Nothing;
        }
        match self.selected_pid {
            None => TableAction::Nothing,
            Some(pid) => {
                let mut i: usize = 0;
                while i < order.len()
                    invariant
                        i <= order.len(),
                        !text_has_focus,
                        self.selected_pid == Some(pid),
                        forall|k: int| 0 <= k < order.len() ==> (#[trigger] order[k]) < snapshot.len(),
                        forall|k: int|
                            0 <= k < i ==> snapshot@[(#[trigger] order[k]) as int].pid != pid,
                    decreases order.len() - i,
                {
                    let p = &snapshot[order[i]];
                    if p.pid == pid {
                        return TableAction::Kill { pid, name: p.name.clone(), force: false };
                    }
                    i += 1;
                }
                TableAction::Nothing
            },
        }
    }

    /// The CPUs that the affinity column leaves out: those parked, while gaming
    /// mode is on and the user wants them hidden.
    pub fn hidden_cpus(&self, gaming_active: bool) -> (r: IdSet)
        ensures
            r@ == if gaming_active && self.hide_parked_in_proc_view {
                self.cached_offline@
            } else {
                Set::<u32>::empty()
            },
    {
        if gaming_active && self.hide_parked_in_proc_view {
            self.cached_offline.copy()
        } else {
            IdSet::new()
        }
    }
}

/// The name column is always among those shown.
pub proof fn law_name_is_always_shown(hidden: Seq<String>)
    ensures
        visible_cols(hidden, 9).contains(1),
{
    reveal_with_fuel(visible_cols, 3);
    assert(columns()[1] is Name);
    let two = visible_cols(hidden, 2);
    assert(two[two.len() - 1] == 1);
    lemma_visible_grows(hidden, 2, 9);
}

/// Later columns do not displace earlier ones.
proof fn lemma_visible_grows(hidden: Seq<String>, m: nat, n: nat)
    requires
        m <= n,
    ensures
        forall|x: int| visible_cols(hidden, m).contains(x) ==> visible_cols(hidden, n).contains(x),
    decreases n,
{
    if m < n {
        lemma_visible_grows(hidden, m, (n - 1) as nat);
        let before = visible_cols(hidden, (n - 1) as nat);
        let after = visible_cols(hidden, n);
        assert forall|x: int| before.contains(x) implies after.contains(x) by {
            let k = choose|k: int| 0 <= k < before.len() && before[k] == x;
            assert(after[k] == x);
        }
    }
}

/// Showing a column that was hidden brings it back.
pub proof fn law_shown_column_is_listed_no_more(hidden: Seq<Seq<char>>, label: Seq<char>)
    ensures
        !without_text(hidden, label).contains(label),
    decreases hidden.len(),
{
    if hidden.len() > 0 {
        law_shown_column_is_listed_no_more(hidden.drop_last(), label);
        let before = without_text(hidden.drop_last(), label);
        let after = without_text(hidden, label);
        if after.contains(label) {
            let k = choose|k: int| 0 <= k < after.len() && after[k] == label;
            if k < before.len() {
                assert(before[k] == label);
            }
        }
    }
}

/// The rows that are shown.
proof fn lemma_shown_rows(
    rows: Seq<ProcInfo>,
    hits: Seq<bool>,
    chips: Chips,
    throttled: Set<u32>,
    suspended: Set<u32>,
    x: int,
)
    requires
        hits.len() == rows.len(),
    ensures
        shown_rows(rows, hits, chips, throttled, suspended).contains(x) <==> 0 <= x < rows.len()
            && hits[x] && chips_pass(rows[x], chips, throttled, suspended),
    decreases rows.len(),
{
    if rows.len() > 0 {
        let (r, h) = (rows.drop_last(), hits.drop_last());
        lemma_shown_rows(r, h, chips, throttled, suspended, x);
        let before = shown_rows(r, h, chips, throttled, suspended);
        let all = shown_rows(rows, hits, chips, throttled, suspended);
        if hits.last() && chips_pass(rows.last(), chips, throttled, suspended) {
            assert(all[before.len() as int] == rows.len() - 1);
            if before.contains(x) {
                let k = choose|k: int| 0 <= k < before.len() && before[k] == x;
                assert(all[k] == x);
            }
            if all.contains(x) && x != rows.len() - 1 {
                let k = choose|k: int| 0 <= k < all.len() && all[k] == x;
                assert(before[k] == x);
            }
        }
    }
}

/// A text that is typed into the filter is looked for anywhere in the names, the process
/// numbers and the command lines, without regard to case; each chip leaves only the
/// processes that it is named after, at least a quarter of a CPU for the first.
pub proof fn law_filter_finds_text_anywhere(
    tab: &mut ProcessTab,
    rows: &[ProcInfo],
    throttled: &IdSet,
    suspended: &IdSet,
    r: Vec<usize>,
    x: usize,
)
    requires
        call_ensures(ProcessTab::rows, (tab, rows, throttled, suspended), r),
        !old(tab).filter_is_regex,
        x < rows@.len(),
        is_single(rows@[x as int].cpu_percent@),
    ensures
        r@.contains(x) <==> {
            let p = rows@[x as int];
            let f = lowercase(old(tab).filter@);
            let chips = old(tab).chips;
            &&& old(tab).filter@.len() == 0 || (exists|a: Seq<char>, b: Seq<char>|
                lowercase(p.name@) == #[trigger] (a + f + b)) || (exists|a: Seq<char>, b: Seq<char>|
                dec(p.pid as nat) == #[trigger] (a + f + b)) || (exists|a: Seq<char>, b: Seq<char>|
                lowercase(p.cmdline@) == #[trigger] (a + f + b))
            &&& chips.high_cpu ==> !falls_short(p.cpu_percent@, 25, 1)
            &&& chips.throttled ==> throttled@.contains(p.pid)
            &&& chips.suspended ==> suspended@.contains(p.pid)
        },
{
    let p = rows@[x as int];
    let f = lowercase(old(tab).filter@);
    let hits = filter_hits(rows@, old(tab).filter@, false);
    lemma_shown_rows(rows@, hits, old(tab).chips, throttled@, suspended@, x as int);
    law_substring_stands_between(lowercase(p.name@), f);
    law_substring_stands_between(dec(p.pid as nat), f);
    law_substring_stands_between(lowercase(p.cmdline@), f);
    law_limits_compare_by_value(p.cpu_percent@, 25, 1);
    law_whole_numbers_are_exact(25);
    lemma_ints(r@, x);
}

/// What the machine's numbers of places hold.
proof fn lemma_ints(s: Seq<usize>, x: usize)
    ensures
        s.contains(x) <==> ints(s).contains(x as int),
{
    if s.contains(x) {
        let k = choose|k: int| 0 <= k < s.len() && s[k] == x;
        assert(ints(s)[k] == x);
    }
    if ints(s).contains(x as int) {
        let k = choose|k: int| 0 <= k < ints(s).len() && ints(s)[k] == x as int;
        assert(s[k] == x);
    }
}

/// A filter that is a valid expression is looked for in names and command lines; one that
/// is not valid hides nothing.
pub proof fn law_expression_is_looked_for_in_name_and_command(
    tab: &mut ProcessTab,
    rows: &[ProcInfo],
    throttled: &IdSet,
    suspended: &IdSet,
    r: Vec<usize>,
    x: usize,
)
    requires
        call_ensures(ProcessTab::rows, (tab, rows, throttled, suspended), r),
        old(tab).filter_is_regex,
        old(tab).filter@.len() > 0,
        old(tab).chips == (Chips { high_cpu: false, throttled: false, suspended: false }),
        x < rows@.len(),
    ensures
        r@.contains(x) <==> match built_regex(old(tab).filter@, true) {
            Some(re) => regex_finds(re, rows@[x as int].name@) || regex_finds(
                re,
                rows@[x as int].cmdline@,
            ),
            None => true,
        },
{
    let hits = filter_hits(rows@, old(tab).filter@, true);
    lemma_shown_rows(rows@, hits, old(tab).chips, throttled@, suspended@, x as int);
    lemma_ints(r@, x);
}

/// Rows stand in the order of the chosen column, upwards or downwards; suspended
/// processes count above throttled ones, and these above the others.
pub proof fn law_rows_stand_in_the_order_of_the_column(
    tab: &mut ProcessTab,
    rows: &[ProcInfo],
    throttled: &IdSet,
    suspended: &IdSet,
    r: Vec<usize>,
    i: int,
    j: int,
)
    requires
        call_ensures(ProcessTab::rows, (tab, rows, throttled, suspended), r),
        0 <= i < j < r@.len(),
    ensures
        r@[i] < rows@.len() && r@[j] < rows@.len(),
        ({
            let (p, q) = if old(tab).sort_asc {
                (rows@[r@[i] as int], rows@[r@[j] as int])
            } else {
                (rows@[r@[j] as int], rows@[r@[i] as int])
            };
            match old(tab).sort_col {
                SortCol::Pid => p.pid <= q.pid,
                SortCol::Name => text_le(p.name@, q.name@),
                SortCol::Cpu => !less(q.cpu_percent@, p.cpu_percent@),
                SortCol::Gpu => !less(q.gpu_percent@, p.gpu_percent@),
                SortCol::Mem => p.mem_rss <= q.mem_rss,
                SortCol::Nice => p.nice <= q.nice,
                SortCol::Affinity => text_le(p.affinity@, q.affinity@),
                SortCol::Ionice => text_le(p.ionice@, q.ionice@),
                SortCol::Status => {
                    &&& suspended@.contains(p.pid) ==> suspended@.contains(q.pid)
                    &&& throttled@.contains(p.pid) ==> suspended@.contains(q.pid)
                        || throttled@.contains(q.pid)
                },
            }
        }),
{
    assert(ints(r@)[i] == r@[i] as int && ints(r@)[j] == r@[j] as int);
    assert(row_before(
        rows@,
        ints(r@)[i],
        ints(r@)[j],
        old(tab).sort_col,
        old(tab).sort_asc,
        throttled@,
        suspended@,
    ));
}

/// A click on the column by which the table is sorted turns the order round; a click on
/// another one sorts by it, numbers downwards and texts upwards. A second click undoes
/// a turn.
pub proof fn law_second_click_turns_the_order_round(
    tab: &mut ProcessTab,
    next: &mut ProcessTab,
    col: SortCol,
)
    requires
        call_ensures(ProcessTab::click_header, (tab, col), ()),
        *old(next) == *final(tab),
        call_ensures(ProcessTab::click_header, (next, col), ()),
        !old(tab).tree_view,
    ensures
        final(tab).sort_col == col,
        final(next).sort_col == col,
        final(next).sort_asc == !final(tab).sort_asc,
        old(tab).sort_col == col ==> final(next).sort_asc == old(tab).sort_asc,
        old(tab).sort_col != col && (col == SortCol::Cpu || col == SortCol::Mem || col
            == SortCol::Gpu || col == SortCol::Pid || col == SortCol::Nice) ==> !final(tab).sort_asc,
        old(tab).sort_col != col && col == SortCol::Name ==> final(tab).sort_asc,
{
}

/// A column that was switched off is not shown, one that was switched on is; the name
/// stays. The others are not affected.
pub proof fn law_columns_are_shown_as_chosen(
    tab: &mut ProcessTab,
    col: SortCol,
    shown: bool,
    after: &ProcessTab,
    r: bool,
    name: bool,
)
    requires
        call_ensures(ProcessTab::set_column_shown, (tab, col, shown), ()),
        *after == *final(tab),
        call_ensures(ProcessTab::is_column_shown, (after, col), r),
        call_ensures(ProcessTab::is_column_shown, (after, SortCol::Name), name),
    ensures
        !(col is Name) ==> r == shown,
        name,
{
    if !(col is Name) {
        let (b, a) = (texts(old(tab).hidden_cols@), texts(final(tab).hidden_cols@));
        let l = label_text(col);
        if shown {
            law_shown_column_is_listed_no_more(b, l);
        } else if !lists(old(tab).hidden_cols@, l) {
            assert(a[b.len() as int] == l);
        }
    }
}

/// An I/O priority is shown by its class, with the level where the class has levels.
pub proof fn law_io_priority_shows_class_and_level(s: &str, r: String, class: u32, level: u32)
    requires
        call_ensures(fmt_ionice, (s,), r),
        s@ == dec(class as nat) + seq!['/'] + dec(level as nat),
    ensures
        class == 0 ==> r@ == "—"@,
        class == 1 ==> r@ == "RT-"@ + dec(level as nat),
        class == 2 ==> r@ == "BE-"@ + dec(level as nat),
        class == 3 ==> r@ == "Idle"@,
        class > 3 ==> r@ == s@,
{
    let (a, b) = (dec(class as nat), dec(level as nat));
    crate::number::lemma_dec_digits(class as nat);
    assert(!a.contains('/')) by {
        if a.contains('/') {
            let i = choose|i: int| 0 <= i < a.len() && a[i] == '/';
            assert(crate::number::is_digit(a[i]));
        }
    }
    crate::text::law_cut_at_the_first(a, b, '/');
    crate::number::law_decimal_round_trip(class as nat, u32::MAX as nat);
    crate::number::law_decimal_round_trip(level as nat, u32::MAX as nat);
}

/// While parked CPUs are hidden, the CPUs that a process may use are shown without them.
pub proof fn law_parked_cpus_are_left_out(
    text: &str,
    offline: &IdSet,
    pairs: &IdMap<Vec<u32>>,
    hide: bool,
    r: String,
    shown: &str,
    given: Result<IdSet, crate::cpulist::BadCpuList>,
    left: Result<IdSet, crate::cpulist::BadCpuList>,
    c: u32,
)
    requires
        call_ensures(format_affinity_display, (text, offline, pairs, hide), r),
        call_ensures(crate::cpulist::cpulist_to_set, (text,), given),
        shown@ == r@,
        call_ensures(crate::cpulist::cpulist_to_set, (shown,), left),
        pairs@ == Map::<u32, Vec<u32>>::empty(),
    ensures
        !hide ==> r@ == text@,
        hide && given is Ok && given->Ok_0@.contains(c) && !offline@.contains(c) ==> left is Ok
            && left->Ok_0@.contains(c),
        hide && given is Ok && (exists|d: u32|
            given->Ok_0@.contains(d) && !(#[trigger] offline@.contains(d))) && left is Ok
            && left->Ok_0@.contains(c) ==> given->Ok_0@.contains(c) && !offline@.contains(c),
        hide && given is Err ==> r@ == text@,
{
    if hide && given is Ok && offline@ != Set::<u32>::empty() {
        let cpus = given->Ok_0@;
        let vis = cpus.difference(offline@);
        crate::idset::law_ascending_holds_the_members(vis);
        crate::cpulist::law_cpulist_round_trip(ascending(vis));
        assert(ascending(vis).to_set() =~= vis);
        if exists|d: u32| cpus.contains(d) && !(#[trigger] offline@.contains(d)) {
            let d = choose|d: u32| cpus.contains(d) && !(#[trigger] offline@.contains(d));
            assert(vis.contains(d));
            assert(left is Ok && left->Ok_0@ == vis);
        }
        if cpus.contains(c) && !offline@.contains(c) {
            assert(vis.contains(c));
        }
    }
}

/// A cell shows the value of its column: the load and the memory to the nearest tenth, the
/// memory in MiB.
pub proof fn law_cells_show_their_column(p: &ProcInfo, c: SortCol, r: String, k: u128, load: Binary)
    requires
        call_ensures(fmt_cell, (p, c), r),
        load@ == p.cpu_percent@,
        call_ensures(Binary::parts, (load, 10), k),
        !load.neg,
        k < u128::MAX,
    ensures
        c == SortCol::Pid ==> r@ == dec(p.pid as nat),
        c == SortCol::Name ==> r@ == p.name@,
        c == SortCol::Affinity ==> r@ == p.affinity@,
        c == SortCol::Nice && p.nice >= 0 ==> r@ == dec(p.nice as nat),
        c == SortCol::Nice && p.nice < 0 ==> r@ == seq!['-'] + dec((-p.nice) as nat),
        c == SortCol::Cpu ==> r@ == dec((k / 10) as nat) + seq!['.'] + dec((k % 10) as nat),
        c == SortCol::Cpu ==> !exceeds(p.cpu_percent@, 2 * k + 1, 20) && !falls_short(
            p.cpu_percent@,
            2 * k - 1,
            20,
        ),
        c == SortCol::Status ==> r@.len() == 0,
{
    crate::binary::law_parts_are_the_nearest(load, 10, k);
}

/// Rates are shown in the greatest unit of which there is one: bytes below a KiB, KiB
/// below a MiB, MiB from there on, and a dash where there is nothing.
pub proof fn law_rates_are_shown_in_their_unit(bytes: u64, r: String)
    requires
        call_ensures(fmt_bps, (bytes,), r),
    ensures
        bytes == 0 ==> r@ == "—"@,
        0 < bytes < 1024 ==> r@ == dec(bytes as nat) + " B/s"@,
        1024 <= bytes < 1024 * 1024 ==> exists|t: Seq<char>| r@ == #[trigger] (t + " KB/s"@),
        bytes >= 1024 * 1024 ==> exists|t: Seq<char>| r@ == #[trigger] (t + " MB/s"@),
{
    if 1024 <= bytes < 1_048_576 {
        let t = dec(parts(double(bytes as int, 1024), 1));
        assert(r@ == t + " KB/s"@);
    }
    if bytes >= 1_048_576 {
        let t = tenths(parts(double(bytes as int, 1_048_576), 10));
        assert(r@ == t + " MB/s"@);
    }
}

/// The delete key kills no process but the selected one, gently, and none while a text is
/// being typed; it does nothing else.
pub proof fn law_delete_kills_the_selected_process(
    tab: &ProcessTab,
    typing: bool,
    rows: &[ProcInfo],
    order: &Vec<usize>,
    a: TableAction,
)
    requires
        call_ensures(ProcessTab::delete_pressed, (tab, typing, rows, order), a),
        forall|k: int| 0 <= k < order@.len() ==> (#[trigger] order@[k]) < rows@.len(),
    ensures
        typing || tab.selected_pid is None ==> a is Nothing,
        !(a is Nothing) ==> (a matches TableAction::Kill { pid, force, .. } && Some(pid)
            == tab.selected_pid && !force),
{
}

} // verus!
