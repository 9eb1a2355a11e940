//! The columns of the process table, and what its rows offer.

use vstd::prelude::*;
use vstd::string::*;

use crate::gui::process_tab::{bps_text, fmt_bps, initial_widths, starting_widths, TableAction};
use crate::monitor::ProcInfo;
use crate::number::{dec, push_dec};

verus! {

// ── Widths ───────────────────────────────────────────────────────────────────

/// The place of the column with the names, which fills what the others leave.
pub const NAME_COL: usize = 1;

/// The columns of the table. Widths are in thousandths of a point.
#[derive(Debug)]
pub struct Columns {
    pub widths: Vec<u32>,
    /// The table was laid out before.
    pub initialized: bool,
    pub last_avail: u32,
    /// A column was resized in the last frame.
    pub dirty: bool,
}

/// The width of the visible columns, without that of the names.
pub open spec fn fixed_width(widths: Seq<u32>, visible: Seq<usize>) -> int
    decreases visible.len(),
{
    if visible.len() == 0 {
        0
    } else {
        let i = visible.last();
        fixed_width(widths, visible.drop_last()) + if i == NAME_COL {
            0
        } else {
            widths[i as int] as int
        }
    }
}

/// The width that is left for the names: 150 points at least.
pub open spec fn name_width(avail: u32, fixed: int) -> u32 {
    if avail - fixed < 150_000 {
        150_000
    } else {
        (avail - fixed) as u32
    }
}

/// A width that follows the window, from 20 to 300 points.
pub open spec fn following(w: u32, avail: u32, last: u32) -> u32 {
    let base = if last < 1000 {
        1000
    } else {
        last as int
    };
    let x = w * avail / base;
    if x < 20_000 {
        20_000
    } else if x > 300_000 {
        300_000
    } else {
        x as u32
    }
}

/// The widths after the window has changed its own, but for that of the names: they
/// follow a change of more than four points.
pub open spec fn followed(widths: Seq<u32>, avail: u32, last: u32) -> Seq<u32> {
    if avail - last > 4000 || last - avail > 4000 {
        Seq::new(
            widths.len(),
            |i: int|
                if i == NAME_COL {
                    widths[i]
                } else {
                    following(widths[i], avail, last)
                },
        )
    } else {
        widths
    }
}

/// The widths as they are laid out.
pub open spec fn laid_out(c: Columns, avail: u32, visible: Seq<usize>) -> Seq<u32> {
    let w = if c.initialized {
        followed(c.widths@, avail, c.last_avail)
    } else {
        c.widths@
    };
    w.update(NAME_COL as int, name_width(avail, fixed_width(w, visible)))
}

/// A visible column is one of the table.
pub open spec fn are_columns(visible: Seq<usize>) -> bool {
    visible.len() <= 9 && forall|i: int| 0 <= i < visible.len() ==> #[trigger] visible[i] < 9
}

/// Sums up the width of the visible columns, without that of the names.
fn sum_fixed(widths: &Vec<u32>, visible: &Vec<usize>) -> (r: u64)
    requires
        widths@.len() == 9,
        are_columns(visible@),
    ensures
        r as int == fixed_width(widths@, visible@),
        r <= 9 * 0x1_0000_0000,
{
    let mut sum: u64 = 0;
    let mut i: usize = 0;
    assert(visible@.take(0) =~= Seq::<usize>::empty());
    while i < visible.len()
        invariant
            i <= visible.len() <= 9,
            widths@.len() == 9,
            are_columns(visible@),
            sum <= i * 0x1_0000_0000,
            sum as int == fixed_width(widths@, visible@.take(i as int)),
        decreases visible.len() - i,
    {
        assert(visible@.take(i + 1).drop_last() =~= visible@.take(i as int));
        assert(visible@.take(i + 1).last() == visible@[i as int]);
        let c: usize = visible[i];
        if c != NAME_COL {
            sum = sum + widths[c] as u64;
        }
        i += 1;
    }
    assert(visible@.take(i as int) =~= visible@);
    sum
}

/// Scales a width with the window.
fn follow(w: u32, avail: u32, last: u32) -> (r: u32)
    ensures
        r == following(w, avail, last),
{
    let base: u64 = if last < 1000 {
        1000
    } else {
        last as u64
    };
    proof {
        assert(w * avail <= u32::MAX * u32::MAX) by (nonlinear_arith)
            requires
                w <= u32::MAX,
                avail <= u32::MAX,
        ;
    }
    let x: u64 = w as u64 * avail as u64 / base;
    if x < 20_000 {
        20_000
    } else if x > 300_000 {
        300_000
    } else {
        x as u32
    }
}

/// What a drag of the edge behind a visible column changes: the column itself, or,
/// behind the names, the column to the right the other way round.
pub open spec fn drag_target(visible: Seq<usize>, at: int, delta: i32) -> (usize, int) {
    if visible[at] == NAME_COL {
        (visible[at + 1], -delta)
    } else {
        (visible[at], delta as int)
    }
}

/// A width after a drag: 30 points at least.
pub open spec fn resized(w: u32, delta: int) -> u32 {
    if w + delta < 30_000 {
        30_000
    } else if w + delta > u32::MAX {
        u32::MAX
    } else {
        (w + delta) as u32
    }
}

impl Columns {
    /// One width for each column.
    pub open spec fn well_formed(&self) -> bool {
        self.widths@.len() == 9
    }

    /// The columns with the widths on record.
    pub fn new(on_record: &[u32]) -> (r: Columns)
        ensures
            r.well_formed(),
            r.widths@ == initial_widths(on_record@),
            !r.initialized,
            r.last_avail == 0,
            !r.dirty,
    {
        Columns {
            widths: starting_widths(on_record),
            initialized: false,
            last_avail: 0,
            dirty: false,
        }
    }

    /// Lays the columns out in the width that there is.
    pub fn fit(&mut self, avail: u32, visible: &Vec<usize>)
        requires
            old(self).well_formed(),
            are_columns(visible@),
        ensures
            final(self).well_formed(),
            final(self).widths@ == laid_out(*old(self), avail, visible@),
            *final(self) == (Columns {
                widths: final(self).widths,
                initialized: true,
                last_avail: avail,
                ..*old(self)
            }),
    {
        let last: u32 = self.last_avail;
        let differs = if avail > last {
            avail - last > 4000
        } else {
            last - avail > 4000
        };
        if self.initialized && differs {
            let ghost before = self.widths@;
            let mut i: usize = 0;
            while i < 9
                invariant
                    i <= 9,
                    self.widths@.len() == 9,
                    before.len() == 9,
                    *self == (Columns { widths: self.widths, ..*old(self) }),
                    forall|k: int| i <= k < 9 ==> self.widths@[k] == before[k],
                    forall|k: int|
                        0 <= k < i ==> self.widths@[k] == if k == NAME_COL {
                            before[k]
                        } else {
                            following(before[k], avail, last)
                        },
                decreases 9 - i,
            {
                if i != NAME_COL {
                    let w: u32 = follow(self.widths[i], avail, last);
                    self.widths.set(i, w);
                }
                i += 1;
            }
            assert(self.widths@ =~= followed(before, avail, last));
        }
        let fixed: u64 = sum_fixed(&self.widths, visible);
        let name: u32 = if (avail as u64) < fixed + 150_000 {
            150_000
        } else {
            (avail as u64 - fixed) as u32
        };
        self.widths.set(NAME_COL, name);
        self.initialized = true;
        self.last_avail = avail;
    }

    /// Takes in that the edge behind the visible column at a place was dragged; the
    /// edge behind the last column cannot be. Without a drag nothing has changed.
    pub fn take_drag(&mut self, visible: &Vec<usize>, drag: Option<(usize, i32)>)
        requires
            old(self).well_formed(),
            are_columns(visible@),
            match drag {
                Some((at, _)) => at + 1 < visible@.len(),
                None => true,
            },
        ensures
            final(self).well_formed(),
            ({
                let moved = match drag {
                    Some((at, delta)) => {
                        let (col, d) = drag_target(visible@, at as int, delta);
                        if d != 0 && col != NAME_COL {
                            Some((col, d))
                        } else {
                            None
                        }
                    },
                    None => None,
                };
                &&& final(self).dirty == (moved is Some)
                &&& final(self).widths@ == match moved {
                    Some((col, d)) => old(self).widths@.update(
                        col as int,
                        resized(old(self).widths@[col as int], d),
                    ),
                    None => old(self).widths@,
                }
                &&& *final(self) == (Columns {
                    widths: final(self).widths,
                    dirty: final(self).dirty,
                    ..*old(self)
                })
            }),
    {
        self.dirty = false;
        if let Some((at, delta)) = drag {
            let behind_names = visible[at] == NAME_COL;
            let col: usize = if behind_names {
                visible[at + 1]
            } else {
                visible[at]
            };
            let d: i64 = if behind_names {
                -(delta as i64)
            } else {
                delta as i64
            };
            if d != 0 && col != NAME_COL {
                let w: i64 = self.widths[col] as i64 + d;
                let r: u32 = if w < 30_000 {
                    30_000
                } else if w > u32::MAX as i64 {
                    u32::MAX
                } else {
                    w as u32
                };
                self.widths.set(col, r);
                self.dirty = true;
            }
        }
    }
}

/// The visible columns fill the window exactly where there is room for the names.
pub proof fn law_columns_fill_the_window(widths: Seq<u32>, visible: Seq<usize>, avail: u32)
    requires
        widths.len() == 9,
        are_columns(visible),
        avail >= fixed_width(widths, visible) + 150_000,
    ensures
        name_width(avail, fixed_width(widths, visible)) + fixed_width(widths, visible) == avail,
{
    lemma_fixed_width_is_positive(widths, visible);
}

/// Widths add up to no less than nothing.
proof fn lemma_fixed_width_is_positive(widths: Seq<u32>, visible: Seq<usize>)
    ensures
        fixed_width(widths, visible) >= 0,
    decreases visible.len(),
{
    if visible.len() > 0 {
        lemma_fixed_width_is_positive(widths, visible.drop_last());
    }
}

// ── Rows ─────────────────────────────────────────────────────────────────────

/// The badge of a row.
#[derive(Debug, Clone, Copy, PartialEq, Eq, Structural)]
pub enum Badge {
    Suspended,
    Throttled,
}

/// The badge of a row: a process that is stopped is shown as that first.
pub fn row_badge(suspended: bool, throttled: bool) -> (r: Option<Badge>)
    ensures
        r == if suspended {
            Some(Badge::Suspended)
        } else if throttled {
            Some(Badge::Throttled)
        } else {
            None
        },
{
    if suspended {
        Some(Badge::Suspended)
    } else if throttled {
        Some(Badge::Throttled)
    } else {
        None
    }
}

/// What can be chosen from the menu of a row.
#[derive(Debug, Clone, Copy, PartialEq, Eq, Structural)]
pub enum MenuEntry {
    Kill,
    ForceKill,
    /// Stop the process, or let it go on where it is stopped.
    Pause,
    Affinity,
    Nice,
    Ionice,
    Rule,
}

/// The text of an entry.
pub open spec fn entry_text(
    e: MenuEntry,
    name: Seq<char>,
    pid: u32,
    suspended: bool,
) -> Seq<char> {
    let process = name + " ("@ + dec(pid as nat) + ")"@;
    match e {
        MenuEntry::Kill => "Kill "@ + process,
        MenuEntry::ForceKill => "Force Kill "@ + process,
        MenuEntry::Pause => if suspended {
            "Resume "@ + process
        } else {
            "Suspend "@ + process
        },
        MenuEntry::Affinity => "Set Affinity for "@ + name,
        MenuEntry::Nice => "Set Priority (nice) for "@ + name,
        MenuEntry::Ionice => "Set I/O Priority for "@ + name,
        MenuEntry::Rule => "Add Rule for '"@ + name + "'"@,
    }
}

/// A process behind a verb.
fn verb_and_process(verb: &str, name: &str, pid: u32) -> (r: String)
    ensures
        r@ == verb@ + (name@ + " ("@ + dec(pid as nat) + ")"@),
{
    let mut s = verb.to_owned();
    s.append(name);
    s.append(" (");
    push_dec(&mut s, pid as u64);
    s.append(")");
    assert(s@ =~= verb@ + (name@ + " ("@ + dec(pid as nat) + ")"@));
    s
}

/// The text of an entry.
pub fn entry_label(e: MenuEntry, name: &str, pid: u32, suspended: bool) -> (r: String)
    ensures
        r@ == entry_text(e, name@, pid, suspended),
{
    match e {
        MenuEntry::Kill => verb_and_process("Kill ", name, pid),
        MenuEntry::ForceKill => verb_and_process("Force Kill ", name, pid),
        MenuEntry::Pause => if suspended {
            verb_and_process("Resume ", name, pid)
        } else {
            verb_and_process("Suspend ", name, pid)
        },
        MenuEntry::Affinity => {
            let mut s = "Set Affinity for ".to_owned();
            s.append(name);
            s
        },
        MenuEntry::Nice => {
            let mut s = "Set Priority (nice) for ".to_owned();
            s.append(name);
            s
        },
        MenuEntry::Ionice => {
            let mut s = "Set I/O Priority for ".to_owned();
            s.append(name);
            s
        },
        MenuEntry::Rule => {
            let mut s = "Add Rule for '".to_owned();
            s.append(name);
            s.append("'");
            s
        },
    }
}

/// An action is the one that an entry stands for.
pub open spec fn is_action_of(a: TableAction, e: MenuEntry, p: ProcInfo, suspended: bool) -> bool {
    match (e, a) {
        (MenuEntry::Kill, TableAction::Kill { pid, name, force }) => pid == p.pid && name@
            == p.name@ && !force,
        (MenuEntry::ForceKill, TableAction::Kill { pid, name, force }) => pid == p.pid && name@
            == p.name@ && force,
        (MenuEntry::Pause, TableAction::Resume { pid, name }) => suspended && pid == p.pid
            && name@ == p.name@,
        (MenuEntry::Pause, TableAction::Suspend { pid, name }) => !suspended && pid == p.pid
            && name@ == p.name@,
        (MenuEntry::Affinity, TableAction::SetAffinity { pid, name, current }) => pid == p.pid
            && name@ == p.name@ && current@ == p.affinity@,
        (MenuEntry::Nice, TableAction::SetNice { pid, name, current }) => pid == p.pid && name@
            == p.name@ && current == p.nice,
        (MenuEntry::Ionice, TableAction::SetIonice { pid, name }) => pid == p.pid && name@
            == p.name@,
        (MenuEntry::Rule, TableAction::AddRule { name }) => name@ == p.name@,
        _ => false,
    }
}

/// The action that an entry stands for.
pub fn entry_action(e: MenuEntry, p: &ProcInfo, suspended: bool) -> (a: TableAction)
    ensures
        is_action_of(a, e, *p, suspended),
{
    let pid: u32 = p.pid;
    let name = p.name.clone();
    match e {
        MenuEntry::Kill => TableAction::Kill { pid, name, force: false },
        MenuEntry::ForceKill => TableAction::Kill { pid, name, force: true },
        MenuEntry::Pause => if suspended {
            TableAction::Resume { pid, name }
        } else {
            TableAction::Suspend { pid, name }
        },
        MenuEntry::Affinity => TableAction::SetAffinity { pid, name, current: p.affinity.clone() },
        MenuEntry::Nice => TableAction::SetNice { pid, name, current: p.nice },
        MenuEntry::Ionice => TableAction::SetIonice { pid, name },
        MenuEntry::Rule => TableAction::AddRule { name },
    }
}

/// The numbers of a process in the hint of its row.
pub fn hint_numbers(p: &ProcInfo) -> (r: String)
    ensures
        r@ == "PID: "@ + dec(p.pid as nat) + "   PPID: "@ + dec(p.ppid as nat),
{
    let mut s = "PID: ".to_owned();
    push_dec(&mut s, p.pid as u64);
    s.append("   PPID: ");
    push_dec(&mut s, p.ppid as u64);
    s
}

/// The disk rates of a process in the hint of its row.
pub fn hint_rates(p: &ProcInfo) -> (r: String)
    ensures
        r@ == "Disk R: "@ + bps_text(p.disk_read_bps) + "   W: "@ + bps_text(p.disk_write_bps),
{
    let mut s = "Disk R: ".to_owned();
    let read = fmt_bps(p.disk_read_bps);
    let write = fmt_bps(p.disk_write_bps);
    s.append(read.as_str());
    s.append("   W: ");
    s.append(write.as_str());
    s
}

/// An entry of the menu does to the process of its row what it says: a kill is forced only
/// by the entry for that, and a process that is stopped is let go on.
pub proof fn law_menu_entries_do_what_they_say(
    e: MenuEntry,
    p: &ProcInfo,
    suspended: bool,
    a: TableAction,
)
    requires
        call_ensures(entry_action, (e, p, suspended), a),
    ensures
        e == MenuEntry::Kill ==> (a matches TableAction::Kill { pid, name, force } && pid == p.pid
            && name@ == p.name@ && !force),
        e == MenuEntry::ForceKill ==> (a matches TableAction::Kill { pid, name, force } && pid
            == p.pid && name@ == p.name@ && force),
        e == MenuEntry::Pause && suspended ==> (a matches TableAction::Resume { pid, .. } && pid
            == p.pid),
        e == MenuEntry::Pause && !suspended ==> (a matches TableAction::Suspend { pid, .. } && pid
            == p.pid),
        e == MenuEntry::Affinity ==> (a matches TableAction::SetAffinity { pid, current, .. } && pid
            == p.pid && current@ == p.affinity@),
        e == MenuEntry::Nice ==> (a matches TableAction::SetNice { pid, current, .. } && pid == p.pid
            && current == p.nice),
        e == MenuEntry::Ionice ==> (a matches TableAction::SetIonice { pid, .. } && pid == p.pid),
        e == MenuEntry::Rule ==> (a matches TableAction::AddRule { name } && name@ == p.name@),
{
}

/// A process that is stopped is shown as that, one that is throttled as that.
pub proof fn law_badge_shows_the_state(suspended: bool, throttled: bool, r: Option<Badge>)
    requires
        call_ensures(row_badge, (suspended, throttled), r),
    ensures
        suspended ==> r == Some(Badge::Suspended),
        !suspended && throttled ==> r == Some(Badge::Throttled),
        r is None <==> !suspended && !throttled,
{
}

/// A column that is dragged changes by as much, but stays at least 30 points wide; the
/// others keep their widths, and nothing is to be stored where nothing moved.
pub proof fn law_dragged_column_changes_by_as_much(
    c: &mut Columns,
    visible: &Vec<usize>,
    at: usize,
    delta: i32,
    i: int,
)
    requires
        call_ensures(Columns::take_drag, (c, visible, Some((at, delta))), ()),
        old(c).widths@.len() == 9,
        visible@.len() <= 9,
        forall|k: int| 0 <= k < visible@.len() ==> #[trigger] visible@[k] < 9,
        at + 1 < visible@.len(),
        visible@[at as int] != 1,
        0 <= i < 9,
        old(c).widths@[visible@[at as int] as int] + delta <= u32::MAX,
    ensures
        delta == 0 ==> final(c).widths@ == old(c).widths@ && !final(c).dirty,
        i != visible@[at as int] ==> final(c).widths@[i] == old(c).widths@[i],
        delta != 0 ==> final(c).dirty,
        delta != 0 && i == visible@[at as int] && old(c).widths@[i] + delta >= 30_000
            ==> final(c).widths@[i] == old(c).widths@[i] + delta,
        delta != 0 && i == visible@[at as int] && old(c).widths@[i] + delta < 30_000
            ==> final(c).widths@[i] == 30_000,
{
    let w = old(c).widths@;
    assert(visible@[at as int] < 9);
    assert(w.update(i, w[i]) =~= w);
}

/// A table that was not laid out before keeps its widths but for the names, which get
/// what is left, and at least 150 points.
pub proof fn law_names_get_the_rest_of_the_window(
    c: &mut Columns,
    avail: u32,
    visible: &Vec<usize>,
    i: int,
    a: usize,
    b: usize,
)
    requires
        call_ensures(Columns::fit, (c, avail, visible), ()),
        old(c).widths@.len() == 9,
        !old(c).initialized,
        visible@ == seq![a, 1usize, b],
        a < 9 && b < 9 && a != 1 && b != 1,
        0 <= i < 9,
    ensures
        i != 1 ==> final(c).widths@[i] == old(c).widths@[i],
        final(c).widths@[1] >= 150_000,
        ({
            let others = old(c).widths@[a as int] + old(c).widths@[b as int];
            avail >= others + 150_000 ==> final(c).widths@[1] + others == avail
        }),
        final(c).initialized,
{
    let w = old(c).widths@;
    let v = visible@;
    assert(v.drop_last() =~= seq![a, 1usize]);
    assert(v.drop_last().drop_last() =~= seq![a]);
    assert(v.drop_last().drop_last().drop_last() =~= Seq::<usize>::empty());
    reveal_with_fuel(fixed_width, 4);
    assert(fixed_width(w, v) == w[a as int] + w[b as int]);
}

} // verus!
