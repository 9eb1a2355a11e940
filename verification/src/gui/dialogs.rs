//! The dialogs for affinity, priority and I/O priority.

use vstd::prelude::*;
use vstd::string::*;

use crate::cpulist::{cpulist, cpulist_to_set, cpuset_to_cpulist, parse_cpulist};
use crate::idset::{ascending, IdSet};
use crate::text::{opt_text, trim, trimmed_text};
use crate::topology::CpuTopology;

verus! {

// ── Checkboxes ───────────────────────────────────────────────────────────────

/// What is known of the CPUs of this machine.
pub struct CpuContext {
    pub cpu_count: u32,
    pub offline: IdSet,
    pub topo: CpuTopology,
    /// The CPUs that share a core with a lower-numbered one.
    pub smt_siblings: IdSet,
}

/// The CPUs that a list selects: all for a blank list, none for a bad one.
pub open spec fn selected_by(list: Seq<char>, blank: bool, count: u32) -> Set<u32> {
    if blank {
        Set::new(|c: u32| c < count)
    } else {
        match parse_cpulist(list) {
            Some(s) => s,
            None => Set::empty(),
        }
    }
}

/// One checkbox for each CPU, set where the CPU is selected.
pub open spec fn boxes_for(selected: Set<u32>, count: u32) -> Seq<bool> {
    Seq::new(count as nat, |i: int| selected.contains(i as u32))
}

/// The CPUs whose checkbox is set.
pub open spec fn checked(boxes: Seq<bool>) -> Set<u32> {
    Set::new(|c: u32| (c as int) < boxes.len() && boxes[c as int])
}

/// Makes one checkbox for each CPU.
fn make_boxes(selected: &IdSet, count: u32) -> (r: Vec<bool>)
    ensures
        r@ == boxes_for(selected@, count),
{
    let mut r: Vec<bool> = Vec::new();
    let mut i: u32 = 0;
    while i < count
        invariant
            i <= count,
            r.len() == i,
            forall|k: int| 0 <= k < i ==> #[trigger] r@[k] == selected@.contains(k as u32),
        decreases count - i,
    {
        r.push(selected.contains(i));
        i += 1;
    }
    assert(r@ =~= boxes_for(selected@, count));
    r
}

/// Selects the CPUs of a list.
fn select_list(list: &str, blank: bool, count: u32) -> (r: IdSet)
    ensures
        r@ == selected_by(list@, blank, count),
{
    if blank {
        let r = IdSet::first(count);
        assert(r@ =~= selected_by(list@, blank, count));
        r
    } else {
        match cpulist_to_set(list) {
            Ok(s) => s,
            Err(_) => IdSet::new(),
        }
    }
}

/// The CPUs whose checkbox is set.
fn checked_set(boxes: &Vec<bool>) -> (r: IdSet)
    ensures
        r@ == checked(boxes@),
{
    let mut r = IdSet::new();
    let n: usize = boxes.len();
    let mut i: usize = 0;
    while i < n && i <= u32::MAX as usize
        invariant
            i <= n,
            n == boxes.len(),
            i <= u32::MAX as int + 1,
            forall|c: u32| #[trigger]
                r@.contains(c) <==> (c as int) < i && (c as int) < boxes@.len() && boxes@[c as int],
        decreases n - i,
    {
        let ghost before = r@;
        if boxes[i] {
            r.insert(i as u32);
        }
        assert forall|c: u32| #[trigger] r@.contains(c) <==> (c as int) < i + 1 && (c as int)
            < boxes@.len() && boxes@[c as int] by {
            assert(before.contains(c) <==> (c as int) < i && (c as int) < boxes@.len()
                && boxes@[c as int]);
        }
        i += 1;
    }
    assert(r@ =~= checked(boxes@));
    r
}

/// How the quick buttons set the checkboxes.
#[derive(Debug, Clone, Copy, PartialEq, Eq, Structural)]
pub enum QuickPick {
    Preferred,
    NonPreferred,
    /// All CPUs that are online; the others stay as they are.
    AllOnline,
    /// The first CPU of each core that is online.
    NoSmt,
    /// None at all.
    Nothing,
    /// None of those that are online; the others stay as they are.
    NoneOnline,
}

/// A checkbox after a quick button.
pub open spec fn picked(
    pick: QuickPick,
    c: u32,
    was: bool,
    preferred: Set<u32>,
    non_preferred: Set<u32>,
    smt: Set<u32>,
    offline: Set<u32>,
) -> bool {
    match pick {
        QuickPick::Preferred => preferred.contains(c),
        QuickPick::NonPreferred => non_preferred.contains(c),
        QuickPick::AllOnline => was || !offline.contains(c),
        QuickPick::NoSmt => !smt.contains(c) && !offline.contains(c),
        QuickPick::Nothing => false,
        QuickPick::NoneOnline => was && offline.contains(c),
    }
}

/// The checkboxes after a quick button.
pub open spec fn boxes_after(
    pick: QuickPick,
    boxes: Seq<bool>,
    preferred: Set<u32>,
    non_preferred: Set<u32>,
    smt: Set<u32>,
    offline: Set<u32>,
) -> Seq<bool> {
    Seq::new(
        boxes.len(),
        |i: int| picked(pick, i as u32, boxes[i], preferred, non_preferred, smt, offline),
    )
}

/// Sets the checkboxes as a quick button does.
fn pick_boxes(
    pick: QuickPick,
    boxes: &mut Vec<bool>,
    preferred: &IdSet,
    non_preferred: &IdSet,
    smt: &IdSet,
    offline: &IdSet,
)
    requires
        old(boxes).len() <= u32::MAX,
    ensures
        final(boxes)@ == boxes_after(
            pick,
            old(boxes)@,
            preferred@,
            non_preferred@,
            smt@,
            offline@,
        ),
{
    let ghost before = boxes@;
    let ghost after = boxes_after(pick, before, preferred@, non_preferred@, smt@, offline@);
    let n: usize = boxes.len();
    let mut i: usize = 0;
    while i < n
        invariant
            i <= n,
            n <= u32::MAX,
            boxes.len() == n,
            before.len() == n,
            after == boxes_after(pick, before, preferred@, non_preferred@, smt@, offline@),
            forall|k: int| 0 <= k < i ==> boxes@[k] == after[k],
            forall|k: int| i <= k < n ==> boxes@[k] == before[k],
        decreases n - i,
    {
        let c: u32 = i as u32;
        let was: bool = boxes[i];
        let now = match pick {
            QuickPick::Preferred => preferred.contains(c),
            QuickPick::NonPreferred => non_preferred.contains(c),
            QuickPick::AllOnline => was || !offline.contains(c),
            QuickPick::NoSmt => !smt.contains(c) && !offline.contains(c),
            QuickPick::Nothing => false,
            QuickPick::NoneOnline => was && offline.contains(c),
        };
        boxes.set(i, now);
        i += 1;
    }
    assert(boxes@ =~= after);
}

/// A parked CPU is never selected by the quick buttons that choose among all CPUs.
pub proof fn law_quick_picks_skip_parked_cpus(
    c: u32,
    preferred: Set<u32>,
    non_preferred: Set<u32>,
    smt: Set<u32>,
    offline: Set<u32>,
)
    requires
        offline.contains(c),
    ensures
        !picked(QuickPick::AllOnline, c, false, preferred, non_preferred, smt, offline),
        !picked(QuickPick::NoSmt, c, false, preferred, non_preferred, smt, offline),
{
}

/// Selecting the preferred cores selects exactly those of the machine.
pub proof fn law_preferred_pick_is_exact(
    boxes: Seq<bool>,
    preferred: Set<u32>,
    non_preferred: Set<u32>,
    smt: Set<u32>,
    offline: Set<u32>,
    c: u32,
)
    requires
        boxes.len() <= u32::MAX,
    ensures
        checked(
            boxes_after(QuickPick::Preferred, boxes, preferred, non_preferred, smt, offline),
        ).contains(c) <==> c < boxes.len() && preferred.contains(c),
{
}

// ── Picker ───────────────────────────────────────────────────────────────────

/// The inline selection of CPUs.
pub struct AffinityPicker {
    pub checkboxes: Vec<bool>,
    pub cpu_count: u32,
    pub offline: IdSet,
    pub preferred: IdSet,
    pub non_preferred: IdSet,
    pub smt_siblings: IdSet,
}

/// The sibling of a core's first CPU: half the CPUs further on where that is a
/// sibling, else the next sibling above it.
pub open spec fn sibling_of(phys: u32, count: u32, smt: Set<u32>) -> Option<u32> {
    let half = count / 2;
    if half > 0 && phys + half < count && smt.contains((phys + half) as u32) {
        Some((phys + half) as u32)
    } else {
        next_above(ascending(smt), phys, count)
    }
}

/// The first number of an ascending sequence above `phys` and less than `count` away.
pub open spec fn next_above(s: Seq<u32>, phys: u32, count: u32) -> Option<u32>
    decreases s.len(),
{
    if s.len() == 0 {
        None
    } else if s[0] > phys && s[0] < phys + count {
        Some(s[0])
    } else {
        next_above(s.drop_first(), phys, count)
    }
}

impl AffinityPicker {
    /// One checkbox for each CPU.
    pub open spec fn well_formed(&self) -> bool {
        self.checkboxes@.len() == self.cpu_count
    }

    /// The picker shows a CPU list, on a machine with these CPUs; a blank list selects
    /// all CPUs.
    pub open spec fn shows(&self, list: Seq<char>, cpus: CpuContext) -> bool {
        &&& self.well_formed()
        &&& self.checkboxes@ == boxes_for(
            selected_by(list, trim(list).len() == 0, cpus.cpu_count),
            cpus.cpu_count,
        )
        &&& self.cpu_count == cpus.cpu_count
        &&& self.offline@ == cpus.offline@
        &&& self.preferred@ == if cpus.topo@.non_preferred != Set::<u32>::empty() {
            cpus.topo@.preferred
        } else {
            Set::empty()
        }
        &&& self.non_preferred@ == cpus.topo@.non_preferred
        &&& self.smt_siblings@ == cpus.smt_siblings@
    }

    /// A picker that shows a CPU list; a blank one selects all CPUs.
    pub fn new(current_affinity: &str, cpus: &CpuContext) -> (r: AffinityPicker)
        ensures
            r.shows(current_affinity@, *cpus),
    {
        let t = trimmed_text(current_affinity);
        let selected = select_list(current_affinity, t.as_str().is_empty(), cpus.cpu_count);
        let asym = cpus.topo.has_asymmetry();
        AffinityPicker {
            checkboxes: make_boxes(&selected, cpus.cpu_count),
            cpu_count: cpus.cpu_count,
            offline: cpus.offline.copy(),
            preferred: if asym {
                cpus.topo.preferred.copy()
            } else {
                IdSet::new()
            },
            non_preferred: cpus.topo.non_preferred.copy(),
            smt_siblings: cpus.smt_siblings.copy(),
        }
    }

    /// The CPU list of what is selected.
    pub fn cpulist(&self) -> (r: String)
        ensures
            r@ == cpulist(ascending(checked(self.checkboxes@))),
    {
        let s = checked_set(&self.checkboxes);
        cpuset_to_cpulist(&s)
    }

    /// A quick button.
    pub fn quick_pick(&mut self, pick: QuickPick)
        requires
            old(self).well_formed(),
        ensures
            final(self).well_formed(),
            final(self).checkboxes@ == boxes_after(
                pick,
                old(self).checkboxes@,
                old(self).preferred@,
                old(self).non_preferred@,
                old(self).smt_siblings@,
                old(self).offline@,
            ),
            *final(self) == (AffinityPicker { checkboxes: final(self).checkboxes, ..*old(self) }),
    {
        pick_boxes(
            pick,
            &mut self.checkboxes,
            &self.preferred,
            &self.non_preferred,
            &self.smt_siblings,
            &self.offline,
        );
    }

    /// The sibling shown beside a core's first CPU.
    pub fn find_sibling(&self, phys: u32) -> (r: Option<u32>)
        ensures
            r == sibling_of(phys, self.cpu_count, self.smt_siblings@),
    {
        let half: u32 = self.cpu_count / 2;
        if half > 0 && phys < self.cpu_count && half < self.cpu_count - phys {
            let c: u32 = phys + half;
            if self.smt_siblings.contains(c) {
                return Some(c);
            }
        }
        let list = self.smt_siblings.items();
        let ghost all = list@;
        let mut i: usize = 0;
        assert(all.skip(0) =~= all);
        while i < list.len()
            invariant
                i <= list.len(),
                all == list@,
                sibling_of(phys, self.cpu_count, self.smt_siblings@) == next_above(
                    all,
                    phys,
                    self.cpu_count,
                ),
                next_above(all, phys, self.cpu_count) == next_above(
                    all.skip(i as int),
                    phys,
                    self.cpu_count,
                ),
            decreases list.len() - i,
        {
            let s: u32 = list[i];
            assert(all.skip(i as int)[0] == s);
            if s > phys && s - phys < self.cpu_count {
                return Some(s);
            }
            assert(all.skip(i as int).drop_first() =~= all.skip(i + 1));
            i += 1;
        }
        None
    }

    /// The first CPUs of the cores in a group, in ascending order.
    pub fn physical(&self, group: &IdSet) -> (r: IdSet)
        ensures
            r@ == group@.difference(self.smt_siblings@),
    {
        group.difference(&self.smt_siblings)
    }

    /// The notice of parked CPUs, where there are any.
    pub fn parked_notice(&self) -> (r: Option<String>)
        ensures
            opt_text(r) == if self.offline@ == Set::<u32>::empty() {
                None
            } else {
                Some("CPUs "@ + cpulist(ascending(self.offline@)) + " are parked"@)
            },
    {
        if self.offline.is_empty() {
            return None;
        }
        let mut s = "CPUs ".to_owned();
        let list = cpuset_to_cpulist(&self.offline);
        s.append(list.as_str());
        s.append(" are parked");
        Some(s)
    }
}

// ── Affinity dialog ──────────────────────────────────────────────────────────

/// The dialog in which the CPUs of a process are chosen.
pub struct AffinityDialog {
    pub open: bool,
    pub title: String,
    pub checkboxes: Vec<bool>,
    pub cpu_count: u32,
    pub offline: IdSet,
    pub preferred: IdSet,
    pub non_preferred: IdSet,
    pub smt_siblings: IdSet,
    pub result: Option<String>,
}

impl AffinityDialog {
    /// One checkbox for each CPU.
    pub open spec fn well_formed(&self) -> bool {
        self.checkboxes@.len() == self.cpu_count
    }

    /// The dialog has just been opened on a CPU list, on a machine with these CPUs; an
    /// empty list selects all CPUs.
    pub open spec fn shows(&self, list: Seq<char>, title: Seq<char>, cpus: CpuContext) -> bool {
        &&& self.well_formed()
        &&& self.open
        &&& self.title@ == title
        &&& self.checkboxes@ == boxes_for(
            selected_by(list, list.len() == 0, cpus.cpu_count),
            cpus.cpu_count,
        )
        &&& self.cpu_count == cpus.cpu_count
        &&& self.offline@ == cpus.offline@
        &&& self.preferred@ == if cpus.topo@.non_preferred != Set::<u32>::empty() {
            cpus.topo@.preferred
        } else {
            Set::empty()
        }
        &&& self.non_preferred@ == cpus.topo@.non_preferred
        &&& self.smt_siblings@ == cpus.smt_siblings@
        &&& self.result is None
    }

    /// A dialog that shows a CPU list; an empty one selects all CPUs.
    pub fn new(current_affinity: &str, title: &str, cpus: &CpuContext) -> (r: AffinityDialog)
        ensures
            r.shows(current_affinity@, title@, *cpus),
    {
        let selected = select_list(current_affinity, current_affinity.is_empty(), cpus.cpu_count);
        let asym = cpus.topo.has_asymmetry();
        AffinityDialog {
            open: true,
            title: title.to_owned(),
            checkboxes: make_boxes(&selected, cpus.cpu_count),
            cpu_count: cpus.cpu_count,
            offline: cpus.offline.copy(),
            preferred: if asym {
                cpus.topo.preferred.copy()
            } else {
                IdSet::new()
            },
            non_preferred: cpus.topo.non_preferred.copy(),
            smt_siblings: cpus.smt_siblings.copy(),
            result: None,
        }
    }

    /// A quick button.
    pub fn quick_pick(&mut self, pick: QuickPick)
        requires
            old(self).well_formed(),
        ensures
            final(self).well_formed(),
            final(self).checkboxes@ == boxes_after(
                pick,
                old(self).checkboxes@,
                old(self).preferred@,
                old(self).non_preferred@,
                old(self).smt_siblings@,
                old(self).offline@,
            ),
            *final(self) == (AffinityDialog { checkboxes: final(self).checkboxes, ..*old(self) }),
    {
        pick_boxes(
            pick,
            &mut self.checkboxes,
            &self.preferred,
            &self.non_preferred,
            &self.smt_siblings,
            &self.offline,
        );
    }

    /// What the dialog gives at the end of a frame. While it is open and neither
    /// button was used: nothing. Accepted: the CPU list; with nothing selected it
    /// stays open. Cancelled: an empty list. Once closed: what it gave before.
    pub fn finish(&mut self, close_as: Option<bool>) -> (r: Option<String>)
        ensures
            ({
                let sel = checked(old(self).checkboxes@);
                if !old(self).open {
                    *final(self) == *old(self) && opt_text(r) == opt_text(old(self).result)
                } else {
                    let (open, given) = match close_as {
                        None => (true, None),
                        Some(true) => if sel == Set::<u32>::empty() {
                            (true, None)
                        } else {
                            (false, Some(cpulist(ascending(sel))))
                        },
                        Some(false) => (false, Some(Seq::<char>::empty())),
                    };
                    &&& final(self).open == open
                    &&& opt_text(r) == given
                    &&& opt_text(final(self).result) == if open {
                        opt_text(old(self).result)
                    } else {
                        given
                    }
                    &&& *final(self) == (AffinityDialog {
                        open,
                        result: final(self).result,
                        ..*old(self)
                    })
                }
            }),
    {
        if !self.open {
            return match &self.result {
                Some(s) => Some(s.clone()),
                None => None,
            };
        }
        match close_as {
            None => None,
            Some(accept) => {
                if accept {
                    let sel = checked_set(&self.checkboxes);
                    if sel.is_empty() {
                        return None;
                    }
                    let list = cpuset_to_cpulist(&sel);
                    self.open = false;
                    self.result = Some(list.clone());
                    Some(list)
                } else {
                    self.open = false;
                    self.result = Some(String::new());
                    Some(String::new())
                }
            },
        }
    }

    /// The heading of the dialog.
    pub fn heading(&self) -> (r: String)
        ensures
            r@ == "Set CPU Affinity — "@ + self.title@,
    {
        let mut s = "Set CPU Affinity — ".to_owned();
        s.append(self.title.as_str());
        s
    }

    /// The notice of parked CPUs, where there are any.
    pub fn parked_notice(&self) -> (r: Option<String>)
        ensures
            opt_text(r) == if self.offline@ == Set::<u32>::empty() {
                None
            } else {
                Some(
                    "CPUs "@ + cpulist(ascending(self.offline@))
                        + " are parked — disable Gaming Mode to use them."@,
                )
            },
    {
        if self.offline.is_empty() {
            return None;
        }
        let mut s = "CPUs ".to_owned();
        let list = cpuset_to_cpulist(&self.offline);
        s.append(list.as_str());
        s.append(" are parked — disable Gaming Mode to use them.");
        Some(s)
    }

    /// The groups in which the checkboxes stand where the cores are unequal: the
    /// cores of the preferred group, their siblings, and the same of the others.
    pub fn sections(&self) -> (r: (IdSet, IdSet, IdSet, IdSet))
        ensures
            r.0@ == self.preferred@.difference(self.smt_siblings@),
            r.1@ == self.preferred@.intersect(self.smt_siblings@),
            r.2@ == self.non_preferred@.difference(self.smt_siblings@),
            r.3@ == self.non_preferred@.intersect(self.smt_siblings@),
    {
        (
            self.preferred.difference(&self.smt_siblings),
            self.preferred.intersect(&self.smt_siblings),
            self.non_preferred.difference(&self.smt_siblings),
            self.non_preferred.intersect(&self.smt_siblings),
        )
    }
}

// ── Priority dialog ──────────────────────────────────────────────────────────

/// The dialog in which a nice value is chosen.
#[derive(Debug)]
pub struct NiceDialog {
    pub open: bool,
    pub title: String,
    pub value: i32,
    /// What was chosen; within it nothing where it was cancelled.
    pub result: Option<Option<i32>>,
}

impl NiceDialog {
    /// A dialog that starts from the current value.
    pub fn new(current: i32, title: &str) -> (r: NiceDialog)
        ensures
            r.open,
            r.title@ == title@,
            r.value == current,
            r.result is None,
    {
        NiceDialog { open: true, title: title.to_owned(), value: current, result: None }
    }

    /// What the dialog gives at the end of a frame.
    pub fn finish(&mut self, close_as: Option<bool>) -> (r: Option<Option<i32>>)
        ensures
            if !old(self).open {
                r == old(self).result && *final(self) == *old(self)
            } else {
                &&& r == match close_as {
                    None => None,
                    Some(true) => Some(Some(old(self).value)),
                    Some(false) => Some(None),
                }
                &&& *final(self) == if close_as is None {
                    *old(self)
                } else {
                    NiceDialog { open: false, result: r, ..*old(self) }
                }
            },
    {
        if !self.open {
            return self.result;
        }
        match close_as {
            None => None,
            Some(accept) => {
                self.open = false;
                self.result = if accept {
                    Some(Some(self.value))
                } else {
                    Some(None)
                };
                self.result
            },
        }
    }

    /// The heading of the dialog.
    pub fn heading(&self) -> (r: String)
        ensures
            r@ == "Set Priority (nice) — "@ + self.title@,
    {
        let mut s = "Set Priority (nice) — ".to_owned();
        s.append(self.title.as_str());
        s
    }
}

// ── I/O priority dialog ──────────────────────────────────────────────────────

/// The dialog in which an I/O priority is chosen.
#[derive(Debug)]
pub struct IoNiceDialog {
    pub open: bool,
    pub title: String,
    pub class: i32,
    pub level: i32,
    /// What was chosen; within it nothing where it was cancelled.
    pub result: Option<Option<(i32, i32)>>,
}

impl IoNiceDialog {
    /// A dialog that starts from best-effort, level 4.
    pub fn new(title: &str) -> (r: IoNiceDialog)
        ensures
            r.open,
            r.title@ == title@,
            r.class == 2,
            r.level == 4,
            r.result is None,
    {
        IoNiceDialog { open: true, title: title.to_owned(), class: 2, level: 4, result: None }
    }

    /// What the dialog gives at the end of a frame.
    pub fn finish(&mut self, close_as: Option<bool>) -> (r: Option<Option<(i32, i32)>>)
        ensures
            if !old(self).open {
                r == old(self).result && *final(self) == *old(self)
            } else {
                &&& r == match close_as {
                    None => None,
                    Some(true) => Some(Some((old(self).class, old(self).level))),
                    Some(false) => Some(None),
                }
                &&& *final(self) == if close_as is None {
                    *old(self)
                } else {
                    IoNiceDialog { open: false, result: r, ..*old(self) }
                }
            },
    {
        if !self.open {
            return self.result;
        }
        match close_as {
            None => None,
            Some(accept) => {
                self.open = false;
                self.result = if accept {
                    Some(Some((self.class, self.level)))
                } else {
                    Some(None)
                };
                self.result
            },
        }
    }

    /// The heading of the dialog.
    pub fn heading(&self) -> (r: String)
        ensures
            r@ == "Set I/O Priority — "@ + self.title@,
    {
        let mut s = "Set I/O Priority — ".to_owned();
        s.append(self.title.as_str());
        s
    }

    /// A level can be chosen for the realtime and best-effort classes only.
    pub fn has_level(&self) -> (r: bool)
        ensures
            r == (self.class == 1 || self.class == 2),
    {
        self.class == 1 || self.class == 2
    }
}

/// The name of an I/O class.
pub fn io_class_label(class: i32) -> (r: &'static str)
    ensures
        r@ == if class == 0 {
            "None (default)"@
        } else if class == 1 {
            "Realtime (root)"@
        } else if class == 2 {
            "Best-effort"@
        } else if class == 3 {
            "Idle"@
        } else {
            "?"@
        },
{
    if class == 0 {
        "None (default)"
    } else if class == 1 {
        "Realtime (root)"
    } else if class == 2 {
        "Best-effort"
    } else if class == 3 {
        "Idle"
    } else {
        "?"
    }
}

/// A quick pick checks the CPUs that it is named after; what is accepted then is the list
/// of the CPUs that are checked.
pub proof fn law_quick_picks_check_their_cpus(
    d: &mut AffinityDialog,
    pick: QuickPick,
    next: &mut AffinityDialog,
    r: Option<String>,
    list: &str,
    set: Result<IdSet, crate::cpulist::BadCpuList>,
    c: u32,
)
    requires
        call_ensures(AffinityDialog::quick_pick, (d, pick), ()),
        old(d).well_formed(),
        old(d).open,
        *old(next) == *final(d),
        call_ensures(AffinityDialog::finish, (next, Some(true)), r),
        r matches Some(text) && text@ == list@,
        call_ensures(crate::cpulist::cpulist_to_set, (list,), set),
        c < old(d).cpu_count,
    ensures
        set is Ok,
        !final(next).open,
        ({
            let chosen = set->Ok_0@.contains(c);
            let was = old(d).checkboxes@[c as int];
            match pick {
                QuickPick::Preferred => chosen <==> old(d).preferred@.contains(c),
                QuickPick::NonPreferred => chosen <==> old(d).non_preferred@.contains(c),
                QuickPick::AllOnline => (!old(d).offline@.contains(c) ==> chosen)
                    && (old(d).offline@.contains(c) ==> chosen == was),
                QuickPick::NoSmt => chosen <==> !old(d).smt_siblings@.contains(c)
                    && !old(d).offline@.contains(c),
                QuickPick::Nothing => !chosen,
                QuickPick::NoneOnline => (!old(d).offline@.contains(c) ==> !chosen)
                    && (old(d).offline@.contains(c) ==> chosen == was),
            }
        }),
{
    let s = checked(final(d).checkboxes@);
    crate::idset::law_ascending_holds_the_members(s);
    assert(ascending(s).to_set() =~= s);
    crate::cpulist::law_cpulist_round_trip(ascending(s));
    assert(set is Ok && set->Ok_0@ == s);
}

/// A dialog that is accepted as it opened gives the CPUs of the list that it was opened
/// with, as far as there are such CPUs; all where the list was empty.
pub proof fn law_untouched_dialog_gives_the_list_back(
    text: &str,
    title: &str,
    cpus: &CpuContext,
    d: AffinityDialog,
    e: &mut AffinityDialog,
    r: Option<String>,
    list: &str,
    given: Result<IdSet, crate::cpulist::BadCpuList>,
    set: Result<IdSet, crate::cpulist::BadCpuList>,
    c: u32,
)
    requires
        call_ensures(AffinityDialog::new, (text, title, cpus), d),
        *old(e) == d,
        call_ensures(AffinityDialog::finish, (e, Some(true)), r),
        r matches Some(t) && t@ == list@,
        call_ensures(crate::cpulist::cpulist_to_set, (text,), given),
        call_ensures(crate::cpulist::cpulist_to_set, (list,), set),
    ensures
        set is Ok,
        text@.len() == 0 ==> (set->Ok_0@.contains(c) <==> c < cpus.cpu_count),
        text@.len() > 0 && given is Ok ==> (set->Ok_0@.contains(c) <==> given->Ok_0@.contains(c) && c
            < cpus.cpu_count),
{
    let s = checked(d.checkboxes@);
    crate::idset::law_ascending_holds_the_members(s);
    assert(ascending(s).to_set() =~= s);
    crate::cpulist::law_cpulist_round_trip(ascending(s));
    assert(set is Ok && set->Ok_0@ == s);
}

/// An affinity dialog without a CPU cannot be accepted; cancelled, it gives an empty text.
pub proof fn law_affinity_needs_a_cpu(
    d: &mut AffinityDialog,
    close_as: Option<bool>,
    r: Option<String>,
)
    requires
        call_ensures(AffinityDialog::finish, (d, close_as), r),
        old(d).open,
    ensures
        close_as is None ==> final(d).open && r is None,
        close_as == Some(true) && (forall|i: int|
            0 <= i < old(d).checkboxes@.len() ==> !#[trigger] old(d).checkboxes@[i]) ==> final(d).open
            && r is None,
        close_as == Some(false) ==> !final(d).open && (r matches Some(t) && t@.len() == 0),
{
    if forall|i: int| 0 <= i < old(d).checkboxes@.len() ==> !#[trigger] old(d).checkboxes@[i] {
        assert(checked(old(d).checkboxes@) =~= Set::<u32>::empty());
    }
}

/// A priority dialog gives its value where it is accepted, and none where it is
/// cancelled; it is closed then and keeps its answer.
pub proof fn law_priority_dialogs_answer_once(
    n: &mut NiceDialog,
    i: &mut IoNiceDialog,
    close_as: Option<bool>,
    r: Option<Option<i32>>,
    s: Option<Option<(i32, i32)>>,
)
    requires
        call_ensures(NiceDialog::finish, (n, close_as), r),
        call_ensures(IoNiceDialog::finish, (i, close_as), s),
        old(n).open,
        old(i).open,
    ensures
        close_as is None ==> r is None && s is None && final(n).open && final(i).open,
        close_as == Some(true) ==> r == Some(Some(old(n).value)) && s == Some(
            Some((old(i).class, old(i).level)),
        ),
        close_as == Some(false) ==> r == Some(None::<i32>) && s == Some(None::<(i32, i32)>),
        close_as is Some ==> !final(n).open && !final(i).open && final(n).result == r
            && final(i).result == s,
{
}

/// Best-effort and realtime classes have levels, the others have none.
pub proof fn law_two_classes_have_levels(d: &IoNiceDialog, r: bool)
    requires
        call_ensures(IoNiceDialog::has_level, (d,), r),
    ensures
        r <==> d.class == 1 || d.class == 2,
{
}

/// The sibling of a CPU is a sibling: the one half of all CPUs further on, where that is
/// one, and otherwise one with a greater number.
pub proof fn law_sibling_is_a_sibling(d: &AffinityPicker, phys: u32, r: Option<u32>)
    requires
        call_ensures(AffinityPicker::find_sibling, (d, phys), r),
    ensures
        r matches Some(c) ==> d.smt_siblings@.contains(c) && c > phys,
        d.cpu_count >= 2 && phys + d.cpu_count / 2 < d.cpu_count && d.smt_siblings@.contains(
            (phys + d.cpu_count / 2) as u32,
        ) ==> r == Some((phys + d.cpu_count / 2) as u32),
        (forall|c: u32| c > phys ==> !(#[trigger] d.smt_siblings@.contains(c))) ==> r is None,
{
    let s = ascending(d.smt_siblings@);
    crate::idset::law_ascending_holds_the_members(d.smt_siblings@);
    lemma_next_above(s, phys, d.cpu_count);
    if next_above(s, phys, d.cpu_count) is Some {
        let c = next_above(s, phys, d.cpu_count)->0;
        assert(s.contains(c));
    }
}

/// The next number above another is one of the list.
proof fn lemma_next_above(s: Seq<u32>, phys: u32, count: u32)
    ensures
        next_above(s, phys, count) matches Some(c) ==> s.contains(c) && c > phys,
    decreases s.len(),
{
    if s.len() > 0 && !(s[0] > phys && s[0] < phys + count) {
        let d = s.drop_first();
        lemma_next_above(d, phys, count);
        if let Some(c) = next_above(d, phys, count) {
            let i = choose|i: int| 0 <= i < d.len() && d[i] == c;
            assert(s[i + 1] == c);
        }
    } else if s.len() > 0 {
        assert(s.contains(s[0]));
    }
}

/// The parts of the dialog hold each CPU of the two groups once, siblings apart.
pub proof fn law_sections_part_the_groups(
    d: &AffinityDialog,
    r: (IdSet, IdSet, IdSet, IdSet),
    c: u32,
)
    requires
        call_ensures(AffinityDialog::sections, (d,), r),
    ensures
        r.0@.contains(c) || r.1@.contains(c) <==> d.preferred@.contains(c),
        r.2@.contains(c) || r.3@.contains(c) <==> d.non_preferred@.contains(c),
        r.1@.contains(c) || r.3@.contains(c) ==> d.smt_siblings@.contains(c),
        r.0@.contains(c) || r.2@.contains(c) ==> !d.smt_siblings@.contains(c),
{
}

} // verus!
