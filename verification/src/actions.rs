//! What the user does to processes by hand: kills that can be undone, settings
//! that can be kept as a rule, and the lines that tell of it.

use std::collections::VecDeque;
use vstd::prelude::*;
use vstd::string::*;

use crate::binary::{double, parts, Binary};
use crate::config::{copy_opt, is_uuid_text, RuleView};
use crate::gui::process_tab::PendingKill;
use crate::number::{dec, dec_int, parse_int, push_dec, push_int, push_tenths, read_i64, tenths};
use crate::rules::{empty_rule, Rule};
use crate::text::{
    begins_with, chars_of, finishes_with, has_prefix, has_suffix, join, joined, opt_text,
    same_text, texts, trim, trimmed, trimmed_text,
};

verus! {

// ── Rule offers ──────────────────────────────────────────────────────────────

/// Settings that were made by hand, to be kept as a rule.
#[derive(Debug)]
pub struct RuleOffer {
    pub proc_name: String,
    pub affinity: Option<String>,
    pub nice: Option<i32>,
    pub ionice: Option<(i32, i32)>,
}

/// Settings that were made by hand, as values.
pub struct OfferView {
    pub proc_name: Seq<char>,
    pub affinity: Option<Seq<char>>,
    pub nice: Option<i32>,
    pub ionice: Option<(i32, i32)>,
}

impl View for RuleOffer {
    type V = OfferView;

    open spec fn view(&self) -> OfferView {
        OfferView {
            proc_name: self.proc_name@,
            affinity: opt_text(self.affinity),
            nice: self.nice,
            ionice: self.ionice,
        }
    }
}

/// The affinity of an offer, in words.
pub open spec fn affinity_part(o: OfferView) -> Seq<Seq<char>> {
    match o.affinity {
        Some(a) => seq!["affinity "@ + a],
        None => Seq::empty(),
    }
}

/// The nice value of an offer, in words.
pub open spec fn nice_part(o: OfferView) -> Seq<Seq<char>> {
    match o.nice {
        Some(n) => seq!["nice "@ + dec_int(n as int)],
        None => Seq::empty(),
    }
}

/// The I/O priority of an offer, in words.
pub open spec fn ionice_part(o: OfferView) -> Seq<Seq<char>> {
    match o.ionice {
        Some((c, l)) => seq!["ionice "@ + dec_int(c as int) + "/"@ + dec_int(l as int)],
        None => Seq::empty(),
    }
}

/// The settings of an offer, in words.
pub open spec fn offer_summary(o: OfferView) -> Seq<char> {
    join(affinity_part(o) + nice_part(o) + ionice_part(o), ", "@)
}

/// The rule that an offer becomes.
pub open spec fn offered_rule(o: OfferView, id: Seq<char>) -> RuleView {
    RuleView {
        name: o.proc_name,
        pattern: o.proc_name,
        match_type: "exact"@,
        affinity: o.affinity,
        nice: o.nice,
        ionice_class: match o.ionice {
            Some((c, _)) => Some(c),
            None => None,
        },
        ionice_level: match o.ionice {
            Some((_, l)) => Some(l),
            None => None,
        },
        ..empty_rule(id)
    }
}

impl RuleOffer {
    /// The settings, in words.
    pub fn summary(&self) -> (r: String)
        ensures
            r@ == offer_summary(self@),
    {
        let mut parts: Vec<String> = Vec::new();
        if let Some(a) = &self.affinity {
            let mut s = "affinity ".to_owned();
            s.append(a.as_str());
            parts.push(s);
        }
        assert(texts(parts@) =~= affinity_part(self@));
        if let Some(n) = self.nice {
            let mut s = "nice ".to_owned();
            push_int(&mut s, n as i64);
            parts.push(s);
        }
        assert(texts(parts@) =~= affinity_part(self@) + nice_part(self@));
        if let Some((c, l)) = self.ionice {
            let mut s = "ionice ".to_owned();
            push_int(&mut s, c as i64);
            s.append("/");
            push_int(&mut s, l as i64);
            parts.push(s);
        }
        assert(texts(parts@) =~= affinity_part(self@) + nice_part(self@) + ionice_part(self@));
        joined(&parts, ", ")
    }

    /// The question whether the settings are to be kept.
    pub fn question(&self) -> (r: String)
        ensures
            r@ == "Keep "@ + offer_summary(self@) + " for '"@ + self@.proc_name
                + "' with a rule?\nThe setting will be re-applied every time the process starts."@,
    {
        let mut s = "Keep ".to_owned();
        let sum = self.summary();
        s.append(sum.as_str());
        s.append(" for '");
        s.append(self.proc_name.as_str());
        s.append("' with a rule?\nThe setting will be re-applied every time the process starts.");
        s
    }

    /// The line that tells of the rule.
    pub fn created_line(&self) -> (r: String)
        ensures
            r@ == "[Rule] Created rule for '"@ + self@.proc_name + "' ("@ + offer_summary(self@)
                + ") from manual change"@,
    {
        let mut s = "[Rule] Created rule for '".to_owned();
        s.append(self.proc_name.as_str());
        s.append("' (");
        let sum = self.summary();
        s.append(sum.as_str());
        s.append(") from manual change");
        s
    }

    /// Makes the rule.
    pub fn to_rule(&self) -> (r: Rule)
        ensures
            is_uuid_text(r@.rule_id),
            r@ == offered_rule(self@, r@.rule_id),
    {
        let mut rule = Rule::new_empty();
        rule.name = self.proc_name.clone();
        rule.pattern = self.proc_name.clone();
        rule.match_type = "exact".to_owned();
        rule.affinity = copy_opt(&self.affinity);
        rule.nice = self.nice;
        rule.ionice_class = match self.ionice {
            Some((c, _)) => Some(c),
            None => None,
        };
        rule.ionice_level = match self.ionice {
            Some((_, l)) => Some(l),
            None => None,
        };
        rule
    }
}

/// The later of two settings that are made one after the other.
pub open spec fn later<T>(new: Option<T>, old: Option<T>) -> Option<T> {
    if new is Some {
        new
    } else {
        old
    }
}

/// An offer after another setting was made: settings of the same process are kept
/// together, those of another process replace them.
pub open spec fn merged_offer(before: Option<OfferView>, new: OfferView) -> OfferView {
    match before {
        Some(o) => if o.proc_name == new.proc_name {
            OfferView {
                proc_name: o.proc_name,
                affinity: later(new.affinity, o.affinity),
                nice: later(new.nice, o.nice),
                ionice: later(new.ionice, o.ionice),
            }
        } else {
            new
        },
        None => new,
    }
}

/// An offer that may be missing, as a value.
pub open spec fn opt_offer(o: Option<RuleOffer>) -> Option<OfferView> {
    match o {
        Some(o) => Some(o@),
        None => None,
    }
}

/// Takes in a setting that was made by hand.
pub fn offer_rule(offer: &mut Option<RuleOffer>, new: RuleOffer)
    ensures
        opt_offer(*final(offer)) == Some(merged_offer(opt_offer(*old(offer)), new@)),
{
    let mut held: Option<RuleOffer> = None;
    std::mem::swap(offer, &mut held);
    *offer = match held {
        Some(o) => {
            if same_text(o.proc_name.as_str(), new.proc_name.as_str()) {
                Some(
                    RuleOffer {
                        proc_name: o.proc_name,
                        affinity: if new.affinity.is_some() {
                            new.affinity
                        } else {
                            o.affinity
                        },
                        nice: if new.nice.is_some() {
                            new.nice
                        } else {
                            o.nice
                        },
                        ionice: if new.ionice.is_some() {
                            new.ionice
                        } else {
                            o.ionice
                        },
                    },
                )
            } else {
                Some(new)
            }
        },
        None => Some(new),
    };
}

/// Settings of one process never get lost: what was offered stays unless the same
/// kind of setting was made again.
pub proof fn law_offers_of_one_process_add_up(before: OfferView, new: OfferView)
    requires
        before.proc_name == new.proc_name,
    ensures
        ({
            let m = merged_offer(Some(before), new);
            &&& m.proc_name == before.proc_name
            &&& new.affinity is None ==> m.affinity == before.affinity
            &&& new.nice is None ==> m.nice == before.nice
            &&& new.ionice is None ==> m.ionice == before.ionice
            &&& new.affinity is Some ==> m.affinity == new.affinity
            &&& new.nice is Some ==> m.nice == new.nice
            &&& new.ionice is Some ==> m.ionice == new.ionice
        }),
{
}

/// A rule for all processes whose name holds this name.
pub fn rule_for_name(name: &str) -> (r: Rule)
    ensures
        is_uuid_text(r@.rule_id),
        r@ == (RuleView {
            name: name@,
            pattern: name@,
            match_type: "contains"@,
            ..empty_rule(r@.rule_id)
        }),
{
    let mut rule = Rule::new_empty();
    rule.name = name.to_owned();
    rule.pattern = name.to_owned();
    rule.match_type = "contains".to_owned();
    rule
}

// ── Kills ────────────────────────────────────────────────────────────────────

/// How long a kill can be undone, in milliseconds.
pub const UNDO_MS: u64 = 5000;

/// A process in a line: its name and its number.
pub open spec fn process_text(name: Seq<char>, pid: u32) -> Seq<char> {
    name + " ("@ + dec(pid as nat) + ")"@
}

/// Appends a process.
fn push_process(s: &mut String, name: &str, pid: u32)
    ensures
        final(s)@ == old(s)@ + process_text(name@, pid),
{
    let ghost start = s@;
    s.append(name);
    s.append(" (");
    push_dec(s, pid as u64);
    s.append(")");
    assert(s@ =~= start + process_text(name@, pid));
}

/// What became of a kill, in words. `error` is why it failed; `superseded` tells
/// that it was carried out early because of another kill.
pub open spec fn kill_text(
    name: Seq<char>,
    pid: u32,
    force: bool,
    superseded: bool,
    error: Option<Seq<char>>,
) -> Seq<char> {
    match error {
        None => (if force {
            "Force killed "@
        } else {
            "Killed "@
        }) + process_text(name, pid) + if superseded {
            " — superseded by new kill"@
        } else {
            Seq::empty()
        },
        Some(e) => "Kill failed for "@ + process_text(name, pid) + ": "@ + e,
    }
}

/// What became of a kill, in words.
pub fn kill_line(k: &PendingKill, superseded: bool, error: Option<&str>) -> (r: String)
    ensures
        r@ == kill_text(
            k.name@,
            k.pid,
            k.force,
            superseded,
            match error {
                Some(e) => Some(e@),
                None => None,
            },
        ),
{
    match error {
        None => {
            let mut s = if k.force {
                "Force killed ".to_owned()
            } else {
                "Killed ".to_owned()
            };
            let ghost head = s@;
            push_process(&mut s, k.name.as_str(), k.pid);
            assert(s@ + Seq::<char>::empty() =~= s@);
            if superseded {
                s.append(" — superseded by new kill");
            }
            s
        },
        Some(e) => {
            let mut s = "Kill failed for ".to_owned();
            push_process(&mut s, k.name.as_str(), k.pid);
            s.append(": ");
            s.append(e);
            s
        },
    }
}

/// The line that tells that a process will be killed.
pub fn pending_line(k: &PendingKill) -> (r: String)
    ensures
        r@ == "Suspended "@ + process_text(k.name@, k.pid) + " — will "@ + (if k.force {
            "force kill"@
        } else {
            "kill"@
        }) + " in 5s"@,
{
    let mut s = "Suspended ".to_owned();
    push_process(&mut s, k.name.as_str(), k.pid);
    s.append(" — will ");
    if k.force {
        s.append("force kill");
    } else {
        s.append("kill");
    }
    s.append(" in 5s");
    s
}

/// The line that tells that a process was stopped.
pub fn suspended_line(name: &str, pid: u32) -> (r: String)
    ensures
        r@ == "Suspended "@ + process_text(name@, pid),
{
    let mut s = "Suspended ".to_owned();
    push_process(&mut s, name, pid);
    s
}

/// The line that tells that a process goes on.
pub fn resumed_line(name: &str, pid: u32) -> (r: String)
    ensures
        r@ == "Resumed "@ + process_text(name@, pid),
{
    let mut s = "Resumed ".to_owned();
    push_process(&mut s, name, pid);
    s
}

/// The line that tells that a kill was undone.
pub fn cancelled_line(name: &str, pid: u32) -> (r: String)
    ensures
        r@ == "Kill cancelled — resumed "@ + process_text(name@, pid),
{
    let mut s = "Kill cancelled — resumed ".to_owned();
    push_process(&mut s, name, pid);
    s
}

/// Asks for a kill, which waits until it can no longer be undone. A kill that waits
/// already is not dropped: it is given back, to be carried out now.
pub fn request_kill(
    pending: &mut Option<PendingKill>,
    pid: u32,
    name: &str,
    force: bool,
    now_ms: u64,
) -> (due: Option<PendingKill>)
    requires
        now_ms + UNDO_MS <= u64::MAX,
    ensures
        due == *old(pending),
        match *final(pending) {
            Some(k) => k.pid == pid && k.name@ == name@ && k.force == force && k.deadline_ms
                == now_ms + UNDO_MS,
            None => false,
        },
{
    let mut due: Option<PendingKill> = None;
    std::mem::swap(pending, &mut due);
    *pending = Some(
        PendingKill { pid, name: name.to_owned(), force, deadline_ms: now_ms + UNDO_MS },
    );
    due
}

/// Takes the kill that waits, where its time has come.
pub fn take_due(pending: &mut Option<PendingKill>, now_ms: u64) -> (due: Option<PendingKill>)
    ensures
        match *old(pending) {
            Some(k) => if now_ms >= k.deadline_ms {
                due == *old(pending) && *final(pending) is None
            } else {
                due is None && *final(pending) == *old(pending)
            },
            None => due is None && *final(pending) is None,
        },
{
    let ripe = match &*pending {
        Some(k) => now_ms >= k.deadline_ms,
        None => false,
    };
    let mut due: Option<PendingKill> = None;
    if ripe {
        std::mem::swap(pending, &mut due);
    }
    due
}

/// Undoes the kill that waits; gives it, so that its process goes on.
pub fn undo_kill(pending: &mut Option<PendingKill>) -> (undone: Option<PendingKill>)
    ensures
        undone == *old(pending),
        *final(pending) is None,
{
    let mut undone: Option<PendingKill> = None;
    std::mem::swap(pending, &mut undone);
    undone
}

/// A kill that was asked for is carried out no sooner than it can no longer be
/// undone, and as soon as that is so.
pub proof fn law_kill_waits_for_the_undo_window(asked_ms: u64, now_ms: u64, deadline_ms: u64)
    requires
        deadline_ms == asked_ms + UNDO_MS,
    ensures
        now_ms >= deadline_ms <==> now_ms - asked_ms >= 5000,
{
}

/// What is shown of a kill that waits: the seconds that are left are rounded up
/// beyond the whole ones.
pub fn kill_toast(k: &PendingKill, now_ms: u64) -> (r: String)
    ensures
        ({
            let left: int = if k.deadline_ms > now_ms {
                k.deadline_ms - now_ms
            } else {
                0
            };
            r@ == "Killing '"@ + k.name@ + "' in "@ + dec((left / 1000 + 1) as nat) + "s"@
        }),
{
    let left: u64 = if k.deadline_ms > now_ms {
        k.deadline_ms - now_ms
    } else {
        0
    };
    let mut s = "Killing '".to_owned();
    s.append(k.name.as_str());
    s.append("' in ");
    push_dec(&mut s, left / 1000 + 1);
    s.append("s");
    s
}

/// When the window is painted anew, in milliseconds: soon while a kill waits.
pub fn repaint_ms(pending: &Option<PendingKill>, refresh_ms: u64) -> (r: u64)
    ensures
        r == if *pending is Some {
            250
        } else {
            refresh_ms
        },
{
    if pending.is_some() {
        250
    } else {
        refresh_ms
    }
}

// ── Settings by hand ─────────────────────────────────────────────────────────

/// How long rules leave a process alone whose affinity was set by hand.
pub const OVERRIDE_MS: u64 = 30_000;

/// The line that tells of an affinity set by hand.
pub fn affinity_line(list: &str, pid: u32) -> (r: String)
    ensures
        r@ == "[Manual] affinity="@ + list@ + " → PID "@ + dec(pid as nat),
{
    let mut s = "[Manual] affinity=".to_owned();
    s.append(list);
    s.append(" → PID ");
    push_dec(&mut s, pid as u64);
    s
}

/// The line that tells of a nice value set by hand.
pub fn nice_line(nice: i32, pid: u32) -> (r: String)
    ensures
        r@ == "[Manual] nice="@ + dec_int(nice as int) + " → PID "@ + dec(pid as nat),
{
    let mut s = "[Manual] nice=".to_owned();
    push_int(&mut s, nice as i64);
    s.append(" → PID ");
    push_dec(&mut s, pid as u64);
    s
}

/// The line that tells of an I/O priority set by hand.
pub fn ionice_line(class: i32, level: i32, pid: u32) -> (r: String)
    ensures
        r@ == "[Manual] ionice class="@ + dec_int(class as int) + " level="@ + dec_int(
            level as int,
        ) + " → PID "@ + dec(pid as nat),
{
    let mut s = "[Manual] ionice class=".to_owned();
    push_int(&mut s, class as i64);
    s.append(" level=");
    push_int(&mut s, level as i64);
    s.append(" → PID ");
    push_dec(&mut s, pid as u64);
    s
}

// ── Events ───────────────────────────────────────────────────────────────────

/// How many of the recent events are listed.
pub const RECENT_EVENTS: usize = 12;

/// The bell: the number of events that were not seen stands beside it.
pub fn bell_label(events: usize, seen: usize) -> (r: String)
    ensures
        r@ == if events > seen {
            "🔔 "@ + dec((events - seen) as nat)
        } else {
            "🔔"@
        },
{
    if events > seen {
        let mut s = "🔔 ".to_owned();
        push_dec(&mut s, (events - seen) as u64);
        s
    } else {
        "🔔".to_owned()
    }
}

/// The recent events, newest first.
pub open spec fn recent(events: Seq<Seq<char>>) -> Seq<Seq<char>> {
    Seq::new(
        if events.len() < RECENT_EVENTS {
            events.len()
        } else {
            RECENT_EVENTS as nat
        },
        |i: int| events[events.len() - 1 - i],
    )
}

/// The recent events, newest first.
pub fn recent_events(events: &VecDeque<String>) -> (r: Vec<String>)
    ensures
        texts(r@) == recent(texts(events@)),
{
    let n: usize = events.len();
    let k: usize = if n < RECENT_EVENTS {
        n
    } else {
        RECENT_EVENTS
    };
    let mut r: Vec<String> = Vec::new();
    let mut i: usize = 0;
    while i < k
        invariant
            i <= k <= n,
            n == events@.len(),
            r.len() == i,
            forall|j: int| 0 <= j < i ==> #[trigger] r@[j]@ == events@[n - 1 - j]@,
        decreases k - i,
    {
        r.push(events[n - 1 - i].clone());
        i += 1;
    }
    assert(texts(r@) =~= recent(texts(events@)));
    r
}

// ── Temperature ──────────────────────────────────────────────────────────────

/// A sensor device: its name, and the names and contents of its files.
pub struct TempDevice {
    pub name: String,
    pub files: Vec<(String, String)>,
}

/// A device that measures the processor.
pub open spec fn is_cpu_sensor(name: Seq<char>) -> bool {
    let n = trim(name);
    n == "k10temp"@ || n == "zenpower"@ || n == "coretemp"@ || has_prefix(n, "it8"@)
}

/// A file that holds a temperature.
pub open spec fn is_temp_file(name: Seq<char>) -> bool {
    has_prefix(name, "temp"@) && has_suffix(name, "_input"@)
}

/// The greater of two temperatures, one of which may be missing.
pub open spec fn hotter(a: Option<i64>, b: i64) -> Option<i64> {
    match a {
        Some(m) => Some(
            if b > m {
                b
            } else {
                m
            },
        ),
        None => Some(b),
    }
}

/// A temperature in thousandths of a degree, from its file.
pub open spec fn temp_in(text: Seq<char>) -> Option<i64> {
    match parse_int(trim(text), i64::MAX as nat) {
        Some(v) => Some(v as i64),
        None => None,
    }
}

/// The greatest temperature of a device.
pub open spec fn hottest(files: Seq<(String, String)>) -> Option<i64>
    decreases files.len(),
{
    if files.len() == 0 {
        None
    } else {
        let before = hottest(files.drop_last());
        let (name, text) = files.last();
        if is_temp_file(name@) {
            match temp_in(text@) {
                Some(v) => hotter(before, v),
                None => before,
            }
        } else {
            before
        }
    }
}

/// The temperature of the processor: the greatest of the first device that measures
/// it and gives one.
pub open spec fn cpu_temp(devices: Seq<TempDevice>) -> Option<i64>
    decreases devices.len(),
{
    if devices.len() == 0 {
        None
    } else if is_cpu_sensor(devices[0].name@) && hottest(devices[0].files@) is Some {
        hottest(devices[0].files@)
    } else {
        cpu_temp(devices.drop_first())
    }
}

/// The greatest temperature of a device.
fn find_hottest(files: &Vec<(String, String)>) -> (r: Option<i64>)
    ensures
        r == hottest(files@),
{
    let mut best: Option<i64> = None;
    let mut i: usize = 0;
    assert(files@.take(0) =~= Seq::<(String, String)>::empty());
    while i < files.len()
        invariant
            i <= files.len(),
            best == hottest(files@.take(i as int)),
        decreases files.len() - i,
    {
        assert(files@.take(i + 1).drop_last() =~= files@.take(i as int));
        let name = chars_of(files[i].0.as_str());
        if begins_with(&name, "temp") && finishes_with(&name, "_input") {
            let text = chars_of(files[i].1.as_str());
            if let Some(v) = read_i64(&trimmed(&text)) {
                best = match best {
                    Some(m) => Some(
                        if v > m {
                            v
                        } else {
                            m
                        },
                    ),
                    None => Some(v),
                };
            }
        }
        i += 1;
    }
    assert(files@.take(i as int) =~= files@);
    best
}

/// Whether a device measures the processor.
pub fn measures_cpu(name: &str) -> (r: bool)
    ensures
        r == is_cpu_sensor(name@),
{
    let n = trimmed_text(name);
    let cs = chars_of(n.as_str());
    same_text(n.as_str(), "k10temp") || same_text(n.as_str(), "zenpower") || same_text(
        n.as_str(),
        "coretemp",
    ) || begins_with(&cs, "it8")
}

/// The temperature of the processor in thousandths of a degree.
pub fn read_cpu_temp(devices: &Vec<TempDevice>) -> (r: Option<i64>)
    ensures
        r == cpu_temp(devices@),
{
    let mut i: usize = 0;
    assert(devices@.skip(0) =~= devices@);
    while i < devices.len()
        invariant
            i <= devices.len(),
            cpu_temp(devices@) == cpu_temp(devices@.skip(i as int)),
        decreases devices.len() - i,
    {
        let ghost rest = devices@.skip(i as int);
        assert(rest[0] == devices@[i as int]);
        if measures_cpu(devices[i].name.as_str()) {
            let t = find_hottest(&devices[i].files);
            if t.is_some() {
                return t;
            }
        }
        assert(rest.drop_first() =~= devices@.skip(i + 1));
        i += 1;
    }
    assert(devices@.skip(i as int).len() == 0);
    None
}

// ── Details ──────────────────────────────────────────────────────────────────

/// The window with the details of a process. The details themselves are read by the
/// caller.
#[derive(Debug, Clone, Copy, PartialEq, Eq, Structural)]
pub struct DetailState {
    pub pid: Option<u32>,
    /// Details were read.
    pub has_info: bool,
    /// The sample at which they were read.
    pub last_gen: u64,
}

impl DetailState {
    /// Shows the details of a process, which are read at once.
    pub fn show(&mut self, pid: u32)
        ensures
            *final(self) == (DetailState { pid: Some(pid), has_info: false, ..*old(self) }),
    {
        self.pid = Some(pid);
        self.has_info = false;
    }

    /// Whether the details are to be read: there are none yet, or there is a new
    /// sample.
    pub fn needs_read(&self, gen: u64) -> (r: bool)
        ensures
            r == (self.pid is Some && (!self.has_info || gen != self.last_gen)),
    {
        self.pid.is_some() && (!self.has_info || gen != self.last_gen)
    }

    /// Takes in whether the details could be read; the window of a process that is
    /// gone closes.
    pub fn note_read(&mut self, gen: u64, found: bool)
        ensures
            *final(self) == (DetailState {
                pid: if found {
                    old(self).pid
                } else {
                    None
                },
                has_info: found,
                last_gen: gen,
            }),
    {
        self.last_gen = gen;
        self.has_info = found;
        if !found {
            self.pid = None;
        }
    }

    /// Closes the window.
    pub fn close(&mut self)
        ensures
            *final(self) == (DetailState { pid: None, has_info: false, ..*old(self) }),
    {
        self.pid = None;
        self.has_info = false;
    }
}

/// The heading of the window with the details.
pub fn detail_title(name: Option<&str>, pid: u32) -> (r: String)
    ensures
        r@ == match name {
            Some(n) => "Details — "@ + process_text(n@, pid),
            None => "Details — PID "@ + dec(pid as nat),
        },
{
    match name {
        Some(n) => {
            let mut s = "Details — ".to_owned();
            push_process(&mut s, n, pid);
            s
        },
        None => {
            let mut s = "Details — PID ".to_owned();
            push_dec(&mut s, pid as u64);
            s
        },
    }
}

/// Tenths of a KiB.
pub open spec fn tenths_of_kib(bytes: u64) -> nat {
    parts(double(bytes as int, 1024), 10)
}

/// The disk rates of a process, in words; nothing where it is idle.
pub fn disk_text(read_bps: u64, write_bps: u64) -> (r: Option<String>)
    ensures
        opt_text(r) == if read_bps > 0 || write_bps > 0 {
            Some(
                "read "@ + tenths(tenths_of_kib(read_bps)) + " KB/s, write "@ + tenths(
                    tenths_of_kib(write_bps),
                ) + " KB/s"@,
            )
        } else {
            None
        },
{
    if read_bps == 0 && write_bps == 0 {
        return None;
    }
    let mut s = "read ".to_owned();
    push_tenths(&mut s, Binary::double(read_bps, 1024).parts(10));
    s.append(" KB/s, write ");
    push_tenths(&mut s, Binary::double(write_bps, 1024).parts(10));
    s.append(" KB/s");
    Some(s)
}

/// How many threads are not listed, in words; nothing where all are.
pub fn more_threads(count: usize, listed: usize) -> (r: Option<String>)
    ensures
        opt_text(r) == if count > listed {
            Some("… and "@ + dec((count - listed) as nat) + " more"@)
        } else {
            None
        },
{
    if count > listed {
        let mut s = "… and ".to_owned();
        push_dec(&mut s, (count - listed) as u64);
        s.append(" more");
        Some(s)
    } else {
        None
    }
}

/// A process that is to be killed is killed five seconds later and not before, unless
/// that is undone or another one is asked for.
pub proof fn law_kill_comes_after_five_seconds(
    p: &mut Option<PendingKill>,
    q: &mut Option<PendingKill>,
    pid: u32,
    name: &str,
    force: bool,
    asked: u64,
    now: u64,
    before: Option<PendingKill>,
    due: Option<PendingKill>,
)
    requires
        call_ensures(request_kill, (p, pid, name, force, asked), before),
        *old(q) == *final(p),
        call_ensures(take_due, (q, now), due),
        asked <= now,
    ensures
        before == *old(p),
        now - asked < 5000 ==> due is None && *final(q) == *old(q),
        now - asked >= 5000 ==> {
            &&& due is Some && *final(q) is None
            &&& due->0.pid == pid && due->0.name@ == name@ && due->0.force == force
        },
{
}

/// What was undone is never killed.
pub proof fn law_undone_kill_never_comes(
    p: &mut Option<PendingKill>,
    q: &mut Option<PendingKill>,
    undone: Option<PendingKill>,
    now: u64,
    due: Option<PendingKill>,
)
    requires
        call_ensures(undo_kill, (p,), undone),
        *old(q) == *final(p),
        call_ensures(take_due, (q, now), due),
    ensures
        undone == *old(p),
        due is None,
{
}

/// Changes by hand of one process are offered together as one rule, the later of two
/// changes of the same setting; another process starts a new offer.
pub proof fn law_offers_gather_the_changes_of_one_process(
    o: &mut Option<RuleOffer>,
    new: RuleOffer,
)
    requires
        call_ensures(offer_rule, (o, new), ()),
    ensures
        *final(o) is Some,
        final(o)->0@.proc_name == new@.proc_name,
        new@.affinity is Some ==> final(o)->0@.affinity == new@.affinity,
        new@.nice is Some ==> final(o)->0@.nice == new@.nice,
        new@.ionice is Some ==> final(o)->0@.ionice == new@.ionice,
        ({
            let same = *old(o) is Some && old(o)->0@.proc_name == new@.proc_name;
            &&& new@.affinity is None ==> final(o)->0@.affinity == (if same {
                old(o)->0@.affinity
            } else {
                None
            })
            &&& new@.nice is None ==> final(o)->0@.nice == (if same {
                old(o)->0@.nice
            } else {
                None
            })
            &&& new@.ionice is None ==> final(o)->0@.ionice == (if same {
                old(o)->0@.ionice
            } else {
                None
            })
        }),
{
}

/// The rule that is made of an offer is for exactly that name, sets what was offered and
/// is enabled.
pub proof fn law_offered_rule_sets_what_was_offered(o: &RuleOffer, r: Rule)
    requires
        call_ensures(RuleOffer::to_rule, (o,), r),
    ensures
        r@.pattern == o@.proc_name,
        r@.name == o@.proc_name,
        r@.match_type == "exact"@,
        r@.enabled,
        r@.affinity == o@.affinity,
        r@.nice == o@.nice,
        o@.ionice matches Some((c, l)) ==> r@.ionice_class == Some(c) && r@.ionice_level == Some(l),
        o@.ionice is None ==> r@.ionice_class is None && r@.ionice_level is None,
{
}

/// The events that are shown are the last twelve, the newest first.
pub proof fn law_newest_events_come_first(events: &VecDeque<String>, r: Vec<String>, i: int)
    requires
        call_ensures(recent_events, (events,), r),
        0 <= i < r@.len(),
    ensures
        r@.len() <= 12,
        r@.len() == 12 || r@.len() == events@.len(),
        r@[i]@ == events@[events@.len() - 1 - i]@,
        r@.len() <= events@.len(),
{
    assert(texts(r@).len() == r@.len());
    assert(texts(r@)[i] == r@[i]@);
    assert(texts(events@).len() == events@.len());
}

/// The temperature of the processor is that of the hottest sensor of the first device
/// that measures it.
pub proof fn law_hottest_sensor_is_shown(
    devices: &Vec<TempDevice>,
    r: Option<i64>,
    i: int,
    k: int,
    v: i64,
)
    requires
        call_ensures(read_cpu_temp, (devices,), r),
        0 <= i < devices@.len(),
        is_cpu_sensor(devices@[i].name@),
        forall|j: int| 0 <= j < i ==> !is_cpu_sensor((#[trigger] devices@[j]).name@),
        0 <= k < devices@[i].files@.len(),
        is_temp_file(devices@[i].files@[k].0@),
        temp_in(devices@[i].files@[k].1@) == Some(v),
    ensures
        r is Some,
        r->0 >= v,
        exists|j: int| 0 <= j < devices@[i].files@.len()
            && temp_in((#[trigger] devices@[i].files@[j]).1@) == r,
{
    lemma_cpu_temp(devices@, i);
    lemma_hottest(devices@[i].files@, k, v);
}

/// The first device that measures the processor decides.
proof fn lemma_cpu_temp(d: Seq<TempDevice>, i: int)
    requires
        0 <= i < d.len(),
        is_cpu_sensor(d[i].name@),
        forall|j: int| 0 <= j < i ==> !is_cpu_sensor((#[trigger] d[j]).name@),
    ensures
        hottest(d[i].files@) is Some ==> cpu_temp(d) == hottest(d[i].files@),
    decreases i,
{
    if i > 0 {
        assert(!is_cpu_sensor(d[0].name@));
        let e = d.drop_first();
        assert forall|j: int| 0 <= j < i - 1 implies !is_cpu_sensor((#[trigger] e[j]).name@) by {
            assert(d[j + 1] == e[j]);
        }
        lemma_cpu_temp(e, i - 1);
    }
}

/// The hottest of some files is one of them, and none is hotter.
proof fn lemma_hottest(f: Seq<(String, String)>, k: int, v: i64)
    requires
        0 <= k < f.len(),
        is_temp_file(f[k].0@),
        temp_in(f[k].1@) == Some(v),
    ensures
        hottest(f) is Some,
        hottest(f)->0 >= v,
        exists|j: int| 0 <= j < f.len() && temp_in((#[trigger] f[j]).1@) == hottest(f),
    decreases f.len(),
{
    let d = f.drop_last();
    lemma_hottest_is_held(f);
    if k < f.len() - 1 {
        assert(d[k] == f[k]);
        lemma_hottest(d, k, v);
    }
}

/// The hottest of some files is one of them.
proof fn lemma_hottest_is_held(f: Seq<(String, String)>)
    ensures
        hottest(f) is Some ==> exists|j: int|
            0 <= j < f.len() && temp_in((#[trigger] f[j]).1@) == hottest(f),
    decreases f.len(),
{
    if f.len() > 0 {
        let d = f.drop_last();
        lemma_hottest_is_held(d);
        if hottest(d) is Some {
            let j = choose|j: int| 0 <= j < d.len() && temp_in((#[trigger] d[j]).1@) == hottest(d);
            assert(f[j] == d[j]);
        }
        assert(f[f.len() - 1] == f.last());
    }
}

} // verus!
