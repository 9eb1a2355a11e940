//! Gaming Mode: its state, the launcher and the profiles.

use std::collections::VecDeque;
use vstd::prelude::*;
use vstd::string::*;

use crate::config::{Config, GamingProfile};
use crate::cpu_park::{bracket_list, bracketed};
use crate::gui::core_map::{cpus_to_park, cpus_with_mark, mark, marked, overlaid, overlay};
use crate::gui::game_match::{find_game, first_game, is_game, lemma_first_game, GameProc};
use crate::idmap::IdMap;
use crate::idset::{ascending, IdSet};
use crate::number::{dec, decimal, decimals, decs};
use crate::ring::{newest, push_capped};
use crate::text::{chars_of, join, joined, same_text, text_of, texts, words, words_of};
use crate::topology::{CpuTopology, Topology};

verus! {

// ── Events and log ───────────────────────────────────────────────────────────

/// What the tab tells the application.
#[derive(Debug)]
pub enum GamingEvent {
    GamingModeChanged { active: bool, elevate_nice: bool },
    ResetAll,
    LogMessage(String),
    /// The configuration that the tab holds was changed.
    ConfigChanged,
}

/// An event, as a value.
pub enum EventView {
    ModeChanged { active: bool, elevate_nice: bool },
    ResetAll,
    Message(Seq<char>),
    ConfigChanged,
}

/// An event, as a value.
pub open spec fn event_view(e: GamingEvent) -> EventView {
    match e {
        GamingEvent::GamingModeChanged { active, elevate_nice } => EventView::ModeChanged {
            active,
            elevate_nice,
        },
        GamingEvent::ResetAll => EventView::ResetAll,
        GamingEvent::LogMessage(m) => EventView::Message(m@),
        GamingEvent::ConfigChanged => EventView::ConfigChanged,
    }
}

/// The lines of the tab's log and the events that wait to be taken.
pub struct Feed {
    pub lines: Seq<Seq<char>>,
    pub events: Seq<EventView>,
}

impl Feed {
    /// With one more event.
    pub open spec fn sent(self, e: EventView) -> Feed {
        Feed { events: self.events.push(e), ..self }
    }

    /// With one more line, which is sent as an event too.
    pub open spec fn logged(self, msg: Seq<char>) -> Feed {
        Feed {
            lines: newest(self.lines.push(msg), LOG_CAP as nat),
            events: self.events.push(EventView::Message(msg)),
        }
    }

    /// With more lines.
    pub open spec fn logged_all(self, msgs: Seq<Seq<char>>) -> Feed
        decreases msgs.len(),
    {
        if msgs.len() == 0 {
            self
        } else {
            self.logged_all(msgs.drop_last()).logged(msgs.last())
        }
    }
}

/// How many lines the tab's log keeps.
pub const LOG_CAP: usize = 200;

/// The log of the tab never outgrows its bound, whatever is logged.
pub proof fn law_tab_log_is_bounded(f: Feed, msgs: Seq<Seq<char>>)
    requires
        f.lines.len() <= LOG_CAP,
    ensures
        f.logged_all(msgs).lines.len() <= LOG_CAP,
        f.logged_all(msgs).events.len() == f.events.len() + msgs.len(),
    decreases msgs.len(),
{
    if msgs.len() > 0 {
        law_tab_log_is_bounded(f, msgs.drop_last());
    }
}

// ── State ────────────────────────────────────────────────────────────────────

/// How far a launched game is.
#[derive(Debug, Clone, Copy, PartialEq, Eq, Structural)]
pub enum WatchPhase {
    Idle,
    Waiting,
    Running,
}

/// What the tab is told of the machine.
pub struct Machine {
    pub topo: CpuTopology,
    pub online: IdSet,
    pub offline: IdSet,
    /// Of the preferred CPUs, those that share a core with a lower-numbered one.
    pub smt_siblings: IdSet,
}

impl Machine {
    /// The preferred CPUs, with those marked that are online.
    pub open spec fn online_marks(&self) -> Map<u32, bool> {
        marked(self.topo@.preferred, self.topo@.preferred.difference(self.offline@))
    }
}

/// What the tab is told of the privileged helper.
#[derive(Debug, Clone, Copy)]
pub struct HelperState {
    pub current: bool,
    pub authorized: bool,
    pub installed: bool,
}

/// The tab.
pub struct GamingModeTab {
    pub config: Config,
    pub topo: Option<CpuTopology>,
    pub topo_description: String,
    pub parked: bool,
    pub parking_in_progress: bool,
    /// Which of the preferred CPUs are kept online.
    pub preferred_checks: IdMap<bool>,
    pub smt_siblings: IdSet,
    pub helper_status_text: String,
    pub helper_ok: bool,
    /// The helper may be run, but is not the one of this version.
    pub helper_outdated: bool,
    pub elevate_nice: bool,
    pub cpu_status_text: String,
    /// The CPU status is shown as a warning.
    pub cpu_status_warns: bool,
    pub log_lines: VecDeque<String>,
    pub game_name: String,
    pub command: String,
    pub auto_restore: bool,
    pub watch_phase: WatchPhase,
    pub launched_pid: Option<u32>,
    pub watch_status: String,
    pub last_poll_ms: u64,
    pub selected_profile: String,
    pub install_password: String,
    pub show_install_dialog: bool,
    pub power_status_text: String,
    /// The current governor.
    pub power_governor: String,
    /// Gaming Mode is switched on again once the CPUs are back.
    pub pending_enable_after_unpark: bool,
    pub events: Vec<GamingEvent>,
}

/// How the CPUs stand, in words.
pub open spec fn cpu_status(online: Set<u32>, offline: Set<u32>) -> Seq<char> {
    let total = (online.len() + offline.len()) as nat;
    if offline == Set::<u32>::empty() {
        "All "@ + dec(total) + " CPUs online"@
    } else {
        dec(online.len()) + " of "@ + dec(total) + " CPUs online · parked: "@ + join(
            decs(ascending(offline)),
            ", "@,
        )
    }
}

/// How the CPUs stand, in words.
pub fn cpu_status_line(online: &IdSet, offline: &IdSet) -> (r: String)
    ensures
        r@ == cpu_status(online@, offline@),
{
    let n: u64 = online.len() as u64;
    let m: u64 = offline.len() as u64;
    let total = decimal(n + m);
    if offline.is_empty() {
        let mut s = "All ".to_owned();
        s.append(total.as_str());
        s.append(" CPUs online");
        s
    } else {
        let mut s = decimal(n);
        s.append(" of ");
        s.append(total.as_str());
        s.append(" CPUs online · parked: ");
        let ds = decimals(offline.items());
        let j = joined(&ds, ", ");
        s.append(j.as_str());
        s
    }
}

/// How the helper stands, in words.
pub open spec fn helper_text(ok: bool, outdated: bool) -> Seq<char> {
    if ok {
        "Helper installed — parking + nice -1 available"@
    } else if outdated {
        "Helper needs update — click 'Install / Update Helper'"@
    } else {
        "Helper not installed — click 'Install / Update Helper' to enable parking"@
    }
}

/// The current power settings, in words.
pub open spec fn power_text(governor: Seq<char>, epp: Option<Seq<char>>) -> Seq<char> {
    match epp {
        Some(e) => "current: "@ + governor + " / "@ + e,
        None => "current: "@ + governor,
    }
}

/// A text that may be missing.
pub open spec fn opt_view(o: Option<&str>) -> Option<Seq<char>> {
    match o {
        Some(s) => Some(s@),
        None => None,
    }
}

/// The topology, as a value.
pub open spec fn opt_topology(t: Option<CpuTopology>) -> Option<Topology> {
    match t {
        Some(t) => Some(t@),
        None => None,
    }
}

impl GamingModeTab {
    /// The log and the events.
    pub open spec fn feed(&self) -> Feed {
        Feed {
            lines: texts(self.log_lines@),
            events: Seq::new(self.events@.len(), |i: int| event_view(self.events@[i])),
        }
    }

    /// What stands in the tab of the machine is this.
    pub open spec fn shows_machine(&self, m: Machine) -> bool {
        &&& self.shows_topology(m)
        &&& self.preferred_checks@ == m.online_marks()
    }

    /// What stands in the tab of the cores, but for the marks, is this.
    pub open spec fn shows_topology(&self, m: Machine) -> bool {
        &&& opt_topology(self.topo) == Some(m.topo@)
        &&& self.topo_description@ == m.topo@.description
        &&& self.smt_siblings@ == m.smt_siblings@
    }

    /// What stands in the tab of the CPUs that are online is this.
    pub open spec fn shows_cpus(&self, online: Set<u32>, offline: Set<u32>) -> bool {
        &&& self.cpu_status_text@ == cpu_status(online, offline)
        &&& self.cpu_status_warns == (offline != Set::<u32>::empty())
    }

    /// Everything but the log and the events is as it was.
    pub open spec fn same_but_feed(&self, was: &GamingModeTab) -> bool {
        *self == (GamingModeTab { log_lines: self.log_lines, events: self.events, ..*was })
    }

    /// The tab at the start. Where CPUs are parked already, Gaming Mode is on and
    /// the application is told so.
    pub fn new(
        config: Config,
        machine: Machine,
        helper: HelperState,
        governor: Option<&str>,
        epp: Option<&str>,
        now_ms: u64,
    ) -> (r: GamingModeTab)
        ensures
            r.config == config,
            r.shows_machine(machine),
            r.shows_cpus(machine.online@, machine.offline@),
            r.parked == (machine.offline@ != Set::<u32>::empty()),
            !r.parking_in_progress,
            r.helper_ok == (helper.current && helper.authorized),
            r.helper_outdated == (!r.helper_ok && helper.installed && helper.authorized),
            r.helper_status_text@ == helper_text(r.helper_ok, r.helper_outdated),
            r.power_governor@ == match opt_view(governor) {
                Some(g) => g,
                None => "?"@,
            },
            r.power_status_text@ == power_text(r.power_governor@, opt_view(epp)),
            r.elevate_nice,
            r.auto_restore,
            r.game_name@.len() == 0,
            r.command@.len() == 0,
            r.selected_profile@.len() == 0,
            r.watch_phase == WatchPhase::Idle,
            r.launched_pid is None,
            r.watch_status@.len() == 0,
            r.last_poll_ms == now_ms,
            r.install_password@.len() == 0,
            !r.show_install_dialog,
            !r.pending_enable_after_unpark,
            r.feed().lines == Seq::<Seq<char>>::empty(),
            r.feed().events == if machine.offline@ != Set::<u32>::empty() {
                seq![EventView::ModeChanged { active: true, elevate_nice: true }]
            } else {
                Seq::empty()
            },
    {
        let parked = !machine.offline.is_empty();
        let kept = machine.topo.preferred.difference(&machine.offline);
        let checks = mark(&machine.topo.preferred, &kept);
        let mut events: Vec<GamingEvent> = Vec::new();
        if parked {
            events.push(GamingEvent::GamingModeChanged { active: true, elevate_nice: true });
        }
        let mut tab = GamingModeTab {
            config,
            topo_description: machine.topo.description.clone(),
            topo: Some(machine.topo),
            parked,
            parking_in_progress: false,
            preferred_checks: checks,
            smt_siblings: machine.smt_siblings,
            helper_status_text: String::new(),
            helper_ok: false,
            helper_outdated: false,
            elevate_nice: true,
            cpu_status_text: cpu_status_line(&machine.online, &machine.offline),
            cpu_status_warns: parked,
            log_lines: VecDeque::new(),
            game_name: String::new(),
            command: String::new(),
            auto_restore: true,
            watch_phase: WatchPhase::Idle,
            launched_pid: None,
            watch_status: String::new(),
            last_poll_ms: now_ms,
            selected_profile: String::new(),
            install_password: String::new(),
            show_install_dialog: false,
            power_status_text: String::new(),
            power_governor: String::new(),
            pending_enable_after_unpark: false,
            events,
        };
        tab.refresh_helper_status(helper);
        tab.refresh_power_status(governor, epp);
        assert(tab.feed().lines =~= Seq::<Seq<char>>::empty());
        assert(tab.feed().events =~= if parked {
            seq![EventView::ModeChanged { active: true, elevate_nice: true }]
        } else {
            Seq::empty()
        });
        tab
    }

    /// Takes in how the helper stands.
    pub fn refresh_helper_status(&mut self, helper: HelperState)
        ensures
            final(self).helper_ok == (helper.current && helper.authorized),
            final(self).helper_outdated == (!final(self).helper_ok && helper.installed
                && helper.authorized),
            final(self).helper_status_text@ == helper_text(
                final(self).helper_ok,
                final(self).helper_outdated,
            ),
            *final(self) == (GamingModeTab {
                helper_ok: final(self).helper_ok,
                helper_outdated: final(self).helper_outdated,
                helper_status_text: final(self).helper_status_text,
                ..*old(self)
            }),
    {
        self.helper_ok = helper.current && helper.authorized;
        self.helper_outdated = !self.helper_ok && helper.installed && helper.authorized;
        self.helper_status_text = if self.helper_ok {
            "Helper installed — parking + nice -1 available".to_owned()
        } else if self.helper_outdated {
            "Helper needs update — click 'Install / Update Helper'".to_owned()
        } else {
            "Helper not installed — click 'Install / Update Helper' to enable parking".to_owned()
        };
    }

    /// Takes in the current power settings.
    pub fn refresh_power_status(&mut self, governor: Option<&str>, epp: Option<&str>)
        ensures
            final(self).power_governor@ == match opt_view(governor) {
                Some(g) => g,
                None => "?"@,
            },
            final(self).power_status_text@ == power_text(
                final(self).power_governor@,
                opt_view(epp),
            ),
            *final(self) == (GamingModeTab {
                power_governor: final(self).power_governor,
                power_status_text: final(self).power_status_text,
                ..*old(self)
            }),
    {
        let gov = match governor {
            Some(g) => g.to_owned(),
            None => "?".to_owned(),
        };
        let mut s = "current: ".to_owned();
        s.append(gov.as_str());
        if let Some(e) = epp {
            s.append(" / ");
            s.append(e);
        }
        self.power_status_text = s;
        self.power_governor = gov;
    }

    /// Takes in which CPUs are online.
    pub fn refresh_cpu_status(&mut self, online: &IdSet, offline: &IdSet)
        ensures
            final(self).shows_cpus(online@, offline@),
            *final(self) == (GamingModeTab {
                cpu_status_text: final(self).cpu_status_text,
                cpu_status_warns: final(self).cpu_status_warns,
                ..*old(self)
            }),
    {
        self.cpu_status_text = cpu_status_line(online, offline);
        self.cpu_status_warns = !offline.is_empty();
    }

    /// Takes in the topology, and marks the preferred CPUs that are online as kept.
    pub fn rebuild_preferred_checks(&mut self, topo: &CpuTopology, offline: &IdSet, smt: &IdSet)
        ensures
            final(self).preferred_checks@ == marked(
                topo@.preferred,
                topo@.preferred.difference(offline@),
            ),
            final(self).smt_siblings@ == smt@,
            *final(self) == (GamingModeTab {
                preferred_checks: final(self).preferred_checks,
                smt_siblings: final(self).smt_siblings,
                ..*old(self)
            }),
    {
        let kept = topo.preferred.difference(offline);
        self.preferred_checks = mark(&topo.preferred, &kept);
        self.smt_siblings = smt.copy();
    }

    /// Sends an event.
    fn send(&mut self, e: GamingEvent)
        ensures
            final(self).feed() == old(self).feed().sent(event_view(e)),
            final(self).same_but_feed(old(self)),
            final(self).log_lines == old(self).log_lines,
    {
        let ghost v = event_view(e);
        let ghost was = self.feed().events;
        self.events.push(e);
        assert(self.feed().events =~= was.push(v));
    }

    /// Logs a line, here and in the application.
    pub fn append_log(&mut self, msg: &str)
        ensures
            final(self).feed() == old(self).feed().logged(msg@),
            final(self).same_but_feed(old(self)),
    {
        let ghost lines = self.log_lines@;
        let s = msg.to_owned();
        let ghost gs = s;
        push_capped(&mut self.log_lines, s, LOG_CAP);
        assert(texts(self.log_lines@) =~= newest(texts(lines).push(msg@), LOG_CAP as nat));
        let ghost was = self.feed().events;
        self.events.push(GamingEvent::LogMessage(msg.to_owned()));
        assert(self.feed().events =~= was.push(EventView::Message(msg@)));
    }

    /// Logs lines.
    pub fn append_all(&mut self, msgs: &Vec<String>)
        ensures
            final(self).feed() == old(self).feed().logged_all(texts(msgs@)),
            final(self).same_but_feed(old(self)),
    {
        let ghost start = self.feed();
        let ghost all = texts(msgs@);
        let ghost was = *self;
        let mut i: usize = 0;
        assert(start.logged_all(all.take(0)) == start);
        while i < msgs.len()
            invariant
                i <= msgs.len(),
                all == texts(msgs@),
                self.feed() == start.logged_all(all.take(i as int)),
                self.same_but_feed(&was),
            decreases msgs.len() - i,
        {
            assert(all.take(i + 1).drop_last() =~= all.take(i as int));
            assert(all.take(i + 1).last() == msgs@[i as int]@);
            self.append_log(msgs[i].as_str());
            i += 1;
        }
        assert(all.take(i as int) =~= all);
    }

    // ── Switching on and off ─────────────────────────────────────────────────

    /// Gaming Mode can be switched on: the cores are unequal and the helper is there.
    pub open spec fn can_enable(&self, helper_installed: bool) -> bool {
        &&& opt_topology(self.topo) is Some
        &&& opt_topology(self.topo)->0.non_preferred != Set::<u32>::empty()
        &&& helper_installed
    }

    /// The CPUs that are to be parked.
    pub open spec fn to_park(&self) -> Set<u32> {
        cpus_to_park(opt_topology(self.topo)->0.non_preferred, self.preferred_checks@)
    }

    /// Begins to switch Gaming Mode on: gives the CPUs that are to be parked now.
    /// Nothing happens where the cores are equal.
    pub fn begin_enable(&mut self, helper_installed: bool) -> (r: Option<IdSet>)
        ensures
            r is Some <==> old(self).can_enable(helper_installed),
            r is Some ==> {
                &&& r->0@ == old(self).to_park()
                &&& final(self).feed() == old(self).feed().logged(
                    "[Gaming Mode] Parking CPUs "@ + bracketed(ascending(old(self).to_park()))
                        + "…"@,
                )
                &&& final(self).parking_in_progress
                &&& final(self).same_but_feed(
                    &(GamingModeTab { parking_in_progress: true, ..*old(self) }),
                )
            },
            r is None ==> {
                &&& final(self).same_but_feed(old(self))
                &&& final(self).feed() == if !helper_installed && old(self).can_enable(true) {
                    old(self).feed().logged("[Gaming Mode] Helper missing — install first."@)
                } else {
                    old(self).feed()
                }
            },
    {
        let to_park = match &self.topo {
            None => {
                return None;
            },
            Some(topo) => {
                if !topo.has_asymmetry() {
                    return None;
                }
                let unchecked = cpus_with_mark(&self.preferred_checks, false);
                topo.non_preferred.union(&unchecked)
            },
        };
        if !helper_installed {
            self.append_log("[Gaming Mode] Helper missing — install first.");
            return None;
        }
        let mut line = "[Gaming Mode] Parking CPUs ".to_owned();
        let list = bracket_list(&to_park);
        line.append(list.as_str());
        line.append("…");
        self.append_log(line.as_str());
        self.parking_in_progress = true;
        Some(to_park)
    }

    /// Ends switching Gaming Mode on: takes in whether all CPUs were parked, what
    /// was logged, and which CPUs are online now.
    pub fn finish_enable(&mut self, ok: bool, msgs: &Vec<String>, online: &IdSet, offline: &IdSet)
        ensures
            final(self).parked == ok,
            !final(self).parking_in_progress,
            final(self).shows_cpus(online@, offline@),
            ({
                let f = old(self).feed().logged_all(texts(msgs@));
                final(self).feed() == if ok {
                    f.logged("[Gaming Mode] ACTIVE — non-preferred CPUs offline."@).sent(
                        EventView::ModeChanged {
                            active: true,
                            elevate_nice: old(self).elevate_nice,
                        },
                    ).sent(EventView::Message("[Gaming Mode] enabled"@))
                } else {
                    f.logged("[Gaming Mode] Parking failed — check log."@)
                }
            }),
            final(self).same_but_feed(
                &(GamingModeTab {
                    parked: ok,
                    parking_in_progress: false,
                    cpu_status_text: final(self).cpu_status_text,
                    cpu_status_warns: final(self).cpu_status_warns,
                    ..*old(self)
                }),
            ),
    {
        self.append_all(msgs);
        self.parking_in_progress = false;
        self.parked = ok;
        self.refresh_cpu_status(online, offline);
        if ok {
            self.append_log("[Gaming Mode] ACTIVE — non-preferred CPUs offline.");
            let elevate_nice = self.elevate_nice;
            self.send(GamingEvent::GamingModeChanged { active: true, elevate_nice });
            self.send(GamingEvent::LogMessage("[Gaming Mode] enabled".to_owned()));
        } else {
            self.append_log("[Gaming Mode] Parking failed — check log.");
        }
    }

    /// Begins to switch Gaming Mode off; all CPUs are to be brought back now.
    pub fn begin_disable(&mut self)
        ensures
            final(self).feed() == old(self).feed().logged(
                "[Gaming Mode] Unparking all CPUs…"@,
            ),
            final(self).same_but_feed(old(self)),
    {
        self.append_log("[Gaming Mode] Unparking all CPUs…");
    }

    /// Ends switching Gaming Mode off: takes in what was logged and the machine as
    /// it is now. Gives whether Gaming Mode is to be switched on again: the marks then
    /// stay as they are.
    pub fn finish_disable(&mut self, msgs: &Vec<String>, machine: &Machine) -> (again: bool)
        ensures
            again == old(self).pending_enable_after_unpark,
            !final(self).pending_enable_after_unpark,
            !final(self).parked,
            final(self).shows_topology(*machine),
            final(self).preferred_checks@ == if again {
                overlaid(machine.online_marks(), old(self).preferred_checks@)
            } else {
                machine.online_marks()
            },
            final(self).shows_cpus(machine.online@, machine.offline@),
            final(self).feed() == old(self).feed().logged_all(texts(msgs@)).logged(
                "[Gaming Mode] Disabled — all CPUs online."@,
            ).sent(EventView::ModeChanged { active: false, elevate_nice: false }).sent(
                EventView::Message("[Gaming Mode] disabled"@),
            ),
            final(self).same_but_feed(
                &(GamingModeTab {
                    parked: false,
                    pending_enable_after_unpark: false,
                    topo: final(self).topo,
                    topo_description: final(self).topo_description,
                    preferred_checks: final(self).preferred_checks,
                    smt_siblings: final(self).smt_siblings,
                    cpu_status_text: final(self).cpu_status_text,
                    cpu_status_warns: final(self).cpu_status_warns,
                    ..*old(self)
                }),
            ),
    {
        self.append_all(msgs);
        self.parked = false;
        self.refresh_cpu_status(&machine.online, &machine.offline);
        self.topo_description = machine.topo.description.clone();
        let marks = overlay(
            &mark(&machine.topo.preferred, &machine.topo.preferred.difference(&machine.offline)),
            &self.preferred_checks,
        );
        self.rebuild_preferred_checks(&machine.topo, &machine.offline, &machine.smt_siblings);
        if self.pending_enable_after_unpark {
            self.preferred_checks = marks;
        }
        self.topo = Some(machine.topo.copy());
        self.append_log("[Gaming Mode] Disabled — all CPUs online.");
        self.send(GamingEvent::GamingModeChanged { active: false, elevate_nice: false });
        self.send(GamingEvent::LogMessage("[Gaming Mode] disabled".to_owned()));
        let again = self.pending_enable_after_unpark;
        self.pending_enable_after_unpark = false;
        again
    }

    /// Begins to reset everything; `any_offline` tells whether CPUs are parked.
    pub fn begin_reset(&mut self, any_offline: bool)
        ensures
            ({
                let f = if old(self).parked {
                    old(self).feed().sent(
                        EventView::ModeChanged { active: false, elevate_nice: false },
                    )
                } else {
                    old(self).feed()
                };
                final(self).feed() == if any_offline {
                    f.logged("[Reset] Unparking CPUs…"@)
                } else {
                    f
                }
            }),
            final(self).same_but_feed(&(GamingModeTab { parked: false, ..*old(self) })),
    {
        if self.parked {
            self.send(GamingEvent::GamingModeChanged { active: false, elevate_nice: false });
            self.parked = false;
        }
        if any_offline {
            self.append_log("[Reset] Unparking CPUs…");
        }
    }

    /// Ends the reset: takes in what was logged and the machine as it is now, where
    /// CPUs were brought back.
    pub fn finish_reset(&mut self, unparked: Option<(&Vec<String>, &Machine)>)
        ensures
            match unparked {
                Some((msgs, m)) => {
                    &&& final(self).feed() == old(self).feed().logged_all(texts(msgs@)).sent(
                        EventView::ResetAll,
                    )
                    &&& final(self).shows_machine(*m)
                    &&& final(self).shows_cpus(m.online@, m.offline@)
                },
                None => final(self).feed() == old(self).feed().sent(EventView::ResetAll),
            },
            unparked is None ==> final(self).same_but_feed(old(self)),
            final(self).same_but_feed(
                &(GamingModeTab {
                    topo: final(self).topo,
                    topo_description: final(self).topo_description,
                    preferred_checks: final(self).preferred_checks,
                    smt_siblings: final(self).smt_siblings,
                    cpu_status_text: final(self).cpu_status_text,
                    cpu_status_warns: final(self).cpu_status_warns,
                    ..*old(self)
                }),
            ),
    {
        if let Some((msgs, machine)) = unparked {
            self.append_all(msgs);
            self.refresh_cpu_status(&machine.online, &machine.offline);
            self.rebuild_preferred_checks(&machine.topo, &machine.offline, &machine.smt_siblings);
            self.topo_description = machine.topo.description.clone();
            self.topo = Some(machine.topo.copy());
        }
        self.send(GamingEvent::ResetAll);
    }

    // ── Choosing cores ───────────────────────────────────────────────────────

    /// Keeps all preferred CPUs, or none.
    pub fn keep_all(&mut self, keep: bool)
        ensures
            final(self).preferred_checks@.dom() == old(self).preferred_checks@.dom(),
            forall|c: u32| #[trigger]
                final(self).preferred_checks@.contains_key(c)
                    ==> final(self).preferred_checks@[c] == keep,
            *final(self) == (GamingModeTab {
                preferred_checks: final(self).preferred_checks,
                ..*old(self)
            }),
    {
        let keys = self.preferred_checks.keys();
        let on = if keep {
            keys.copy()
        } else {
            IdSet::new()
        };
        self.preferred_checks = mark(&keys, &on);
        assert(self.preferred_checks@.dom() =~= old(self).preferred_checks@.dom());
    }

    /// Keeps the first CPU of each core.
    pub fn keep_no_smt(&mut self)
        ensures
            final(self).preferred_checks@.dom() == old(self).preferred_checks@.dom(),
            forall|c: u32| #[trigger]
                final(self).preferred_checks@.contains_key(c) ==> final(self).preferred_checks@[c]
                    == !old(self).smt_siblings@.contains(c),
            *final(self) == (GamingModeTab {
                preferred_checks: final(self).preferred_checks,
                ..*old(self)
            }),
    {
        let keys = self.preferred_checks.keys();
        let on = keys.difference(&self.smt_siblings);
        self.preferred_checks = mark(&keys, &on);
        assert(self.preferred_checks@.dom() =~= old(self).preferred_checks@.dom());
    }

    // ── Launcher ─────────────────────────────────────────────────────────────

    /// How long a look at the processes is waited for, in milliseconds.
    pub open spec fn poll_interval(&self) -> int {
        if self.watch_phase == WatchPhase::Running {
            5000
        } else {
            2000
        }
    }

    /// Whether it is time to look at the processes; the time is noted where it is.
    pub fn poll_due(&mut self, now_ms: u64) -> (due: bool)
        ensures
            due == (old(self).watch_phase != WatchPhase::Idle && now_ms - old(self).last_poll_ms
                >= old(self).poll_interval()),
            *final(self) == if due {
                GamingModeTab { last_poll_ms: now_ms, ..*old(self) }
            } else {
                *old(self)
            },
    {
        if matches!(self.watch_phase, WatchPhase::Idle) {
            return false;
        }
        let wait: u64 = if matches!(self.watch_phase, WatchPhase::Running) {
            5000
        } else {
            2000
        };
        if now_ms < self.last_poll_ms || now_ms - self.last_poll_ms < wait {
            return false;
        }
        self.last_poll_ms = now_ms;
        true
    }

    /// Takes in the processes that there are. Gives whether Gaming Mode is to be
    /// switched off now, because the game has ended.
    pub fn poll_game_process(&mut self, procs: &Vec<GameProc>) -> (off: bool)
        ensures
            ({
                let found = first_game(old(self).game_name@, procs@);
                match (old(self).watch_phase, old(self).launched_pid) {
                    (WatchPhase::Waiting, _) => match found {
                        Some(pid) => {
                            &&& !off
                            &&& final(self).feed() == old(self).feed().logged(
                                "[Launcher] Game process found: PID "@ + dec(pid as nat),
                            )
                            &&& final(self).watch_status@ == "Game running (PID "@ + dec(
                                pid as nat,
                            ) + ")"@
                            &&& final(self).same_but_feed(
                                &(GamingModeTab {
                                    launched_pid: Some(pid),
                                    watch_phase: WatchPhase::Running,
                                    watch_status: final(self).watch_status,
                                    ..*old(self)
                                }),
                            )
                        },
                        None => !off && *final(self) == *old(self),
                    },
                    (WatchPhase::Running, Some(pid)) => if alive(procs@, pid) {
                        !off && *final(self) == *old(self)
                    } else {
                        match found {
                            Some(new_pid) => {
                                &&& !off
                                &&& final(self).feed() == old(self).feed().logged(
                                    "[Launcher] Game PID changed → "@ + dec(new_pid as nat),
                                )
                                &&& final(self).same_but_feed(
                                    &(GamingModeTab {
                                        launched_pid: Some(new_pid),
                                        ..*old(self)
                                    }),
                                )
                            },
                            None => {
                                &&& off == (old(self).auto_restore && old(self).parked)
                                &&& final(self).feed() == old(self).feed().logged(
                                    "[Launcher] Game (PID "@ + dec(pid as nat) + ") exited."@,
                                )
                                &&& final(self).watch_status@.len() == 0
                                &&& final(self).same_but_feed(
                                    &(GamingModeTab {
                                        launched_pid: None,
                                        watch_phase: WatchPhase::Idle,
                                        watch_status: final(self).watch_status,
                                        ..*old(self)
                                    }),
                                )
                            },
                        }
                    },
                    _ => !off && *final(self) == *old(self),
                }
            }),
    {
        match self.watch_phase {
            WatchPhase::Idle => false,
            WatchPhase::Waiting => {
                if let Some(pid) = find_game(self.game_name.as_str(), procs) {
                    self.launched_pid = Some(pid);
                    self.watch_phase = WatchPhase::Running;
                    let d = decimal(pid as u64);
                    let mut s = "Game running (PID ".to_owned();
                    s.append(d.as_str());
                    s.append(")");
                    self.watch_status = s;
                    let mut line = "[Launcher] Game process found: PID ".to_owned();
                    line.append(d.as_str());
                    self.append_log(line.as_str());
                }
                false
            },
            WatchPhase::Running => {
                let pid = match self.launched_pid {
                    Some(pid) => pid,
                    None => {
                        return false;
                    },
                };
                if is_alive(procs, pid) {
                    return false;
                }
                if let Some(new_pid) = find_game(self.game_name.as_str(), procs) {
                    self.launched_pid = Some(new_pid);
                    let mut line = "[Launcher] Game PID changed → ".to_owned();
                    let d = decimal(new_pid as u64);
                    line.append(d.as_str());
                    self.append_log(line.as_str());
                    false
                } else {
                    let mut line = "[Launcher] Game (PID ".to_owned();
                    let d = decimal(pid as u64);
                    line.append(d.as_str());
                    line.append(") exited.");
                    self.append_log(line.as_str());
                    self.watch_phase = WatchPhase::Idle;
                    self.launched_pid = None;
                    self.watch_status = String::new();
                    self.auto_restore && self.parked
                }
            },
        }
    }

    /// Ends the watch over a game that is to be killed. Gives the process that is to
    /// be asked to end, and whether Gaming Mode is to be switched off.
    pub fn kill_game(&mut self) -> (r: (Option<u32>, bool))
        ensures
            r.0 == old(self).launched_pid,
            r.1 == (old(self).auto_restore && old(self).parked),
            final(self).feed() == match old(self).launched_pid {
                Some(pid) => old(self).feed().logged(
                    "[Launcher] Sent SIGTERM to PID "@ + dec(pid as nat),
                ),
                None => old(self).feed(),
            },
            final(self).watch_status@.len() == 0,
            final(self).same_but_feed(
                &(GamingModeTab {
                    watch_phase: WatchPhase::Idle,
                    launched_pid: None,
                    watch_status: final(self).watch_status,
                    ..*old(self)
                }),
            ),
    {
        let pid = self.launched_pid;
        if let Some(p) = pid {
            let mut line = "[Launcher] Sent SIGTERM to PID ".to_owned();
            let d = decimal(p as u64);
            line.append(d.as_str());
            self.append_log(line.as_str());
        }
        self.watch_phase = WatchPhase::Idle;
        self.launched_pid = None;
        self.watch_status = String::new();
        (pid, self.auto_restore && self.parked)
    }

    /// Whether there is something to launch.
    pub fn can_launch(&self) -> (r: bool)
        ensures
            r == (self.game_name@.len() > 0 && self.command@.len() > 0),
    {
        !self.game_name.as_str().is_empty() && !self.command.as_str().is_empty()
    }

    /// Launches the game, once Gaming Mode was switched on where it was off. Gives
    /// the program and its arguments; none for a blank command.
    pub fn launch_game(&mut self, now_ms: u64) -> (r: Vec<String>)
        ensures
            texts(r@) == words(old(self).command@),
            final(self).feed() == old(self).feed().logged(
                "[Launcher] Launching '"@ + old(self).game_name@ + "': "@ + old(self).command@,
            ),
            final(self).watch_status@ == "Waiting for game process…"@,
            final(self).same_but_feed(
                &(GamingModeTab {
                    watch_phase: WatchPhase::Waiting,
                    watch_status: final(self).watch_status,
                    last_poll_ms: now_ms,
                    ..*old(self)
                }),
            ),
    {
        let mut line = "[Launcher] Launching '".to_owned();
        line.append(self.game_name.as_str());
        line.append("': ");
        line.append(self.command.as_str());
        self.append_log(line.as_str());
        self.watch_phase = WatchPhase::Waiting;
        self.watch_status = "Waiting for game process…".to_owned();
        self.last_poll_ms = now_ms;
        let cs = chars_of(self.command.as_str());
        let ws = words_of(&cs);
        let mut r: Vec<String> = Vec::new();
        let mut i: usize = 0;
        while i < ws.len()
            invariant
                i <= ws.len(),
                r.len() == i,
                forall|k: int| 0 <= k < i ==> #[trigger] r@[k]@ == ws@[k]@,
            decreases ws.len() - i,
        {
            r.push(text_of(&ws[i]));
            i += 1;
        }
        assert(texts(r@) =~= words(cs@));
        r
    }

    /// Takes over a game that was picked from Steam.
    pub fn pick_steam(&mut self, appid: &str, name: &str)
        ensures
            final(self).game_name@ == name@,
            final(self).command@ == "steam -applaunch "@ + appid@,
            *final(self) == (GamingModeTab {
                game_name: final(self).game_name,
                command: final(self).command,
                ..*old(self)
            }),
    {
        self.game_name = name.to_owned();
        let mut s = "steam -applaunch ".to_owned();
        s.append(appid);
        self.command = s;
    }

    /// Takes over a game that was picked from Lutris.
    pub fn pick_lutris(&mut self, slug: &str, name: &str)
        ensures
            final(self).game_name@ == name@,
            final(self).command@ == "lutris lutris:rungame/"@ + slug@,
            *final(self) == (GamingModeTab {
                game_name: final(self).game_name,
                command: final(self).command,
                ..*old(self)
            }),
    {
        self.game_name = name.to_owned();
        let mut s = "lutris lutris:rungame/".to_owned();
        s.append(slug);
        self.command = s;
    }

    // ── Profiles ─────────────────────────────────────────────────────────────

    /// Loads a profile. Gives whether the CPUs are to be parked anew: Gaming Mode is
    /// then to be switched off, after which it is switched on again.
    pub fn load_profile(&mut self, name: &str) -> (repark: bool)
        ensures
            ({
                let ps = old(self).config.gaming_mode.profiles@;
                if !ps.contains_key(name@) {
                    !repark && *final(self) == *old(self)
                } else {
                    let p = ps[name@];
                    let f = old(self).feed().logged(
                        "[Profile] Loaded '"@ + name@ + "' — "@ + p.command@,
                    );
                    &&& repark == old(self).parked
                    &&& final(self).game_name@ == p.game_name@
                    &&& final(self).command@ == p.command@
                    &&& final(self).preferred_checks@ == overlaid(
                        old(self).preferred_checks@,
                        p.cpu_states@,
                    )
                    &&& final(self).feed() == if old(self).parked {
                        f.logged("[Profile] Re-applying CPU parking for '"@ + name@ + "'…"@)
                    } else {
                        f
                    }
                    &&& final(self).same_but_feed(
                        &(GamingModeTab {
                            game_name: final(self).game_name,
                            command: final(self).command,
                            elevate_nice: p.elevate_nice,
                            preferred_checks: final(self).preferred_checks,
                            pending_enable_after_unpark: repark
                                || old(self).pending_enable_after_unpark,
                            ..*old(self)
                        }),
                    )
                }
            }),
    {
        let (game_name, command, elevate_nice, checks) = match self.config.gaming_mode.profiles.get(
            name,
        ) {
            None => {
                return false;
            },
            Some(p) => (
                p.game_name.clone(),
                p.command.clone(),
                p.elevate_nice,
                overlay(&self.preferred_checks, &p.cpu_states),
            ),
        };
        let mut line = "[Profile] Loaded '".to_owned();
        line.append(name);
        line.append("' — ");
        line.append(command.as_str());
        self.game_name = game_name;
        self.command = command;
        self.elevate_nice = elevate_nice;
        self.preferred_checks = checks;
        self.append_log(line.as_str());
        if self.parked {
            let mut again = "[Profile] Re-applying CPU parking for '".to_owned();
            again.append(name);
            again.append("'…");
            self.append_log(again.as_str());
            self.pending_enable_after_unpark = true;
        }
        self.parked
    }

    /// The name under which a profile is saved: the selected one, else the game's.
    pub open spec fn profile_name(&self) -> Seq<char> {
        if self.selected_profile@.len() == 0 {
            self.game_name@
        } else {
            self.selected_profile@
        }
    }

    /// A profile that holds what the tab shows.
    pub open spec fn is_saved_as(&self, p: GamingProfile) -> bool {
        &&& p.game_name@ == self.game_name@
        &&& p.command@ == self.command@
        &&& p.cpu_states@ == self.preferred_checks@
        &&& p.elevate_nice == self.elevate_nice
    }

    /// Saves what the tab shows as a profile; without a name nothing happens.
    pub fn save_profile(&mut self)
        ensures
            ({
                let name = old(self).profile_name();
                if name.len() == 0 {
                    *final(self) == *old(self)
                } else {
                    let (before, after) = (
                        old(self).config.gaming_mode,
                        final(self).config.gaming_mode,
                    );
                    &&& after.profiles@.contains_key(name)
                    &&& old(self).is_saved_as(after.profiles@[name])
                    &&& after.profiles@ == before.profiles@.insert(name, after.profiles@[name])
                    &&& after.auto_detect == before.auto_detect
                    &&& after.auto_park == before.auto_park
                    &&& final(self).selected_profile@ == name
                    &&& final(self).feed() == old(self).feed().sent(
                        EventView::ConfigChanged,
                    ).logged("[Profile] Saved '"@ + name + "'"@)
                    &&& final(self).same_but_feed(
                        &(GamingModeTab {
                            config: Config { gaming_mode: after, ..old(self).config },
                            selected_profile: final(self).selected_profile,
                            ..*old(self)
                        }),
                    )
                }
            }),
    {
        let name = if self.selected_profile.as_str().is_empty() {
            self.game_name.clone()
        } else {
            self.selected_profile.clone()
        };
        if name.as_str().is_empty() {
            return;
        }
        let profile = GamingProfile {
            game_name: self.game_name.clone(),
            command: self.command.clone(),
            cpu_states: self.preferred_checks.copy(),
            elevate_nice: self.elevate_nice,
        };
        self.config.gaming_mode.profiles.insert(name.clone(), profile);
        self.selected_profile = name.clone();
        self.send(GamingEvent::ConfigChanged);
        let mut line = "[Profile] Saved '".to_owned();
        line.append(name.as_str());
        line.append("'");
        self.append_log(line.as_str());
    }

    /// Deletes the selected profile.
    pub fn delete_profile(&mut self)
        ensures
            final(self).config.gaming_mode.profiles@
                == old(self).config.gaming_mode.profiles@.remove(old(self).selected_profile@),
            final(self).selected_profile@.len() == 0,
            final(self).feed() == old(self).feed().sent(EventView::ConfigChanged),
            final(self).same_but_feed(
                &(GamingModeTab {
                    config: Config {
                        gaming_mode: crate::config::GamingModeConfig {
                            profiles: final(self).config.gaming_mode.profiles,
                            ..old(self).config.gaming_mode
                        },
                        ..old(self).config
                    },
                    selected_profile: final(self).selected_profile,
                    ..*old(self)
                }),
            ),
    {
        let name = self.selected_profile.clone();
        self.config.gaming_mode.profiles.remove(name.as_str());
        self.selected_profile = String::new();
        self.send(GamingEvent::ConfigChanged);
    }

    /// Sets whether Gaming Mode follows games by itself, and whether it then parks
    /// CPUs.
    pub fn set_auto(&mut self, auto_detect: bool, auto_park: bool)
        ensures
            final(self).feed() == if auto_detect != old(self).config.gaming_mode.auto_detect
                || auto_park != old(self).config.gaming_mode.auto_park {
                old(self).feed().sent(EventView::ConfigChanged)
            } else {
                old(self).feed()
            },
            final(self).same_but_feed(
                &(GamingModeTab {
                    config: Config {
                        gaming_mode: crate::config::GamingModeConfig {
                            auto_detect,
                            auto_park,
                            ..old(self).config.gaming_mode
                        },
                        ..old(self).config
                    },
                    ..*old(self)
                }),
            ),
    {
        if auto_detect != self.config.gaming_mode.auto_detect || auto_park
            != self.config.gaming_mode.auto_park {
            self.config.gaming_mode.auto_detect = auto_detect;
            self.config.gaming_mode.auto_park = auto_park;
            self.send(GamingEvent::ConfigChanged);
        }
    }

    // ── What is shown ────────────────────────────────────────────────────────

    /// The cores are unequal.
    pub fn has_asymmetry(&self) -> (r: bool)
        ensures
            r == match opt_topology(self.topo) {
                Some(t) => t.non_preferred != Set::<u32>::empty(),
                None => false,
            },
    {
        match &self.topo {
            Some(t) => t.has_asymmetry(),
            None => false,
        }
    }

    /// Whether the button that switches Gaming Mode can be used.
    pub fn can_switch(&self) -> (r: bool)
        ensures
            r == (opt_topology(self.topo) is Some && opt_topology(self.topo)->0.non_preferred
                != Set::<u32>::empty() && self.helper_ok && !self.parking_in_progress),
    {
        self.has_asymmetry() && self.helper_ok && !self.parking_in_progress
    }

    /// What is said above the map of the cores.
    pub fn map_help(&self) -> (r: String)
        ensures
            r@ == match opt_topology(self.topo) {
                Some(t) => if t.non_preferred != Set::<u32>::empty() {
                    "Parks "@ + t.non_preferred_label
                        + " so games initialise their thread pool on "@ + t.preferred_label
                        + " only. Click a core to keep or park it."@
                } else {
                    "No CPU asymmetry detected — parking is unavailable on this machine."@
                },
                None => "No CPU asymmetry detected — parking is unavailable on this machine."@,
            },
    {
        if let Some(t) = &self.topo {
            if t.has_asymmetry() {
                let mut s = "Parks ".to_owned();
                s.append(t.non_preferred_label.as_str());
                s.append(" so games initialise their thread pool on ");
                s.append(t.preferred_label.as_str());
                s.append(" only. Click a core to keep or park it.");
                return s;
            }
        }
        "No CPU asymmetry detected — parking is unavailable on this machine.".to_owned()
    }

    /// The power profile that is shown as selected: performance, balanced, power
    /// save.
    pub fn selected_power(&self) -> (r: usize)
        ensures
            r == if self.power_governor@ == "performance"@ {
                0int
            } else if self.power_governor@ == "powersave"@ {
                2
            } else {
                1
            },
    {
        if same_text(self.power_governor.as_str(), "performance") {
            0
        } else if same_text(self.power_governor.as_str(), "powersave") {
            2
        } else {
            1
        }
    }

    /// What is said beside the power profiles.
    pub fn power_caption(&self) -> (r: String)
        ensures
            r@ == if self.helper_ok {
                self.power_status_text@
            } else {
                "requires the privileged helper"@
            },
    {
        if self.helper_ok {
            self.power_status_text.clone()
        } else {
            "requires the privileged helper".to_owned()
        }
    }
}

/// A process is among those that there are.
pub open spec fn alive(procs: Seq<GameProc>, pid: u32) -> bool {
    exists|i: int| 0 <= i < procs.len() && (#[trigger] procs[i]).pid == pid
}

/// Whether a process is among those that there are.
fn is_alive(procs: &Vec<GameProc>, pid: u32) -> (r: bool)
    ensures
        r == alive(procs@, pid),
{
    let mut i: usize = 0;
    while i < procs.len()
        invariant
            i <= procs.len(),
            forall|k: int| 0 <= k < i ==> (#[trigger] procs@[k]).pid != pid,
        decreases procs.len() - i,
    {
        if procs[i].pid == pid {
            return true;
        }
        i += 1;
    }
    false
}

/// A profile that was saved and is loaded again gives back the game, the command,
/// the choice of priority and the marks of the CPUs, whatever was set in between,
/// as long as the preferred CPUs are the same.
pub proof fn law_saved_profile_loads_back(
    saved: GamingModeTab,
    now: GamingModeTab,
    p: GamingProfile,
)
    requires
        saved.is_saved_as(p),
        now.preferred_checks@.dom() == saved.preferred_checks@.dom(),
    ensures
        p.game_name@ == saved.game_name@,
        p.command@ == saved.command@,
        p.elevate_nice == saved.elevate_nice,
        overlaid(now.preferred_checks@, p.cpu_states@) == saved.preferred_checks@,
{
    crate::gui::core_map::law_stored_marks_come_back(
        saved.preferred_checks@,
        now.preferred_checks@,
    );
}

/// A profile that is loaded while cores are parked is parked anew as it was stored:
/// its marks outlast the time in which all CPUs are back.
pub proof fn law_loaded_profile_is_parked_anew(
    loaded: GamingModeTab,
    unparked: GamingModeTab,
    m: Machine,
)
    requires
        loaded.preferred_checks@.dom() == m.topo@.preferred,
        unparked.shows_topology(m),
        unparked.preferred_checks@ == overlaid(m.online_marks(), loaded.preferred_checks@),
    ensures
        unparked.preferred_checks@ == loaded.preferred_checks@,
        unparked.to_park() == cpus_to_park(m.topo@.non_preferred, loaded.preferred_checks@),
{
    assert(m.online_marks().dom() =~= m.topo@.preferred);
    crate::gui::core_map::law_stored_marks_come_back(
        loaded.preferred_checks@,
        m.online_marks(),
    );
}

/// Gaming mode parks the CPUs that games do not prefer and those that the user has taken
/// out, and no others; it does so only where the CPUs differ and the helper is there.
pub proof fn law_what_is_parked_is_not_preferred_or_taken_out(
    tab: &mut GamingModeTab,
    helper_installed: bool,
    r: Option<IdSet>,
    c: u32,
)
    requires
        call_ensures(GamingModeTab::begin_enable, (tab, helper_installed), r),
    ensures
        r matches Some(s) ==> {
            &&& helper_installed
            &&& old(tab).topo matches Some(t) && (s@.contains(c) <==> t@.non_preferred.contains(c)
                || (old(tab).preferred_checks@.contains_key(c) && !old(tab).preferred_checks@[c]))
            &&& final(tab).parking_in_progress
        },
        r is None ==> {
            ||| !helper_installed
            ||| old(tab).topo is None
            ||| !old(tab).topo->0@.non_preferred.contains(c)
        },
        r is None ==> final(tab).parking_in_progress == old(tab).parking_in_progress,
{
    if r is None && old(tab).topo is Some && old(tab).topo->0@.non_preferred.contains(c) {
        assert(opt_topology(old(tab).topo)->0.non_preferred != Set::<u32>::empty());
    }
}

/// Gaming mode is on after parking exactly where parking succeeded, and the rest of the
/// program is told so then and only then.
pub proof fn law_mode_is_on_where_parking_succeeded(
    tab: &mut GamingModeTab,
    ok: bool,
    msgs: &Vec<String>,
    online: &IdSet,
    offline: &IdSet,
)
    requires
        call_ensures(GamingModeTab::finish_enable, (tab, ok, msgs, online, offline), ()),
        msgs@.len() == 0,
    ensures
        final(tab).parked == ok,
        !final(tab).parking_in_progress,
        ok ==> final(tab).events@.len() == old(tab).events@.len() + 3 && event_view(
            final(tab).events@[old(tab).events@.len() as int + 1],
        ) == (EventView::ModeChanged { active: true, elevate_nice: old(tab).elevate_nice }),
        !ok ==> final(tab).events@.len() == old(tab).events@.len() + 1 && event_view(
            final(tab).events@.last(),
        ) is Message,
        final(tab).preferred_checks == old(tab).preferred_checks,
        final(tab).elevate_nice == old(tab).elevate_nice,
{
    let (f, g) = (old(tab).feed(), final(tab).feed());
    assert(texts(msgs@) =~= Seq::<Seq<char>>::empty());
    assert(f.logged_all(texts(msgs@)) == f);
    assert(f.events.len() == old(tab).events@.len() && g.events.len() == final(tab).events@.len());
    if ok {
        assert(g.events[f.events.len() as int + 1] == event_view(
            final(tab).events@[f.events.len() as int + 1],
        ));
    } else {
        assert(g.events.last() == event_view(final(tab).events@.last()));
    }
}

/// While a game is waited for, the processes are looked at every two seconds, while it
/// runs every five, and otherwise never.
pub proof fn law_games_are_looked_for_in_their_intervals(
    tab: &mut GamingModeTab,
    now: u64,
    due: bool,
)
    requires
        call_ensures(GamingModeTab::poll_due, (tab, now), due),
    ensures
        old(tab).watch_phase == WatchPhase::Idle ==> !due,
        old(tab).watch_phase == WatchPhase::Waiting ==> (due <==> now >= old(tab).last_poll_ms
            + 2000),
        old(tab).watch_phase == WatchPhase::Running ==> (due <==> now >= old(tab).last_poll_ms
            + 5000),
        due ==> final(tab).last_poll_ms == now,
        !due ==> final(tab).last_poll_ms == old(tab).last_poll_ms,
{
}

/// A game that is still there changes nothing. One that is gone, with no other process of
/// its name, ends the watch, and gaming mode where that was asked for. A game that was
/// waited for is taken up as soon as a process of its name is there.
pub proof fn law_watch_follows_the_game(
    tab: &mut GamingModeTab,
    procs: &Vec<GameProc>,
    off: bool,
    pid: u32,
    i: int,
)
    requires
        call_ensures(GamingModeTab::poll_game_process, (tab, procs), off),
    ensures
        ({
            let name = old(tab).game_name@;
            let none = forall|k: int| 0 <= k < procs@.len() ==> !is_game(name, #[trigger] procs@[k]);
            let first = 0 <= i < procs@.len() && is_game(name, procs@[i]) && forall|k: int|
                0 <= k < i ==> !is_game(name, #[trigger] procs@[k]);
            &&& old(tab).watch_phase == WatchPhase::Idle ==> !off && *final(tab) == *old(tab)
            &&& old(tab).watch_phase == WatchPhase::Waiting && none ==> !off && *final(tab) == *old(tab)
            &&& old(tab).watch_phase == WatchPhase::Waiting && first ==> !off
                && final(tab).watch_phase == WatchPhase::Running && final(tab).launched_pid == Some(
                procs@[i].pid,
            )
            &&& old(tab).watch_phase == WatchPhase::Running && old(tab).launched_pid == Some(pid)
                && (exists|k: int| 0 <= k < procs@.len() && (#[trigger] procs@[k]).pid == pid)
                ==> !off && *final(tab) == *old(tab)
            &&& old(tab).watch_phase == WatchPhase::Running && old(tab).launched_pid == Some(pid)
                && (forall|k: int| 0 <= k < procs@.len() ==> (#[trigger] procs@[k]).pid != pid) ==> {
                &&& first ==> !off && final(tab).launched_pid == Some(procs@[i].pid)
                    && final(tab).watch_phase == WatchPhase::Running
                &&& none ==> off == (old(tab).auto_restore && old(tab).parked)
                    && final(tab).launched_pid is None && final(tab).watch_phase == WatchPhase::Idle
            }
        }),
{
    lemma_first_game(old(tab).game_name@, procs@, i);
}

/// A profile that was saved gives back the name, the command, the priority and the CPUs
/// of when it was saved, wherever it is loaded.
pub proof fn law_saved_profiles_are_loaded_back(
    tab: &mut GamingModeTab,
    then: &mut GamingModeTab,
    name: &str,
    repark: bool,
)
    requires
        call_ensures(GamingModeTab::save_profile, (tab,), ()),
        old(then).config == final(tab).config,
        old(then).preferred_checks@.dom() == old(tab).preferred_checks@.dom(),
        call_ensures(GamingModeTab::load_profile, (then, name), repark),
        name@.len() > 0,
        name@ == if old(tab).selected_profile@.len() > 0 {
            old(tab).selected_profile@
        } else {
            old(tab).game_name@
        },
    ensures
        final(tab).selected_profile@ == name@,
        final(then).game_name@ == old(tab).game_name@,
        final(then).command@ == old(tab).command@,
        final(then).elevate_nice == old(tab).elevate_nice,
        final(then).preferred_checks@ =~= old(tab).preferred_checks@,
        repark == old(then).parked,
        final(then).parked == old(then).parked,
{
}

/// A profile that was deleted is loaded no more; the others are as they were.
pub proof fn law_deleted_profiles_are_gone(
    tab: &mut GamingModeTab,
    then: &mut GamingModeTab,
    name: &str,
    repark: bool,
    other: Seq<char>,
)
    requires
        call_ensures(GamingModeTab::delete_profile, (tab,), ()),
        *old(then) == *final(tab),
        name@ == old(tab).selected_profile@,
        call_ensures(GamingModeTab::load_profile, (then, name), repark),
        other != name@,
    ensures
        !repark && *final(then) == *old(then),
        final(tab).config.gaming_mode.profiles@.contains_key(other)
            == old(tab).config.gaming_mode.profiles@.contains_key(other),
        final(tab).config.gaming_mode.profiles@.contains_key(other)
            ==> final(tab).config.gaming_mode.profiles@[other]
            == old(tab).config.gaming_mode.profiles@[other],
{
}

/// Without hyper-threads, one CPU of each core is kept.
pub proof fn law_siblings_are_taken_out(tab: &mut GamingModeTab, c: u32)
    requires
        call_ensures(GamingModeTab::keep_no_smt, (tab,), ()),
        old(tab).preferred_checks@.contains_key(c),
    ensures
        final(tab).preferred_checks@.contains_key(c),
        final(tab).preferred_checks@[c] <==> !old(tab).smt_siblings@.contains(c),
{
    assert(final(tab).preferred_checks@.dom().contains(c));
}

/// A game that is killed is watched no more; gaming mode ends with it where that was
/// asked for.
pub proof fn law_killed_game_is_watched_no_more(tab: &mut GamingModeTab, r: (Option<u32>, bool))
    requires
        call_ensures(GamingModeTab::kill_game, (tab,), r),
    ensures
        r.0 == old(tab).launched_pid,
        r.1 <==> old(tab).auto_restore && old(tab).parked,
        final(tab).watch_phase == WatchPhase::Idle,
        final(tab).launched_pid is None,
        final(tab).parked == old(tab).parked,
{
}

/// Once the CPUs are back gaming mode is off; it is to go on again only where a profile is
/// waiting, whose choice of CPUs is kept then.
pub proof fn law_mode_is_off_once_the_cpus_are_back(
    tab: &mut GamingModeTab,
    msgs: &Vec<String>,
    machine: &Machine,
    again: bool,
    c: u32,
)
    requires
        call_ensures(GamingModeTab::finish_disable, (tab, msgs, machine), again),
    ensures
        !final(tab).parked,
        again == old(tab).pending_enable_after_unpark,
        !final(tab).pending_enable_after_unpark,
        final(tab).preferred_checks@.contains_key(c) <==> machine.topo@.preferred.contains(c),
        !again && machine.topo@.preferred.contains(c) ==> final(tab).preferred_checks@[c]
            == !machine.offline@.contains(c),
        again && machine.topo@.preferred.contains(c) && old(tab).preferred_checks@.contains_key(c)
            ==> final(tab).preferred_checks@[c] == old(tab).preferred_checks@[c],
{
}

/// A game is launched by the words of its command, and waited for from then on.
pub proof fn law_launched_game_is_waited_for(tab: &mut GamingModeTab, now: u64, r: Vec<String>)
    requires
        call_ensures(GamingModeTab::launch_game, (tab, now), r),
    ensures
        texts(r@) == words(old(tab).command@),
        final(tab).watch_phase == WatchPhase::Waiting,
        final(tab).last_poll_ms == now,
        final(tab).parked == old(tab).parked,
{
}

/// The switch can be used where the CPUs differ, the helper works and nothing is under
/// way.
pub proof fn law_switch_needs_two_kinds_of_cpus(tab: &GamingModeTab, r: bool, a: bool)
    requires
        call_ensures(GamingModeTab::can_switch, (tab,), r),
        call_ensures(GamingModeTab::has_asymmetry, (tab,), a),
    ensures
        r <==> a && tab.helper_ok && !tab.parking_in_progress,
        tab.topo is None ==> !a,
{
}

/// The helper works where it is current and allowed; it wants an update where it is
/// installed and allowed but not current.
pub proof fn law_helper_works_where_it_is_current_and_allowed(
    tab: &mut GamingModeTab,
    helper: HelperState,
)
    requires
        call_ensures(GamingModeTab::refresh_helper_status, (tab, helper), ()),
    ensures
        final(tab).helper_ok <==> helper.current && helper.authorized,
        final(tab).helper_outdated <==> helper.installed && helper.authorized && !helper.current,
        final(tab).parked == old(tab).parked,
{
}

/// A reset switches gaming mode off, and tells so where it was on.
pub proof fn law_reset_switches_gaming_mode_off(tab: &mut GamingModeTab, any_offline: bool)
    requires
        call_ensures(GamingModeTab::begin_reset, (tab, any_offline), ()),
    ensures
        !final(tab).parked,
        old(tab).parked ==> final(tab).events@.len() > old(tab).events@.len() && event_view(
            final(tab).events@[old(tab).events@.len() as int],
        ) == (EventView::ModeChanged { active: false, elevate_nice: false }),
        !old(tab).parked && !any_offline ==> final(tab).events@.len() == old(tab).events@.len(),
{
    let (f, g) = (old(tab).feed(), final(tab).feed());
    assert(f.events.len() == old(tab).events@.len() && g.events.len() == final(tab).events@.len());
    if old(tab).parked {
        assert(g.events[f.events.len() as int] == event_view(
            final(tab).events@[f.events.len() as int],
        ));
    }
}

} // verus!
