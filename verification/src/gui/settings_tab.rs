//! The settings tab: what is edited, what is saved, and the start with the session.

use vstd::prelude::*;
use vstd::string::*;

use crate::binary::{apart, lemma_not_apart, single, Binary, SINGLE};
use crate::alerts::HwAlertConfig;
use crate::config::{copy_opt, MonitorConfig};
use crate::cpu_park::available_governors;
use crate::cpulist::{cpulist, cpuset_to_cpulist};
use crate::gui::dialogs::{AffinityDialog, CpuContext};
use crate::gui::theme::AppTheme;
use crate::helper::{run_message, run_ok, HelperRun};
use crate::idset::ascending;
use crate::number::{dec, decimal};
use crate::text::{join, joined, opt_text, same_text, texts, trim, trimmed_text, words};
use crate::topology::{CpuTopology, TopologyKind};

verus! {

// ── Settings ─────────────────────────────────────────────────────────────────

/// The settings that the tab edits. The opacity is in thousandths.
#[derive(Debug)]
pub struct Settings {
    pub default_affinity: Option<String>,
    pub monitor: MonitorConfig,
    pub notifications_enabled: bool,
    pub check_updates_on_start: bool,
    pub hw_alerts: HwAlertConfig,
    pub opacity_milli: u32,
    pub theme: AppTheme,
}

/// The settings, as values.
pub struct SettingsView {
    pub default_affinity: Option<Seq<char>>,
    pub monitor: MonitorConfig,
    pub notifications_enabled: bool,
    pub check_updates_on_start: bool,
    pub hw_alerts: HwAlertConfig,
    pub opacity_milli: u32,
    pub theme: AppTheme,
}

impl View for Settings {
    type V = SettingsView;

    open spec fn view(&self) -> SettingsView {
        SettingsView {
            default_affinity: opt_text(self.default_affinity),
            monitor: self.monitor,
            notifications_enabled: self.notifications_enabled,
            check_updates_on_start: self.check_updates_on_start,
            hw_alerts: self.hw_alerts,
            opacity_milli: self.opacity_milli,
            theme: self.theme,
        }
    }
}

impl Settings {
    /// The same settings.
    pub fn copy(&self) -> (r: Settings)
        ensures
            r@ == self@,
    {
        Settings {
            default_affinity: copy_opt(&self.default_affinity),
            monitor: self.monitor,
            notifications_enabled: self.notifications_enabled,
            check_updates_on_start: self.check_updates_on_start,
            hw_alerts: self.hw_alerts,
            opacity_milli: self.opacity_milli,
            theme: self.theme,
        }
    }
}

/// Two temperatures differ by more than a hundredth of a degree.
pub open spec fn temps_differ(a: i64, b: i64) -> bool {
    apart(single(a as int, 1000), single(b as int, 1000), single(1, 100), SINGLE as nat)
}

/// Settings that are not applied while they are edited differ. The opacity and the
/// theme, which are, do not count.
pub open spec fn edits_differ(a: SettingsView, b: SettingsView) -> bool {
    ||| a.monitor != b.monitor
    ||| a.notifications_enabled != b.notifications_enabled
    ||| a.check_updates_on_start != b.check_updates_on_start
    ||| a.hw_alerts.enabled != b.hw_alerts.enabled
    ||| temps_differ(a.hw_alerts.temp_threshold_milli, b.hw_alerts.temp_threshold_milli)
    ||| a.hw_alerts.cooldown_ms != b.hw_alerts.cooldown_ms
}

/// Whether settings that are not applied while they are edited differ.
fn differ(a: &Settings, b: &Settings) -> (r: bool)
    ensures
        r == edits_differ(a@, b@),
{
    let x = Binary::signed_single(a.hw_alerts.temp_threshold_milli, 1000);
    let y = Binary::signed_single(b.hw_alerts.temp_threshold_milli, 1000);
    let temps = x.is_apart(y, Binary::single(1, 100), SINGLE);
    a.monitor != b.monitor || a.notifications_enabled != b.notifications_enabled
        || a.check_updates_on_start != b.check_updates_on_start
        || a.hw_alerts.enabled != b.hw_alerts.enabled || temps
        || a.hw_alerts.cooldown_ms != b.hw_alerts.cooldown_ms
}

/// An opacity within its limits.
pub open spec fn clamped_opacity(milli: u32) -> u32 {
    if milli < 100 {
        100
    } else if milli > 1000 {
        1000
    } else {
        milli
    }
}

// ── Power settings ───────────────────────────────────────────────────────────

/// A setting of the processor, from its file; empty where it could not be read.
pub fn read_setting(text: Option<&str>) -> (r: String)
    ensures
        r@ == match text {
            Some(t) => trim(t@),
            None => Seq::empty(),
        },
{
    match text {
        Some(t) => trimmed_text(t),
        None => {
            let s = String::new();
            assert(s@ =~= Seq::empty());
            s
        },
    }
}

/// The file of a setting of one CPU.
pub fn setting_path(cpu: u32, setting: &str) -> (r: String)
    ensures
        r@ == "/sys/devices/system/cpu/cpu"@ + dec(cpu as nat) + "/cpufreq/"@ + setting@,
{
    let mut s = "/sys/devices/system/cpu/cpu".to_owned();
    let d = decimal(cpu as u64);
    s.append(d.as_str());
    s.append("/cpufreq/");
    s.append(setting);
    s
}

/// Whether every one of the direct writes failed, so that the helper is to be used.
pub fn all_failed(written: &Vec<bool>) -> (r: bool)
    ensures
        r == (forall|i: int| 0 <= i < written@.len() ==> !#[trigger] written@[i]),
{
    let mut i: usize = 0;
    while i < written.len()
        invariant
            i <= written.len(),
            forall|k: int| 0 <= k < i ==> !#[trigger] written@[k],
        decreases written.len() - i,
    {
        if written[i] {
            return false;
        }
        i += 1;
    }
    true
}

/// What comes of changing a setting of the processor: it is written directly, and
/// where every write was refused the helper decides.
pub fn set_on_all(written: &Vec<bool>, helper: &HelperRun) -> (r: Result<(), String>)
    ensures
        ({
            let refused = forall|i: int| 0 <= i < written@.len() ==> !#[trigger] written@[i];
            match r {
                Ok(_) => !refused || run_ok(*helper),
                Err(e) => refused && !run_ok(*helper) && e@ == run_message(*helper),
            }
        }),
{
    if all_failed(written) {
        crate::cpu_park::set_governor_via_helper(helper)
    } else {
        Ok(())
    }
}

// ── Start with the session ───────────────────────────────────────────────────

/// The entry that starts the program with the desktop session.
pub fn autostart_path(home: &str) -> (r: String)
    ensures
        r@ == home@ + "/.config/autostart/argus-lasso.desktop"@,
{
    let mut s = home.to_owned();
    s.append("/.config/autostart/argus-lasso.desktop");
    s
}

/// The unit that starts the program with the session.
pub fn unit_path(home: &str) -> (r: String)
    ensures
        r@ == home@ + "/.config/systemd/user/argus-lasso.service"@,
{
    let mut s = home.to_owned();
    s.append("/.config/systemd/user/argus-lasso.service");
    s
}

/// The text of the desktop entry.
pub fn autostart_entry(exe: &str) -> (r: String)
    ensures
        r@ == "[Desktop Entry]\nType=Application\nName=Argus-Lasso\nExec="@ + exe@
            + " --minimized\nIcon=argus-lasso\nHidden=false\nX-GNOME-Autostart-enabled=true\n"@,
{
    let mut s = "[Desktop Entry]\nType=Application\nName=Argus-Lasso\nExec=".to_owned();
    s.append(exe);
    s.append(" --minimized\nIcon=argus-lasso\nHidden=false\nX-GNOME-Autostart-enabled=true\n");
    s
}

/// The text of the unit.
pub fn unit_text(exe: &str) -> (r: String)
    ensures
        r@
            == "[Unit]\nDescription=Argus-Lasso Linux\nAfter=graphical-session.target\n\n[Service]\nExecStart="@
            + exe@
            + " --minimized\nRestart=on-failure\n\n[Install]\nWantedBy=graphical-session.target\n"@,
{
    let mut s =
        "[Unit]\nDescription=Argus-Lasso Linux\nAfter=graphical-session.target\n\n[Service]\nExecStart=".to_owned();
    s.append(exe);
    s.append(
        " --minimized\nRestart=on-failure\n\n[Install]\nWantedBy=graphical-session.target\n",
    );
    s
}

/// Whether the program starts with the session: there is a desktop entry, or the
/// unit is enabled.
pub fn check_autostart_enabled(entry_exists: bool, systemctl: Option<&str>) -> (r: bool)
    ensures
        r == (entry_exists || match systemctl {
            Some(out) => trim(out@) == "enabled"@,
            None => false,
        }),
{
    entry_exists || match systemctl {
        Some(out) => {
            let t = trimmed_text(out);
            same_text(t.as_str(), "enabled")
        },
        None => false,
    }
}

// ── The tab ──────────────────────────────────────────────────────────────────

/// What the tab is told of the processor and of the start with the session.
pub struct PowerState {
    pub governor: String,
    pub governors: Vec<String>,
    pub epp: String,
    pub epps: Vec<String>,
    pub autostart: bool,
}

/// Reads the power settings out of their files.
pub fn read_power(
    governor: Option<&str>,
    governors: Option<&str>,
    epp: Option<&str>,
    epps: Option<&str>,
    autostart: bool,
) -> (r: PowerState)
    ensures
        r.governor@ == match governor {
            Some(t) => trim(t@),
            None => Seq::empty(),
        },
        texts(r.governors@) == match governors {
            Some(t) => words(t@),
            None => Seq::<Seq<char>>::empty(),
        },
        r.epp@ == match epp {
            Some(t) => trim(t@),
            None => Seq::empty(),
        },
        texts(r.epps@) == match epps {
            Some(t) => words(t@),
            None => Seq::<Seq<char>>::empty(),
        },
        r.autostart == autostart,
{
    PowerState {
        governor: read_setting(governor),
        governors: available_governors(governors),
        epp: read_setting(epp),
        epps: available_governors(epps),
        autostart,
    }
}

/// The tab.
pub struct SettingsTab {
    pub config: Settings,
    /// What was saved last.
    pub saved: Settings,
    pub default_affinity_enabled: bool,
    pub default_affinity_text: String,
    pub cpu_dialog: Option<AffinityDialog>,
    pub opacity_milli: u32,
    pub autostart_enabled: bool,
    /// Whether the program starts with the session, as it was set last.
    pub saved_autostart: bool,
    pub status: String,
    pub theme: AppTheme,
    pub cpu_governor: String,
    pub available_governors: Vec<String>,
    pub cpu_epp: String,
    pub available_epps: Vec<String>,
    /// The governor and the energy preference as they were set last.
    pub saved_governor: String,
    pub saved_epp: String,
    pub power_status: String,
    pub topo: CpuTopology,
}

/// What was asked of the system when the settings were applied, and how it went.
/// What was not asked is not looked at.
pub struct Outcomes {
    pub governor: Result<(), String>,
    pub epp: Result<(), String>,
    pub autostart: Result<(), String>,
}

/// The error text of an outcome.
pub open spec fn error_of(r: Result<(), String>) -> Option<Seq<char>> {
    match r {
        Ok(_) => None,
        Err(e) => Some(e@),
    }
}

/// The choices of how often the table is refreshed, in milliseconds.
pub open spec fn refresh_pick(i: int) -> u64 {
    if i == 0 {
        500
    } else if i == 1 {
        1000
    } else if i == 2 {
        2000
    } else {
        5000
    }
}

impl SettingsTab {
    /// The tab at the start.
    pub fn new(config: Settings, power: PowerState, topo: CpuTopology) -> (r: SettingsTab)
        ensures
            r.config@ == config@,
            r.saved@ == config@,
            r.default_affinity_text@ == match config@.default_affinity {
                Some(a) => a,
                None => Seq::empty(),
            },
            r.default_affinity_enabled == (r.default_affinity_text@.len() > 0),
            r.cpu_dialog is None,
            r.opacity_milli == clamped_opacity(config.opacity_milli),
            r.autostart_enabled == power.autostart,
            r.saved_autostart == power.autostart,
            r.status@.len() == 0,
            r.theme == config.theme,
            r.cpu_governor@ == power.governor@,
            r.saved_governor@ == power.governor@,
            r.available_governors == power.governors,
            r.cpu_epp@ == power.epp@,
            r.saved_epp@ == power.epp@,
            r.available_epps == power.epps,
            r.power_status@.len() == 0,
            r.topo == topo,
    {
        let text = match &config.default_affinity {
            Some(a) => a.clone(),
            None => {
                let s = String::new();
                assert(s@ =~= Seq::empty());
                s
            },
        };
        let opacity_milli: u32 = if config.opacity_milli < 100 {
            100
        } else if config.opacity_milli > 1000 {
            1000
        } else {
            config.opacity_milli
        };
        SettingsTab {
            default_affinity_enabled: !text.as_str().is_empty(),
            default_affinity_text: text,
            cpu_dialog: None,
            saved: config.copy(),
            opacity_milli,
            autostart_enabled: power.autostart,
            saved_autostart: power.autostart,
            status: String::new(),
            theme: config.theme,
            config,
            saved_governor: power.governor.clone(),
            cpu_governor: power.governor,
            available_governors: power.governors,
            saved_epp: power.epp.clone(),
            cpu_epp: power.epp,
            available_epps: power.epps,
            power_status: String::new(),
            topo,
        }
    }

    /// The default affinity as it would be stored.
    pub open spec fn affinity_now(&self) -> Option<Seq<char>> {
        if self.default_affinity_enabled && trim(self.default_affinity_text@).len() > 0 {
            Some(trim(self.default_affinity_text@))
        } else {
            None
        }
    }

    /// The default affinity as it would be stored.
    pub fn edited_affinity(&self) -> (r: Option<String>)
        ensures
            opt_text(r) == self.affinity_now(),
    {
        if self.default_affinity_enabled {
            let t = trimmed_text(self.default_affinity_text.as_str());
            if t.as_str().is_empty() {
                None
            } else {
                Some(t)
            }
        } else {
            None
        }
    }

    /// Something was edited that is not saved.
    pub open spec fn dirty(&self) -> bool {
        ||| self.affinity_now() != self.saved@.default_affinity
        ||| edits_differ(self.config@, self.saved@)
        ||| self.autostart_enabled != self.saved_autostart
        ||| self.cpu_governor@ != self.saved_governor@
        ||| self.cpu_epp@ != self.saved_epp@
    }

    /// Whether something was edited that is not saved.
    pub fn is_dirty(&self) -> (r: bool)
        ensures
            r == self.dirty(),
    {
        let now = self.edited_affinity();
        let same_affinity = match (&now, &self.saved.default_affinity) {
            (Some(a), Some(b)) => same_text(a.as_str(), b.as_str()),
            (None, None) => true,
            _ => false,
        };
        !same_affinity || differ(&self.config, &self.saved) || self.autostart_enabled
            != self.saved_autostart || !same_text(
            self.cpu_governor.as_str(),
            self.saved_governor.as_str(),
        ) || !same_text(self.cpu_epp.as_str(), self.saved_epp.as_str())
    }

    /// Brings back what was saved last.
    pub fn discard(&mut self)
        ensures
            final(self).config@ == old(self).saved@,
            final(self).default_affinity_text@ == match old(self).saved@.default_affinity {
                Some(a) => a,
                None => Seq::empty(),
            },
            final(self).default_affinity_enabled == (final(self).default_affinity_text@.len() > 0),
            final(self).autostart_enabled == old(self).saved_autostart,
            final(self).cpu_governor@ == old(self).saved_governor@,
            final(self).cpu_epp@ == old(self).saved_epp@,
            final(self).status@ == "Changes discarded."@,
            final(self).power_status@.len() == 0,
            *final(self) == (SettingsTab {
                config: final(self).config,
                default_affinity_enabled: final(self).default_affinity_enabled,
                default_affinity_text: final(self).default_affinity_text,
                autostart_enabled: final(self).autostart_enabled,
                cpu_governor: final(self).cpu_governor,
                cpu_epp: final(self).cpu_epp,
                status: final(self).status,
                power_status: final(self).power_status,
                ..*old(self)
            }),
    {
        self.config = self.saved.copy();
        let text = match &self.saved.default_affinity {
            Some(a) => a.clone(),
            None => {
                let s = String::new();
                assert(s@ =~= Seq::empty());
                s
            },
        };
        self.default_affinity_enabled = !text.as_str().is_empty();
        self.default_affinity_text = text;
        self.autostart_enabled = self.saved_autostart;
        self.cpu_governor = self.saved_governor.clone();
        self.cpu_epp = self.saved_epp.clone();
        self.status = "Changes discarded.".to_owned();
        self.power_status = String::new();
    }

    /// The governor is to be changed.
    pub open spec fn changes_governor(&self) -> bool {
        self.available_governors@.len() > 0 && self.cpu_governor@ != self.saved_governor@
    }

    /// The energy preference is to be changed.
    pub open spec fn changes_epp(&self) -> bool {
        self.available_epps@.len() > 0 && self.cpu_epp@ != self.saved_epp@
    }

    /// What is to be asked of the system when the settings are applied: to change
    /// the governor, to change the energy preference, to change the start with the
    /// session to this.
    pub fn plan(&self) -> (r: (bool, bool, Option<bool>))
        ensures
            r.0 == self.changes_governor(),
            r.1 == self.changes_epp(),
            r.2 == if self.autostart_enabled != self.saved_autostart {
                Some(self.autostart_enabled)
            } else {
                None
            },
    {
        (
            self.available_governors.len() > 0 && !same_text(
                self.cpu_governor.as_str(),
                self.saved_governor.as_str(),
            ),
            self.available_epps.len() > 0 && !same_text(
                self.cpu_epp.as_str(),
                self.saved_epp.as_str(),
            ),
            if self.autostart_enabled != self.saved_autostart {
                Some(self.autostart_enabled)
            } else {
                None
            },
        )
    }

    /// What is said of the default affinity.
    pub open spec fn affinity_message(&self) -> Seq<char> {
        match self.affinity_now() {
            Some(list) => "Default affinity → "@ + list,
            None => if self.default_affinity_enabled {
                "Default affinity → all CPUs"@
            } else {
                "Default affinity disabled"@
            },
        }
    }

    /// What is said of the governor.
    pub open spec fn governor_messages(&self, o: Outcomes) -> Seq<Seq<char>> {
        if self.changes_governor() {
            match error_of(o.governor) {
                None => seq!["Governor → "@ + self.cpu_governor@],
                Some(e) => seq!["Governor failed: "@ + e],
            }
        } else {
            Seq::empty()
        }
    }

    /// What is said of the energy preference.
    pub open spec fn epp_messages(&self, o: Outcomes) -> Seq<Seq<char>> {
        if self.changes_epp() {
            match error_of(o.epp) {
                None => seq!["EPP → "@ + self.cpu_epp@],
                Some(e) => seq!["EPP failed: "@ + e],
            }
        } else {
            Seq::empty()
        }
    }

    /// What is said of the start with the session.
    pub open spec fn autostart_messages(&self, o: Outcomes) -> Seq<Seq<char>> {
        if self.autostart_enabled != self.saved_autostart {
            match error_of(o.autostart) {
                None => if self.autostart_enabled {
                    seq!["Autostart enabled (XDG + systemd)"@]
                } else {
                    seq!["Autostart disabled"@]
                },
                Some(e) => if self.autostart_enabled {
                    seq!["Autostart failed: "@ + e]
                } else {
                    seq!["Disable failed: "@ + e]
                },
            }
        } else {
            Seq::empty()
        }
    }

    /// All that is said when the settings are applied.
    pub open spec fn messages(&self, o: Outcomes) -> Seq<Seq<char>> {
        seq![self.affinity_message()] + self.governor_messages(o) + self.epp_messages(o)
            + self.autostart_messages(o)
    }

    /// The settings that are saved when they are applied.
    pub open spec fn applied(&self) -> SettingsView {
        SettingsView {
            default_affinity: self.affinity_now(),
            opacity_milli: self.opacity_milli,
            theme: self.theme,
            ..self.config@
        }
    }

    /// Applies the settings, given how it went with the system. Gives what is to be
    /// saved. What the system refused stays unsaved.
    #[verifier::rlimit(60)]
    #[verifier::spinoff_prover]
    pub fn apply(&mut self, o: &Outcomes) -> (r: Settings)
        ensures
            r@ == old(self).applied(),
            final(self).config@ == old(self).applied(),
            final(self).saved@ == old(self).applied(),
            final(self).status@ == join(old(self).messages(*o), "  ·  "@),
            final(self).saved_governor@ == if old(self).changes_governor() && o.governor is Ok {
                old(self).cpu_governor@
            } else {
                old(self).saved_governor@
            },
            final(self).saved_epp@ == if old(self).changes_epp() && o.epp is Ok {
                old(self).cpu_epp@
            } else {
                old(self).saved_epp@
            },
            final(self).saved_autostart == if o.autostart is Ok {
                old(self).autostart_enabled
            } else {
                old(self).saved_autostart
            },
            *final(self) == (SettingsTab {
                config: final(self).config,
                saved: final(self).saved,
                status: final(self).status,
                saved_governor: final(self).saved_governor,
                saved_epp: final(self).saved_epp,
                saved_autostart: final(self).saved_autostart,
                ..*old(self)
            }),
    {
        let ghost start = *self;
        let (governor, epp, autostart) = self.plan();
        let mut msgs: Vec<String> = Vec::new();
        self.config.default_affinity = self.edited_affinity();
        match &self.config.default_affinity {
            Some(list) => {
                let mut s = "Default affinity → ".to_owned();
                s.append(list.as_str());
                msgs.push(s);
            },
            None => {
                if self.default_affinity_enabled {
                    msgs.push("Default affinity → all CPUs".to_owned());
                } else {
                    msgs.push("Default affinity disabled".to_owned());
                }
            },
        }
        let ghost m1 = seq![start.affinity_message()];
        assert(texts(msgs@) =~= m1);
        self.config.opacity_milli = self.opacity_milli;
        self.config.theme = self.theme;
        if governor {
            match &o.governor {
                Ok(_) => {
                    let mut s = "Governor → ".to_owned();
                    s.append(self.cpu_governor.as_str());
                    msgs.push(s);
                    self.saved_governor = self.cpu_governor.clone();
                },
                Err(e) => {
                    let mut s = "Governor failed: ".to_owned();
                    s.append(e.as_str());
                    msgs.push(s);
                },
            }
        }
        let ghost m2 = m1 + start.governor_messages(*o);
        assert(texts(msgs@) =~= m2);
        if epp {
            match &o.epp {
                Ok(_) => {
                    let mut s = "EPP → ".to_owned();
                    s.append(self.cpu_epp.as_str());
                    msgs.push(s);
                    self.saved_epp = self.cpu_epp.clone();
                },
                Err(e) => {
                    let mut s = "EPP failed: ".to_owned();
                    s.append(e.as_str());
                    msgs.push(s);
                },
            }
        }
        let ghost m3 = m2 + start.epp_messages(*o);
        assert(texts(msgs@) =~= m3);
        if let Some(on) = autostart {
            match &o.autostart {
                Ok(_) => {
                    msgs.push(
                        if on {
                            "Autostart enabled (XDG + systemd)".to_owned()
                        } else {
                            "Autostart disabled".to_owned()
                        },
                    );
                    self.saved_autostart = on;
                },
                Err(e) => {
                    let mut s = if on {
                        "Autostart failed: ".to_owned()
                    } else {
                        "Disable failed: ".to_owned()
                    };
                    s.append(e.as_str());
                    msgs.push(s);
                },
            }
        }
        assert(texts(msgs@) =~= start.messages(*o));
        self.status = joined(&msgs, "  ·  ");
        self.saved = self.config.copy();
        self.config.copy()
    }

    // ── Default affinity ─────────────────────────────────────────────────────

    /// What is said above the default affinity.
    pub fn affinity_help(&self) -> (r: String)
        ensures
            r@ == if self.topo@.non_preferred != Set::<u32>::empty() {
                "Applied to every process that doesn't match a specific rule. Detected: "@
                    + match self.topo@.kind {
                    TopologyKind::AmdX3D => "AMD X3D"@,
                    TopologyKind::IntelHybrid => "Intel Hybrid"@,
                    TopologyKind::Uniform => "Symmetric"@,
                } + ". Typical: Default → "@ + self.topo@.non_preferred_label + ", Game rule → "@
                    + self.topo@.preferred_label + "."@
            } else {
                "Applied to every process that doesn't match a specific rule."@
            },
    {
        if self.topo.has_asymmetry() {
            let mut s =
                "Applied to every process that doesn't match a specific rule. Detected: ".to_owned();
            s.append(self.topo.kind_label());
            s.append(". Typical: Default → ");
            s.append(self.topo.non_preferred_label.as_str());
            s.append(", Game rule → ");
            s.append(self.topo.preferred_label.as_str());
            s.append(".");
            s
        } else {
            "Applied to every process that doesn't match a specific rule.".to_owned()
        }
    }

    /// Opens the dialog in which the default affinity is picked.
    pub fn open_picker(&mut self, cpus: &CpuContext)
        ensures
            final(self).cpu_dialog is Some,
            final(self).cpu_dialog->0.shows(
                old(self).default_affinity_text@,
                "Default"@,
                *cpus,
            ),
            *final(self) == (SettingsTab { cpu_dialog: final(self).cpu_dialog, ..*old(self) }),
    {
        self.cpu_dialog = Some(
            AffinityDialog::new(self.default_affinity_text.as_str(), "Default", cpus),
        );
    }

    /// Takes in what the dialog gave; an empty list changes nothing.
    pub fn take_picked(&mut self, list: &str)
        ensures
            final(self).cpu_dialog is None,
            final(self).default_affinity_text@ == if list@.len() > 0 {
                list@
            } else {
                old(self).default_affinity_text@
            },
            *final(self) == (SettingsTab {
                cpu_dialog: None,
                default_affinity_text: final(self).default_affinity_text,
                ..*old(self)
            }),
    {
        if !list.is_empty() {
            self.default_affinity_text = list.to_owned();
        }
        self.cpu_dialog = None;
    }

    /// The CPU lists of the quick presets: the preferred cores, the others, all.
    pub fn presets(&self) -> (r: (String, String, String))
        ensures
            r.0@ == cpulist(ascending(self.topo@.preferred)),
            r.1@ == cpulist(ascending(self.topo@.non_preferred)),
            r.2@.len() == 0,
    {
        (
            cpuset_to_cpulist(&self.topo.preferred),
            cpuset_to_cpulist(&self.topo.non_preferred),
            String::new(),
        )
    }

    /// Whether a quick preset is the one that is set.
    pub fn is_preset(&self, list: &str) -> (r: bool)
        ensures
            r == (self.default_affinity_enabled && trim(self.default_affinity_text@) == list@),
    {
        let t = trimmed_text(self.default_affinity_text.as_str());
        self.default_affinity_enabled && same_text(t.as_str(), list)
    }

    /// Sets a quick preset.
    pub fn use_preset(&mut self, list: &str)
        ensures
            final(self).default_affinity_text@ == list@,
            *final(self) == (SettingsTab {
                default_affinity_enabled: true,
                default_affinity_text: final(self).default_affinity_text,
                ..*old(self)
            }),
    {
        self.default_affinity_text = list.to_owned();
        self.default_affinity_enabled = true;
    }

    // ── Refresh ──────────────────────────────────────────────────────────────

    /// Which of the choices for the refresh is set.
    pub fn refresh_choice(&self) -> (r: Option<usize>)
        ensures
            match r {
                Some(i) => i < 4 && refresh_pick(i as int)
                    == self.config.monitor.display_refresh_interval_ms,
                None => forall|i: int|
                    0 <= i < 4 ==> #[trigger] refresh_pick(i)
                        != self.config.monitor.display_refresh_interval_ms,
            },
    {
        let ms: u64 = self.config.monitor.display_refresh_interval_ms;
        if ms == 500 {
            Some(0)
        } else if ms == 1000 {
            Some(1)
        } else if ms == 2000 {
            Some(2)
        } else if ms == 5000 {
            Some(3)
        } else {
            None
        }
    }

    /// Sets one of the choices for the refresh.
    pub fn choose_refresh(&mut self, i: usize)
        requires
            i < 4,
        ensures
            *final(self) == (SettingsTab {
                config: Settings {
                    monitor: MonitorConfig {
                        display_refresh_interval_ms: refresh_pick(i as int),
                        ..old(self).config.monitor
                    },
                    ..old(self).config
                },
                ..*old(self)
            }),
    {
        let ms: u64 = if i == 0 {
            500
        } else if i == 1 {
            1000
        } else if i == 2 {
            2000
        } else {
            5000
        };
        self.config.monitor.display_refresh_interval_ms = ms;
    }
}

// ── Opacity and theme ────────────────────────────────────────────────────────

/// Opacity and theme, which take effect while they are edited: what is applied, and
/// what is saved.
#[derive(Debug, Clone, Copy, PartialEq, Eq, Structural)]
pub struct LookState {
    pub opacity_milli: u32,
    pub theme: AppTheme,
    pub saved_opacity_milli: u32,
    pub saved_theme: AppTheme,
}

/// Two opacities differ by more than a thousandth.
pub open spec fn opacities_differ(a: u32, b: u32) -> bool {
    apart(single(a as int, 1000), single(b as int, 1000), single(1, 1000), SINGLE as nat)
}

impl LookState {
    /// What is applied and saved at the start.
    pub fn new(opacity_milli: u32, theme: AppTheme) -> (r: LookState)
        ensures
            r == (LookState {
                opacity_milli,
                theme,
                saved_opacity_milli: opacity_milli,
                saved_theme: theme,
            }),
    {
        LookState {
            opacity_milli,
            theme,
            saved_opacity_milli: opacity_milli,
            saved_theme: theme,
        }
    }

    /// Takes in what is chosen now; gives whether it is to be applied.
    pub fn preview(&mut self, opacity_milli: u32, theme: AppTheme) -> (apply: bool)
        ensures
            apply == (opacities_differ(opacity_milli, old(self).opacity_milli) || theme
                != old(self).theme),
            *final(self) == if apply {
                LookState { opacity_milli, theme, ..*old(self) }
            } else {
                *old(self)
            },
    {
        if opacity_differs(opacity_milli, self.opacity_milli) || theme != self.theme {
            self.opacity_milli = opacity_milli;
            self.theme = theme;
            true
        } else {
            false
        }
    }

    /// What is chosen now was saved with all other settings.
    pub fn note_saved(&mut self, opacity_milli: u32, theme: AppTheme)
        ensures
            *final(self) == (LookState {
                saved_opacity_milli: opacity_milli,
                saved_theme: theme,
                ..*old(self)
            }),
    {
        self.saved_opacity_milli = opacity_milli;
        self.saved_theme = theme;
    }

    /// Takes in what is chosen now; gives whether it is to be saved by itself.
    pub fn save_due(&mut self, opacity_milli: u32, theme: AppTheme) -> (save: bool)
        ensures
            save == (opacities_differ(opacity_milli, old(self).saved_opacity_milli) || theme
                != old(self).saved_theme),
            *final(self) == if save {
                LookState {
                    saved_opacity_milli: opacity_milli,
                    saved_theme: theme,
                    ..*old(self)
                }
            } else {
                *old(self)
            },
    {
        if opacity_differs(opacity_milli, self.saved_opacity_milli) || theme != self.saved_theme {
            self.note_saved(opacity_milli, theme);
            true
        } else {
            false
        }
    }
}

/// Whether two opacities differ by more than a thousandth.
fn opacity_differs(a: u32, b: u32) -> (r: bool)
    ensures
        r == opacities_differ(a, b),
{
    let (x, y) = (Binary::single(a as u64, 1000), Binary::single(b as u64, 1000));
    x.is_apart(y, Binary::single(1, 1000), SINGLE)
}

/// After the changes were discarded nothing is unsaved, provided that the saved
/// affinity is one that the tab stores: not blank, and without white space round it.
pub proof fn law_discarding_leaves_nothing_unsaved(before: SettingsTab, after: SettingsTab)
    requires
        after.config@ == before.saved@,
        after.saved == before.saved,
        after.default_affinity_text@ == match before.saved@.default_affinity {
            Some(a) => a,
            None => Seq::empty(),
        },
        after.default_affinity_enabled == (after.default_affinity_text@.len() > 0),
        after.autostart_enabled == before.saved_autostart,
        after.saved_autostart == before.saved_autostart,
        after.cpu_governor@ == before.saved_governor@,
        after.saved_governor == before.saved_governor,
        after.cpu_epp@ == before.saved_epp@,
        after.saved_epp == before.saved_epp,
        before.saved@.default_affinity is Some ==> {
            &&& before.saved@.default_affinity->0.len() > 0
            &&& trim(before.saved@.default_affinity->0) == before.saved@.default_affinity->0
        },
    ensures
        !after.dirty(),
{
    lemma_not_apart(
        single(after.config@.hw_alerts.temp_threshold_milli as int, 1000),
        single(1, 100),
        SINGLE as nat,
    );
}

/// After the settings were applied and the system refused nothing, nothing is
/// unsaved, provided that the system offers the governors and preferences that are
/// to be set.
pub proof fn law_applying_leaves_nothing_unsaved(before: SettingsTab, after: SettingsTab)
    requires
        after.config@ == before.applied(),
        after.saved@ == before.applied(),
        after.default_affinity_enabled == before.default_affinity_enabled,
        after.default_affinity_text == before.default_affinity_text,
        after.cpu_governor == before.cpu_governor,
        after.cpu_epp == before.cpu_epp,
        after.autostart_enabled == before.autostart_enabled,
        after.saved_governor@ == if before.changes_governor() {
            before.cpu_governor@
        } else {
            before.saved_governor@
        },
        after.saved_epp@ == if before.changes_epp() {
            before.cpu_epp@
        } else {
            before.saved_epp@
        },
        after.saved_autostart == before.autostart_enabled,
        before.available_governors@.len() > 0 || before.cpu_governor@ == before.saved_governor@,
        before.available_epps@.len() > 0 || before.cpu_epp@ == before.saved_epp@,
    ensures
        !after.dirty(),
{
    lemma_not_apart(
        single(after.config@.hw_alerts.temp_threshold_milli as int, 1000),
        single(1, 100),
        SINGLE as nat,
    );
}

/// Any change of a setting leaves something to apply, and where nothing was changed there
/// is nothing to apply.
pub proof fn law_changes_are_noticed(tab: &SettingsTab, r: bool)
    requires
        call_ensures(SettingsTab::is_dirty, (tab,), r),
    ensures
        !r ==> {
            &&& tab.config.monitor == tab.saved.monitor
            &&& tab.config.notifications_enabled == tab.saved.notifications_enabled
            &&& tab.config.check_updates_on_start == tab.saved.check_updates_on_start
            &&& tab.config.hw_alerts.enabled == tab.saved.hw_alerts.enabled
            &&& tab.config.hw_alerts.cooldown_ms == tab.saved.hw_alerts.cooldown_ms
            &&& tab.autostart_enabled == tab.saved_autostart
            &&& tab.cpu_governor@ == tab.saved_governor@
            &&& tab.cpu_epp@ == tab.saved_epp@
            &&& tab.default_affinity_enabled && trim(tab.default_affinity_text@).len() > 0
                ==> tab.saved@.default_affinity == Some(trim(tab.default_affinity_text@))
            &&& !tab.default_affinity_enabled ==> tab.saved@.default_affinity is None
        },
{
}

/// What is applied is what the form shows; afterwards nothing is left to apply, where
/// everything succeeded. What failed is left to apply.
pub proof fn law_applied_settings_are_those_of_the_form(
    tab: &mut SettingsTab,
    o: &Outcomes,
    r: Settings,
    after: &SettingsTab,
    dirty: bool,
)
    requires
        call_ensures(SettingsTab::apply, (tab, o), r),
        *after == *final(tab),
        call_ensures(SettingsTab::is_dirty, (after,), dirty),
    ensures
        r@.monitor == old(tab).config.monitor,
        r@.notifications_enabled == old(tab).config.notifications_enabled,
        r@.hw_alerts == old(tab).config.hw_alerts,
        r@.theme == old(tab).theme,
        r@.opacity_milli == old(tab).opacity_milli,
        !old(tab).default_affinity_enabled ==> r@.default_affinity is None,
        old(tab).default_affinity_enabled && trim(old(tab).default_affinity_text@).len() > 0
            ==> r@.default_affinity == Some(trim(old(tab).default_affinity_text@)),
        o.governor is Ok && o.epp is Ok && o.autostart is Ok && old(tab).available_governors@.len()
            > 0 && old(tab).available_epps@.len() > 0 ==> !dirty,
        old(tab).cpu_governor@ != old(tab).saved_governor@ && o.governor is Err ==> dirty,
        old(tab).cpu_epp@ != old(tab).saved_epp@ && o.epp is Err ==> dirty,
        old(tab).autostart_enabled != old(tab).saved_autostart && o.autostart is Err ==> dirty,
{
    if o.governor is Ok && o.epp is Ok && o.autostart is Ok && old(tab).available_governors@.len()
        > 0 && old(tab).available_epps@.len() > 0 {
        law_applying_leaves_nothing_unsaved(*old(tab), *final(tab));
    }
}

/// After a discard the form shows what was saved.
pub proof fn law_discarded_changes_are_gone(tab: &mut SettingsTab)
    requires
        call_ensures(SettingsTab::discard, (tab,), ()),
    ensures
        final(tab).config@ == old(tab).saved@,
        final(tab).autostart_enabled == old(tab).saved_autostart,
        final(tab).cpu_governor@ == old(tab).saved_governor@,
        final(tab).cpu_epp@ == old(tab).saved_epp@,
        old(tab).saved@.default_affinity matches Some(a) ==> final(tab).default_affinity_text@ == a,
        old(tab).saved@.default_affinity is None ==> !final(tab).default_affinity_enabled,
        final(tab).saved@ == old(tab).saved@,
{
}

/// The governor and the preference are written only where the user changed them and the
/// machine has some; autostart only where it was changed.
pub proof fn law_only_changes_are_written(tab: &SettingsTab, r: (bool, bool, Option<bool>))
    requires
        call_ensures(SettingsTab::plan, (tab,), r),
    ensures
        r.0 <==> tab.cpu_governor@ != tab.saved_governor@ && tab.available_governors@.len() > 0,
        r.1 <==> tab.cpu_epp@ != tab.saved_epp@ && tab.available_epps@.len() > 0,
        tab.autostart_enabled == tab.saved_autostart ==> r.2 is None,
        tab.autostart_enabled != tab.saved_autostart ==> r.2 == Some(tab.autostart_enabled),
{
}

/// The choices of the interval run from half a second to five seconds, each longer than
/// the one before; nothing else changes with the choice.
pub proof fn law_later_choices_are_longer(
    tab: &mut SettingsTab,
    other: &mut SettingsTab,
    i: usize,
    k: usize,
)
    requires
        i < k < 4,
        call_ensures(SettingsTab::choose_refresh, (tab, i), ()),
        call_ensures(SettingsTab::choose_refresh, (other, k), ()),
    ensures
        ({
            let (a, b) = (
                final(tab).config.monitor.display_refresh_interval_ms,
                final(other).config.monitor.display_refresh_interval_ms,
            );
            &&& 500 <= a < b <= 5000
            &&& i == 0 ==> a == 500
            &&& k == 3 ==> b == 5000
            &&& b >= 2 * a
        }),
        final(tab).config.monitor.rule_enforce_interval_ms
            == old(tab).config.monitor.rule_enforce_interval_ms,
        final(tab).saved == old(tab).saved,
{
}

/// A value that no CPU took counts as set exactly where the helper succeeded.
pub proof fn law_refused_value_needs_the_helper(
    written: &Vec<bool>,
    helper: &HelperRun,
    r: Result<(), String>,
)
    requires
        call_ensures(set_on_all, (written, helper), r),
        forall|k: int| 0 <= k < written@.len() ==> !#[trigger] written@[k],
    ensures
        r is Ok <==> (*helper matches HelperRun::Ended { code, .. } && code == Some(0i32)),
{
}

/// A picture that changed is applied; the one that is shown already is not.
pub proof fn law_same_look_is_not_applied_again(
    l: &mut LookState,
    next: &mut LookState,
    opacity: u32,
    theme: AppTheme,
    first: bool,
    second: bool,
)
    requires
        call_ensures(LookState::preview, (l, opacity, theme), first),
        *old(next) == *final(l),
        call_ensures(LookState::preview, (next, opacity, theme), second),
    ensures
        theme != old(l).theme ==> first && final(l).theme == theme && final(l).opacity_milli
            == opacity,
        final(l).theme == theme,
        first ==> final(l).opacity_milli == opacity,
        !first ==> *final(l) == *old(l),
        final(l).saved_theme == old(l).saved_theme,
{
}

/// The window is never quite transparent: its opacity lies between a tenth and one, and
/// is the stored one where that does.
pub proof fn law_window_stays_visible(
    config: Settings,
    power: PowerState,
    topo: CpuTopology,
    r: SettingsTab,
)
    requires
        call_ensures(SettingsTab::new, (config, power, topo), r),
    ensures
        100 <= r.opacity_milli <= 1000,
        100 <= config.opacity_milli <= 1000 ==> r.opacity_milli == config.opacity_milli,
        r.config@ == config@ && r.saved@ == config@,
        r.cpu_governor@ == power.governor@ && r.cpu_epp@ == power.epp@,
        r.autostart_enabled == power.autostart,
{
}

/// Autostart is on where either of its two ways is.
pub proof fn law_autostart_is_on_where_one_way_is(entry: bool, out: Option<&str>, r: bool)
    requires
        call_ensures(check_autostart_enabled, (entry, out), r),
    ensures
        entry ==> r,
        !entry && out is None ==> !r,
        !entry && out is Some ==> (r <==> trim(out->0@) == "enabled"@),
{
}

} // verus!
