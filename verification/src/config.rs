//! The configuration and its defaults.

use vstd::prelude::*;
use vstd::string::*;

use crate::idmap::IdMap;
use crate::namemap::NameMap;
use crate::text::{copy_texts, opt_text, same_texts, texts};

verus! {

/// Applied to processes that no rule matches.
#[derive(Debug)]
pub struct CpuConfig {
    /// A CPU list such as `8-15,24-31`; none where the default is off.
    pub default_affinity: Option<String>,
}

impl Default for CpuConfig {
    fn default() -> (r: Self)
        ensures
            r.default_affinity is None,
    {
        CpuConfig { default_affinity: None }
    }
}

/// When and how hard CPU hogs are throttled. Loads are in thousandths of a
/// percent of one core, durations in milliseconds.
#[derive(Debug)]
pub struct ProBalanceConfig {
    pub enabled: bool,
    pub cpu_threshold_mpct: u32,
    pub consecutive_ms: u64,
    pub nice_adjustment: i32,
    pub nice_floor: i32,
    pub restore_threshold_mpct: u32,
    pub restore_hysteresis_ms: u64,
    pub exempt_patterns: Vec<String>,
}

/// The processes that are exempt unless the user says otherwise.
pub open spec fn default_exempt() -> Seq<Seq<char>> {
    seq!["kwin"@, "plasmashell"@, "systemd"@, "kthreadd"@, "Xorg"@, "xwayland"@]
}

impl Default for ProBalanceConfig {
    fn default() -> (r: Self)
        ensures
            r.enabled,
            r.cpu_threshold_mpct == 85_000,
            r.consecutive_ms == 3_000,
            r.nice_adjustment == 10,
            r.nice_floor == 15,
            r.restore_threshold_mpct == 40_000,
            r.restore_hysteresis_ms == 5_000,
            texts(r.exempt_patterns@) == default_exempt(),
    {
        let mut p: Vec<String> = Vec::new();
        p.push("kwin".to_owned());
        p.push("plasmashell".to_owned());
        p.push("systemd".to_owned());
        p.push("kthreadd".to_owned());
        p.push("Xorg".to_owned());
        p.push("xwayland".to_owned());
        assert(texts(p@) =~= default_exempt());
        ProBalanceConfig {
            enabled: true,
            cpu_threshold_mpct: 85_000,
            consecutive_ms: 3_000,
            nice_adjustment: 10,
            nice_floor: 15,
            restore_threshold_mpct: 40_000,
            restore_hysteresis_ms: 5_000,
            exempt_patterns: p,
        }
    }
}

impl ProBalanceConfig {
    /// The same settings.
    pub open spec fn same(&self, other: &ProBalanceConfig) -> bool {
        &&& self.enabled == other.enabled
        &&& self.cpu_threshold_mpct == other.cpu_threshold_mpct
        &&& self.consecutive_ms == other.consecutive_ms
        &&& self.nice_adjustment == other.nice_adjustment
        &&& self.nice_floor == other.nice_floor
        &&& self.restore_threshold_mpct == other.restore_threshold_mpct
        &&& self.restore_hysteresis_ms == other.restore_hysteresis_ms
        &&& texts(self.exempt_patterns@) == texts(other.exempt_patterns@)
    }

    /// Whether these are the same settings.
    pub fn equals(&self, other: &ProBalanceConfig) -> (r: bool)
        ensures
            r == self.same(other),
    {
        self.enabled == other.enabled && self.cpu_threshold_mpct == other.cpu_threshold_mpct
            && self.consecutive_ms == other.consecutive_ms && self.nice_adjustment
            == other.nice_adjustment && self.nice_floor == other.nice_floor
            && self.restore_threshold_mpct == other.restore_threshold_mpct
            && self.restore_hysteresis_ms == other.restore_hysteresis_ms && same_texts(
            &self.exempt_patterns,
            &other.exempt_patterns,
        )
    }

    /// A copy of the settings.
    pub fn copy(&self) -> (r: ProBalanceConfig)
        ensures
            r.same(self),
    {
        ProBalanceConfig {
            enabled: self.enabled,
            cpu_threshold_mpct: self.cpu_threshold_mpct,
            consecutive_ms: self.consecutive_ms,
            nice_adjustment: self.nice_adjustment,
            nice_floor: self.nice_floor,
            restore_threshold_mpct: self.restore_threshold_mpct,
            restore_hysteresis_ms: self.restore_hysteresis_ms,
            exempt_patterns: copy_texts(&self.exempt_patterns),
        }
    }
}

/// How often the monitor works.
#[derive(Debug, Clone, Copy, PartialEq, Eq, Structural)]
pub struct MonitorConfig {
    pub display_refresh_interval_ms: u64,
    pub rule_enforce_interval_ms: u64,
}

impl Default for MonitorConfig {
    fn default() -> (r: Self)
        ensures
            r.display_refresh_interval_ms == 2000,
            r.rule_enforce_interval_ms == 500,
    {
        MonitorConfig { display_refresh_interval_ms: 2000, rule_enforce_interval_ms: 500 }
    }
}

/// Appearance. The opacity is in thousandths, from 100 to 1000.
#[derive(Debug)]
pub struct UiConfig {
    pub start_minimized: bool,
    pub opacity_milli: u32,
    /// `BreezeDark` or `BreezeLight`.
    pub theme: String,
    pub sort_column: String,
    pub sort_ascending: bool,
}

impl Default for UiConfig {
    fn default() -> (r: Self)
        ensures
            !r.start_minimized,
            r.opacity_milli == 1000,
            r.theme@ == "BreezeDark"@,
            r.sort_column@ == "cpu_percent"@,
            !r.sort_ascending,
    {
        UiConfig {
            start_minimized: false,
            opacity_milli: 1000,
            theme: "BreezeDark".to_owned(),
            sort_column: "cpu_percent".to_owned(),
            sort_ascending: false,
        }
    }
}

/// A game with its launch command and the cores that it keeps online.
pub struct GamingProfile {
    pub game_name: String,
    pub command: String,
    /// Whether a CPU stays online.
    pub cpu_states: IdMap<bool>,
    pub elevate_nice: bool,
}

impl Default for GamingProfile {
    fn default() -> (r: Self)
        ensures
            r.game_name@.len() == 0,
            r.command@.len() == 0,
            r.cpu_states@ == Map::<u32, bool>::empty(),
            !r.elevate_nice,
    {
        GamingProfile {
            game_name: String::new(),
            command: String::new(),
            cpu_states: IdMap::new(),
            elevate_nice: false,
        }
    }
}

/// The gaming profiles, and what happens when a game is detected.
pub struct GamingModeConfig {
    pub profiles: NameMap<GamingProfile>,
    pub auto_detect: bool,
    pub auto_park: bool,
}

impl Default for GamingModeConfig {
    fn default() -> (r: Self)
        ensures
            r.profiles@ == Map::<Seq<char>, GamingProfile>::empty(),
            !r.auto_detect,
            !r.auto_park,
    {
        GamingModeConfig { profiles: NameMap::new(), auto_detect: false, auto_park: false }
    }
}

/// One hexadecimal digit as `Uuid` writes it.
pub open spec fn is_lower_hex(c: char) -> bool {
    ('0' <= c <= '9') || ('a' <= c <= 'f')
}

/// The shape of a random UUID's text: groups of 8, 4, 4, 4 and 12 digits, with
/// the version `4` at the head of the third.
pub open spec fn is_uuid_text(s: Seq<char>) -> bool {
    &&& s.len() == 36
    &&& s[8] == '-' && s[13] == '-' && s[18] == '-' && s[23] == '-'
    &&& s[14] == '4'
    &&& forall|i: int|
        0 <= i < 36 && i != 8 && i != 13 && i != 18 && i != 23 ==> is_lower_hex(#[trigger] s[i])
}

/// Calls `uuid::Uuid::new_v4` and writes the result with its `Display`. Which
/// UUID comes is left to chance; every one has the shape of `is_uuid_text`.
#[verifier::external_body]
fn random_uuid() -> (r: String)
    ensures
        is_uuid_text(r@),
{
    uuid::Uuid::new_v4().to_string()
}

/// A rule as it is stored.
#[derive(Debug)]
pub struct RuleConfig {
    pub rule_id: String,
    pub name: String,
    pub pattern: String,
    /// `contains`, `exact` or `regex`.
    pub match_type: String,
    pub affinity: Option<String>,
    pub nice: Option<i32>,
    pub ionice_class: Option<i32>,
    pub ionice_level: Option<i32>,
    pub enabled: bool,
}

impl Default for RuleConfig {
    fn default() -> (r: Self)
        ensures
            is_uuid_text(r.rule_id@),
            r.name@.len() == 0,
            r.pattern@.len() == 0,
            r.match_type@ == "contains"@,
            r.affinity is None,
            r.nice is None,
            r.ionice_class is None,
            r.ionice_level is None,
            r.enabled,
    {
        RuleConfig {
            rule_id: random_uuid(),
            name: String::new(),
            pattern: String::new(),
            match_type: "contains".to_owned(),
            affinity: None,
            nice: None,
            ionice_class: None,
            ionice_level: None,
            enabled: true,
        }
    }
}

/// A rule, as what it says.
pub struct RuleView {
    pub rule_id: Seq<char>,
    pub name: Seq<char>,
    pub pattern: Seq<char>,
    pub match_type: Seq<char>,
    pub affinity: Option<Seq<char>>,
    pub nice: Option<i32>,
    pub ionice_class: Option<i32>,
    pub ionice_level: Option<i32>,
    pub enabled: bool,
}

impl View for RuleConfig {
    type V = RuleView;

    open spec fn view(&self) -> RuleView {
        RuleView {
            rule_id: self.rule_id@,
            name: self.name@,
            pattern: self.pattern@,
            match_type: self.match_type@,
            affinity: opt_text(self.affinity),
            nice: self.nice,
            ionice_class: self.ionice_class,
            ionice_level: self.ionice_level,
            enabled: self.enabled,
        }
    }
}

impl RuleConfig {
    /// A copy of the rule.
    pub fn copy(&self) -> (r: RuleConfig)
        ensures
            r@ == self@,
    {
        RuleConfig {
            rule_id: self.rule_id.clone(),
            name: self.name.clone(),
            pattern: self.pattern.clone(),
            match_type: self.match_type.clone(),
            affinity: copy_opt(&self.affinity),
            nice: self.nice,
            ionice_class: self.ionice_class,
            ionice_level: self.ionice_level,
            enabled: self.enabled,
        }
    }
}

/// A copy of an optional text.
pub fn copy_opt(o: &Option<String>) -> (r: Option<String>)
    ensures
        opt_text(r) == opt_text(*o),
{
    match o {
        Some(s) => Some(s.clone()),
        None => None,
    }
}

/// The whole configuration.
pub struct Config {
    pub version: u32,
    pub rules: Vec<RuleConfig>,
    pub cpu: CpuConfig,
    pub probalance: ProBalanceConfig,
    pub monitor: MonitorConfig,
    pub ui: UiConfig,
    pub gaming_mode: GamingModeConfig,
}

impl Default for Config {
    fn default() -> (r: Self)
        ensures
            r.version == 1,
            r.rules@.len() == 0,
            r.cpu.default_affinity is None,
            r.probalance.enabled,
            r.probalance.cpu_threshold_mpct == 85_000,
            r.probalance.consecutive_ms == 3_000,
            r.probalance.nice_adjustment == 10,
            r.probalance.nice_floor == 15,
            r.probalance.restore_threshold_mpct == 40_000,
            r.probalance.restore_hysteresis_ms == 5_000,
            texts(r.probalance.exempt_patterns@) == default_exempt(),
            r.monitor.display_refresh_interval_ms == 2000,
            r.monitor.rule_enforce_interval_ms == 500,
            !r.ui.start_minimized,
            r.ui.opacity_milli == 1000,
            r.ui.theme@ == "BreezeDark"@,
            r.ui.sort_column@ == "cpu_percent"@,
            !r.ui.sort_ascending,
            r.gaming_mode.profiles@ == Map::<Seq<char>, GamingProfile>::empty(),
            !r.gaming_mode.auto_detect,
            !r.gaming_mode.auto_park,
    {
        Config {
            version: 1,
            rules: Vec::new(),
            cpu: CpuConfig::default(),
            probalance: ProBalanceConfig::default(),
            monitor: MonitorConfig::default(),
            ui: UiConfig::default(),
            gaming_mode: GamingModeConfig::default(),
        }
    }
}

// ── Paths ────────────────────────────────────────────────────────────────────

/// A relative name below a directory.
pub open spec fn below(dir: Seq<char>, name: Seq<char>) -> Seq<char> {
    if dir.len() == 0 {
        name
    } else if dir.last() == '/' {
        dir + name
    } else {
        dir + "/"@ + name
    }
}

/// Joins a directory and a relative name.
pub fn join_path(dir: &str, name: &str) -> (r: String)
    ensures
        r@ == below(dir@, name@),
{
    let n: usize = dir.unicode_len();
    let mut r = dir.to_owned();
    if n > 0 && dir.get_char(n - 1) != '/' {
        r.append("/");
    }
    r.append(name);
    assert(r@ =~= below(dir@, name@));
    r
}

/// The home directory, or `/tmp` where none is known.
pub open spec fn home_or_tmp(home: Option<&str>) -> Seq<char> {
    match home {
        Some(h) => h@,
        None => "/tmp"@,
    }
}

/// The configuration directory below the home directory.
pub fn config_dir(home: Option<&str>) -> (r: String)
    ensures
        r@ == below(below(home_or_tmp(home), ".config"@), "process-lasso-rs"@),
{
    let base = match home {
        Some(h) => h,
        None => "/tmp",
    };
    let d = join_path(base, ".config");
    join_path(d.as_str(), "process-lasso-rs")
}

/// The configuration file.
pub fn config_path(home: Option<&str>) -> (r: String)
    ensures
        r@ == below(
            below(below(home_or_tmp(home), ".config"@), "process-lasso-rs"@),
            "config.toml"@,
        ),
{
    let d = config_dir(home);
    join_path(d.as_str(), "config.toml")
}

} // verus!
