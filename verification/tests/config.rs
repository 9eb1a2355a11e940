//! The configuration: defaults, copies and paths.

use argus_lasso::config::{
    config_dir, config_path, join_path, Config, GamingProfile, ProBalanceConfig, RuleConfig,
};

#[test]
fn defaults() {
    let c = Config::default();
    assert_eq!(c.version, 1);
    assert!(c.rules.is_empty());
    assert!(c.cpu.default_affinity.is_none());
    assert!(c.probalance.enabled);
    assert_eq!(c.probalance.cpu_threshold_mpct, 85_000);
    assert_eq!(c.probalance.consecutive_ms, 3_000);
    assert_eq!(c.probalance.nice_adjustment, 10);
    assert_eq!(c.probalance.nice_floor, 15);
    assert_eq!(c.probalance.restore_threshold_mpct, 40_000);
    assert_eq!(c.probalance.restore_hysteresis_ms, 5_000);
    assert_eq!(
        c.probalance.exempt_patterns,
        ["kwin", "plasmashell", "systemd", "kthreadd", "Xorg", "xwayland"]
    );
    assert_eq!(c.monitor.display_refresh_interval_ms, 2000);
    assert_eq!(c.monitor.rule_enforce_interval_ms, 500);
    assert!(!c.ui.start_minimized);
    assert_eq!(c.ui.opacity_milli, 1000);
    assert_eq!(c.ui.theme, "BreezeDark");
    assert_eq!(c.ui.sort_column, "cpu_percent");
    assert!(!c.ui.sort_ascending);
    assert!(c.gaming_mode.profiles.entries().is_empty());
    assert!(GamingProfile::default().cpu_states.is_empty());
}

#[test]
fn a_new_rule_has_an_id_of_its_own() {
    let a = RuleConfig::default();
    let b = RuleConfig::default();
    assert_ne!(a.rule_id, b.rule_id);
    assert_eq!(a.rule_id.len(), 36);
    assert_eq!(&a.rule_id[14..15], "4");
    assert!(a.rule_id.chars().all(|c| c == '-' || c.is_ascii_hexdigit()));
    assert_eq!(a.match_type, "contains");
    assert!(a.enabled);
    assert_eq!(a.copy().rule_id, a.rule_id);
}

#[test]
fn settings_are_compared_by_value() {
    let a = ProBalanceConfig::default();
    let mut b = a.copy();
    assert!(a.equals(&b));
    b.exempt_patterns.push("steam".into());
    assert!(!a.equals(&b));
}

#[test]
fn paths_are_below_the_home_directory() {
    assert_eq!(config_dir(Some("/home/u")), "/home/u/.config/process-lasso-rs");
    assert_eq!(
        config_path(Some("/home/u")),
        "/home/u/.config/process-lasso-rs/config.toml"
    );
    assert_eq!(config_path(None), "/tmp/.config/process-lasso-rs/config.toml");
    assert_eq!(join_path("/a/", "b"), "/a/b");
    assert_eq!(join_path("", "b"), "b");
}
