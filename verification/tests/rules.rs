//! Rules, their dialogs and their tab.

use argus_lasso::config::RuleConfig;
use argus_lasso::gui::dialogs::CpuContext;
use argus_lasso::gui::rule_dialogs::{
    rule_from_preset, rule_preset, RuleEditDialog, RulePresetsDialog, PRESET_COUNT,
};
use argus_lasso::gui::rules_tab::{
    affinity_cell, export_message, io_cell, nice_cell, profile_names, ExportOutcome, ImportOutcome,
    RulesTab,
};
use argus_lasso::idset::IdSet;
use argus_lasso::namemap::NameMap;
use argus_lasso::rules::{Rule, RuleEngine};
use argus_lasso::topology::CpuTopology;

fn rule(id: &str, pattern: &str, match_type: &str) -> Rule {
    Rule::from_config(&RuleConfig {
        rule_id: id.into(),
        name: id.to_uppercase(),
        pattern: pattern.into(),
        match_type: match_type.into(),
        affinity: None,
        nice: None,
        ionice_class: None,
        ionice_level: None,
        enabled: true,
    })
}

fn cpus() -> CpuContext {
    CpuContext {
        cpu_count: 4,
        offline: IdSet::new(),
        topo: CpuTopology::uniform(IdSet::first(4)),
        smt_siblings: IdSet::new(),
    }
}

fn engine() -> RuleEngine {
    let mut e = RuleEngine::new();
    e.add_rule(rule("a", "Fire", "contains"));
    e.add_rule(rule("b", "steam", "exact"));
    e.add_rule(rule("c", "^wine.*exe$", "regex"));
    e
}

#[test]
fn patterns_match_by_their_kind() {
    let e = engine();
    assert_eq!(e.matching_names("firefox"), ["A"]);
    assert_eq!(e.matching_names("STEAM"), ["B"]);
    assert!(e.matching_names("steamwebhelper").is_empty());
    assert_eq!(e.matching_rules("Wine-game.exe"), [2]);
    assert!(e.matches_any("firefox"));
    assert!(!rule("x", "(", "regex").matches("("));
    let mut changed = rule("x", "a", "regex");
    changed.pattern = "b+".into();
    assert!(changed.matches("abba"));
    changed.refresh_regex();
    assert!(!changed.matches("aa"));
}

#[test]
fn rules_are_put_toggled_and_removed() {
    let mut e = engine();
    assert!(e.toggle_rule("a"));
    assert!(!e.toggle_rule("zz"));
    assert!(!e.matches_any("firefox"));
    let mut changed = rule("b", "lutris", "exact");
    changed.nice = Some(3);
    e.put_rule(changed);
    e.put_rule(rule("d", "new", "exact"));
    assert_eq!(e.rules.len(), 4);
    assert_eq!(e.rules[1].pattern, "lutris");
    assert_eq!(e.position("d"), Some(3));
    e.remove_rule("b");
    assert_eq!(e.position("b"), None);
    assert_eq!(e.rules.len(), 3);
    let stored = e.to_config_list();
    let mut f = RuleEngine::new();
    f.load_rules(&stored);
    assert_eq!(f.rules[0].rule_id, "a");
    assert!(!f.rules[0].enabled);
    f.clear_rules();
    assert!(f.rules.is_empty());
}

#[test]
fn editing_leaves_out_what_is_not_enabled() {
    let mut r = rule("a", "x", "contains");
    r.nice = Some(5);
    let mut d = RuleEditDialog::new(r, &cpus());
    assert!(d.nice_enabled && !d.ionice_enabled && !d.affinity_enabled);
    assert_eq!(d.heading(), "Edit Rule — A");
    d.fill_defaults();
    assert_eq!((d.rule.ionice_class, d.rule.ionice_level), (Some(2), Some(4)));
    assert!(d.finish(None).is_none());
    let out = d.finish(Some(true)).unwrap().unwrap();
    assert_eq!((out.nice, out.ionice_class), (Some(5), None));
    assert_eq!(out.affinity, None);
    assert!(!d.open);
    assert_eq!(d.finish(None).unwrap().unwrap().rule_id, "a");
}

#[test]
fn editing_takes_the_selected_cpus() {
    let mut d = RuleEditDialog::new(rule("a", "x", "contains"), &cpus());
    d.affinity_enabled = true;
    d.affinity_picker.checkboxes = vec![true, true, false, true];
    let out = d.finish(Some(true)).unwrap().unwrap();
    assert_eq!(out.affinity.as_deref(), Some("0-1,3"));
    let mut none = RuleEditDialog::new(rule("a", "", "contains"), &cpus());
    assert!(!none.can_accept());
    none.affinity_enabled = true;
    none.affinity_picker.checkboxes = vec![false; 4];
    assert_eq!(none.finish(Some(true)).unwrap().unwrap().affinity, None);
    let mut gone = RuleEditDialog::new(rule("a", "x", "contains"), &cpus());
    assert!(gone.finish(Some(false)).unwrap().is_none());
}

#[test]
fn templates_become_rules() {
    assert!(rule_preset(PRESET_COUNT).is_none());
    let p = rule_preset(11).unwrap();
    let r = rule_from_preset(&p);
    assert_eq!(r.name, "Archive / compress");
    assert_eq!(r.affinity.as_deref(), Some("8-15,24-31"));
    assert_eq!((r.nice, r.ionice_class, r.ionice_level), (Some(10), Some(3), None));
    let mut d = RulePresetsDialog::new();
    d.selected = Some(4);
    let r = d.finish(Some(true)).unwrap().unwrap();
    assert_eq!((r.name.as_str(), r.nice), ("OBS Studio", Some(-1)));
    let mut empty = RulePresetsDialog::new();
    assert!(empty.finish(None).is_none());
    assert!(empty.finish(Some(true)).unwrap().is_none());
}

#[test]
fn cells_of_the_table() {
    let mut r = rule("a", "x", "contains");
    assert_eq!(affinity_cell(&r), "—");
    assert_eq!(nice_cell(&r), "—");
    r.affinity = Some("0-3".into());
    r.nice = Some(-5);
    assert_eq!(affinity_cell(&r), "0-3");
    assert_eq!(nice_cell(&r), "-5");
    assert_eq!(io_cell(Some(2), Some(4)), "cls 2 · 4");
    assert_eq!(io_cell(Some(3), None), "cls 3");
    assert_eq!(io_cell(None, Some(1)), "lvl 1");
    assert_eq!(io_cell(None, None), "—");
}

#[test]
fn files_of_rules() {
    assert_eq!(export_message(3, &ExportOutcome::Written), "Exported 3 rules.");
    assert_eq!(
        export_message(3, &ExportOutcome::NotWritten("full".into())),
        "Export failed: full"
    );
    assert_eq!(
        export_message(3, &ExportOutcome::NotSerialised("x".into())),
        "Serialise error: x"
    );
    let mut tab = RulesTab::new();
    let mut e = engine();
    assert!(!tab.finish_import(&mut e, &ImportOutcome::NotRead("gone".into())));
    assert_eq!(tab.status, "Read error: gone");
    assert!(!tab.finish_import(&mut e, &ImportOutcome::NotParsed("bad".into())));
    assert_eq!(tab.status, "Parse error: bad");
    let more = vec![rule("n", "n", "exact").to_config()];
    assert!(tab.finish_import(&mut e, &ImportOutcome::Parsed(more)));
    assert_eq!(tab.status, "Imported 1 rules.");
    assert_eq!((e.rules[0].rule_id.as_str(), e.rules[3].rule_id.as_str()), ("a", "n"));
    tab.finish_export("ok");
    assert_eq!(tab.status, "ok");
}

#[test]
fn deleting_asks_first() {
    let mut tab = RulesTab::new();
    let mut e = engine();
    assert_eq!(tab.delete_question(&e), "Delete rule 'this rule'?");
    tab.ask_delete("b");
    assert!(tab.confirm_delete_rule);
    assert_eq!(tab.delete_question(&e), "Delete rule 'B'?");
    assert!(!tab.answer_delete(&mut e, false, true));
    assert!(!tab.confirm_delete_rule);
    tab.ask_delete("b");
    assert!(tab.answer_delete(&mut e, true, false));
    assert_eq!(e.position("b"), None);
    assert!(tab.selected_rule_id.is_none());
}

#[test]
fn rule_profiles_load_back() {
    let mut tab = RulesTab::new();
    let mut e = engine();
    let mut profiles: NameMap<Vec<RuleConfig>> = NameMap::new();
    assert!(!tab.can_save_profile());
    tab.profile_name = "  work ".into();
    assert!(tab.can_save_profile());
    tab.save_profile(&e, &mut profiles);
    assert_eq!(tab.status, "Saved as profile 'work'.");
    assert_eq!(profile_names(&profiles), ["work"]);
    assert_eq!(tab.profile_caption(), "Profile: work");
    e.clear_rules();
    e.add_rule(rule("z", "z", "exact"));
    tab.pick_profile("work");
    assert!(!tab.confirm_load_profile);
    tab.selected_profile.clear();
    assert_eq!(tab.profile_caption(), "Profile: —");
    tab.pick_profile("work");
    assert!(tab.confirm_load_profile);
    assert_eq!(
        tab.load_question(),
        "Load profile 'work'?\nThis replaces all current rules."
    );
    assert!(tab.answer_load(&mut e, &profiles, true, false));
    let ids: Vec<&str> = e.rules.iter().map(|r| r.rule_id.as_str()).collect();
    assert_eq!(ids, ["a", "b", "c"]);
    assert_eq!(tab.delete_profile_question(), "Delete profile 'work'?");
    assert!(tab.answer_delete_profile(&mut profiles, true, false));
    assert!(profiles.get("work").is_none());
    assert_eq!(tab.status, "Profile deleted.");
}

#[test]
fn names_can_be_tried_out() {
    let mut tab = RulesTab::new();
    let e = engine();
    assert_eq!(tab.test_result(&e), None);
    tab.test_input = "firefox".into();
    assert_eq!(tab.test_result(&e), Some("✓ Matches «A»".into()));
    tab.test_input = "nothing".into();
    assert_eq!(tab.test_result(&e), Some("No rules match".into()));
}

#[test]
fn dialogs_of_the_tab() {
    let mut tab = RulesTab::new();
    let mut e = engine();
    tab.open_add_dialog(None, &cpus());
    assert_eq!(tab.edit_dialog.as_ref().unwrap().heading(), "Add Rule");
    assert!(!tab.take_edited(&mut e, None));
    assert!(tab.edit_dialog.is_none());
    assert!(tab.take_edited(&mut e, Some(rule("q", "q", "exact"))));
    assert_eq!(e.rules.len(), 4);
    tab.open_presets();
    assert!(tab.presets_dialog.is_some());
    tab.take_preset(Some(rule("p", "p", "exact")), &cpus());
    assert!(tab.presets_dialog.is_none());
    assert_eq!(tab.edit_dialog.as_ref().unwrap().rule.rule_id, "p");
}

#[test]
fn settled_processes_are_left_alone() {
    let mut r = rule("a", "x", "contains");
    r.affinity = Some("0-3".into());
    r.nice = Some(5);
    let p = r.plan(Some("0-7"), 0, false);
    assert_eq!((p.affinity.as_deref(), p.nice, p.ionice), (Some("0-3"), Some(5), None));
    let p = r.plan(Some("0-3"), 5, false);
    assert_eq!((p.affinity, p.nice), (None, None));
    assert_eq!(r.plan(None, 0, true).nice, None);
    r.ionice_class = Some(3);
    assert_eq!(r.plan(None, 0, true).ionice, Some((3, 4)));
    assert_eq!(
        r.change_line("nice", "5", "steam", 7),
        "[Rule: A] nice=5 → steam(7)"
    );
}
