//! The rules tab: the table of rules, import and export, rule profiles.

use vstd::prelude::*;
use vstd::string::*;

use crate::config::{is_uuid_text, RuleConfig, RuleView};
use crate::gui::dialogs::CpuContext;
use crate::gui::rule_dialogs::{RuleEditDialog, RulePresetsDialog};
use crate::namemap::{name_order, NameMap};
use crate::number::{dec, dec_int, decimal, decimal_int};
use crate::rules::{
    config_views, empty_rule, find_id, lemma_without_id, names_matching, rule_views, without_id, Rule,
    RuleEngine,
};
use crate::text::{join, joined, opt_text, same_text, texts, trim, trimmed_text};

verus! {

// ── Cells ────────────────────────────────────────────────────────────────────

/// The affinity of a rule in the table.
pub fn affinity_cell(rule: &Rule) -> (r: String)
    ensures
        r@ == match rule@.affinity {
            Some(a) => a,
            None => "—"@,
        },
{
    match &rule.affinity {
        Some(a) => a.clone(),
        None => "—".to_owned(),
    }
}

/// The nice value of a rule in the table.
pub fn nice_cell(rule: &Rule) -> (r: String)
    ensures
        r@ == match rule@.nice {
            Some(n) => dec_int(n as int),
            None => "—"@,
        },
{
    match rule.nice {
        Some(n) => decimal_int(n as i64),
        None => "—".to_owned(),
    }
}

/// The I/O priority of a rule in the table.
pub open spec fn io_text(class: Option<i32>, level: Option<i32>) -> Seq<char> {
    match (class, level) {
        (Some(c), Some(l)) => "cls "@ + dec_int(c as int) + " · "@ + dec_int(l as int),
        (Some(c), None) => "cls "@ + dec_int(c as int),
        (None, Some(l)) => "lvl "@ + dec_int(l as int),
        (None, None) => "—"@,
    }
}

/// The I/O priority of a rule in the table.
pub fn io_cell(class: Option<i32>, level: Option<i32>) -> (r: String)
    ensures
        r@ == io_text(class, level),
{
    match (class, level) {
        (Some(c), Some(l)) => {
            let mut s = "cls ".to_owned();
            let cs = decimal_int(c as i64);
            let ls = decimal_int(l as i64);
            s.append(cs.as_str());
            s.append(" · ");
            s.append(ls.as_str());
            s
        },
        (Some(c), None) => {
            let mut s = "cls ".to_owned();
            let cs = decimal_int(c as i64);
            s.append(cs.as_str());
            s
        },
        (None, Some(l)) => {
            let mut s = "lvl ".to_owned();
            let ls = decimal_int(l as i64);
            s.append(ls.as_str());
            s
        },
        (None, None) => "—".to_owned(),
    }
}

// ── Files ────────────────────────────────────────────────────────────────────

/// How an export went.
#[derive(Debug)]
pub enum ExportOutcome {
    NotSerialised(String),
    NotWritten(String),
    Written,
}

/// How an export of `count` rules went, in words.
pub fn export_message(count: usize, outcome: &ExportOutcome) -> (r: String)
    ensures
        r@ == match *outcome {
            ExportOutcome::NotSerialised(e) => "Serialise error: "@ + e@,
            ExportOutcome::NotWritten(e) => "Export failed: "@ + e@,
            ExportOutcome::Written => "Exported "@ + dec(count as nat) + " rules."@,
        },
{
    match outcome {
        ExportOutcome::NotSerialised(e) => {
            let mut s = "Serialise error: ".to_owned();
            s.append(e.as_str());
            s
        },
        ExportOutcome::NotWritten(e) => {
            let mut s = "Export failed: ".to_owned();
            s.append(e.as_str());
            s
        },
        ExportOutcome::Written => {
            let mut s = "Exported ".to_owned();
            let d = decimal(count as u64);
            s.append(d.as_str());
            s.append(" rules.");
            s
        },
    }
}

/// How an import went.
#[derive(Debug)]
pub enum ImportOutcome {
    NotRead(String),
    NotParsed(String),
    Parsed(Vec<RuleConfig>),
}

/// How an import went, in words.
pub open spec fn import_message(outcome: ImportOutcome) -> Seq<char> {
    match outcome {
        ImportOutcome::NotRead(e) => "Read error: "@ + e@,
        ImportOutcome::NotParsed(e) => "Parse error: "@ + e@,
        ImportOutcome::Parsed(rules) => "Imported "@ + dec(rules@.len()) + " rules."@,
    }
}

// ── The tab ──────────────────────────────────────────────────────────────────

/// The tab.
pub struct RulesTab {
    pub selected_rule_id: Option<String>,
    pub edit_dialog: Option<RuleEditDialog>,
    pub presets_dialog: Option<RulePresetsDialog>,
    pub status: String,
    pub profile_name: String,
    pub selected_profile: String,
    pub test_input: String,
    pub confirm_delete_rule: bool,
    pub confirm_load_profile: bool,
    pub confirm_delete_profile: bool,
}

impl RulesTab {
    /// The tab at the start.
    pub fn new() -> (r: RulesTab)
        ensures
            r.selected_rule_id is None,
            r.edit_dialog is None,
            r.presets_dialog is None,
            r.status@.len() == 0,
            r.profile_name@.len() == 0,
            r.selected_profile@.len() == 0,
            r.test_input@.len() == 0,
            !r.confirm_delete_rule,
            !r.confirm_load_profile,
            !r.confirm_delete_profile,
    {
        RulesTab {
            selected_rule_id: None,
            edit_dialog: None,
            presets_dialog: None,
            status: String::new(),
            profile_name: String::new(),
            selected_profile: String::new(),
            test_input: String::new(),
            confirm_delete_rule: false,
            confirm_load_profile: false,
            confirm_delete_profile: false,
        }
    }

    /// Opens the dialog for a rule; without one for a new rule.
    pub fn open_add_dialog(&mut self, template: Option<Rule>, cpus: &CpuContext)
        ensures
            final(self).edit_dialog is Some,
            final(self).edit_dialog->0.opened(*cpus),
            ({
                let rule = final(self).edit_dialog->0.rule;
                match template {
                    Some(t) => rule == t,
                    None => is_uuid_text(rule@.rule_id) && rule@ == empty_rule(rule@.rule_id),
                }
            }),
            *final(self) == (RulesTab { edit_dialog: final(self).edit_dialog, ..*old(self) }),
    {
        let rule = match template {
            Some(t) => t,
            None => Rule::new_empty(),
        };
        self.edit_dialog = Some(RuleEditDialog::new(rule, cpus));
    }

    /// Opens the dialog with the templates.
    pub fn open_presets(&mut self)
        ensures
            final(self).presets_dialog is Some,
            final(self).presets_dialog->0.open,
            final(self).presets_dialog->0.well_formed(),
            final(self).presets_dialog->0.selected is None,
            final(self).presets_dialog->0.result is None,
            *final(self) == (RulesTab { presets_dialog: final(self).presets_dialog, ..*old(self) }),
    {
        self.presets_dialog = Some(RulePresetsDialog::new());
    }

    /// Takes in how an export went.
    pub fn finish_export(&mut self, message: &str)
        ensures
            final(self).status@ == message@,
            *final(self) == (RulesTab { status: final(self).status, ..*old(self) }),
    {
        self.status = message.to_owned();
    }

    /// Takes in what was imported: its rules follow the others. Gives whether the
    /// rules changed.
    pub fn finish_import(&mut self, engine: &mut RuleEngine, outcome: &ImportOutcome) -> (changed:
        bool)
        ensures
            changed == (outcome is Parsed),
            rule_views(final(engine).rules@) == match *outcome {
                ImportOutcome::Parsed(rules) => rule_views(old(engine).rules@) + config_views(
                    rules@,
                ),
                _ => rule_views(old(engine).rules@),
            },
            final(self).status@ == import_message(*outcome),
            *final(self) == (RulesTab { status: final(self).status, ..*old(self) }),
    {
        match outcome {
            ImportOutcome::NotRead(e) => {
                let mut s = "Read error: ".to_owned();
                s.append(e.as_str());
                self.status = s;
                false
            },
            ImportOutcome::NotParsed(e) => {
                let mut s = "Parse error: ".to_owned();
                s.append(e.as_str());
                self.status = s;
                false
            },
            ImportOutcome::Parsed(rules) => {
                engine.load_rules(rules);
                let mut s = "Imported ".to_owned();
                let d = decimal(rules.len() as u64);
                s.append(d.as_str());
                s.append(" rules.");
                self.status = s;
                true
            },
        }
    }

    /// Asks whether a rule is to be deleted.
    pub fn ask_delete(&mut self, id: &str)
        ensures
            opt_text(final(self).selected_rule_id) == Some(id@),
            *final(self) == (RulesTab {
                selected_rule_id: final(self).selected_rule_id,
                confirm_delete_rule: true,
                ..*old(self)
            }),
    {
        self.selected_rule_id = Some(id.to_owned());
        self.confirm_delete_rule = true;
    }

    /// The question whether the selected rule is to be deleted.
    pub fn delete_question(&self, engine: &RuleEngine) -> (r: String)
        ensures
            r@ == "Delete rule '"@ + match opt_text(self.selected_rule_id) {
                Some(id) => match find_id(rule_views(engine.rules@), id) {
                    Some(i) => rule_views(engine.rules@)[i].name,
                    None => "this rule"@,
                },
                None => "this rule"@,
            } + "'?"@,
    {
        let mut s = "Delete rule '".to_owned();
        let place = match &self.selected_rule_id {
            Some(id) => engine.position(id.as_str()),
            None => None,
        };
        match place {
            Some(i) => s.append(engine.rules[i].name.as_str()),
            None => s.append("this rule"),
        }
        s.append("'?");
        s
    }

    /// Takes in the answer on deleting the selected rule. Gives whether the rules
    /// changed.
    pub fn answer_delete(&mut self, engine: &mut RuleEngine, confirmed: bool, cancelled: bool) -> (
    changed: bool)
        ensures
            changed == (confirmed && old(self).selected_rule_id is Some),
            rule_views(final(engine).rules@) == if changed {
                without_id(
                    rule_views(old(engine).rules@),
                    opt_text(old(self).selected_rule_id)->0,
                )
            } else {
                rule_views(old(engine).rules@)
            },
            *final(self) == (RulesTab {
                selected_rule_id: if confirmed {
                    None
                } else {
                    old(self).selected_rule_id
                },
                confirm_delete_rule: old(self).confirm_delete_rule && !confirmed && !cancelled,
                ..*old(self)
            }),
    {
        let mut changed = false;
        if confirmed {
            if let Some(id) = &self.selected_rule_id {
                engine.remove_rule(id.as_str());
                changed = true;
            }
            self.selected_rule_id = None;
            self.confirm_delete_rule = false;
        } else if cancelled {
            self.confirm_delete_rule = false;
        }
        changed
    }

    /// A profile was picked: unless it is the selected one, asks whether it is to be
    /// loaded.
    pub fn pick_profile(&mut self, name: &str)
        ensures
            final(self).selected_profile@ == name@,
            old(self).selected_profile@ == name@ ==> *final(self) == *old(self),
            old(self).selected_profile@ != name@ ==> *final(self) == (RulesTab {
                selected_profile: final(self).selected_profile,
                confirm_load_profile: true,
                ..*old(self)
            }),
    {
        if !same_text(self.selected_profile.as_str(), name) {
            self.selected_profile = name.to_owned();
            self.confirm_load_profile = true;
        }
    }

    /// The question whether the selected profile is to be loaded.
    pub fn load_question(&self) -> (r: String)
        ensures
            r@ == "Load profile '"@ + self.selected_profile@
                + "'?\nThis replaces all current rules."@,
    {
        let mut s = "Load profile '".to_owned();
        s.append(self.selected_profile.as_str());
        s.append("'?\nThis replaces all current rules.");
        s
    }

    /// Takes in the answer on loading the selected profile, whose rules replace all
    /// others. Gives whether the rules changed.
    pub fn answer_load(
        &mut self,
        engine: &mut RuleEngine,
        profiles: &NameMap<Vec<RuleConfig>>,
        confirmed: bool,
        cancelled: bool,
    ) -> (changed: bool)
        ensures
            changed == (confirmed && profiles@.contains_key(old(self).selected_profile@)),
            rule_views(final(engine).rules@) == if changed {
                config_views(profiles@[old(self).selected_profile@]@)
            } else {
                rule_views(old(engine).rules@)
            },
            final(self).status@ == if changed {
                "Loaded profile '"@ + old(self).selected_profile@ + "'."@
            } else {
                old(self).status@
            },
            *final(self) == (RulesTab {
                status: final(self).status,
                confirm_load_profile: old(self).confirm_load_profile && !confirmed && !cancelled,
                ..*old(self)
            }),
    {
        let mut changed = false;
        if confirmed {
            if let Some(rules) = profiles.get(self.selected_profile.as_str()) {
                engine.clear_rules();
                engine.load_rules(rules);
                assert(rule_views(engine.rules@) =~= config_views(rules@));
                let mut s = "Loaded profile '".to_owned();
                s.append(self.selected_profile.as_str());
                s.append("'.");
                self.status = s;
                changed = true;
            }
            self.confirm_load_profile = false;
        } else if cancelled {
            self.confirm_load_profile = false;
        }
        changed
    }

    /// The question whether the selected profile is to be deleted.
    pub fn delete_profile_question(&self) -> (r: String)
        ensures
            r@ == "Delete profile '"@ + self.selected_profile@ + "'?"@,
    {
        let mut s = "Delete profile '".to_owned();
        s.append(self.selected_profile.as_str());
        s.append("'?");
        s
    }

    /// Takes in the answer on deleting the selected profile. Gives whether the
    /// profiles changed.
    pub fn answer_delete_profile(
        &mut self,
        profiles: &mut NameMap<Vec<RuleConfig>>,
        confirmed: bool,
        cancelled: bool,
    ) -> (changed: bool)
        ensures
            changed == confirmed,
            final(profiles)@ == if confirmed {
                old(profiles)@.remove(old(self).selected_profile@)
            } else {
                old(profiles)@
            },
            final(self).status@ == if confirmed {
                "Profile deleted."@
            } else {
                old(self).status@
            },
            final(self).selected_profile@ == if confirmed {
                Seq::<char>::empty()
            } else {
                old(self).selected_profile@
            },
            *final(self) == (RulesTab {
                status: final(self).status,
                selected_profile: final(self).selected_profile,
                confirm_delete_profile: old(self).confirm_delete_profile && !confirmed
                    && !cancelled,
                ..*old(self)
            }),
    {
        if confirmed {
            profiles.remove(self.selected_profile.as_str());
            self.selected_profile = String::new();
            self.status = "Profile deleted.".to_owned();
            self.confirm_delete_profile = false;
        } else if cancelled {
            self.confirm_delete_profile = false;
        }
        confirmed
    }

    /// Whether the rules can be saved as a profile: its name is not blank.
    pub fn can_save_profile(&self) -> (r: bool)
        ensures
            r == (trim(self.profile_name@).len() > 0),
    {
        let t = trimmed_text(self.profile_name.as_str());
        !t.as_str().is_empty()
    }

    /// Saves the rules as a profile.
    pub fn save_profile(&mut self, engine: &RuleEngine, profiles: &mut NameMap<Vec<RuleConfig>>)
        ensures
            ({
                let name = trim(old(self).profile_name@);
                &&& final(profiles)@.contains_key(name)
                &&& final(profiles)@ == old(profiles)@.insert(name, final(profiles)@[name])
                &&& config_views(final(profiles)@[name]@) == rule_views(engine.rules@)
                &&& final(self).selected_profile@ == name
                &&& final(self).profile_name@.len() == 0
                &&& final(self).status@ == "Saved as profile '"@ + name + "'."@
                &&& *final(self) == (RulesTab {
                    selected_profile: final(self).selected_profile,
                    profile_name: final(self).profile_name,
                    status: final(self).status,
                    ..*old(self)
                })
            }),
    {
        let name = trimmed_text(self.profile_name.as_str());
        let saved = engine.to_config_list();
        profiles.insert(name.clone(), saved);
        let mut s = "Saved as profile '".to_owned();
        s.append(name.as_str());
        s.append("'.");
        self.selected_profile = name;
        self.profile_name = String::new();
        self.status = s;
    }

    /// Takes in what the dialog for a rule gave: the rule takes the place of the one
    /// with its id, or is added. Gives whether the rules changed.
    pub fn take_edited(&mut self, engine: &mut RuleEngine, result: Option<Rule>) -> (changed: bool)
        ensures
            changed == (result is Some),
            rule_views(final(engine).rules@) == match result {
                Some(rule) => match find_id(rule_views(old(engine).rules@), rule@.rule_id) {
                    Some(i) => rule_views(old(engine).rules@).update(i, rule@),
                    None => rule_views(old(engine).rules@).push(rule@),
                },
                None => rule_views(old(engine).rules@),
            },
            *final(self) == (RulesTab { edit_dialog: None, ..*old(self) }),
    {
        self.edit_dialog = None;
        match result {
            Some(rule) => {
                engine.put_rule(rule);
                true
            },
            None => false,
        }
    }

    /// Takes in what the dialog with the templates gave: the rule is edited next.
    pub fn take_preset(&mut self, result: Option<Rule>, cpus: &CpuContext)
        ensures
            result is None ==> final(self).edit_dialog == old(self).edit_dialog,
            result is Some ==> final(self).edit_dialog is Some
                && final(self).edit_dialog->0.opened(*cpus) && final(self).edit_dialog->0.rule
                == result->0,
            *final(self) == (RulesTab {
                presets_dialog: None,
                edit_dialog: final(self).edit_dialog,
                ..*old(self)
            }),
    {
        self.presets_dialog = None;
        if let Some(rule) = result {
            self.edit_dialog = Some(RuleEditDialog::new(rule, cpus));
        }
    }

    /// What is said of the name that is tried out: which enabled rules are for it.
    /// Nothing while there is no name.
    pub fn test_result(&self, engine: &RuleEngine) -> (r: Option<String>)
        ensures
            ({
                let names = names_matching(rule_views(engine.rules@), self.test_input@);
                opt_text(r) == if self.test_input@.len() == 0 {
                    None
                } else if names.len() == 0 {
                    Some("No rules match"@)
                } else {
                    Some("✓ Matches «"@ + join(names, ", "@) + "»"@)
                }
            }),
    {
        if self.test_input.as_str().is_empty() {
            return None;
        }
        let names = engine.matching_names(self.test_input.as_str());
        assert(texts(names@).len() == names.len());
        if names.len() == 0 {
            Some("No rules match".to_owned())
        } else {
            let mut s = "✓ Matches «".to_owned();
            let j = joined(&names, ", ");
            s.append(j.as_str());
            s.append("»");
            Some(s)
        }
    }

    /// What the picker of profiles shows.
    pub fn profile_caption(&self) -> (r: String)
        ensures
            r@ == if self.selected_profile@.len() == 0 {
                "Profile: —"@
            } else {
                "Profile: "@ + self.selected_profile@
            },
    {
        if self.selected_profile.as_str().is_empty() {
            "Profile: —".to_owned()
        } else {
            let mut s = "Profile: ".to_owned();
            s.append(self.selected_profile.as_str());
            s
        }
    }
}

/// The names of the profiles in ascending order.
pub fn profile_names(profiles: &NameMap<Vec<RuleConfig>>) -> (r: Vec<String>)
    ensures
        texts(r@) == name_order(profiles@.dom()),
{
    profiles.sorted_names()
}

/// Rules that were saved as a profile and are loaded again are the same rules in
/// the same order, whatever rules there were in between.
pub proof fn law_rule_profile_loads_back(saved: Seq<Rule>, profile: Seq<RuleConfig>, loaded: Seq<Rule>)
    requires
        config_views(profile) == rule_views(saved),
        rule_views(loaded) == config_views(profile),
    ensures
        rule_views(loaded) == rule_views(saved),
{
}

/// Imported rules are added behind those that are there; a file that could not be read or
/// understood changes nothing.
pub proof fn law_imported_rules_are_added(
    tab: &mut RulesTab,
    engine: &mut RuleEngine,
    outcome: &ImportOutcome,
    changed: bool,
)
    requires
        call_ensures(RulesTab::finish_import, (tab, engine, outcome), changed),
    ensures
        *outcome matches ImportOutcome::Parsed(rules) ==> changed && rule_views(
            final(engine).rules@,
        ) == rule_views(old(engine).rules@) + config_views(rules@),
        !(*outcome is Parsed) ==> !changed && rule_views(final(engine).rules@) == rule_views(
            old(engine).rules@,
        ),
{
}

/// A rule is deleted only after the user has confirmed it, and only the one that was
/// chosen.
pub proof fn law_only_confirmed_rules_are_deleted(
    tab: &mut RulesTab,
    next: &mut RulesTab,
    engine: &mut RuleEngine,
    id: &str,
    confirmed: bool,
    cancelled: bool,
    changed: bool,
)
    requires
        call_ensures(RulesTab::ask_delete, (tab, id), ()),
        *old(next) == *final(tab),
        call_ensures(RulesTab::answer_delete, (next, engine, confirmed, cancelled), changed),
    ensures
        changed == confirmed,
        ({
            let (x, y) = (rule_views(old(engine).rules@), rule_views(final(engine).rules@));
            &&& !confirmed ==> y == x
            &&& confirmed ==> y == x.filter(|v: RuleView| v.rule_id != id@)
        }),
        !confirmed && !cancelled ==> final(next).confirm_delete_rule,
        confirmed || cancelled ==> !final(next).confirm_delete_rule,
{
    lemma_without_id(rule_views(old(engine).rules@), id@);
}

/// Rules that were saved under a name are there again when that name is loaded.
pub proof fn law_saved_rules_are_loaded_back(
    tab: &mut RulesTab,
    next: &mut RulesTab,
    engine: &RuleEngine,
    profiles: &mut NameMap<Vec<RuleConfig>>,
    after: &NameMap<Vec<RuleConfig>>,
    other: &mut RuleEngine,
    cancelled: bool,
    changed: bool,
)
    requires
        call_ensures(RulesTab::save_profile, (tab, engine, profiles), ()),
        *after == *final(profiles),
        *old(next) == *final(tab),
        call_ensures(RulesTab::answer_load, (next, other, after, true, cancelled), changed),
    ensures
        changed,
        rule_views(final(other).rules@) == rule_views(engine.rules@),
{
}

/// Without a confirmation no profile is loaded or deleted.
pub proof fn law_profiles_wait_for_a_confirmation(
    tab: &mut RulesTab,
    next: &mut RulesTab,
    engine: &mut RuleEngine,
    profiles: &NameMap<Vec<RuleConfig>>,
    stored: &mut NameMap<Vec<RuleConfig>>,
    cancelled: bool,
    loaded: bool,
    deleted: bool,
)
    requires
        call_ensures(RulesTab::answer_load, (tab, engine, profiles, false, cancelled), loaded),
        call_ensures(RulesTab::answer_delete_profile, (next, stored, false, cancelled), deleted),
    ensures
        !loaded && !deleted,
        rule_views(final(engine).rules@) == rule_views(old(engine).rules@),
        final(stored)@ == old(stored)@,
{
}

/// A rule that comes out of the form takes the place of the one with its id, and stands at
/// the end where there is none; without a rule nothing changes.
pub proof fn law_edited_rule_takes_its_place(
    tab: &mut RulesTab,
    engine: &mut RuleEngine,
    result: Option<Rule>,
    changed: bool,
    i: int,
)
    requires
        call_ensures(RulesTab::take_edited, (tab, engine, result), changed),
    ensures
        changed <==> result is Some,
        final(tab).edit_dialog is None,
        ({
            let (x, y) = (rule_views(old(engine).rules@), rule_views(final(engine).rules@));
            &&& result is None ==> y == x
            &&& result is Some && 0 <= i < x.len() && x[i].rule_id == result->0@.rule_id && (
            forall|k: int| 0 <= k < i ==> (#[trigger] x[k]).rule_id != x[i].rule_id) ==> y
                == x.update(i, result->0@)
            &&& result is Some && (forall|k: int|
                0 <= k < x.len() ==> (#[trigger] x[k]).rule_id != result->0@.rule_id) ==> y == x.push(
                result->0@,
            )
        }),
{
    if result is Some {
        lemma_first_with_id(rule_views(old(engine).rules@), result->0@.rule_id, i);
    }
}

/// The place of the first rule with an id.
proof fn lemma_first_with_id(s: Seq<RuleView>, id: Seq<char>, i: int)
    ensures
        0 <= i < s.len() && s[i].rule_id == id && (forall|k: int|
            0 <= k < i ==> (#[trigger] s[k]).rule_id != id) ==> find_id(s, id) == Some(i),
        (forall|k: int| 0 <= k < s.len() ==> (#[trigger] s[k]).rule_id != id) ==> find_id(s, id)
            is None,
    decreases s.len(),
{
    if s.len() > 0 {
        let d = s.drop_last();
        lemma_first_with_id(d, id, i);
        assert forall|k: int| 0 <= k < d.len() implies #[trigger] d[k] == s[k] by {}
        assert(s[s.len() - 1] == s.last());
    }
}

} // verus!
