//! The dialogs in which a rule is edited or made from a template.

use vstd::prelude::*;
use vstd::string::*;

use crate::config::{is_uuid_text, RuleView};
use crate::cpulist::cpulist;
use crate::gui::dialogs::{checked, AffinityPicker, CpuContext};
use crate::idset::{ascending, IdSet};
use crate::rules::{empty_rule, Rule};

verus! {

/// The view of what a rule dialog gives.
pub open spec fn answer(r: Option<Option<Rule>>) -> Option<Option<RuleView>> {
    match r {
        Some(Some(rule)) => Some(Some(rule@)),
        Some(None) => Some(None),
        None => None,
    }
}

/// The same answer.
fn copy_answer(r: &Option<Option<Rule>>) -> (c: Option<Option<Rule>>)
    ensures
        answer(c) == answer(*r),
{
    match r {
        Some(Some(rule)) => Some(Some(rule.copy())),
        Some(None) => Some(None),
        None => None,
    }
}

// ── Editing ──────────────────────────────────────────────────────────────────

/// The dialog in which a rule is edited.
pub struct RuleEditDialog {
    pub open: bool,
    pub rule: Rule,
    pub affinity_enabled: bool,
    pub nice_enabled: bool,
    pub ionice_enabled: bool,
    pub affinity_picker: AffinityPicker,
    /// What was decided; within it nothing where it was cancelled.
    pub result: Option<Option<Rule>>,
}

/// The rule that a form stands for: what is not enabled is left out, and so is an
/// empty selection of CPUs.
pub open spec fn edited_rule(
    rule: RuleView,
    affinity: Option<Seq<char>>,
    nice_enabled: bool,
    ionice_enabled: bool,
) -> RuleView {
    RuleView {
        affinity: match affinity {
            Some(list) => if list.len() == 0 {
                None
            } else {
                Some(list)
            },
            None => None,
        },
        nice: if nice_enabled {
            rule.nice
        } else {
            None
        },
        ionice_class: if ionice_enabled {
            rule.ionice_class
        } else {
            None
        },
        ionice_level: if ionice_enabled {
            rule.ionice_level
        } else {
            None
        },
        ..rule
    }
}

/// A rule whose form fields are filled: nice 0, I/O class 2 and level 4 where there
/// was nothing.
pub open spec fn filled(rule: RuleView) -> RuleView {
    RuleView {
        nice: Some(
            match rule.nice {
                Some(n) => n,
                None => 0,
            },
        ),
        ionice_class: Some(
            match rule.ionice_class {
                Some(n) => n,
                None => 2,
            },
        ),
        ionice_level: Some(
            match rule.ionice_level {
                Some(n) => n,
                None => 4,
            },
        ),
        ..rule
    }
}

impl RuleEditDialog {
    /// The dialog has just been opened on its rule, on a machine with these CPUs.
    pub open spec fn opened(&self, cpus: CpuContext) -> bool {
        &&& self.open
        &&& self.affinity_enabled == (self.rule@.affinity is Some)
        &&& self.nice_enabled == (self.rule@.nice is Some)
        &&& self.ionice_enabled == (self.rule@.ionice_class is Some)
        &&& self.affinity_picker.shows(
            match self.rule@.affinity {
                Some(list) => list,
                None => Seq::empty(),
            },
            cpus,
        )
        &&& self.result is None
    }

    /// A dialog that shows a rule.
    pub fn new(template: Rule, cpus: &CpuContext) -> (r: RuleEditDialog)
        ensures
            r.rule == template,
            r.opened(*cpus),
    {
        let picker = match &template.affinity {
            Some(s) => AffinityPicker::new(s.as_str(), cpus),
            None => {
                proof {
                    reveal_strlit("");
                    assert(""@ =~= Seq::<char>::empty());
                }
                AffinityPicker::new("", cpus)
            },
        };
        RuleEditDialog {
            open: true,
            affinity_enabled: template.affinity.is_some(),
            nice_enabled: template.nice.is_some(),
            ionice_enabled: template.ionice_class.is_some(),
            affinity_picker: picker,
            rule: template,
            result: None,
        }
    }

    /// The heading of the dialog.
    pub fn heading(&self) -> (r: String)
        ensures
            r@ == if self.rule@.name.len() == 0 {
                "Add Rule"@
            } else {
                "Edit Rule — "@ + self.rule@.name
            },
    {
        if self.rule.name.as_str().is_empty() {
            return "Add Rule".to_owned();
        }
        let mut s = "Edit Rule — ".to_owned();
        s.append(self.rule.name.as_str());
        s
    }

    /// Fills the fields of the form that the rule leaves open.
    pub fn fill_defaults(&mut self)
        ensures
            final(self).rule@ == filled(old(self).rule@),
            *final(self) == (RuleEditDialog { rule: final(self).rule, ..*old(self) }),
    {
        if self.rule.nice.is_none() {
            self.rule.nice = Some(0);
        }
        if self.rule.ionice_class.is_none() {
            self.rule.ionice_class = Some(2);
        }
        if self.rule.ionice_level.is_none() {
            self.rule.ionice_level = Some(4);
        }
    }

    /// Whether the form can be accepted: it has a pattern.
    pub fn can_accept(&self) -> (r: bool)
        ensures
            r == (self.rule@.pattern.len() > 0),
    {
        !self.rule.pattern.as_str().is_empty()
    }

    /// The rule that the form stands for.
    pub open spec fn outcome(&self) -> RuleView {
        edited_rule(
            self.rule@,
            if self.affinity_enabled {
                Some(cpulist(ascending(checked(self.affinity_picker.checkboxes@))))
            } else {
                None
            },
            self.nice_enabled,
            self.ionice_enabled,
        )
    }

    /// What the dialog gives at the end of a frame: the edited rule once accepted,
    /// nothing within the answer once cancelled.
    pub fn finish(&mut self, close_as: Option<bool>) -> (r: Option<Option<Rule>>)
        ensures
            if !old(self).open {
                answer(r) == answer(old(self).result) && *final(self) == *old(self)
            } else {
                match close_as {
                    None => r is None && *final(self) == *old(self),
                    Some(false) => {
                        &&& answer(r) == Some(None::<RuleView>)
                        &&& *final(self) == (RuleEditDialog {
                            open: false,
                            result: Some(None),
                            ..*old(self)
                        })
                    },
                    Some(true) => {
                        &&& answer(r) == Some(Some(old(self).outcome()))
                        &&& answer(final(self).result) == answer(r)
                        &&& final(self).rule@ == old(self).outcome()
                        &&& *final(self) == (RuleEditDialog {
                            open: false,
                            rule: final(self).rule,
                            result: final(self).result,
                            ..*old(self)
                        })
                    },
                }
            },
    {
        if !self.open {
            return copy_answer(&self.result);
        }
        match close_as {
            None => None,
            Some(accept) => {
                self.open = false;
                if !accept {
                    self.result = Some(None);
                    return Some(None);
                }
                if self.affinity_enabled {
                    let list = self.affinity_picker.cpulist();
                    self.rule.affinity = if list.as_str().is_empty() {
                        None
                    } else {
                        Some(list)
                    };
                } else {
                    self.rule.affinity = None;
                }
                if !self.nice_enabled {
                    self.rule.nice = None;
                }
                if !self.ionice_enabled {
                    self.rule.ionice_class = None;
                    self.rule.ionice_level = None;
                }
                self.rule.refresh_regex();
                self.result = Some(Some(self.rule.copy()));
                Some(Some(self.rule.copy()))
            },
        }
    }
}

/// Accepting a form keeps the name, the pattern, the kind of match and the id of
/// the rule.
pub proof fn law_editing_keeps_identity(
    rule: RuleView,
    affinity: Option<Seq<char>>,
    nice_enabled: bool,
    ionice_enabled: bool,
)
    ensures
        ({
            let e = edited_rule(filled(rule), affinity, nice_enabled, ionice_enabled);
            &&& e.rule_id == rule.rule_id
            &&& e.name == rule.name
            &&& e.pattern == rule.pattern
            &&& e.match_type == rule.match_type
            &&& e.enabled == rule.enabled
        }),
{
}

/// Accepting a form that was not touched gives back the nice value and, where
/// it was complete, the I/O priority that the rule had.
pub proof fn law_untouched_form_keeps_priorities(rule: RuleView, affinity: Option<Seq<char>>)
    requires
        rule.ionice_class is Some <==> rule.ionice_level is Some,
    ensures
        ({
            let e = edited_rule(
                filled(rule),
                affinity,
                rule.nice is Some,
                rule.ionice_class is Some,
            );
            e.nice == rule.nice && e.ionice_class == rule.ionice_class && e.ionice_level
                == rule.ionice_level
        }),
{
}

// ── Templates ────────────────────────────────────────────────────────────────

/// A template for a rule.
#[derive(Debug, Clone, Copy)]
pub struct Preset {
    pub name: &'static str,
    pub pattern: &'static str,
    pub match_type: &'static str,
    pub affinity: Option<&'static str>,
    pub nice: Option<i32>,
    pub ionice_class: Option<i32>,
    pub ionice_level: Option<i32>,
}

/// The number of templates.
pub const PRESET_COUNT: usize = 12;

/// The template at a place of the list.
pub open spec fn preset_at(i: int) -> Option<Preset> {
    if i == 0 {
        Some(
            Preset {
                name: "Steam (CCD0)",
                pattern: "steam",
                match_type: "exact",
                affinity: Some("0-7,16-23"),
                nice: None,
                ionice_class: None,
                ionice_level: None,
            },
        )
    } else if i == 1 {
        Some(
            Preset {
                name: "steamwebhelper",
                pattern: "steamwebhelper",
                match_type: "exact",
                affinity: Some("0-7,16-23"),
                nice: Some(5),
                ionice_class: None,
                ionice_level: None,
            },
        )
    } else if i == 2 {
        Some(
            Preset {
                name: "Wine / Proton",
                pattern: "wine",
                match_type: "contains",
                affinity: Some("0-7,16-23"),
                nice: None,
                ionice_class: None,
                ionice_level: None,
            },
        )
    } else if i == 3 {
        Some(
            Preset {
                name: "Proton",
                pattern: "proton",
                match_type: "contains",
                affinity: Some("0-7,16-23"),
                nice: None,
                ionice_class: None,
                ionice_level: None,
            },
        )
    } else if i == 4 {
        Some(
            Preset {
                name: "OBS Studio",
                pattern: "obs",
                match_type: "exact",
                affinity: Some("0-7,16-23"),
                nice: Some(-1i32),
                ionice_class: None,
                ionice_level: None,
            },
        )
    } else if i == 5 {
        Some(
            Preset {
                name: "Discord",
                pattern: "discord",
                match_type: "contains",
                affinity: Some("8-15,24-31"),
                nice: Some(5),
                ionice_class: None,
                ionice_level: None,
            },
        )
    } else if i == 6 {
        Some(
            Preset {
                name: "Firefox",
                pattern: "firefox",
                match_type: "contains",
                affinity: Some("8-15,24-31"),
                nice: None,
                ionice_class: None,
                ionice_level: None,
            },
        )
    } else if i == 7 {
        Some(
            Preset {
                name: "Chromium / Chrome",
                pattern: "chrom",
                match_type: "contains",
                affinity: Some("8-15,24-31"),
                nice: None,
                ionice_class: None,
                ionice_level: None,
            },
        )
    } else if i == 8 {
        Some(
            Preset {
                name: "KWin",
                pattern: "kwin",
                match_type: "contains",
                affinity: None,
                nice: None,
                ionice_class: None,
                ionice_level: None,
            },
        )
    } else if i == 9 {
        Some(
            Preset {
                name: "Plasma Shell",
                pattern: "plasmashell",
                match_type: "exact",
                affinity: Some("8-15,24-31"),
                nice: Some(5),
                ionice_class: None,
                ionice_level: None,
            },
        )
    } else if i == 10 {
        Some(
            Preset {
                name: "Compiler (gcc/clang)",
                pattern: "gcc",
                match_type: "contains",
                affinity: Some("0-15,16-31"),
                nice: None,
                ionice_class: Some(2),
                ionice_level: Some(4),
            },
        )
    } else if i == 11 {
        Some(
            Preset {
                name: "Archive / compress",
                pattern: "7z",
                match_type: "contains",
                affinity: Some("8-15,24-31"),
                nice: Some(10),
                ionice_class: Some(3),
                ionice_level: None,
            },
        )
    } else {
        None
    }
}

/// The template at a place of the list.
pub fn rule_preset(i: usize) -> (r: Option<Preset>)
    ensures
        r == preset_at(i as int),
        r is Some <==> i < PRESET_COUNT,
{
    if i == 0 {
        Some(
            Preset {
                name: "Steam (CCD0)",
                pattern: "steam",
                match_type: "exact",
                affinity: Some("0-7,16-23"),
                nice: None,
                ionice_class: None,
                ionice_level: None,
            },
        )
    } else if i == 1 {
        Some(
            Preset {
                name: "steamwebhelper",
                pattern: "steamwebhelper",
                match_type: "exact",
                affinity: Some("0-7,16-23"),
                nice: Some(5),
                ionice_class: None,
                ionice_level: None,
            },
        )
    } else if i == 2 {
        Some(
            Preset {
                name: "Wine / Proton",
                pattern: "wine",
                match_type: "contains",
                affinity: Some("0-7,16-23"),
                nice: None,
                ionice_class: None,
                ionice_level: None,
            },
        )
    } else if i == 3 {
        Some(
            Preset {
                name: "Proton",
                pattern: "proton",
                match_type: "contains",
                affinity: Some("0-7,16-23"),
                nice: None,
                ionice_class: None,
                ionice_level: None,
            },
        )
    } else if i == 4 {
        Some(
            Preset {
                name: "OBS Studio",
                pattern: "obs",
                match_type: "exact",
                affinity: Some("0-7,16-23"),
                nice: Some(-1),
                ionice_class: None,
                ionice_level: None,
            },
        )
    } else if i == 5 {
        Some(
            Preset {
                name: "Discord",
                pattern: "discord",
                match_type: "contains",
                affinity: Some("8-15,24-31"),
                nice: Some(5),
                ionice_class: None,
                ionice_level: None,
            },
        )
    } else if i == 6 {
        Some(
            Preset {
                name: "Firefox",
                pattern: "firefox",
                match_type: "contains",
                affinity: Some("8-15,24-31"),
                nice: None,
                ionice_class: None,
                ionice_level: None,
            },
        )
    } else if i == 7 {
        Some(
            Preset {
                name: "Chromium / Chrome",
                pattern: "chrom",
                match_type: "contains",
                affinity: Some("8-15,24-31"),
                nice: None,
                ionice_class: None,
                ionice_level: None,
            },
        )
    } else if i == 8 {
        Some(
            Preset {
                name: "KWin",
                pattern: "kwin",
                match_type: "contains",
                affinity: None,
                nice: None,
                ionice_class: None,
                ionice_level: None,
            },
        )
    } else if i == 9 {
        Some(
            Preset {
                name: "Plasma Shell",
                pattern: "plasmashell",
                match_type: "exact",
                affinity: Some("8-15,24-31"),
                nice: Some(5),
                ionice_class: None,
                ionice_level: None,
            },
        )
    } else if i == 10 {
        Some(
            Preset {
                name: "Compiler (gcc/clang)",
                pattern: "gcc",
                match_type: "contains",
                affinity: Some("0-15,16-31"),
                nice: None,
                ionice_class: Some(2),
                ionice_level: Some(4),
            },
        )
    } else if i == 11 {
        Some(
            Preset {
                name: "Archive / compress",
                pattern: "7z",
                match_type: "contains",
                affinity: Some("8-15,24-31"),
                nice: Some(10),
                ionice_class: Some(3),
                ionice_level: None,
            },
        )
    } else {
        None
    }
}

/// A text that may be missing.
pub open spec fn opt_str(o: Option<&'static str>) -> Option<Seq<char>> {
    match o {
        Some(s) => Some(s@),
        None => None,
    }
}

/// The rule that a template gives.
pub open spec fn preset_rule(p: Preset, id: Seq<char>) -> RuleView {
    RuleView {
        name: p.name@,
        pattern: p.pattern@,
        match_type: p.match_type@,
        affinity: opt_str(p.affinity),
        nice: p.nice,
        ionice_class: p.ionice_class,
        ionice_level: p.ionice_level,
        ..empty_rule(id)
    }
}

/// Makes a rule from a template.
pub fn rule_from_preset(p: &Preset) -> (r: Rule)
    ensures
        is_uuid_text(r@.rule_id),
        r@ == preset_rule(*p, r@.rule_id),
{
    let mut rule = Rule::new_empty();
    rule.name = p.name.to_owned();
    rule.pattern = p.pattern.to_owned();
    rule.match_type = p.match_type.to_owned();
    rule.affinity = match p.affinity {
        Some(s) => Some(s.to_owned()),
        None => None,
    };
    rule.nice = p.nice;
    rule.ionice_class = p.ionice_class;
    rule.ionice_level = p.ionice_level;
    rule
}

/// The dialog in which a template is chosen.
pub struct RulePresetsDialog {
    pub open: bool,
    pub selected: Option<usize>,
    /// What was decided; within it nothing where it was cancelled.
    pub result: Option<Option<Rule>>,
}

impl RulePresetsDialog {
    /// What is selected is a template.
    pub open spec fn well_formed(&self) -> bool {
        self.selected is Some ==> self.selected->0 < PRESET_COUNT
    }

    /// A dialog with nothing selected.
    pub fn new() -> (r: RulePresetsDialog)
        ensures
            r.well_formed(),
            r.open,
            r.selected is None,
            r.result is None,
    {
        RulePresetsDialog { open: true, selected: None, result: None }
    }

    /// What the dialog gives at the end of a frame: a rule made from the selected
    /// template, or nothing within the answer once cancelled or with none selected.
    pub fn finish(&mut self, close_as: Option<bool>) -> (r: Option<Option<Rule>>)
        requires
            old(self).well_formed(),
        ensures
            if !old(self).open {
                answer(r) == answer(old(self).result) && *final(self) == *old(self)
            } else if close_as is None {
                r is None && *final(self) == *old(self)
            } else {
                &&& *final(self) == (RulePresetsDialog {
                    open: false,
                    result: final(self).result,
                    ..*old(self)
                })
                &&& answer(final(self).result) == answer(r)
                &&& r is Some
                &&& if close_as->0 && old(self).selected is Some {
                    &&& r->0 is Some
                    &&& is_uuid_text(r->0->0@.rule_id)
                    &&& r->0->0@ == preset_rule(
                        preset_at(old(self).selected->0 as int)->0,
                        r->0->0@.rule_id,
                    )
                } else {
                    r->0 is None
                }
            },
    {
        if !self.open {
            return copy_answer(&self.result);
        }
        let accept = match close_as {
            None => {
                return None;
            },
            Some(accept) => accept,
        };
        self.open = false;
        if accept {
            if let Some(idx) = self.selected {
                if let Some(p) = rule_preset(idx) {
                    let rule = rule_from_preset(&p);
                    self.result = Some(Some(rule.copy()));
                    return Some(Some(rule));
                }
            }
        }
        self.result = Some(None);
        Some(None)
    }
}

/// An edited rule keeps its identity; what was switched off in the form is not set by it,
/// what is switched on is, and the CPUs are those that are checked.
pub proof fn law_edited_rule_is_what_the_form_shows(
    d: &mut RuleEditDialog,
    r: Option<Option<Rule>>,
    list: &str,
    set: Result<IdSet, crate::cpulist::BadCpuList>,
    c: u32,
)
    requires
        call_ensures(RuleEditDialog::finish, (d, Some(true)), r),
        old(d).open,
        old(d).affinity_picker.well_formed(),
        c < old(d).affinity_picker.cpu_count,
        r matches Some(Some(rule)) ==> (rule@.affinity is Some ==> rule@.affinity->0 == list@),
        call_ensures(crate::cpulist::cpulist_to_set, (list,), set),
    ensures
        !final(d).open,
        r matches Some(Some(rule)) && {
            &&& rule@.rule_id == old(d).rule@.rule_id
            &&& rule@.name == old(d).rule@.name
            &&& rule@.pattern == old(d).rule@.pattern
            &&& rule@.match_type == old(d).rule@.match_type
            &&& rule@.enabled == old(d).rule@.enabled
            &&& !old(d).nice_enabled ==> rule@.nice is None
            &&& old(d).nice_enabled ==> rule@.nice == old(d).rule@.nice
            &&& !old(d).ionice_enabled ==> rule@.ionice_class is None && rule@.ionice_level is None
            &&& old(d).ionice_enabled ==> rule@.ionice_class == old(d).rule@.ionice_class
                && rule@.ionice_level == old(d).rule@.ionice_level
            &&& !old(d).affinity_enabled ==> rule@.affinity is None
            &&& rule@.affinity is Some ==> set is Ok && (set->Ok_0@.contains(c)
                <==> old(d).affinity_picker.checkboxes@[c as int])
            &&& old(d).affinity_enabled && old(d).affinity_picker.checkboxes@[c as int]
                ==> rule@.affinity is Some
        },
{
    let s = checked(old(d).affinity_picker.checkboxes@);
    crate::idset::law_ascending_holds_the_members(s);
    assert(ascending(s).to_set() =~= s);
    crate::cpulist::law_cpulist_round_trip(ascending(s));
    assert(answer(r) == Some(Some(old(d).outcome())));
    if s.contains(c) {
        let o = ascending(s);
        assert(o.contains(c));
        if crate::cpulist::cpulist(o).len() == 0 {
            let none = Seq::<u32>::empty();
            crate::cpulist::law_cpulist_round_trip(none);
            assert(crate::cpulist::cpulist(none) =~= Seq::<char>::empty());
            assert(crate::cpulist::cpulist(o) =~= Seq::<char>::empty());
            assert(none.to_set() == o.to_set());
            assert(o.to_set().contains(c));
        }
    }
}

/// A rule dialog that is cancelled gives no rule.
pub proof fn law_cancelled_rule_is_none(
    d: &mut RuleEditDialog,
    close_as: Option<bool>,
    r: Option<Option<Rule>>,
)
    requires
        call_ensures(RuleEditDialog::finish, (d, close_as), r),
        old(d).open,
    ensures
        close_as == Some(false) ==> !final(d).open && (r matches Some(x) && x is None),
        close_as is None ==> final(d).open && r is None,
{
}

/// A preset that was chosen and accepted gives an enabled rule with its settings; without
/// a choice there is none.
pub proof fn law_chosen_preset_becomes_a_rule(
    d: &mut RulePresetsDialog,
    r: Option<Option<Rule>>,
    i: usize,
    p: Option<Preset>,
)
    requires
        call_ensures(RulePresetsDialog::finish, (d, Some(true)), r),
        old(d).well_formed(),
        old(d).open,
        call_ensures(rule_preset, (i,), p),
        i < PRESET_COUNT,
    ensures
        old(d).selected is None ==> (r matches Some(x) && x is None),
        old(d).selected == Some(i) ==> (p matches Some(preset) && (r matches Some(Some(rule)) && {
            &&& rule@.name == preset.name@
            &&& rule@.pattern == preset.pattern@
            &&& rule@.match_type == preset.match_type@
            &&& rule@.nice == preset.nice
            &&& rule@.ionice_class == preset.ionice_class
            &&& rule@.ionice_level == preset.ionice_level
            &&& preset.affinity is None <==> rule@.affinity is None
            &&& preset.affinity is Some ==> rule@.affinity == Some(preset.affinity->0@)
            &&& rule@.enabled
        })),
        !final(d).open,
{
}

} // verus!
