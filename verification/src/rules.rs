//! Rules: which processes they are for, and the list of them.

use vstd::prelude::*;
use vstd::string::*;

use crate::config::{copy_opt, is_uuid_text, RuleConfig, RuleView};
use crate::gui::process_tab::{built_regex, filter_regex, regex_finds, FilterCache};
use crate::lower::{lowercase, lowered};
use crate::number::{dec, push_dec};
use crate::text::{contains_text, has_substring, opt_text, same_text, texts};

verus! {

/// A rule.
pub struct Rule {
    pub rule_id: String,
    pub name: String,
    pub pattern: String,
    /// `contains`, `exact` or `regex`.
    pub match_type: String,
    pub affinity: Option<String>,
    pub nice: Option<i32>,
    pub ionice_class: Option<i32>,
    pub ionice_level: Option<i32>,
    pub enabled: bool,
    /// The pattern, compiled, where it is a regular expression.
    pub compiled: Option<FilterCache>,
}

impl View for Rule {
    type V = RuleView;

    open spec fn view(&self) -> RuleView {
        RuleView {
            rule_id: self.rule_id@,
            name: self.name@,
            pattern: self.pattern@,
            match_type: self.match_type@,
            affinity: opt_text(self.affinity),
            nice: self.nice,
            ionice_class: self.ionice_class,
            ionice_level: self.ionice_level,
            enabled: self.enabled,
        }
    }
}

/// A rule that does nothing yet.
pub open spec fn empty_rule(id: Seq<char>) -> RuleView {
    RuleView {
        rule_id: id,
        name: Seq::empty(),
        pattern: Seq::empty(),
        match_type: "contains"@,
        affinity: None,
        nice: None,
        ionice_class: None,
        ionice_level: None,
        enabled: true,
    }
}

/// A pattern is for a process name: it is the name, it is a part of it, or it is a
/// regular expression that is found in it. Case is ignored. An invalid expression
/// is for none.
pub open spec fn pattern_fits(match_type: Seq<char>, pattern: Seq<char>, name: Seq<char>) -> bool {
    if match_type == "exact"@ {
        lowercase(name) == lowercase(pattern)
    } else if match_type == "regex"@ {
        match filter_regex(pattern) {
            Some(re) => regex_finds(re, name),
            None => false,
        }
    } else {
        has_substring(lowercase(name), lowercase(pattern))
    }
}

/// Whether a pattern that is no regular expression fits, name and pattern being in
/// lower case.
pub fn fits_lowered(exact: bool, pattern: &str, name: &str) -> (r: bool)
    ensures
        r == if exact {
            name@ == pattern@
        } else {
            has_substring(name@, pattern@)
        },
{
    if exact {
        same_text(name, pattern)
    } else {
        contains_text(name, pattern)
    }
}

impl Rule {
    /// A rule that does nothing yet, with an id of its own.
    pub fn new_empty() -> (r: Rule)
        ensures
            is_uuid_text(r@.rule_id),
            r@ == empty_rule(r@.rule_id),
    {
        let cfg = RuleConfig::default();
        let r = Rule::from_config(&cfg);
        proof {
            assert(cfg.name@ =~= Seq::<char>::empty());
            assert(cfg.pattern@ =~= Seq::<char>::empty());
        }
        r
    }

    /// A rule as it was stored.
    pub fn from_config(cfg: &RuleConfig) -> (r: Rule)
        ensures
            r@ == cfg@,
    {
        let mut r = Rule {
            rule_id: cfg.rule_id.clone(),
            name: cfg.name.clone(),
            pattern: cfg.pattern.clone(),
            match_type: cfg.match_type.clone(),
            affinity: copy_opt(&cfg.affinity),
            nice: cfg.nice,
            ionice_class: cfg.ionice_class,
            ionice_level: cfg.ionice_level,
            enabled: cfg.enabled,
            compiled: None,
        };
        r.refresh_regex();
        r
    }

    /// The rule as it is stored.
    pub fn to_config(&self) -> (r: RuleConfig)
        ensures
            r@ == self@,
    {
        RuleConfig {
            rule_id: self.rule_id.clone(),
            name: self.name.clone(),
            pattern: self.pattern.clone(),
            match_type: self.match_type.clone(),
            affinity: copy_opt(&self.affinity),
            nice: self.nice,
            ionice_class: self.ionice_class,
            ionice_level: self.ionice_level,
            enabled: self.enabled,
        }
    }

    /// The same rule.
    pub fn copy(&self) -> (r: Rule)
        ensures
            r@ == self@,
    {
        let cfg = self.to_config();
        Rule::from_config(&cfg)
    }

    /// Compiles the pattern where it is a regular expression.
    pub fn refresh_regex(&mut self)
        ensures
            final(self)@ == old(self)@,
            final(self).compiled is Some <==> old(self)@.match_type == "regex"@,
            final(self).compiled is Some ==> final(self).compiled->0.source() == old(self)@.pattern,
            *final(self) == (Rule { compiled: final(self).compiled, ..*old(self) }),
    {
        if same_text(self.match_type.as_str(), "regex") {
            self.compiled = Some(FilterCache::new(self.pattern.as_str()));
        } else {
            self.compiled = None;
        }
    }

    /// Whether the rule is for a process of this name.
    pub fn matches(&self, name: &str) -> (r: bool)
        ensures
            r == pattern_fits(self@.match_type, self@.pattern, name@),
    {
        if same_text(self.match_type.as_str(), "regex") {
            proof {
                lemma_regex_is_not_exact();
            }
            if let Some(c) = &self.compiled {
                if c.is_for(self.pattern.as_str()) {
                    return c.finds(name);
                }
            }
            let c = FilterCache::new(self.pattern.as_str());
            return c.finds(name);
        }
        let exact = same_text(self.match_type.as_str(), "exact");
        let low_name = lowered(name);
        let low_pattern = lowered(self.pattern.as_str());
        fits_lowered(exact, low_pattern.as_str(), low_name.as_str())
    }
}

/// The two match types are different texts.
proof fn lemma_regex_is_not_exact()
    ensures
        "regex"@ != "exact"@,
{
    reveal_strlit("regex");
    reveal_strlit("exact");
    assert("regex"@[0] != "exact"@[0]);
}

// ── The list of rules ────────────────────────────────────────────────────────

/// The views of a list of rules.
pub open spec fn rule_views(s: Seq<Rule>) -> Seq<RuleView> {
    Seq::new(s.len(), |i: int| s[i]@)
}

/// The views of a list of stored rules.
pub open spec fn config_views(s: Seq<RuleConfig>) -> Seq<RuleView> {
    Seq::new(s.len(), |i: int| s[i]@)
}

/// The rules with another id.
pub open spec fn without_id(s: Seq<RuleView>, id: Seq<char>) -> Seq<RuleView>
    decreases s.len(),
{
    if s.len() == 0 {
        s
    } else if s.last().rule_id == id {
        without_id(s.drop_last(), id)
    } else {
        without_id(s.drop_last(), id).push(s.last())
    }
}

/// A rule with this id is in the list.
pub open spec fn has_id(s: Seq<RuleView>, id: Seq<char>) -> bool {
    exists|i: int| 0 <= i < s.len() && (#[trigger] s[i]).rule_id == id
}

/// The first rule with an id.
pub open spec fn find_id(s: Seq<RuleView>, id: Seq<char>) -> Option<int>
    decreases s.len(),
{
    if s.len() == 0 {
        None
    } else {
        match find_id(s.drop_last(), id) {
            Some(i) => Some(i),
            None => if s.last().rule_id == id {
                Some(s.len() - 1)
            } else {
                None
            },
        }
    }
}

/// What is found at the end of a prefix is found in the whole.
proof fn lemma_find_id_prefix(s: Seq<RuleView>, id: Seq<char>, n: int)
    requires
        0 <= n <= s.len(),
        find_id(s.take(n), id) is Some,
    ensures
        find_id(s, id) == find_id(s.take(n), id),
    decreases s.len() - n,
{
    if n < s.len() {
        assert(s.take(n + 1).drop_last() =~= s.take(n));
        lemma_find_id_prefix(s, id, n + 1);
    } else {
        assert(s.take(n) =~= s);
    }
}

/// A rule that is found is in the list; one that is not is not.
pub proof fn lemma_find_id(s: Seq<RuleView>, id: Seq<char>)
    ensures
        match find_id(s, id) {
            Some(i) => 0 <= i < s.len() && s[i].rule_id == id,
            None => !has_id(s, id),
        },
    decreases s.len(),
{
    if s.len() > 0 {
        lemma_find_id(s.drop_last(), id);
        if find_id(s, id) is None && has_id(s, id) {
            let i = choose|i: int| 0 <= i < s.len() && (#[trigger] s[i]).rule_id == id;
            if i < s.len() - 1 {
                assert(s.drop_last()[i].rule_id == id);
            }
        }
    }
}

/// The rules in the order in which they are applied.
pub struct RuleEngine {
    pub rules: Vec<Rule>,
}

impl RuleEngine {
    /// No rules.
    pub fn new() -> (r: RuleEngine)
        ensures
            r.rules@.len() == 0,
    {
        RuleEngine { rules: Vec::new() }
    }

    /// Finds the first rule with an id.
    pub fn position(&self, id: &str) -> (r: Option<usize>)
        ensures
            match r {
                Some(i) => i < self.rules.len() && find_id(rule_views(self.rules@), id@) == Some(
                    i as int,
                ),
                None => find_id(rule_views(self.rules@), id@) is None,
            },
    {
        let ghost all = rule_views(self.rules@);
        let mut i: usize = 0;
        assert(all.take(0) =~= Seq::<RuleView>::empty());
        while i < self.rules.len()
            invariant
                i <= self.rules.len(),
                all == rule_views(self.rules@),
                find_id(all.take(i as int), id@) is None,
            decreases self.rules.len() - i,
        {
            assert(all.take(i + 1).drop_last() =~= all.take(i as int));
            assert(all.take(i + 1).last() == self.rules@[i as int]@);
            if same_text(self.rules[i].rule_id.as_str(), id) {
                proof {
                    lemma_find_id_prefix(all, id@, i + 1);
                }
                return Some(i);
            }
            i += 1;
        }
        assert(all.take(i as int) =~= all);
        None
    }

    /// Adds a rule at the end.
    pub fn add_rule(&mut self, rule: Rule)
        ensures
            rule_views(final(self).rules@) == rule_views(old(self).rules@).push(rule@),
    {
        let ghost before = rule_views(self.rules@);
        let ghost rv = rule@;
        self.rules.push(rule);
        assert(rule_views(self.rules@) =~= before.push(rv));
    }

    /// Puts a rule in the place of the one with its id; adds it where there is none.
    pub fn put_rule(&mut self, rule: Rule)
        ensures
            rule_views(final(self).rules@) == match find_id(
                rule_views(old(self).rules@),
                rule@.rule_id,
            ) {
                Some(i) => rule_views(old(self).rules@).update(i, rule@),
                None => rule_views(old(self).rules@).push(rule@),
            },
    {
        let ghost before = rule_views(self.rules@);
        let ghost rv = rule@;
        match self.position(rule.rule_id.as_str()) {
            Some(i) => {
                self.rules.set(i, rule);
                assert(rule_views(self.rules@) =~= before.update(i as int, rv));
            },
            None => {
                self.rules.push(rule);
                assert(rule_views(self.rules@) =~= before.push(rv));
            },
        }
    }

    /// Removes the rules with an id.
    pub fn remove_rule(&mut self, id: &str)
        ensures
            rule_views(final(self).rules@) == without_id(rule_views(old(self).rules@), id@),
    {
        let ghost all = rule_views(self.rules@);
        let mut rest: Vec<Rule> = Vec::new();
        let mut i: usize = 0;
        proof {
            assert(all.take(0) =~= Seq::<RuleView>::empty());
            assert(rule_views(rest@) =~= Seq::<RuleView>::empty());
        }
        while i < self.rules.len()
            invariant
                i <= self.rules.len(),
                all == rule_views(self.rules@),
                rule_views(rest@) == without_id(all.take(i as int), id@),
            decreases self.rules.len() - i,
        {
            assert(all.take(i + 1).drop_last() =~= all.take(i as int));
            assert(all.take(i + 1).last() == self.rules@[i as int]@);
            let ghost before = rule_views(rest@);
            if !same_text(self.rules[i].rule_id.as_str(), id) {
                rest.push(self.rules[i].copy());
                assert(rule_views(rest@) =~= before.push(all[i as int]));
            }
            i += 1;
        }
        assert(all.take(i as int) =~= all);
        self.rules = rest;
    }

    /// Switches a rule on or off; gives whether there is one with this id.
    pub fn toggle_rule(&mut self, id: &str) -> (found: bool)
        ensures
            match find_id(rule_views(old(self).rules@), id@) {
                Some(i) => {
                    &&& found
                    &&& rule_views(final(self).rules@) == rule_views(old(self).rules@).update(
                        i,
                        RuleView {
                            enabled: !rule_views(old(self).rules@)[i].enabled,
                            ..rule_views(old(self).rules@)[i]
                        },
                    )
                },
                None => !found && *final(self) == *old(self),
            },
    {
        match self.position(id) {
            None => false,
            Some(i) => {
                let ghost before = rule_views(self.rules@);
                let mut rule = self.rules[i].copy();
                rule.enabled = !rule.enabled;
                self.rules.set(i, rule);
                assert(rule_views(self.rules@) =~= before.update(
                    i as int,
                    RuleView { enabled: !before[i as int].enabled, ..before[i as int] },
                ));
                true
            },
        }
    }

    /// Removes all rules.
    pub fn clear_rules(&mut self)
        ensures
            final(self).rules@.len() == 0,
    {
        self.rules = Vec::new();
    }

    /// Adds rules as they were stored.
    pub fn load_rules(&mut self, configs: &Vec<RuleConfig>)
        ensures
            rule_views(final(self).rules@) == rule_views(old(self).rules@) + config_views(configs@),
    {
        let ghost start = rule_views(self.rules@);
        let mut i: usize = 0;
        assert(start =~= start + config_views(configs@).take(0));
        while i < configs.len()
            invariant
                i <= configs.len(),
                rule_views(self.rules@) == start + config_views(configs@).take(i as int),
            decreases configs.len() - i,
        {
            self.add_rule(Rule::from_config(&configs[i]));
            i += 1;
            assert(start + config_views(configs@).take(i as int) =~= (start + config_views(
                configs@,
            ).take(i - 1)).push(config_views(configs@)[i - 1]));
        }
        assert(config_views(configs@).take(i as int) =~= config_views(configs@));
    }

    /// The rules as they are stored.
    pub fn to_config_list(&self) -> (r: Vec<RuleConfig>)
        ensures
            config_views(r@) == rule_views(self.rules@),
    {
        let mut r: Vec<RuleConfig> = Vec::new();
        let mut i: usize = 0;
        while i < self.rules.len()
            invariant
                i <= self.rules.len(),
                r.len() == i,
                forall|k: int| 0 <= k < i ==> (#[trigger] r[k])@ == self.rules[k]@,
            decreases self.rules.len() - i,
        {
            r.push(self.rules[i].to_config());
            i += 1;
        }
        assert(config_views(r@) =~= rule_views(self.rules@));
        r
    }

    /// Whether an enabled rule is for a process of this name.
    pub fn matches_any(&self, name: &str) -> (r: bool)
        ensures
            r == exists|i: int|
                0 <= i < self.rules@.len() && (#[trigger] self.rules@[i])@.enabled && pattern_fits(
                    self.rules@[i]@.match_type,
                    self.rules@[i]@.pattern,
                    name@,
                ),
    {
        let mut i: usize = 0;
        while i < self.rules.len()
            invariant
                i <= self.rules.len(),
                forall|k: int|
                    0 <= k < i ==> !((#[trigger] self.rules@[k])@.enabled && pattern_fits(
                        self.rules@[k]@.match_type,
                        self.rules@[k]@.pattern,
                        name@,
                    )),
            decreases self.rules.len() - i,
        {
            if self.rules[i].enabled && self.rules[i].matches(name) {
                assert(self.rules@[i as int]@.enabled);
                return true;
            }
            i += 1;
        }
        false
    }

    /// The names of the enabled rules that are for a process of this name.
    pub fn matching_names(&self, name: &str) -> (r: Vec<String>)
        ensures
            texts(r@) == names_matching(rule_views(self.rules@), name@),
    {
        let ghost all = rule_views(self.rules@);
        let mut r: Vec<String> = Vec::new();
        let mut i: usize = 0;
        proof {
            assert(all.take(0) =~= Seq::<RuleView>::empty());
            assert(texts(r@) =~= Seq::<Seq<char>>::empty());
        }
        while i < self.rules.len()
            invariant
                i <= self.rules.len(),
                all == rule_views(self.rules@),
                texts(r@) == names_matching(all.take(i as int), name@),
            decreases self.rules.len() - i,
        {
            assert(all.take(i + 1).drop_last() =~= all.take(i as int));
            assert(all.take(i + 1).last() == self.rules@[i as int]@);
            let ghost before = texts(r@);
            if self.rules[i].enabled && self.rules[i].matches(name) {
                r.push(self.rules[i].name.clone());
                assert(texts(r@) =~= before.push(all[i as int].name));
            }
            i += 1;
        }
        assert(all.take(i as int) =~= all);
        r
    }
}

/// The places of the enabled rules whose pattern fits.
pub open spec fn places_matching(s: Seq<RuleView>, name: Seq<char>) -> Seq<usize>
    decreases s.len(),
{
    if s.len() == 0 {
        Seq::empty()
    } else if s.last().enabled && pattern_fits(s.last().match_type, s.last().pattern, name) {
        places_matching(s.drop_last(), name).push((s.len() - 1) as usize)
    } else {
        places_matching(s.drop_last(), name)
    }
}

impl RuleEngine {
    /// The places of the enabled rules that are for a process of this name, in the
    /// order in which they are applied.
    pub fn matching_rules(&self, name: &str) -> (r: Vec<usize>)
        ensures
            r@ == places_matching(rule_views(self.rules@), name@),
            forall|i: int| 0 <= i < r@.len() ==> #[trigger] r@[i] < self.rules@.len(),
    {
        let ghost all = rule_views(self.rules@);
        let mut r: Vec<usize> = Vec::new();
        let mut i: usize = 0;
        assert(all.take(0) =~= Seq::<RuleView>::empty());
        while i < self.rules.len()
            invariant
                i <= self.rules.len(),
                all == rule_views(self.rules@),
                r@ == places_matching(all.take(i as int), name@),
                forall|k: int| 0 <= k < r@.len() ==> #[trigger] r@[k] < self.rules@.len(),
            decreases self.rules.len() - i,
        {
            assert(all.take(i + 1).drop_last() =~= all.take(i as int));
            assert(all.take(i + 1).last() == self.rules@[i as int]@);
            if self.rules[i].enabled && self.rules[i].matches(name) {
                r.push(i);
            }
            i += 1;
        }
        assert(all.take(i as int) =~= all);
        r
    }
}

/// The names of the enabled rules whose pattern fits.
pub open spec fn names_matching(s: Seq<RuleView>, name: Seq<char>) -> Seq<Seq<char>>
    decreases s.len(),
{
    if s.len() == 0 {
        Seq::empty()
    } else if s.last().enabled && pattern_fits(s.last().match_type, s.last().pattern, name) {
        names_matching(s.drop_last(), name).push(s.last().name)
    } else {
        names_matching(s.drop_last(), name)
    }
}

// ── Applying a rule ──────────────────────────────────────────────────────────

/// What a rule changes of a process.
#[derive(Debug)]
pub struct RulePlan {
    pub affinity: Option<String>,
    pub nice: Option<i32>,
    /// Class and level.
    pub ionice: Option<(i32, i32)>,
}

/// What a rule changes of a process, as values.
pub struct PlanView {
    pub affinity: Option<Seq<char>>,
    pub nice: Option<i32>,
    pub ionice: Option<(i32, i32)>,
}

impl View for RulePlan {
    type V = PlanView;

    open spec fn view(&self) -> PlanView {
        PlanView { affinity: opt_text(self.affinity), nice: self.nice, ionice: self.ionice }
    }
}

/// What a rule changes of a process that has this affinity, as far as it is known,
/// and this nice value: what is as the rule wants it stays, and a nice value that
/// could not be set before is not tried again. An I/O class without a level has
/// level 4.
pub open spec fn changes(
    rule: RuleView,
    affinity: Option<Seq<char>>,
    nice: i32,
    nice_failed: bool,
) -> PlanView {
    PlanView {
        affinity: if rule.affinity == affinity {
            None
        } else {
            rule.affinity
        },
        nice: match rule.nice {
            Some(n) => if n == nice || nice_failed {
                None
            } else {
                Some(n)
            },
            None => None,
        },
        ionice: match rule.ionice_class {
            Some(c) => Some(
                (
                    c,
                    match rule.ionice_level {
                        Some(l) => l,
                        None => 4,
                    },
                ),
            ),
            None => None,
        },
    }
}

/// A process that is as a rule wants it is not touched again, but for its I/O
/// priority.
pub proof fn law_settled_process_is_left_alone(rule: RuleView, failed: bool)
    requires
        rule.affinity is Some,
        rule.nice is Some,
    ensures
        changes(rule, rule.affinity, rule.nice->0, failed).affinity is None,
        changes(rule, rule.affinity, rule.nice->0, failed).nice is None,
{
}

impl Rule {
    /// What the rule changes of a process.
    pub fn plan(&self, affinity: Option<&str>, nice: i32, nice_failed: bool) -> (r: RulePlan)
        ensures
            r@ == changes(
                self@,
                match affinity {
                    Some(a) => Some(a@),
                    None => None,
                },
                nice,
                nice_failed,
            ),
    {
        let same = match (&self.affinity, affinity) {
            (Some(a), Some(b)) => same_text(a.as_str(), b),
            (None, None) => true,
            _ => false,
        };
        RulePlan {
            affinity: if same {
                None
            } else {
                copy_opt(&self.affinity)
            },
            nice: match self.nice {
                Some(n) => if n == nice || nice_failed {
                    None
                } else {
                    Some(n)
                },
                None => None,
            },
            ionice: match self.ionice_class {
                Some(c) => Some(
                    (
                        c,
                        match self.ionice_level {
                            Some(l) => l,
                            None => 4,
                        },
                    ),
                ),
                None => None,
            },
        }
    }

    /// The line that tells of a changed setting.
    pub fn change_line(&self, setting: &str, value: &str, process: &str, pid: u32) -> (r: String)
        ensures
            r@ == "[Rule: "@ + self@.name + "] "@ + setting@ + "="@ + value@ + " → "@ + process@
                + "("@ + dec(pid as nat) + ")"@,
    {
        let mut s = "[Rule: ".to_owned();
        s.append(self.name.as_str());
        s.append("] ");
        s.append(setting);
        s.append("=");
        s.append(value);
        s.append(" → ");
        s.append(process);
        s.append("(");
        push_dec(&mut s, pid as u64);
        s.append(")");
        s
    }
}

/// A rule that was removed is gone, and every other rule stays.
pub proof fn law_removed_rule_is_gone(s: Seq<RuleView>, id: Seq<char>)
    ensures
        !has_id(without_id(s, id), id),
        forall|i: int|
            0 <= i < s.len() && (#[trigger] s[i]).rule_id != id ==> without_id(s, id).contains(s[i]),
    decreases s.len(),
{
    if s.len() > 0 {
        let d = s.drop_last();
        law_removed_rule_is_gone(d, id);
        let before = without_id(d, id);
        let after = without_id(s, id);
        if has_id(after, id) {
            let i = choose|i: int| 0 <= i < after.len() && (#[trigger] after[i]).rule_id == id;
            if i < before.len() {
                assert(before[i].rule_id == id);
            }
        }
        assert forall|i: int| 0 <= i < s.len() && (#[trigger] s[i]).rule_id != id implies after.contains(
            s[i],
        ) by {
            if i < d.len() {
                assert(d[i] == s[i]);
                let k = choose|k: int| 0 <= k < before.len() && before[k] == s[i];
                assert(after[k] == s[i]);
            } else {
                assert(after[after.len() - 1] == s[i]);
            }
        }
    }
}

// ── What rules mean ──────────────────────────────────────────────────────────

/// The match types are different texts.
proof fn lemma_match_types()
    ensures
        "contains"@ != "exact"@,
        "contains"@ != "regex"@,
        "regex"@ != "exact"@,
{
    reveal_strlit("contains");
    reveal_strlit("exact");
    reveal_strlit("regex");
    assert("contains"@.len() == 8 && "exact"@.len() == 5 && "regex"@.len() == 5);
    assert("regex"@[0] != "exact"@[0]);
}

/// A rule of the type `contains` is for a process just where the pattern stands in the
/// name, with whatever before and behind it. Case is ignored.
pub proof fn law_contains_finds_the_pattern_anywhere(rule: &Rule, name: &str, r: bool)
    requires
        call_ensures(Rule::matches, (rule, name), r),
        rule.match_type@ == "contains"@,
    ensures
        r <==> exists|a: Seq<char>, b: Seq<char>|
            lowercase(name@) == #[trigger] (a + lowercase(rule.pattern@) + b),
{
    lemma_match_types();
    crate::text::law_substring_stands_between(lowercase(name@), lowercase(rule.pattern@));
}

/// A rule of the type `exact` is for the processes of one name only. Case is ignored.
pub proof fn law_exact_is_for_one_name(rule: &Rule, name: &str, r: bool)
    requires
        call_ensures(Rule::matches, (rule, name), r),
        rule.match_type@ == "exact"@,
    ensures
        r <==> lowercase(name@) == lowercase(rule.pattern@),
{
}

/// A rule of the type `regex` is for a process just where the pattern is a regular
/// expression, case being ignored, that is found in the name.
pub proof fn law_regex_is_found_in_the_name(rule: &Rule, name: &str, r: bool)
    requires
        call_ensures(Rule::matches, (rule, name), r),
        rule.match_type@ == "regex"@,
    ensures
        r <==> built_regex(rule.pattern@, true) is Some && regex_finds(
            built_regex(rule.pattern@, true)->0,
            name@,
        ),
{
    lemma_match_types();
}

/// The rules that are applied to a process are those that are enabled and match, in
/// their order, each once.
pub proof fn law_enabled_matches_are_applied(
    engine: &RuleEngine,
    name: &str,
    r: Vec<usize>,
    any: bool,
    names: Vec<String>,
    i: usize,
    hit: bool,
)
    requires
        call_ensures(RuleEngine::matching_rules, (engine, name), r),
        call_ensures(RuleEngine::matches_any, (engine, name), any),
        call_ensures(RuleEngine::matching_names, (engine, name), names),
        i < engine.rules@.len(),
        engine.rules@.len() <= usize::MAX,
        call_ensures(Rule::matches, (&engine.rules@[i as int], name), hit),
    ensures
        r@.contains(i) <==> engine.rules@[i as int].enabled && hit,
        forall|j: int, k: int| 0 <= j < k < r@.len() ==> r@[j] < r@[k],
        any <==> r@.len() > 0,
        names@.len() == r@.len(),
        forall|k: int|
            0 <= k < r@.len() ==> (#[trigger] names@[k])@ == engine.rules@[r@[k] as int].name@,
{
    let all = rule_views(engine.rules@);
    lemma_places_matching(all, name@);
    assert(all[i as int] == engine.rules@[i as int]@);
    if any {
        let k = choose|k: int|
            0 <= k < engine.rules@.len() && (#[trigger] engine.rules@[k])@.enabled && pattern_fits(
                engine.rules@[k]@.match_type,
                engine.rules@[k]@.pattern,
                name@,
            );
        assert(all[k].enabled);
        assert(r@.contains(k as usize));
    }
    if r@.len() > 0 {
        let k = r@[0];
        assert(r@.contains(k));
        assert(all[k as int].enabled);
        assert(engine.rules@[k as int]@.enabled);
    }
    assert forall|k: int| 0 <= k < r@.len() implies (#[trigger] names@[k])@
        == engine.rules@[r@[k] as int].name@ by {
        assert(texts(names@)[k] == names@[k]@);
        assert(all[r@[k] as int].name == engine.rules@[r@[k] as int].name@);
    }
}

/// The places and the names of matching rules belong together.
proof fn lemma_places_matching(s: Seq<RuleView>, name: Seq<char>)
    requires
        s.len() <= usize::MAX,
    ensures
        ({
            let r = places_matching(s, name);
            let n = names_matching(s, name);
            &&& forall|i: usize|
                i < s.len() ==> (#[trigger] r.contains(i) <==> s[i as int].enabled && pattern_fits(
                    s[i as int].match_type,
                    s[i as int].pattern,
                    name,
                ))
            &&& forall|k: int| 0 <= k < r.len() ==> (#[trigger] r[k]) < s.len()
            &&& forall|j: int, k: int| 0 <= j < k < r.len() ==> r[j] < r[k]
            &&& n.len() == r.len()
            &&& forall|k: int| 0 <= k < r.len() ==> #[trigger] n[k] == s[r[k] as int].name
        }),
    decreases s.len(),
{
    if s.len() > 0 {
        let d = s.drop_last();
        lemma_places_matching(d, name);
        let (q, r) = (places_matching(d, name), places_matching(s, name));
        let last = (s.len() - 1) as usize;
        assert forall|i: usize| i < s.len() implies (#[trigger] r.contains(i)
            <==> s[i as int].enabled && pattern_fits(
            s[i as int].match_type,
            s[i as int].pattern,
            name,
        )) by {
            if i < d.len() {
                assert(d[i as int] == s[i as int]);
                if q.contains(i) {
                    let k = choose|k: int| 0 <= k < q.len() && q[k] == i;
                    assert(r[k] == i);
                }
                if r.contains(i) {
                    let k = choose|k: int| 0 <= k < r.len() && r[k] == i;
                    assert(q[k] == i);
                }
            } else {
                assert(i == last);
                if r.len() > q.len() {
                    assert(r[r.len() - 1] == last);
                } else if r.contains(i) {
                    let k = choose|k: int| 0 <= k < r.len() && r[k] == i;
                    assert(q[k] < d.len());
                }
            }
        }
    }
}

/// What a rule wants and a process has not is set, and nothing else is. A nice value that
/// could not be set before is left alone.
pub proof fn law_plan_sets_what_differs(
    rule: &Rule,
    affinity: Option<&str>,
    nice: i32,
    failed: bool,
    r: RulePlan,
)
    requires
        call_ensures(Rule::plan, (rule, affinity, nice, failed), r),
    ensures
        r.affinity is Some <==> rule.affinity is Some && (affinity is None || affinity->0@
            != rule.affinity->0@),
        r.affinity is Some ==> r.affinity->0@ == rule.affinity->0@,
        r.nice is Some <==> rule.nice is Some && rule.nice->0 != nice && !failed,
        r.nice is Some ==> r.nice == rule.nice,
        r.ionice is Some <==> rule.ionice_class is Some,
        r.ionice matches Some((class, level)) ==> {
            &&& rule.ionice_class == Some(class)
            &&& rule.ionice_level is Some ==> rule.ionice_level == Some(level)
            &&& rule.ionice_level is None ==> level == 4
        },
{
    assert(opt_text(r.affinity) == r@.affinity);
    assert(opt_text(rule.affinity) == rule@.affinity);
}

/// Removing takes out exactly the rules with the id; the others keep their order.
pub proof fn law_removing_filters_by_id(engine: &mut RuleEngine, id: &str)
    requires
        call_ensures(RuleEngine::remove_rule, (engine, id), ()),
    ensures
        rule_views(final(engine).rules@) == rule_views(old(engine).rules@).filter(
            |v: RuleView| v.rule_id != id@,
        ),
{
    lemma_without_id(rule_views(old(engine).rules@), id@);
}

/// Leaving out an id is filtering.
pub proof fn lemma_without_id(s: Seq<RuleView>, id: Seq<char>)
    ensures
        without_id(s, id) == s.filter(|v: RuleView| v.rule_id != id),
    decreases s.len(),
{
    reveal(Seq::filter);
    if s.len() > 0 {
        lemma_without_id(s.drop_last(), id);
    } else {
        assert(s =~= s.filter(|v: RuleView| v.rule_id != id));
    }
}

/// Switching a rule changes whether it is enabled and nothing else, and only the first
/// rule with the id; without one nothing happens.
pub proof fn law_toggle_switches_one_rule(engine: &mut RuleEngine, id: &str, found: bool, i: int)
    requires
        call_ensures(RuleEngine::toggle_rule, (engine, id), found),
        0 <= i < old(engine).rules@.len(),
    ensures
        final(engine).rules@.len() == old(engine).rules@.len(),
        found <==> exists|k: int|
            0 <= k < old(engine).rules@.len() && (#[trigger] old(engine).rules@[k]).rule_id@ == id@,
        ({
            let (a, b) = (old(engine).rules@[i]@, final(engine).rules@[i]@);
            let first = a.rule_id == id@ && forall|k: int|
                0 <= k < i ==> (#[trigger] old(engine).rules@[k]).rule_id@ != id@;
            &&& first ==> b.enabled == !a.enabled && b == (RuleView { enabled: b.enabled, ..a })
            &&& !first ==> b == a
        }),
{
    let (s, t) = (rule_views(old(engine).rules@), rule_views(final(engine).rules@));
    lemma_first_id(s, id@);
    assert(s.len() == old(engine).rules@.len());
    assert(t.len() == final(engine).rules@.len());
    assert(s[i] == old(engine).rules@[i]@);
    if found {
        assert(t[i] == final(engine).rules@[i]@);
        let f = find_id(s, id@)->0;
        assert(s[f].rule_id == old(engine).rules@[f].rule_id@);
        assert forall|k: int| 0 <= k < f implies (#[trigger] old(engine).rules@[k]).rule_id@
            != id@ by {
            assert(s[k].rule_id == old(engine).rules@[k].rule_id@);
        }
    } else {
        assert forall|k: int| 0 <= k < s.len() implies (#[trigger] old(engine).rules@[k]).rule_id@
            != id@ by {
            assert(s[k].rule_id == old(engine).rules@[k].rule_id@);
        }
    }
}

/// The rule that is found is the first with the id.
proof fn lemma_first_id(s: Seq<RuleView>, id: Seq<char>)
    ensures
        match find_id(s, id) {
            Some(i) => 0 <= i < s.len() && s[i].rule_id == id && forall|k: int|
                0 <= k < i ==> (#[trigger] s[k]).rule_id != id,
            None => forall|k: int| 0 <= k < s.len() ==> (#[trigger] s[k]).rule_id != id,
        },
    decreases s.len(),
{
    if s.len() > 0 {
        let d = s.drop_last();
        lemma_first_id(d, id);
        assert forall|k: int| 0 <= k < d.len() implies (#[trigger] s[k]) == d[k] by {}
    }
}

/// A rule that is put takes the place of the first one with its id, or stands at the
/// end; every other rule stays where it is.
pub proof fn law_put_rule_stands_in_its_place(engine: &mut RuleEngine, rule: Rule, i: int)
    requires
        call_ensures(RuleEngine::put_rule, (engine, rule), ()),
        0 <= i < old(engine).rules@.len(),
    ensures
        ({
            let (a, b) = (old(engine).rules@, final(engine).rules@);
            let first = a[i].rule_id@ == rule.rule_id@ && forall|k: int|
                0 <= k < i ==> (#[trigger] a[k]).rule_id@ != rule.rule_id@;
            let known = exists|k: int|
                0 <= k < a.len() && (#[trigger] a[k]).rule_id@ == rule.rule_id@;
            &&& b.len() == if known {
                a.len()
            } else {
                a.len() + 1
            }
            &&& first ==> b[i]@ == rule@
            &&& !first ==> b[i]@ == a[i]@
            &&& !known ==> b.last()@ == rule@
        }),
{
    let (s, t) = (rule_views(old(engine).rules@), rule_views(final(engine).rules@));
    let (a, b) = (old(engine).rules@, final(engine).rules@);
    lemma_first_id(s, rule@.rule_id);
    assert(s.len() == a.len() && t.len() == b.len());
    assert forall|k: int| 0 <= k < s.len() implies (#[trigger] a[k]).rule_id@ == s[k].rule_id by {}
    assert(t[i] == b[i]@ && s[i] == a[i]@);
    if find_id(s, rule@.rule_id) is None {
        assert(t.last() == b.last()@);
    } else {
        let f = find_id(s, rule@.rule_id)->0;
        assert(a[f].rule_id@ == rule.rule_id@);
        assert forall|k: int| 0 <= k < f implies (#[trigger] a[k]).rule_id@ != rule.rule_id@ by {
            assert(s[k].rule_id != rule@.rule_id);
        }
    }
}

/// What is stored of a rule is read back as it was.
pub proof fn law_stored_rules_come_back(rule: &Rule, cfg: RuleConfig, back: Rule)
    requires
        call_ensures(Rule::to_config, (rule,), cfg),
        call_ensures(Rule::from_config, (&cfg,), back),
    ensures
        back@ == rule@,
        cfg.rule_id@ == rule.rule_id@,
        cfg.name@ == rule.name@,
        cfg.pattern@ == rule.pattern@,
        cfg.match_type@ == rule.match_type@,
        opt_text(cfg.affinity) == opt_text(rule.affinity),
        cfg.nice == rule.nice,
        cfg.ionice_class == rule.ionice_class,
        cfg.ionice_level == rule.ionice_level,
        cfg.enabled == rule.enabled,
{
}

} // verus!
