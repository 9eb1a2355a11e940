//! Parking of CPU cores and power profiles, through the privileged helpers.
//!
//! The functions here say which helper is to be run with which arguments, and
//! what its outcome means. Running it is left to the caller.

use vstd::prelude::*;
use vstd::string::*;

use crate::helper::{run_helper, run_message, run_ok, HelperRun};
use crate::idset::IdSet;
use crate::number::{dec, dec_int, decimal, decimal_int, decimals, decs, push_dec};
use crate::text::{
    chars_of, has_substring, has_suffix, join, joined, opt_text, same_text, text_of, texts, trim,
    trimmed_text, views, words, words_of,
};

verus! {

// ── Parking ──────────────────────────────────────────────────────────────────

/// The CPUs that can be taken offline, in ascending order: all but CPU 0, which
/// started the machine.
pub open spec fn parkable(cpus: Seq<u32>) -> Seq<u32>
    decreases cpus.len(),
{
    if cpus.len() == 0 {
        cpus
    } else if cpus.last() == 0 {
        parkable(cpus.drop_last())
    } else {
        parkable(cpus.drop_last()).push(cpus.last())
    }
}

/// The CPUs for which the helper is to be run.
pub fn parkable_cpus(cpus: &IdSet) -> (r: Vec<u32>)
    ensures
        r@ == parkable(cpus.order()),
        forall|c: u32| #[trigger] r@.contains(c) <==> cpus@.contains(c) && c != 0,
        forall|i: int, j: int| 0 <= i < j < r@.len() ==> r@[i] < r@[j],
{
    let list = cpus.items();
    let mut r: Vec<u32> = Vec::new();
    let mut i: usize = 0;
    assert(list@.take(0) =~= Seq::<u32>::empty());
    while i < list.len()
        invariant
            i <= list.len(),
            r@ == parkable(list@.take(i as int)),
        decreases list.len() - i,
    {
        assert(list@.take(i + 1).drop_last() =~= list@.take(i as int));
        if list[i] != 0 {
            r.push(list[i]);
        }
        i += 1;
    }
    assert(list@.take(i as int) =~= list@);
    proof {
        lemma_parkable(list@);
        assert forall|c: u32| #[trigger] list@.contains(c) <==> cpus@.contains(c) by {
            assert(list@.to_set().contains(c) <==> list@.contains(c));
        }
    }
    r
}

/// CPU 0 is never parked, and every other CPU of the set is.
pub proof fn law_cpu_0_is_never_parked(cpus: Seq<u32>)
    ensures
        !parkable(cpus).contains(0),
        forall|c: u32| c != 0 && cpus.contains(c) ==> parkable(cpus).contains(c),
    decreases cpus.len(),
{
    if cpus.len() > 0 {
        let d = cpus.drop_last();
        let before = parkable(d);
        let after = parkable(cpus);
        law_cpu_0_is_never_parked(d);
        if after.contains(0) {
            let k = choose|k: int| 0 <= k < after.len() && after[k] == 0;
            if k < before.len() {
                assert(before[k] == 0);
            }
        }
        assert forall|c: u32| c != 0 && cpus.contains(c) implies after.contains(c) by {
            let k = choose|k: int| 0 <= k < cpus.len() && cpus[k] == c;
            if k < d.len() {
                assert(d[k] == c);
                assert(d.contains(c));
                assert(before.contains(c));
                let m = choose|m: int| 0 <= m < before.len() && before[m] == c;
                assert(after[m] == c);
            } else {
                assert(after[after.len() - 1] == c);
            }
        }
    }
}

/// The arguments of the parking helper that take a CPU offline.
pub fn park_args(cpu: u32) -> (args: Vec<String>)
    ensures
        texts(args@) == seq!["online"@, dec(cpu as nat), "0"@],
{
    let mut args: Vec<String> = Vec::new();
    args.push("online".to_owned());
    args.push(decimal(cpu as u64));
    args.push("0".to_owned());
    assert(texts(args@) =~= seq!["online"@, dec(cpu as nat), "0"@]);
    args
}

/// What is logged of one CPU.
pub open spec fn park_line(cpu: u32, run: HelperRun) -> Seq<char> {
    if run_ok(run) {
        "[Park] CPU "@ + dec(cpu as nat) + " → offline"@
    } else {
        "[Park] CPU "@ + dec(cpu as nat) + " FAILED: "@ + run_message(run)
    }
}

/// What is logged of the first `n` CPUs of a set, of which the `k`th that can be
/// parked gave `runs[k]`.
pub open spec fn park_log(cpus: Seq<u32>, runs: Seq<HelperRun>, n: nat) -> Seq<Seq<char>>
    decreases n,
{
    if n == 0 {
        Seq::empty()
    } else {
        let before = park_log(cpus, runs, (n - 1) as nat);
        if cpus[n - 1] == 0 {
            before.push("[Park] Skipping CPU 0 (bootstrap processor, cannot offline)"@)
        } else {
            before.push(
                park_line(cpus[n - 1], runs[parkable(cpus.take(n - 1)).len() as int]),
            )
        }
    }
}

/// Takes in what came of parking: whether all succeeded, and what is logged. There
/// is one outcome for each CPU that can be parked, in ascending order.
pub fn park_cpus(cpus: &IdSet, runs: &Vec<HelperRun>) -> (r: (bool, Vec<String>))
    requires
        runs@.len() == parkable(cpus.order()).len(),
    ensures
        r.0 == (forall|k: int| 0 <= k < runs.len() ==> run_ok(#[trigger] runs[k])),
        texts(r.1@) == park_log(cpus.order(), runs@, cpus.order().len()),
{
    let list = cpus.items();
    let mut ok = true;
    let mut log: Vec<String> = Vec::new();
    let mut i: usize = 0;
    let mut k: usize = 0;
    proof {
        assert(list@.take(0) =~= Seq::<u32>::empty());
        assert(texts(log@) =~= Seq::<Seq<char>>::empty());
    }
    while i < list.len()
        invariant
            i <= list.len(),
            k as nat == parkable(list@.take(i as int)).len(),
            runs@.len() == parkable(list@).len(),
            k <= runs.len(),
            ok == (forall|j: int| 0 <= j < k ==> run_ok(#[trigger] runs[j])),
            texts(log@) == park_log(list@, runs@, i as nat),
        decreases list.len() - i,
    {
        let cpu: u32 = list[i];
        let ghost before = texts(log@);
        proof {
            assert(list@.take(i + 1).drop_last() =~= list@.take(i as int));
            lemma_parkable_grows(list@, i + 1);
        }
        if cpu == 0 {
            log.push("[Park] Skipping CPU 0 (bootstrap processor, cannot offline)".to_owned());
            assert(texts(log@) =~= before.push(
                "[Park] Skipping CPU 0 (bootstrap processor, cannot offline)"@,
            ));
        } else {
            let (success, msg) = run_helper(&runs[k]);
            let mut line = "[Park] CPU ".to_owned();
            push_dec(&mut line, cpu as u64);
            if success {
                line.append(" → offline");
            } else {
                line.append(" FAILED: ");
                line.append(msg.as_str());
                ok = false;
            }
            let ghost text = line@;
            log.push(line);
            assert(texts(log@) =~= before.push(text));
            assert(run_ok(runs[k as int]) == success);
            k += 1;
        }
        i += 1;
    }
    assert(list@.take(i as int) =~= list@);
    (ok, log)
}

/// A longer list can only have more CPUs that can be parked.
proof fn lemma_parkable_grows(cpus: Seq<u32>, n: int)
    requires
        0 <= n <= cpus.len(),
    ensures
        parkable(cpus.take(n)).len() <= parkable(cpus).len(),
    decreases cpus.len() - n,
{
    if n < cpus.len() {
        assert(cpus.take(n + 1).drop_last() =~= cpus.take(n));
        lemma_parkable_grows(cpus, n + 1);
    } else {
        assert(cpus.take(n) =~= cpus);
    }
}

/// Numbers as a list in square brackets.
pub open spec fn bracketed(s: Seq<u32>) -> Seq<char> {
    "["@ + join(decs(s), ", "@) + "]"@
}

/// Writes numbers as a list in square brackets.
pub fn bracket_list(cpus: &IdSet) -> (r: String)
    ensures
        r@ == bracketed(cpus.order()),
{
    let mut r = "[".to_owned();
    let ds = decimals(cpus.items());
    let j = joined(&ds, ", ");
    r.append(j.as_str());
    r.append("]");
    r
}

/// The arguments of the parking helper that bring all CPUs back.
pub fn unpark_args() -> (args: Vec<String>)
    ensures
        texts(args@) == seq!["unpark-all"@],
{
    let mut args: Vec<String> = Vec::new();
    args.push("unpark-all".to_owned());
    assert(texts(args@) =~= seq!["unpark-all"@]);
    args
}

/// Whether the helper has to be run to bring all CPUs back.
pub fn unpark_needed(offline: &IdSet) -> (r: bool)
    ensures
        r == (offline@ != Set::<u32>::empty()),
{
    !offline.is_empty()
}

/// Takes in what came of bringing the CPUs back: whether all are online, and what
/// is logged. Where none was offline the helper was not run.
pub fn unpark_all(offline: &IdSet, run: &HelperRun) -> (r: (bool, String))
    ensures
        r.0 == (offline@ == Set::<u32>::empty() || run_ok(*run)),
        r.1@ == if offline@ == Set::<u32>::empty() {
            "[Park] No offline CPUs to restore."@
        } else if run_ok(*run) {
            "[Park] CPUs "@ + bracketed(offline.order()) + " restored online."@
        } else {
            "[Park] Unpark all FAILED: "@ + run_message(*run)
        },
{
    if offline.is_empty() {
        return (true, "[Park] No offline CPUs to restore.".to_owned());
    }
    let (success, msg) = run_helper(run);
    if success {
        let mut line = "[Park] CPUs ".to_owned();
        let list = bracket_list(offline);
        line.append(list.as_str());
        line.append(" restored online.");
        (true, line)
    } else {
        let mut line = "[Park] Unpark all FAILED: ".to_owned();
        line.append(msg.as_str());
        (false, line)
    }
}

/// The arguments of the helper that changes a nice value.
pub fn set_process_nice_via_helper(pid: u32, nice: i32) -> (args: Vec<String>)
    ensures
        texts(args@) == seq![dec_int(nice as int), dec(pid as nat)],
{
    let mut args: Vec<String> = Vec::new();
    args.push(decimal_int(nice as i64));
    args.push(decimal(pid as u64));
    assert(texts(args@) =~= seq![dec_int(nice as int), dec(pid as nat)]);
    args
}

// ── Power profiles ───────────────────────────────────────────────────────────

/// A power profile.
#[derive(Debug, Clone, Copy, PartialEq, Eq, Structural)]
pub enum PowerProfile {
    Performance,
    Balanced,
    PowerSave,
}

/// The name of a profile.
pub open spec fn profile_label(p: PowerProfile) -> Seq<char> {
    match p {
        PowerProfile::Performance => "Performance"@,
        PowerProfile::Balanced => "Balanced"@,
        PowerProfile::PowerSave => "Power Save"@,
    }
}

/// The energy performance preference of a profile.
pub open spec fn profile_epp(p: PowerProfile) -> Seq<char> {
    match p {
        PowerProfile::Performance => "performance"@,
        PowerProfile::Balanced => "balance_performance"@,
        PowerProfile::PowerSave => "power"@,
    }
}

/// The governors that suit a profile, best first. Where the driver takes an energy
/// preference, `powersave` means that the preference decides; elsewhere it pins
/// the cores to their lowest frequency, so a scaling governor stands for balance.
pub open spec fn governor_choices(p: PowerProfile, epp_supported: bool) -> Seq<Seq<char>> {
    match p {
        PowerProfile::Performance => seq!["performance"@],
        PowerProfile::Balanced => if epp_supported {
            seq!["powersave"@]
        } else {
            seq!["schedutil"@, "ondemand"@, "conservative"@]
        },
        PowerProfile::PowerSave => seq!["powersave"@, "conservative"@, "schedutil"@],
    }
}

/// The first choice that is available.
pub open spec fn first_available(choices: Seq<Seq<char>>, available: Seq<Seq<char>>) -> Option<
    Seq<char>,
>
    decreases choices.len(),
{
    if choices.len() == 0 {
        None
    } else if available.contains(choices[0]) {
        Some(choices[0])
    } else {
        first_available(choices.drop_first(), available)
    }
}

/// Whether a governor is available.
fn offers(available: &[String], governor: &str) -> (r: bool)
    ensures
        r == texts(available@).contains(governor@),
{
    let mut i: usize = 0;
    while i < available.len()
        invariant
            i <= available.len(),
            forall|k: int| 0 <= k < i ==> #[trigger] available@[k]@ != governor@,
        decreases available.len() - i,
    {
        if same_text(available[i].as_str(), governor) {
            assert(texts(available@)[i as int] == governor@);
            return true;
        }
        i += 1;
    }
    proof {
        if texts(available@).contains(governor@) {
            let k = choose|k: int|
                0 <= k < texts(available@).len() && texts(available@)[k] == governor@;
            assert(available@[k]@ == governor@);
        }
    }
    false
}

impl PowerProfile {
    /// The name of the profile.
    pub fn label(&self) -> (r: &'static str)
        ensures
            r@ == profile_label(*self),
    {
        match self {
            PowerProfile::Performance => "Performance",
            PowerProfile::Balanced => "Balanced",
            PowerProfile::PowerSave => "Power Save",
        }
    }

    /// The energy performance preference of the profile.
    pub fn epp(&self) -> (r: &'static str)
        ensures
            r@ == profile_epp(*self),
    {
        match self {
            PowerProfile::Performance => "performance",
            PowerProfile::Balanced => "balance_performance",
            PowerProfile::PowerSave => "power",
        }
    }

    /// The governor for the profile, of those that the platform offers.
    pub fn pick_governor(&self, epp_supported: bool, available: &[String]) -> (r: Option<String>)
        ensures
            opt_text(r) == first_available(
                governor_choices(*self, epp_supported),
                texts(available@),
            ),
    {
        let mut choices: Vec<&'static str> = Vec::new();
        match self {
            PowerProfile::Performance => {
                choices.push("performance");
            },
            PowerProfile::Balanced => {
                if epp_supported {
                    choices.push("powersave");
                } else {
                    choices.push("schedutil");
                    choices.push("ondemand");
                    choices.push("conservative");
                }
            },
            PowerProfile::PowerSave => {
                choices.push("powersave");
                choices.push("conservative");
                choices.push("schedutil");
            },
        }
        let ghost all = governor_choices(*self, epp_supported);
        let mut i: usize = 0;
        proof {
            assert(choices@.len() == all.len());
            assert(forall|k: int| 0 <= k < all.len() ==> choices@[k]@ == all[k]);
            assert(all.skip(0) =~= all);
        }
        while i < choices.len()
            invariant
                i <= choices.len(),
                all == governor_choices(*self, epp_supported),
                choices@.len() == all.len(),
                forall|k: int| 0 <= k < all.len() ==> choices@[k]@ == all[k],
                first_available(all, texts(available@)) == first_available(
                    all.skip(i as int),
                    texts(available@),
                ),
            decreases choices.len() - i,
        {
            assert(all.skip(i as int)[0] == all[i as int]);
            if offers(available, choices[i]) {
                return Some(choices[i].to_owned());
            }
            assert(all.skip(i as int).drop_first() =~= all.skip(i + 1));
            i += 1;
        }
        None
    }
}

/// A governor that is picked is one that the platform offers.
pub proof fn law_picked_governor_is_offered(choices: Seq<Seq<char>>, available: Seq<Seq<char>>)
    ensures
        match first_available(choices, available) {
            Some(g) => available.contains(g) && choices.contains(g),
            None => forall|i: int| 0 <= i < choices.len() ==> !available.contains(#[trigger] choices[i]),
        },
    decreases choices.len(),
{
    if choices.len() > 0 {
        let rest = choices.drop_first();
        law_picked_governor_is_offered(rest, available);
        if available.contains(choices[0]) {
            assert(choices.contains(choices[0]));
        } else {
            match first_available(rest, available) {
                Some(g) => {
                    let k = choose|k: int| 0 <= k < rest.len() && rest[k] == g;
                    assert(choices[k + 1] == g);
                },
                None => {
                    assert forall|i: int| 0 <= i < choices.len() implies !available.contains(
                        #[trigger] choices[i],
                    ) by {
                        if i > 0 {
                            assert(rest[i - 1] == choices[i]);
                        }
                    }
                },
            }
        }
    }
}

/// The governors in the text of `scaling_available_governors`.
pub fn available_governors(text: Option<&str>) -> (r: Vec<String>)
    ensures
        texts(r@) == match text {
            Some(t) => words(t@),
            None => Seq::<Seq<char>>::empty(),
        },
{
    let mut r: Vec<String> = Vec::new();
    if let Some(t) = text {
        let cs = chars_of(t);
        let ws = words_of(&cs);
        let mut i: usize = 0;
        while i < ws.len()
            invariant
                i <= ws.len(),
                r.len() == i,
                forall|k: int| 0 <= k < i ==> #[trigger] r[k]@ == ws[k]@,
            decreases ws.len() - i,
        {
            r.push(text_of(&ws[i]));
            i += 1;
        }
        assert(texts(r@) =~= views(ws@));
    } else {
        assert(texts(r@) =~= Seq::<Seq<char>>::empty());
    }
    r
}

/// What is said after a power profile was applied.
pub open spec fn power_says(
    profile: PowerProfile,
    epp_supported: bool,
    available: Seq<Seq<char>>,
    run: HelperRun,
) -> (bool, Seq<char>) {
    match first_available(governor_choices(profile, epp_supported), available) {
        None => (
            false,
            "[Power] no suitable governor for "@ + profile_label(profile) + " (available: "@ + join(
                available,
                " "@,
            ) + ")"@,
        ),
        Some(governor) => if !run_ok(run) {
            (false, "[Power] governor change failed: "@ + run_message(run))
        } else {
            (
                true,
                "[Power] "@ + profile_label(profile) + " — governor="@ + governor + (
                if epp_supported {
                    ", EPP="@ + profile_epp(profile)
                } else {
                    Seq::empty()
                }),
            )
        },
    }
}

/// Takes in what came of setting the governor that `pick_governor` gave: whether
/// the profile is applied, and what is said of it. Where no governor suits, the
/// helper was not run. The energy preference is set as well as can be.
pub fn apply_power_profile(
    profile: PowerProfile,
    epp_supported: bool,
    available: &Vec<String>,
    run: &HelperRun,
) -> (r: (bool, String))
    ensures
        (r.0, r.1@) == power_says(profile, epp_supported, texts(available@), *run),
{
    match profile.pick_governor(epp_supported, available.as_slice()) {
        None => {
            let mut m = "[Power] no suitable governor for ".to_owned();
            m.append(profile.label());
            m.append(" (available: ");
            let list = joined(available, " ");
            m.append(list.as_str());
            m.append(")");
            (false, m)
        },
        Some(governor) => {
            let (ok, msg) = run_helper(run);
            if !ok {
                let mut m = "[Power] governor change failed: ".to_owned();
                m.append(msg.as_str());
                return (false, m);
            }
            let mut m = "[Power] ".to_owned();
            m.append(profile.label());
            m.append(" — governor=");
            m.append(governor.as_str());
            let mut note = String::new();
            if epp_supported {
                note.append(", EPP=");
                note.append(profile.epp());
            }
            proof {
                assert(Seq::<char>::empty() + ", EPP="@ =~= ", EPP="@);
            }
            m.append(note.as_str());
            (true, m)
        },
    }
}

/// The arguments of the helper that set one power setting.
pub open spec fn power_setting(kind: Seq<char>, value: Seq<char>) -> Seq<Seq<char>> {
    seq![kind, value]
}

/// The arguments of the helper that set the governor of every CPU.
pub fn governor_args(governor: &str) -> (args: Vec<String>)
    ensures
        texts(args@) == power_setting("governor"@, governor@),
{
    let mut args: Vec<String> = Vec::new();
    args.push("governor".to_owned());
    args.push(governor.to_owned());
    assert(texts(args@) =~= power_setting("governor"@, governor@));
    args
}

/// The arguments of the helper that set the energy preference of every CPU.
pub fn epp_args(epp: &str) -> (args: Vec<String>)
    ensures
        texts(args@) == power_setting("epp"@, epp@),
{
    let mut args: Vec<String> = Vec::new();
    args.push("epp".to_owned());
    args.push(epp.to_owned());
    assert(texts(args@) =~= power_setting("epp"@, epp@));
    args
}

/// The argument lists with which the helper is run for a power profile, in their order,
/// where the first run ends as `governor_run`: nothing is run where no governor suits,
/// and the energy preference is set where there is one and the governor was set.
pub open spec fn power_runs(
    profile: PowerProfile,
    epp_supported: bool,
    available: Seq<Seq<char>>,
    governor_run: HelperRun,
) -> Seq<Seq<Seq<char>>> {
    match first_available(governor_choices(profile, epp_supported), available) {
        None => Seq::empty(),
        Some(g) => if epp_supported && run_ok(governor_run) {
            seq![
                power_setting("governor"@, g),
                power_setting("epp"@, profile_epp(profile)),
            ]
        } else {
            seq![power_setting("governor"@, g)]
        },
    }
}

/// The arguments with which the helper is run first for a power profile; nothing is run
/// where no governor suits.
pub fn first_power_run(profile: PowerProfile, epp_supported: bool, available: &Vec<String>) -> (r:
    Option<Vec<String>>)
    ensures
        match r {
            Some(args) => forall|run: HelperRun|
                {
                    let runs = #[trigger] power_runs(profile, epp_supported, texts(available@), run);
                    runs.len() > 0 && runs[0] == texts(args@)
                },
            None => forall|run: HelperRun|
                (#[trigger] power_runs(profile, epp_supported, texts(available@), run)).len() == 0,
        },
{
    match profile.pick_governor(epp_supported, available.as_slice()) {
        Some(g) => Some(governor_args(g.as_str())),
        None => None,
    }
}

/// Whether the energy preference of a power profile is set, by `epp_args`, after the
/// governor was.
pub fn epp_due(
    profile: PowerProfile,
    epp_supported: bool,
    available: &Vec<String>,
    governor_run: &HelperRun,
) -> (r: bool)
    ensures
        r == (first_available(governor_choices(profile, epp_supported), texts(available@)) is Some
            && epp_supported && run_ok(*governor_run)),
        r == (power_runs(profile, epp_supported, texts(available@), *governor_run).len() == 2),
        r ==> power_runs(profile, epp_supported, texts(available@), *governor_run)[1]
            == power_setting("epp"@, profile_epp(profile)),
{
    if !epp_supported {
        return false;
    }
    match profile.pick_governor(epp_supported, available.as_slice()) {
        Some(_) => run_helper(governor_run).0,
        None => false,
    }
}

/// A power profile is applied just where the governor was set; nothing that comes of
/// setting the energy preference changes that, and it is named just where it is set.
pub proof fn law_power_profile_follows_the_governor(
    profile: PowerProfile,
    epp_supported: bool,
    available: Seq<Seq<char>>,
    run: HelperRun,
)
    ensures
        ({
            let runs = power_runs(profile, epp_supported, available, run);
            let (ok, said) = power_says(profile, epp_supported, available, run);
            &&& ok == (runs.len() > 0 && run_ok(run))
            &&& runs.len() == 0 ==> first_available(
                governor_choices(profile, epp_supported),
                available,
            ) is None
            &&& runs.len() == 1 && !run_ok(run) ==> said == "[Power] governor change failed: "@
                + run_message(run)
            &&& runs.len() == 2 ==> has_suffix(said, ", EPP="@ + profile_epp(profile))
        }),
{
    let runs = power_runs(profile, epp_supported, available, run);
    let said = power_says(profile, epp_supported, available, run).1;
    let note = ", EPP="@ + profile_epp(profile);
    if runs.len() == 2 {
        assert(said.skip(said.len() - note.len()) =~= note);
    }
}

/// What came of a setting made through the helper.
fn setting_result(run: &HelperRun) -> (r: Result<(), String>)
    ensures
        match r {
            Ok(_) => run_ok(*run),
            Err(e) => !run_ok(*run) && e@ == run_message(*run),
        },
{
    let (ok, msg) = run_helper(run);
    if ok {
        Ok(())
    } else {
        Err(msg)
    }
}

/// What came of setting the governor through the helper.
pub fn set_governor_via_helper(run: &HelperRun) -> (r: Result<(), String>)
    ensures
        match r {
            Ok(_) => run_ok(*run),
            Err(e) => !run_ok(*run) && e@ == run_message(*run),
        },
{
    setting_result(run)
}

/// What came of setting the energy preference through the helper.
pub fn set_epp_via_helper(run: &HelperRun) -> (r: Result<(), String>)
    ensures
        match r {
            Ok(_) => run_ok(*run),
            Err(e) => !run_ok(*run) && e@ == run_message(*run),
        },
{
    setting_result(run)
}

/// A setting as read from its file, without white space round it.
fn setting(text: Option<&str>) -> (r: Option<String>)
    ensures
        opt_text(r) == match text {
            Some(t) => Some(trim(t@)),
            None => None,
        },
{
    match text {
        Some(t) => Some(trimmed_text(t)),
        None => None,
    }
}

/// The current governor, from its file.
pub fn current_governor(text: Option<&str>) -> (r: Option<String>)
    ensures
        opt_text(r) == match text {
            Some(t) => Some(trim(t@)),
            None => None,
        },
{
    setting(text)
}

/// The current energy preference, from its file.
pub fn current_epp(text: Option<&str>) -> (r: Option<String>)
    ensures
        opt_text(r) == match text {
            Some(t) => Some(trim(t@)),
            None => None,
        },
{
    setting(text)
}

// ── What is picked and parked ────────────────────────────────────────────────

/// The governors' names are different texts.
proof fn lemma_governor_names()
    ensures
        "performance"@ != "powersave"@,
        "performance"@ != "schedutil"@,
        "performance"@ != "ondemand"@,
        "performance"@ != "conservative"@,
        "powersave"@ != "schedutil"@,
        "powersave"@ != "ondemand"@,
        "powersave"@ != "conservative"@,
{
    reveal_strlit("performance");
    reveal_strlit("powersave");
    reveal_strlit("schedutil");
    reveal_strlit("ondemand");
    reveal_strlit("conservative");
    assert("performance"@.len() == 11 && "powersave"@.len() == 9 && "schedutil"@.len() == 9);
    assert("ondemand"@.len() == 8 && "conservative"@.len() == 12);
    assert("powersave"@[0] != "schedutil"@[0]);
}

/// Full speed is for the profile Performance only, and that profile takes nothing else.
/// Power Save takes `powersave` wherever it is offered, with or without an energy
/// preference. Balanced takes `powersave` where the energy preference decides, and there
/// only; elsewhere it takes a governor that scales.
pub proof fn law_governors_fit_their_profiles(
    profile: &PowerProfile,
    epp: bool,
    available: &[String],
    r: Option<String>,
)
    requires
        call_ensures(PowerProfile::pick_governor, (profile, epp, available), r),
    ensures
        ({
            let offered = |g: Seq<char>|
                exists|i: int| 0 <= i < available@.len() && (#[trigger] available@[i])@ == g;
            let picked = opt_text(r);
            &&& picked is Some ==> offered(picked->0)
            &&& picked == Some("performance"@) <==> *profile == PowerProfile::Performance && offered(
                "performance"@,
            )
            &&& *profile == PowerProfile::Performance && !offered("performance"@) ==> picked is None
            &&& *profile == PowerProfile::PowerSave && offered("powersave"@) ==> picked == Some(
                "powersave"@,
            )
            &&& *profile == PowerProfile::PowerSave && !offered("powersave"@) && offered(
                "conservative"@,
            ) ==> picked == Some("conservative"@)
            &&& *profile == PowerProfile::PowerSave && !offered("powersave"@) && !offered(
                "conservative"@,
            ) ==> picked == if offered("schedutil"@) {
                Some("schedutil"@)
            } else {
                None
            }
            &&& *profile == PowerProfile::Balanced && epp ==> picked == if offered("powersave"@) {
                Some("powersave"@)
            } else {
                None
            }
            &&& *profile == PowerProfile::Balanced && !epp ==> {
                &&& offered("schedutil"@) ==> picked == Some("schedutil"@)
                &&& !offered("schedutil"@) && offered("ondemand"@) ==> picked == Some("ondemand"@)
                &&& !offered("schedutil"@) && !offered("ondemand"@) ==> picked == if offered(
                    "conservative"@,
                ) {
                    Some("conservative"@)
                } else {
                    None
                }
            }
        }),
{
    lemma_governor_names();
    let all = texts(available@);
    let offered = |g: Seq<char>|
        exists|i: int| 0 <= i < available@.len() && (#[trigger] available@[i])@ == g;
    assert forall|g: Seq<char>| #[trigger] all.contains(g) <==> offered(g) by {
        if all.contains(g) {
            let k = choose|k: int| 0 <= k < all.len() && all[k] == g;
            assert(available@[k]@ == g);
        }
        if offered(g) {
            let i = choose|i: int| 0 <= i < available@.len() && (#[trigger] available@[i])@ == g;
            assert(all[i] == g);
        }
    }
    let choices = governor_choices(*profile, epp);
    law_picked_governor_is_offered(choices, all);
    reveal_with_fuel(first_available, 4);
    let one = choices.drop_first();
    let two = one.drop_first();
    assert(all.contains("performance"@) || !all.contains("performance"@));
    if choices.len() == 3 {
        assert(one[0] == choices[1]);
        assert(two[0] == choices[2]);
    }
}

/// Each profile has its own energy preference, from full performance to saving power.
pub proof fn law_preferences_fit_their_profiles(profile: &PowerProfile, r: &'static str)
    requires
        call_ensures(PowerProfile::epp, (profile,), r),
    ensures
        *profile == PowerProfile::Performance <==> r@ == "performance"@,
        *profile == PowerProfile::Balanced <==> r@ == "balance_performance"@,
        *profile == PowerProfile::PowerSave <==> r@ == "power"@,
{
    reveal_strlit("performance");
    reveal_strlit("balance_performance");
    reveal_strlit("power");
    assert("performance"@.len() == 11);
    assert("balance_performance"@.len() == 19);
    assert("power"@.len() == 5);
}

/// The CPUs for which the helper is run are those of the set but for CPU 0, each once
/// and in ascending order. Parking succeeds just where every run did, and every CPU of
/// the set has its line in the log.
pub proof fn law_parking_takes_every_cpu_but_the_first(
    cpus: &IdSet,
    list: Vec<u32>,
    runs: &Vec<HelperRun>,
    r: (bool, Vec<String>),
    c: u32,
)
    requires
        call_ensures(parkable_cpus, (cpus,), list),
        call_ensures(park_cpus, (cpus, runs), r),
        runs@.len() == list@.len(),
    ensures
        list@.contains(c) <==> cpus@.contains(c) && c != 0,
        forall|i: int, j: int| 0 <= i < j < list@.len() ==> list@[i] < list@[j],
        r.0 <==> forall|k: int| 0 <= k < runs@.len() ==> ended_well(#[trigger] runs@[k]),
        r.1@.len() == cpus.order().len(),
{
    lemma_park_log_length(cpus.order(), runs@, cpus.order().len());
    assert(texts(r.1@).len() == r.1@.len());
    assert forall|k: int| 0 <= k < runs@.len() implies ended_well(#[trigger] runs@[k]) == run_ok(
        runs@[k],
    ) by {}
    if r.0 {
        assert forall|k: int| 0 <= k < runs@.len() implies ended_well(#[trigger] runs@[k]) by {
            assert(run_ok(runs@[k]));
        }
    } else {
        let k = choose|k: int| 0 <= k < runs@.len() && !run_ok(#[trigger] runs@[k]);
        assert(!ended_well(runs@[k]));
    }
}

/// A helper ended with code 0.
pub open spec fn ended_well(run: HelperRun) -> bool {
    match run {
        HelperRun::Ended { code, .. } => code == Some(0i32),
        _ => false,
    }
}

/// There is a line for each CPU.
proof fn lemma_park_log_length(cpus: Seq<u32>, runs: Seq<HelperRun>, n: nat)
    ensures
        park_log(cpus, runs, n).len() == n,
    decreases n,
{
    if n > 0 {
        lemma_park_log_length(cpus, runs, (n - 1) as nat);
    }
}

/// What can be parked of an increasing list is increasing, and is the list but for 0.
proof fn lemma_parkable(cpus: Seq<u32>)
    requires
        crate::idset::increasing(cpus),
    ensures
        crate::idset::increasing(parkable(cpus)),
        forall|c: u32| #[trigger] parkable(cpus).contains(c) <==> cpus.contains(c) && c != 0,
        forall|i: int| 0 <= i < parkable(cpus).len() ==> cpus.len() > 0 && (#[trigger] parkable(
            cpus,
        )[i]) <= cpus.last(),
    decreases cpus.len(),
{
    law_cpu_0_is_never_parked(cpus);
    if cpus.len() > 0 {
        let d = cpus.drop_last();
        lemma_parkable(d);
        let (a, b) = (parkable(d), parkable(cpus));
        assert forall|c: u32| #[trigger] b.contains(c) implies cpus.contains(c) by {
            let k = choose|k: int| 0 <= k < b.len() && b[k] == c;
            if k < a.len() {
                assert(a[k] == c);
                assert(a.contains(c));
                assert(d.contains(c));
                let m = choose|m: int| 0 <= m < d.len() && d[m] == c;
                assert(cpus[m] == c);
            } else {
                assert(cpus[cpus.len() - 1] == c);
            }
        }
        if d.len() > 0 {
            assert(d.last() == cpus[cpus.len() - 2]);
            assert(d.last() < cpus.last());
        }
        assert forall|i: int| 0 <= i < b.len() implies (#[trigger] b[i]) <= cpus.last() by {
            if i < a.len() {
                assert(a[i] <= d.last());
            }
        }
        assert forall|i: int, j: int| 0 <= i < j < b.len() implies b[i] < b[j] by {
            if j < a.len() {
                assert(a[i] < a[j]);
            } else {
                assert(a[i] <= d.last());
            }
        }
    }
}

/// Bringing all CPUs back runs the helper just where one is offline, and succeeds where
/// none was or the helper did its work.
pub proof fn law_unparking_needs_the_helper_only_for_parked_cpus(
    offline: &IdSet,
    needed: bool,
    run: &HelperRun,
    r: (bool, String),
)
    requires
        call_ensures(unpark_needed, (offline,), needed),
        call_ensures(unpark_all, (offline, run), r),
    ensures
        needed <==> exists|c: u32| offline@.contains(c),
        r.0 <==> !needed || ended_well(*run),
{
    if offline@ != Set::<u32>::empty() {
        assert(exists|c: u32| offline@.contains(c)) by {
            if forall|c: u32| !offline@.contains(c) {
                assert(offline@ =~= Set::<u32>::empty());
            }
        }
    }
}

/// A profile is applied where a governor fits it and the helper has set it; the report
/// names the profile and the governor then.
pub proof fn law_profile_is_applied_where_a_governor_fits(
    profile: PowerProfile,
    epp_supported: bool,
    available: &Vec<String>,
    list: &[String],
    run: &HelperRun,
    r: (bool, String),
    governor: Option<String>,
    due: bool,
)
    requires
        call_ensures(apply_power_profile, (profile, epp_supported, available, run), r),
        call_ensures(PowerProfile::pick_governor, (&profile, epp_supported, list), governor),
        list@ == available@,
        call_ensures(epp_due, (profile, epp_supported, available, run), due),
    ensures
        r.0 <==> governor is Some && ended_well(*run),
        r.0 ==> has_substring(r.1@, "governor="@ + governor->0@),
        due <==> r.0 && epp_supported,
{
    if r.0 {
        let head = "[Power] "@ + profile_label(profile) + " — "@;
        let g = "governor="@ + governor->0@;
        let tail = if epp_supported {
            ", EPP="@ + profile_epp(profile)
        } else {
            Seq::empty()
        };
        reveal_strlit(" — governor=");
        reveal_strlit(" — ");
        reveal_strlit("governor=");
        assert(" — governor="@ =~= " — "@ + "governor="@);
        assert(r.1@ =~= head + g + tail);
        crate::text::law_substring_stands_between(r.1@, g);
    }
}

} // verus!
