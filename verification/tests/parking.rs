//! Parking CPUs and power profiles.

use argus_lasso::cpu_park::{
    apply_power_profile, available_governors, bracket_list, current_epp, current_governor,
    epp_args, epp_due, first_power_run, governor_args, park_args, park_cpus, parkable_cpus, set_epp_via_helper,
    set_governor_via_helper, set_process_nice_via_helper, unpark_all, unpark_args, unpark_needed,
    PowerProfile,
};
use argus_lasso::helper::HelperRun;
use argus_lasso::idset::IdSet;

fn ok() -> HelperRun {
    HelperRun::Ended {
        code: Some(0),
        stdout: String::new(),
        stderr: String::new(),
    }
}

fn failed(msg: &str) -> HelperRun {
    HelperRun::Ended {
        code: Some(1),
        stdout: String::new(),
        stderr: msg.into(),
    }
}

#[test]
fn cpu_0_is_never_parked() {
    let cpus = IdSet::from_list(&[9, 0, 8]);
    assert_eq!(parkable_cpus(&cpus), [8, 9]);
    let (all, log) = park_cpus(&cpus, &vec![ok(), ok()]);
    assert!(all);
    assert_eq!(
        log,
        [
            "[Park] Skipping CPU 0 (bootstrap processor, cannot offline)",
            "[Park] CPU 8 → offline",
            "[Park] CPU 9 → offline",
        ]
    );
}

#[test]
fn one_failure_fails_parking() {
    let cpus = IdSet::from_list(&[4, 5]);
    let (all, log) = park_cpus(&cpus, &vec![ok(), failed("busy")]);
    assert!(!all);
    assert_eq!(log, ["[Park] CPU 4 → offline", "[Park] CPU 5 FAILED: busy"]);
}

#[test]
fn unparking_tells_what_came_back() {
    let offline = IdSet::from_list(&[3, 2]);
    assert!(unpark_needed(&offline));
    assert!(!unpark_needed(&IdSet::new()));
    assert_eq!(
        unpark_all(&offline, &ok()),
        (true, "[Park] CPUs [2, 3] restored online.".into())
    );
    assert_eq!(
        unpark_all(&offline, &failed("no")),
        (false, "[Park] Unpark all FAILED: no".into())
    );
    assert_eq!(
        unpark_all(&IdSet::new(), &failed("no")),
        (true, "[Park] No offline CPUs to restore.".into())
    );
}

#[test]
fn helper_arguments() {
    assert_eq!(park_args(7), ["online", "7", "0"]);
    assert_eq!(bracket_list(&IdSet::from_list(&[5, 1])), "[1, 5]");
    assert_eq!(governor_args("powersave"), ["governor", "powersave"]);
    assert_eq!(epp_args("power"), ["epp", "power"]);
    assert_eq!(set_process_nice_via_helper(77, -1), ["-1", "77"]);
    assert!(!unpark_args().is_empty());
}

#[test]
fn governors_are_picked_from_what_is_offered() {
    let offered = available_governors(Some("performance powersave\n"));
    assert_eq!(offered, ["performance", "powersave"]);
    assert!(available_governors(None).is_empty());
    assert_eq!(
        PowerProfile::Balanced.pick_governor(true, &offered),
        Some("powersave".into())
    );
    assert_eq!(PowerProfile::Balanced.pick_governor(false, &offered), None);
    assert_eq!(
        PowerProfile::PowerSave.pick_governor(false, &["schedutil".to_string()]),
        Some("schedutil".into())
    );
    assert_eq!(
        apply_power_profile(PowerProfile::Performance, true, &offered, &ok()),
        (true, "[Power] Performance — governor=performance, EPP=performance".into())
    );
    assert_eq!(
        apply_power_profile(PowerProfile::Balanced, false, &offered, &ok()),
        (
            false,
            "[Power] no suitable governor for Balanced (available: performance powersave)".into()
        )
    );
    assert_eq!(
        apply_power_profile(PowerProfile::PowerSave, false, &offered, &failed("denied")),
        (false, "[Power] governor change failed: denied".into())
    );
}

#[test]
fn power_profile_follows_the_governor() {
    let offered = available_governors(Some("performance powersave\n"));
    let fast = PowerProfile::Performance;
    assert_eq!(
        first_power_run(fast, true, &offered),
        Some(vec!["governor".to_string(), "performance".to_string()])
    );
    assert_eq!(first_power_run(PowerProfile::Balanced, false, &offered), None);
    assert!(epp_due(fast, true, &offered, &ok()));
    assert!(!epp_due(fast, false, &offered, &ok()));
    assert!(!epp_due(fast, true, &offered, &failed("denied")));
    assert!(!epp_due(fast, true, &vec!["schedutil".to_string()], &ok()));
}

#[test]
fn settings_are_read_and_set() {
    assert_eq!(current_governor(Some("powersave\n")), Some("powersave".into()));
    assert_eq!(current_epp(None), None);
    assert_eq!(set_governor_via_helper(&ok()), Ok(()));
    assert_eq!(set_epp_via_helper(&failed("x")), Err("x".into()));
}
