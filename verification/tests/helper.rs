//! The privileged helpers: their scripts, the policy, and what came of running
//! them.

use argus_lasso::helper::{
    helper_path, install_helper_via_pkexec, is_helper_authorized, is_helper_current,
    is_helper_installed, legacy_install_present, park_script, policy_xml, power_script,
    renice_script, run_helper, safe_path, stage_install, HelperRun, HELPER_VERSION, OP_PARK,
    OP_POWER, OP_RENICE,
};

fn ended(code: i32, stdout: &str, stderr: &str) -> HelperRun {
    HelperRun::Ended {
        code: Some(code),
        stdout: stdout.into(),
        stderr: stderr.into(),
    }
}

/// A policy that does not name every helper would leave one operation
/// unauthorised, which surfaces only when a user tries it.
#[test]
fn policy_covers_every_helper() {
    let xml = policy_xml();
    for op in [OP_PARK, OP_POWER, OP_RENICE] {
        assert!(
            xml.contains(&format!("io.github.franzjeger.argus-lasso.{op}")),
            "no action for {op}"
        );
        assert!(xml.contains(&helper_path(op)), "no exec.path for {op}");
    }
    // allow_any=yes would hand the operation to remote sessions too.
    assert!(!xml.contains("<allow_any>yes"));
}

#[test]
fn every_helper_carries_the_version_marker() {
    for body in [park_script(), power_script(), renice_script()] {
        assert!(body.contains(HELPER_VERSION), "missing version marker");
    }
}

#[test]
fn helpers_are_current_only_with_the_marker() {
    assert!(is_helper_installed(true, true, true, true));
    assert!(!is_helper_installed(true, true, false, true));
    let script = park_script();
    assert!(is_helper_current(true, Some(&script)));
    assert!(!is_helper_current(true, Some("#!/bin/bash\n# argus-lasso-helper v1")));
    assert!(!is_helper_current(true, None));
    assert!(!is_helper_current(false, Some(&script)));
    assert!(legacy_install_present(false, true));
    assert!(!legacy_install_present(false, false));
    assert!(is_helper_authorized(true, None));
    assert!(!is_helper_authorized(true, Some(false)));
    assert!(!is_helper_authorized(false, Some(true)));
}

#[test]
fn helper_outcomes_are_told_apart() {
    assert_eq!(run_helper(&ended(0, "x", "y")), (true, String::new()));
    assert_eq!(
        run_helper(&HelperRun::NotInstalled).1,
        "Helper not installed. Run install first."
    );
    assert_eq!(run_helper(&HelperRun::NotStarted("gone".into())), (false, "gone".into()));
    assert_eq!(
        run_helper(&ended(126, "", "")).1,
        "Not authorised by polkit (dialog dismissed, or no polkit agent running)."
    );
    assert_eq!(run_helper(&ended(1, " out ", " err ")), (false, "err".into()));
    assert_eq!(run_helper(&ended(1, " out ", "  ")), (false, "out".into()));
}

#[test]
fn unsafe_staging_paths_are_refused() {
    assert!(safe_path("/tmp/argus-1"));
    assert!(!safe_path("/tmp/argus 1"));
    assert!(!safe_path("/tmp/a'b"));
    assert_eq!(
        stage_install("/tmp/a b"),
        Err("Staging path contains unsafe characters.".into())
    );
    let cmd = stage_install("/tmp/stage").unwrap();
    assert!(cmd.starts_with("set -e && install -d -m 755 -o root -g root "));
    assert!(cmd.contains("/tmp/stage/policy.xml"));
    assert!(cmd.ends_with(" && echo INSTALL_OK"));
}

#[test]
fn installation_outcomes() {
    assert_eq!(
        install_helper_via_pkexec(&ended(0, "INSTALL_OK\n", "")),
        (
            true,
            "Helpers and polkit policy installed; the old sudoers rule was removed.".into()
        )
    );
    assert_eq!(
        install_helper_via_pkexec(&ended(127, "", "")),
        (false, "Authentication cancelled or failed.".into())
    );
    assert_eq!(
        install_helper_via_pkexec(&ended(3, "a", "b")),
        (false, "Install failed (rc=Some(3)): ab".into())
    );
    assert_eq!(
        install_helper_via_pkexec(&HelperRun::NotStarted("no such file".into())),
        (false, "pkexec spawn failed: no such file".into())
    );
    let long = "x".repeat(400);
    let (ok, msg) = install_helper_via_pkexec(&HelperRun::Ended {
        code: None,
        stdout: long,
        stderr: String::new(),
    });
    assert!(!ok);
    assert_eq!(msg, format!("Install failed (rc=None): {}", "x".repeat(300)));
}
