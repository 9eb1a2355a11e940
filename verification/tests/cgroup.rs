//! Which systemd units may be throttled, and the commands that do it.

use argus_lasso::cgroup::{
    cpu_weight_query, read_unit_cpu_weight, restore_unit, throttle_unit, unit_for_pid,
    unit_from_cgroup_path,
};

#[test]
fn app_scope_is_throttleable() {
    assert_eq!(
        unit_from_cgroup_path(
            "/user.slice/user-1000.slice/user@1000.service/app.slice/app-firefox-1234.scope"
        ),
        Some("app-firefox-1234.scope".into())
    );
    assert_eq!(
        unit_from_cgroup_path(
            "/user.slice/user-1000.slice/user@1000.service/app.slice/foo.service"
        ),
        Some("foo.service".into())
    );
}

#[test]
fn session_scope_and_user_manager_are_rejected() {
    // Login session scope = the whole desktop
    assert_eq!(
        unit_from_cgroup_path(
            "/user.slice/user-1000.slice/user@1000.service/session.slice/session-2.scope"
        ),
        None
    );
    // Directly under user@ (no intermediate slice)
    assert_eq!(
        unit_from_cgroup_path("/user.slice/user-1000.slice/user@1000.service/init.scope"),
        None
    );
}

#[test]
fn system_units_and_bare_paths_are_rejected() {
    assert_eq!(unit_from_cgroup_path("/system.slice/sshd.service"), None);
    assert_eq!(unit_from_cgroup_path("/"), None);
    // Slice (not scope/service) as leaf
    assert_eq!(
        unit_from_cgroup_path("/user.slice/user-1000.slice/user@1000.service/app.slice"),
        None
    );
}

#[test]
fn unit_of_a_process_comes_from_the_unified_line() {
    let file = "12:cpu:/legacy\n0::/user.slice/user-1000.slice/user@1000.service/app.slice/app-steam-7.scope\n";
    assert_eq!(unit_for_pid(file), Some("app-steam-7.scope".into()));
    assert_eq!(unit_for_pid("1:name=systemd:/init.scope\n"), None);
    assert_eq!(unit_for_pid(""), None);
}

#[test]
fn commands_set_and_give_back_the_weight() {
    assert_eq!(
        cpu_weight_query("a.scope").join(" "),
        "--user show -p CPUWeight --value -- a.scope"
    );
    assert_eq!(read_unit_cpu_weight(true, " 100\n"), Some(100));
    assert_eq!(read_unit_cpu_weight(true, "[not set]"), None);
    assert_eq!(read_unit_cpu_weight(false, "100"), None);
    let plain = throttle_unit("a.scope", 20, 0);
    assert_eq!(plain.last().unwrap(), "CPUWeight=20");
    let capped = throttle_unit("a.scope", 20, 50);
    assert_eq!(&capped[capped.len() - 2..], ["CPUWeight=20", "CPUQuota=50%"]);
    let back = restore_unit("a.scope", Some(100));
    assert_eq!(&back[back.len() - 2..], ["CPUWeight=100", "CPUQuota="]);
    let reset = restore_unit("a.scope", None);
    assert_eq!(&reset[reset.len() - 2..], ["CPUWeight=", "CPUQuota="]);
}
