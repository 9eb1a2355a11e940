//! The monitor's loop and the state it publishes.

use argus_lasso::binary::Single;
use argus_lasso::app_state::{clock, notable, AppState, LOG_CAP};
use argus_lasso::config::MonitorConfig;
use argus_lasso::daemon::{
    balance_rows, config_line, default_line, game_detected_line, initial_scan_line, merge_gpu,
    hand_parked_line, park_non_preferred, parked_line, parking_line, pids_of, pinned_line, raised_line, reapply_default,
    reset_line, restore_gaming_nices, sleep_ms, startup_line, Daemon, Gaming, GamingChange,
    GamingStep, NewPidAction, ShutdownStep,
};
use argus_lasso::idmap::IdMap;
use argus_lasso::idset::IdSet;
use argus_lasso::monitor::ProcInfo;
use argus_lasso::probalance::ThrottleInfo;

const CFG: MonitorConfig = MonitorConfig {
    display_refresh_interval_ms: 2000,
    rule_enforce_interval_ms: 500,
};

fn proc(pid: u32, name: &str) -> ProcInfo {
    ProcInfo {
        pid,
        name: name.into(),
        ..Default::default()
    }
}

fn game(pid: u32) -> ProcInfo {
    ProcInfo {
        pid,
        name: "Hades".into(),
        cmdline: "/steamapps/common/Hades".into(),
        ..Default::default()
    }
}

#[test]
fn work_is_due_in_its_intervals() {
    let d = Daemon::new(1000);
    let now = d.due(1499, &CFG);
    assert!(!now.snapshot && !now.enforce && !now.probalance && !now.publish);
    let later = d.due(1500, &CFG);
    assert!(later.snapshot && later.enforce && !later.probalance);
    assert!(d.due(2000, &CFG).probalance);
    assert!(d.due(3000, &CFG).publish);
    for (interval, sleep) in [(10, 50), (200, 200), (9000, 500)] {
        let cfg = MonitorConfig {
            rule_enforce_interval_ms: interval,
            ..CFG
        };
        assert_eq!(sleep_ms(&cfg), sleep);
    }
}

#[test]
fn manual_mode_is_never_switched_off() {
    let mut g = Gaming::new();
    g.set(true, true);
    for rows in [vec![], vec![game(1)], vec![], vec![], vec![]] {
        assert_eq!(g.observe(true, &rows), GamingChange::Unchanged);
        assert!(g.active);
    }
}

#[test]
fn auto_mode_ends_after_two_looks() {
    let mut g = Gaming::new();
    assert_eq!(g.observe(false, &vec![game(1)]), GamingChange::Unchanged);
    assert_eq!(
        g.observe(true, &vec![proc(3, "x"), game(1)]),
        GamingChange::Enabled { game: 1 }
    );
    assert_eq!(g.observe(true, &vec![]), GamingChange::Unchanged);
    assert_eq!(g.observe(true, &vec![game(2)]), GamingChange::Unchanged);
    assert_eq!(g.observe(true, &vec![]), GamingChange::Unchanged);
    assert_eq!(g.observe(true, &vec![]), GamingChange::Disabled);
    assert!(!g.active);
}

#[test]
fn snapshots_tell_new_from_known_processes() {
    let mut d = Daemon::new(0);
    assert_eq!(d.take_snapshot(&vec![proc(1, "a"), proc(2, "b")]), [0, 1]);
    d.note_raised(1, 0);
    d.note_raised(2, 5);
    d.capture_original(2, IdSet::first(2));
    d.capture_original(2, IdSet::first(4));
    d.note_nice_failed("r", 1);
    d.note_nice_failed("r", 1);
    d.note_nice_failed("r", 2);
    assert_eq!(d.take_snapshot(&vec![proc(2, "b"), proc(3, "c")]), [1]);
    assert!(!d.has_nice_failed("r", 1));
    assert!(d.has_nice_failed("r", 2));
    d.forget_nice_failures();
    assert!(!d.has_nice_failed("r", 2));
    assert_eq!(d.take_gaming_nices(), [(2, 5)]);
    let back = d.take_original_affinities(8);
    assert_eq!(back.len(), 1);
    assert_eq!(back[0].1.items(), &vec![0, 1]);
    assert!(d.take_original_affinities(8).is_empty());
}

#[test]
fn processes_without_known_cpus_get_all() {
    let mut d = Daemon::new(0);
    d.capture_original(7, IdSet::new());
    assert_eq!(d.take_original_affinities(3)[0].1.items(), &vec![0, 1, 2]);
}

#[test]
fn new_processes() {
    let mut d = Daemon::new(0);
    let aff = Some("0-3".to_string());
    assert!(matches!(d.new_pid_action(1, false, &aff), NewPidAction::SetDefault(s) if s == "0-3"));
    assert!(matches!(d.new_pid_action(1, true, &aff), NewPidAction::LeaveAlone));
    assert!(matches!(
        d.new_pid_action(1, false, &Some(String::new())),
        NewPidAction::LeaveAlone
    ));
    assert!(!d.set_gaming_mode(true, true));
    assert!(matches!(d.new_pid_action(1, true, &aff), NewPidAction::Elevate));
    d.note_raised(1, 0);
    assert!(matches!(d.new_pid_action(1, true, &aff), NewPidAction::LeaveAlone));
    assert!(d.set_gaming_mode(false, false));
    assert_eq!(reapply_default(false, &aff), Some("0-3".into()));
    assert_eq!(reapply_default(true, &aff), None);
    assert_eq!(reapply_default(false, &None), None);
}

#[test]
fn overridden_processes_are_left_alone() {
    let rows = vec![proc(1, "a"), proc(2, "b")];
    let mut d = Daemon::new(0);
    d.set_manual_override(1, 1000, 30_000);
    assert_eq!(d.enforce_targets(30_999, &rows), [1]);
    assert_eq!(d.enforce_targets(31_000, &rows), [0, 1]);
    assert_eq!(d.last_enforce, 31_000);
    assert_eq!(d.begin_probalance(5_000), 5_000);
    assert_eq!(d.begin_probalance(6_500), 1_500);
    d.note_published(9);
    assert_eq!(d.last_snapshot, 9);
}

#[test]
fn throttled_processes_are_told_of_once() {
    let rows = vec![proc(1, "a")];
    let mut d = Daemon::new(0);
    let told = d.throttle_notices(IdSet::from_list(&[1]), &rows, true);
    assert_eq!(told, ["Throttled: a (PID 1)"]);
    assert!(d.throttle_notices(IdSet::from_list(&[1]), &rows, true).is_empty());
    let told = d.throttle_notices(IdSet::from_list(&[9]), &rows, true);
    assert_eq!(told, ["Throttled: unknown (PID 9)", "Restored: a (PID 1)"]);
    assert!(d.throttle_notices(IdSet::new(), &rows, false).is_empty());
    assert!(d.throttle_notices(IdSet::new(), &rows, true).is_empty());
}

#[test]
fn rows_are_handed_on() {
    let mut rows = vec![proc(1, "a"), proc(2, "b")];
    rows[0].cpu_percent = Single::whole(5);
    let snap = balance_rows(&rows);
    assert_eq!((snap[0].pid, snap[0].cpu_percent), (1, Single::whole(5)));
    assert_eq!(snap[1].name, "b");
    let mut util: IdMap<Single> = IdMap::new();
    merge_gpu(&mut rows, &util);
    assert_eq!(rows[0].gpu_percent, Single::whole(0));
    rows[1].gpu_percent = Single::whole(9);
    util.insert(1, Single::whole(40));
    merge_gpu(&mut rows, &util);
    assert_eq!((rows[0].pid, rows[0].gpu_percent), (1, Single::whole(40)));
    assert_eq!((rows[1].pid, rows[1].gpu_percent), (2, Single::whole(0)));
    assert_eq!(pids_of(&rows).items(), &vec![1, 2]);
}

#[test]
fn log_lines() {
    assert_eq!(
        startup_line(true, &CFG),
        "Argus-Lasso started — ProBalance: on  |  Display refresh: 2000ms  |  Rule enforce: 500ms"
    );
    assert_eq!(
        config_line(false, true),
        "Config updated — ProBalance: off  |  Notifications: on"
    );
    assert_eq!(initial_scan_line(3), "Initial scan: 3 processes found.");
    assert_eq!(
        game_detected_line("Hades", 7),
        "[Gaming Mode] Auto-enabled — game detected: Hades (7)"
    );
    assert_eq!(raised_line("g", 7), "[Gaming Mode] nice -1 → g(7)");
    assert_eq!(
        pinned_line("V-Cache", "0-7", "g", 7),
        "[Gaming Mode] affinity → V-Cache (0-7) for g(7)"
    );
    assert_eq!(default_line("0-3", "g", 7), "[Default] affinity=0-3 → g(7)");
    assert_eq!(
        reset_line(2),
        "[Reset] Restored affinity on 2 processes to original state."
    );
    assert_eq!(
        restore_gaming_nices(&vec![true, false, true]),
        "[Gaming Mode] Restored nice for 2 processes."
    );
    assert!(park_non_preferred(true, true));
    assert!(!park_non_preferred(true, false));
    assert_eq!(parked_line(false), "[Gaming Mode] Parking failed — check log.");
}

#[test]
fn log_is_bounded_and_notable_events_are_kept() {
    let mut s = AppState::default();
    assert_eq!(clock(7, 5, 59), "07:05:59");
    assert_eq!(s.append_log("07:05:59", "Killed x (1)"), "[07:05:59] Killed x (1)");
    assert!(notable("[Park] CPU 1"));
    assert!(!notable("[Default] affinity"));
    for _ in 0..2100 {
        s.append_log("00:00:00", "routine");
    }
    assert_eq!(s.log_lines.len(), LOG_CAP);
    assert_eq!(s.notable_events.len(), 1);
}

#[test]
fn histories_follow_the_snapshot() {
    let mut s = AppState::default();
    let mut p = proc(1, "a");
    let w = Single::whole;
    p.cpu_percent = w(7);
    s.publish(vec![p], vec![w(10), w(20)], IdSet::new(), vec![], (w(1), w(2)), (w(3), w(4)));
    assert_eq!(s.cpu_avg, w(15));
    assert_eq!(s.cpu_generation, 1);
    assert_eq!(s.proc_cpu_history.get(1), Some(&vec![w(7)]));
    assert_eq!(s.disk_io_history.back(), Some(&(w(1), w(2))));
    s.publish(vec![proc(2, "b")], vec![], IdSet::new(), vec![], (w(0), w(0)), (w(0), w(0)));
    assert!(s.proc_cpu_history.get(1).is_none());
    assert_eq!(s.cpu_history.len(), 2);
}

fn throttled(pid: u32, original_nice: i32) -> ThrottleInfo {
    ThrottleInfo {
        pid,
        name: "x".into(),
        cpu_percent: Single::whole(0),
        original_nice,
        throttle_nice: 10,
        consecutive_low: 0,
        restore_hysteresis: 0,
    }
}

#[test]
fn everything_is_restored_at_the_end() {
    let mut d = Daemon::new(0);
    assert_eq!(
        d.shutdown_plan(&vec![], false),
        [ShutdownStep::Announce, ShutdownStep::Complete]
    );
    d.note_raised(9, 0);
    d.note_raised(4, 5);
    assert_eq!(
        d.shutdown_plan(&vec![throttled(7, -2), throttled(8, 1)], true),
        [
            ShutdownStep::Announce,
            ShutdownStep::RestoreNice(4, 5),
            ShutdownStep::RestoreNice(9, 0),
            ShutdownStep::ReportNices,
            ShutdownStep::Unthrottle(7, -2),
            ShutdownStep::Unthrottle(8, 1),
            ShutdownStep::Unpark,
            ShutdownStep::Complete,
        ]
    );
    assert!(d.gaming_niced.is_empty());
}

#[test]
fn switching_gaming_mode_by_hand() {
    let mut d = Daemon::new(0);
    assert_eq!(
        d.gaming_plan(true, true, true, true, true),
        [GamingStep::ShowActive(true), GamingStep::Park]
    );
    assert!(d.gaming.active && d.gaming.elevate_nice);
    assert_eq!(
        d.gaming_plan(true, true, true, true, false),
        [GamingStep::ShowActive(true)]
    );
    d.note_raised(3, 2);
    assert_eq!(
        d.switch_plan(true, false, true, true),
        [GamingStep::ShowActive(true)]
    );
    assert_eq!(
        d.gaming_plan(false, false, true, false, false),
        [
            GamingStep::RestoreNice(3, 2),
            GamingStep::ReportNices,
            GamingStep::ShowActive(false),
            GamingStep::Unpark,
        ]
    );
    assert!(!d.gaming.active && d.gaming_niced.is_empty());
    assert_eq!(
        parking_line(&IdSet::from_list(&[9, 8])),
        "[Gaming Mode] Parking CPUs [8, 9]…"
    );
    assert_eq!(
        hand_parked_line(true),
        "[Gaming Mode] ACTIVE — non-preferred CPUs offline."
    );
    assert_eq!(hand_parked_line(false), "[Gaming Mode] Parking failed — check log.");
}
