//! Gaming Mode: the tab and the map of the cores.

use argus_lasso::config::Config;
use argus_lasso::gui::core_map::{
    core_cells, core_hover, core_tag, cpus_with_mark, is_kept, mark, overlay, toggle_core,
};
use argus_lasso::gui::game_match::GameProc;
use argus_lasso::gui::gaming_mode_tab::{
    cpu_status_line, GamingEvent, GamingModeTab, HelperState, Machine, WatchPhase, LOG_CAP,
};
use argus_lasso::idset::IdSet;
use argus_lasso::topology::{CpuTopology, TopologyKind};

fn machine(offline: &[u32]) -> Machine {
    let off = IdSet::from_list(offline);
    Machine {
        topo: CpuTopology {
            kind: TopologyKind::AmdX3D,
            preferred: IdSet::from_list(&[0, 1]),
            non_preferred: IdSet::from_list(&[2, 3]),
            description: "X3D".into(),
            preferred_label: "V-Cache".into(),
            non_preferred_label: "Frequency".into(),
        },
        online: IdSet::first(4).difference(&off),
        offline: off,
        smt_siblings: IdSet::from_list(&[1]),
    }
}

const HELPER: HelperState = HelperState {
    current: true,
    authorized: true,
    installed: true,
};

fn tab(offline: &[u32]) -> GamingModeTab {
    GamingModeTab::new(Config::default(), machine(offline), HELPER, Some("powersave"), None, 0)
}

fn modes(t: &mut GamingModeTab) -> Vec<bool> {
    std::mem::take(&mut t.events)
        .into_iter()
        .filter_map(|e| match e {
            GamingEvent::GamingModeChanged { active, .. } => Some(active),
            _ => None,
        })
        .collect()
}

#[test]
fn parked_cpus_at_the_start_mean_gaming_mode() {
    let mut t = tab(&[]);
    assert!(!t.parked);
    assert!(modes(&mut t).is_empty());
    assert_eq!(t.cpu_status_text, "All 4 CPUs online");
    assert_eq!(t.helper_status_text, "Helper installed — parking + nice -1 available");
    assert_eq!(t.power_status_text, "current: powersave");
    assert_eq!(t.selected_power(), 2);
    assert!(t.can_switch());
    let mut p = tab(&[2, 3]);
    assert!(p.parked && p.cpu_status_warns);
    assert_eq!(modes(&mut p), [true]);
    assert_eq!(p.cpu_status_text, "2 of 4 CPUs online · parked: 2, 3");
    assert_eq!(
        cpu_status_line(&IdSet::first(2), &IdSet::new()),
        "All 2 CPUs online"
    );
}

#[test]
fn helper_and_power_captions() {
    let mut t = tab(&[]);
    t.refresh_helper_status(HelperState { current: false, ..HELPER });
    assert!(t.helper_outdated);
    assert!(t.helper_status_text.starts_with("Helper needs update"));
    assert_eq!(t.power_caption(), "requires the privileged helper");
    t.refresh_helper_status(HelperState { authorized: false, ..HELPER });
    assert!(!t.helper_outdated);
    assert!(t.helper_status_text.starts_with("Helper not installed"));
    t.refresh_power_status(None, Some("power"));
    assert_eq!(t.power_status_text, "current: ? / power");
    assert_eq!(
        t.map_help(),
        "Parks Frequency so games initialise their thread pool on V-Cache only. Click a core to keep or park it."
    );
}

#[test]
fn switching_on_parks_what_is_not_kept() {
    let mut t = tab(&[]);
    assert!(t.begin_enable(false).is_none());
    assert_eq!(t.log_lines.back().unwrap(), "[Gaming Mode] Helper missing — install first.");
    toggle_core(&mut t.preferred_checks, 1);
    let park = t.begin_enable(true).unwrap();
    assert_eq!(park.items(), &vec![1, 2, 3]);
    assert!(t.parking_in_progress);
    assert_eq!(t.log_lines.back().unwrap(), "[Gaming Mode] Parking CPUs [1, 2, 3]…");
    t.finish_enable(true, &vec!["[Park] x".into()], &IdSet::first(1), &park);
    assert!(t.parked && !t.parking_in_progress);
    assert_eq!(modes(&mut t), [true]);
    t.begin_disable();
    assert!(!t.finish_disable(&vec![], &machine(&[])));
    assert!(!t.parked);
    assert_eq!(t.preferred_checks.get(1), Some(&true));
    assert_eq!(modes(&mut t), [false]);
    let mut f = tab(&[]);
    f.begin_enable(true);
    f.finish_enable(false, &vec![], &IdSet::first(4), &IdSet::new());
    assert!(!f.parked);
    assert_eq!(f.log_lines.back().unwrap(), "[Gaming Mode] Parking failed — check log.");
}

#[test]
fn equal_cores_are_never_parked() {
    let mut t = tab(&[]);
    t.topo = Some(CpuTopology::uniform(IdSet::first(4)));
    assert!(t.begin_enable(true).is_none());
    assert!(t.log_lines.is_empty());
    assert!(!t.has_asymmetry());
    assert!(t.map_help().starts_with("No CPU asymmetry"));
}

#[test]
fn log_of_the_tab_is_bounded() {
    let mut t = tab(&[]);
    for _ in 0..300 {
        t.append_log("x");
    }
    t.append_all(&vec!["y".into(), "z".into()]);
    assert_eq!(t.log_lines.len(), LOG_CAP);
    assert_eq!(t.log_lines.back().unwrap(), "z");
    assert_eq!(t.events.len(), 302);
}

fn procs(list: &[(u32, &str)]) -> Vec<GameProc> {
    list.iter()
        .map(|&(pid, comm)| GameProc {
            pid,
            comm: comm.into(),
            cmdline: None,
        })
        .collect()
}

#[test]
fn launched_games_are_watched() {
    let mut t = tab(&[2, 3]);
    assert!(!t.poll_due(99_999));
    assert!(!t.can_launch());
    t.pick_steam("620", "Portal 2");
    assert!(t.can_launch());
    assert_eq!(t.launch_game(1000), ["steam", "-applaunch", "620"]);
    assert_eq!(t.watch_phase, WatchPhase::Waiting);
    assert!(!t.poll_due(2999));
    assert!(t.poll_due(3000));
    assert!(!t.poll_game_process(&procs(&[(5, "bash")])));
    assert!(!t.poll_game_process(&procs(&[(5, "bash"), (6, "portal2_linux")])));
    assert_eq!((t.watch_phase, t.launched_pid), (WatchPhase::Running, Some(6)));
    assert_eq!(t.watch_status, "Game running (PID 6)");
    assert!(!t.poll_due(7999));
    assert!(t.poll_due(8000));
    assert!(!t.poll_game_process(&procs(&[(6, "other")])));
    assert!(!t.poll_game_process(&procs(&[(9, "portal2")])));
    assert_eq!(t.launched_pid, Some(9));
    assert!(t.poll_game_process(&procs(&[(5, "bash")])));
    assert_eq!(t.watch_phase, WatchPhase::Idle);
    assert_eq!(t.log_lines.back().unwrap(), "[Launcher] Game (PID 9) exited.");
}

#[test]
fn games_can_be_killed() {
    let mut t = tab(&[]);
    t.pick_lutris("doom", "Doom");
    assert_eq!(t.command, "lutris lutris:rungame/doom");
    t.launched_pid = Some(4);
    t.watch_phase = WatchPhase::Running;
    assert_eq!(t.kill_game(), (Some(4), false));
    assert_eq!(t.log_lines.back().unwrap(), "[Launcher] Sent SIGTERM to PID 4");
    assert_eq!(t.launched_pid, None);
}

#[test]
fn profiles_load_back() {
    let mut t = tab(&[]);
    t.save_profile();
    assert!(t.config.gaming_mode.profiles.entries().is_empty());
    t.pick_steam("1", "Hades");
    t.elevate_nice = false;
    t.keep_no_smt();
    t.save_profile();
    assert_eq!(t.selected_profile, "Hades");
    t.keep_all(true);
    t.elevate_nice = true;
    t.command.clear();
    assert!(!t.load_profile("Hades"));
    assert_eq!(t.command, "steam -applaunch 1");
    assert!(!t.elevate_nice);
    assert_eq!(t.preferred_checks.pairs(), &vec![(0, true), (1, false)]);
    assert!(!t.load_profile("none"));
    t.parked = true;
    assert!(t.load_profile("Hades"));
    assert!(t.pending_enable_after_unpark);
    t.begin_disable();
    assert!(t.finish_disable(&vec![], &machine(&[])));
    assert_eq!(t.preferred_checks.pairs(), &vec![(0, true), (1, false)]);
    assert!(!t.pending_enable_after_unpark);
    let parked = t.begin_enable(true).unwrap();
    assert!(parked.contains(1) && !parked.contains(0));
    t.delete_profile();
    assert!(t.config.gaming_mode.profiles.get("Hades").is_none());
    assert_eq!(t.selected_profile, "");
}

#[test]
fn choices_are_sent_once() {
    let mut t = tab(&[]);
    t.set_auto(false, false);
    assert!(t.events.is_empty());
    t.set_auto(true, false);
    assert!(matches!(t.events[..], [GamingEvent::ConfigChanged]));
    t.events.clear();
    t.parked = true;
    t.begin_reset(true);
    t.finish_reset(Some((&vec![], &machine(&[]))));
    assert!(!t.parked);
    assert!(matches!(t.events.last(), Some(GamingEvent::ResetAll)));
    t.events.clear();
    t.begin_reset(false);
    t.finish_reset(None);
    assert_eq!(t.events.len(), 1);
}

#[test]
fn map_of_the_cores() {
    let cells = core_cells(&IdSet::from_list(&[0, 2]), &IdSet::from_list(&[1, 2]));
    assert_eq!(cells, [(0, true), (1, false), (2, false), (2, true)]);
    let keys = IdSet::first(3);
    let mut m = mark(&keys, &IdSet::from_list(&[1]));
    assert!(is_kept(true, &m, 1) && !is_kept(true, &m, 0));
    assert!(is_kept(true, &m, 9) && !is_kept(false, &m, 1));
    toggle_core(&mut m, 0);
    toggle_core(&mut m, 0);
    assert_eq!(cpus_with_mark(&m, true).items(), &vec![1]);
    let states = mark(&IdSet::from_list(&[0, 7]), &IdSet::from_list(&[0, 7]));
    assert_eq!(
        overlay(&m, &states).pairs(),
        &vec![(0, true), (1, true), (2, false)]
    );
    assert_eq!(core_hover(3, false, false), "CPU 3 — parked in Gaming Mode");
    assert_eq!(core_hover(3, true, true), "CPU 3 — kept online");
    assert_eq!(core_hover(3, true, false), "CPU 3 — parked by you");
    assert_eq!(core_tag(1, &IdSet::from_list(&[1])), "HT");
    assert_eq!(core_tag(0, &IdSet::from_list(&[1])), "P");
}
