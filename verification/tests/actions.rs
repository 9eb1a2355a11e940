//! Manual actions, the command line, files and the icon.

use argus_lasso::binary::Single;
use argus_lasso::actions::{
    affinity_line, bell_label, cancelled_line, detail_title, disk_text, ionice_line, kill_line,
    kill_toast, measures_cpu, more_threads, nice_line, offer_rule, pending_line,
    read_cpu_temp, recent_events, repaint_ms, request_kill, resumed_line, rule_for_name,
    suspended_line, take_due, undo_kill, DetailState, RuleOffer, TempDevice, UNDO_MS,
};
use argus_lasso::cli::{
    affinity_text, killed_text, status_loads, status_order, status_tenths, tray_hint, tray_title,
};
use argus_lasso::file_dialog::{backend, open, picked, save, Backend};
use argus_lasso::gui::process_tab::PendingKill;
use argus_lasso::icon::{make_icon_rgba, rgba_from_rgb, tray_pixels};
use argus_lasso::logfile::{log_path, rotated_path, LogSize, MAX_BYTES};
use argus_lasso::monitor::ProcInfo;
use std::collections::VecDeque;

fn offer(name: &str, affinity: Option<&str>, nice: Option<i32>, io: Option<(i32, i32)>) -> RuleOffer {
    RuleOffer {
        proc_name: name.into(),
        affinity: affinity.map(|s| s.to_string()),
        nice,
        ionice: io,
    }
}

#[test]
fn offers_of_one_process_add_up() {
    let mut o: Option<RuleOffer> = None;
    offer_rule(&mut o, offer("steam", Some("0-7"), None, None));
    offer_rule(&mut o, offer("steam", None, Some(-5), None));
    offer_rule(&mut o, offer("steam", None, None, Some((2, 4))));
    offer_rule(&mut o, offer("steam", None, Some(3), None));
    let held = o.as_ref().unwrap();
    assert_eq!(held.summary(), "affinity 0-7, nice 3, ionice 2/4");
    assert_eq!(
        held.question(),
        "Keep affinity 0-7, nice 3, ionice 2/4 for 'steam' with a rule?\nThe setting will be re-applied every time the process starts."
    );
    assert_eq!(
        held.created_line(),
        "[Rule] Created rule for 'steam' (affinity 0-7, nice 3, ionice 2/4) from manual change"
    );
    let r = held.to_rule();
    assert_eq!((r.name.as_str(), r.match_type.as_str()), ("steam", "exact"));
    assert_eq!((r.nice, r.ionice_class, r.ionice_level), (Some(3), Some(2), Some(4)));
    offer_rule(&mut o, offer("other", None, Some(1), None));
    assert_eq!(o.unwrap().summary(), "nice 1");
    let c = rule_for_name("fire");
    assert_eq!((c.pattern.as_str(), c.match_type.as_str()), ("fire", "contains"));
}

#[test]
fn kills_wait_and_can_be_undone() {
    let mut p: Option<PendingKill> = None;
    assert!(request_kill(&mut p, 7, "a", false, 1000).is_none());
    assert_eq!(
        pending_line(p.as_ref().unwrap()),
        "Suspended a (7) — will kill in 5s"
    );
    assert_eq!(kill_toast(p.as_ref().unwrap(), 1000), "Killing 'a' in 6s");
    assert_eq!(kill_toast(p.as_ref().unwrap(), 5500), "Killing 'a' in 1s");
    assert_eq!(repaint_ms(&p, 2000), 250);
    assert!(take_due(&mut p, 1000 + UNDO_MS - 1).is_none());
    let first = request_kill(&mut p, 8, "b", true, 2000).unwrap();
    assert_eq!(
        kill_line(&first, true, None),
        "Killed a (7) — superseded by new kill"
    );
    let due = take_due(&mut p, 7000).unwrap();
    assert_eq!(kill_line(&due, false, None), "Force killed b (8)");
    assert_eq!(
        kill_line(&due, false, Some("EPERM")),
        "Kill failed for b (8): EPERM"
    );
    assert!(p.is_none());
    assert_eq!(repaint_ms(&p, 2000), 2000);
    request_kill(&mut p, 9, "c", false, 0);
    let undone = undo_kill(&mut p).unwrap();
    assert_eq!(
        cancelled_line(&undone.name, undone.pid),
        "Kill cancelled — resumed c (9)"
    );
    assert!(take_due(&mut p, 99_999).is_none());
}

#[test]
fn lines_of_manual_changes() {
    assert_eq!(suspended_line("a", 1), "Suspended a (1)");
    assert_eq!(resumed_line("a", 1), "Resumed a (1)");
    assert_eq!(affinity_line("0-3", 9), "[Manual] affinity=0-3 → PID 9");
    assert_eq!(nice_line(-3, 9), "[Manual] nice=-3 → PID 9");
    assert_eq!(ionice_line(2, 4, 9), "[Manual] ionice class=2 level=4 → PID 9");
}

#[test]
fn events_that_were_not_seen() {
    assert_eq!(bell_label(5, 3), "🔔 2");
    assert_eq!(bell_label(3, 5), "🔔");
    let events: VecDeque<String> = (0..20).map(|i| i.to_string()).collect();
    let recent = recent_events(&events);
    assert_eq!(recent.len(), 12);
    assert_eq!((recent[0].as_str(), recent[11].as_str()), ("19", "8"));
}

fn temp_device(name: &str, files: &[(&str, &str)]) -> TempDevice {
    TempDevice {
        name: name.into(),
        files: files.iter().map(|(a, b)| (a.to_string(), b.to_string())).collect(),
    }
}

#[test]
fn hottest_sensor_of_the_first_device_counts() {
    let devices = vec![
        temp_device("nvme\n", &[("temp1_input", "90000")]),
        temp_device("k10temp\n", &[("temp1_label", "9")]),
        temp_device(
            "it8688\n",
            &[("temp1_input", "41000\n"), ("temp2_input", "x"), ("temp3_input", "45500")],
        ),
        temp_device("coretemp", &[("temp1_input", "99000")]),
    ];
    assert_eq!(read_cpu_temp(&devices), Some(45_500));
    assert_eq!(read_cpu_temp(&devices[..1].iter().map(|d| temp_device(&d.name, &[])).collect()), None);
    assert!(measures_cpu(" zenpower "));
    assert!(!measures_cpu("acpitz"));
}

#[test]
fn details_of_a_process() {
    let mut d = DetailState {
        pid: None,
        has_info: false,
        last_gen: 0,
    };
    assert!(!d.needs_read(1));
    d.show(7);
    assert!(d.needs_read(0));
    d.note_read(3, true);
    assert!(!d.needs_read(3));
    assert!(d.needs_read(4));
    d.note_read(4, false);
    assert_eq!(d.pid, None);
    d.show(8);
    d.close();
    assert_eq!(d.pid, None);
    assert_eq!(detail_title(Some("a"), 7), "Details — a (7)");
    assert_eq!(detail_title(None, 7), "Details — PID 7");
    assert_eq!(
        disk_text(1536, 0),
        Some("read 1.5 KB/s, write 0.0 KB/s".into())
    );
    assert_eq!(disk_text(0, 0), None);
    assert_eq!(more_threads(10, 8), Some("… and 2 more".into()));
    assert_eq!(more_threads(8, 8), None);
}

fn proc(pid: u32, mpct: i64) -> ProcInfo {
    ProcInfo {
        pid,
        cpu_percent: Single::of(mpct, 1000),
        ..Default::default()
    }
}

#[test]
fn status_lists_the_busiest_first() {
    let procs = [proc(3, 10), proc(2, 50), proc(1, 10)];
    assert_eq!(status_order(&procs, 0), [1, 2, 0]);
    assert_eq!(status_order(&procs, 2), [1, 2]);
    assert_eq!(status_order(&procs, 9), [1, 2, 0]);
    assert_eq!(status_loads("0.50 x 2.00 1/2"), [500_000, 2_000_000]);
    assert!(status_loads("").is_empty());
    for mpct in [12_349, 12_350, 12_450, 250, 50, 399_950] {
        let shown = (mpct as f32 / 1000.0) as f64 * 10.0;
        assert_eq!(status_tenths(Single::of(mpct, 1000)), shown.round() as u128);
    }
}

#[test]
fn printed_lines() {
    assert_eq!(killed_text(7, false), "Killed PID 7");
    assert_eq!(killed_text(7, true), "Force killed PID 7");
    assert_eq!(affinity_text(7, "0-3", true), "Affinity set to '0-3' for PID 7");
    assert_eq!(affinity_text(7, "0-3", false), "Failed to set affinity for PID 7");
    assert_eq!(tray_title(Single::of(12_600, 1000)), "Argus-Lasso  CPU 13%");
    assert_eq!(tray_hint(Single::of(400, 1000)), "Argus-Lasso — CPU 0%");
}

#[test]
fn file_pickers() {
    assert_eq!(backend(true, true, true), Some(Backend::Kdialog));
    assert_eq!(backend(false, true, true), Some(Backend::Zenity));
    assert_eq!(backend(false, false, true), Some(Backend::Qarma));
    assert_eq!(backend(false, false, false), None);
    assert_eq!(
        open(Backend::Kdialog, "*.json"),
        ["kdialog", "--getopenfilename", ".", "*.json"]
    );
    assert_eq!(open(Backend::Qarma, "*.json"), ["qarma", "--file-selection"]);
    assert_eq!(
        save(Backend::Zenity, "a.csv", "*.csv"),
        [
            "zenity",
            "--file-selection",
            "--save",
            "--confirm-overwrite",
            "--filename=a.csv"
        ]
    );
    assert_eq!(picked(true, "/tmp/x\n"), Some("/tmp/x".into()));
    assert_eq!(picked(true, " \n"), None);
    assert_eq!(picked(false, "/tmp/x"), None);
}

#[test]
fn log_file_is_bounded() {
    assert_eq!(
        log_path(Some("/data"), Some("/home/u")),
        Some("/data/argus-lasso/argus-lasso.log".into())
    );
    assert_eq!(
        log_path(None, Some("/home/u")),
        Some("/home/u/.local/share/argus-lasso/argus-lasso.log".into())
    );
    assert_eq!(log_path(None, None), None);
    assert_eq!(rotated_path("/x/argus-lasso.log"), "/x/argus-lasso.log.1");
    let mut size = LogSize::opened(Some(MAX_BYTES - 10));
    assert!(!size.is_full());
    size.count(9, false);
    assert!(!size.is_full());
    size.count(9, true);
    assert!(size.is_full());
    assert_eq!(size.written, MAX_BYTES);
    assert_eq!(LogSize::opened(None).written, 0);
}

#[test]
fn icon_pixels() {
    let rgba = [1, 2, 3, 4, 5, 6, 7, 8, 9];
    assert_eq!(make_icon_rgba(&rgba), rgba);
    assert_eq!(tray_pixels(&rgba), [4, 1, 2, 3, 8, 5, 6, 7, 9]);
    assert_eq!(rgba_from_rgb(&[1, 2, 3, 4, 5, 6, 7]), [1, 2, 3, 255, 4, 5, 6, 255]);
}
