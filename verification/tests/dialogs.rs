//! The dialogs for processes and games.

use argus_lasso::gui::dialogs::{
    io_class_label, AffinityDialog, AffinityPicker, CpuContext, IoNiceDialog, NiceDialog, QuickPick,
};
use argus_lasso::gui::game_match::{find_game, proc_name_matches, GameProc};
use argus_lasso::gui::game_pickers::{
    extract_vdf_field, is_manifest_name, library_folders, lutris_db, scan_lutris_library,
    scan_steam_library, shows_game, steam_roots, Libraries, LutrisGamePickerDialog, LutrisRun,
    SteamGamePickerDialog,
};
use argus_lasso::idset::IdSet;
use argus_lasso::topology::{CpuTopology, TopologyKind};

fn unequal() -> CpuContext {
    CpuContext {
        cpu_count: 8,
        offline: IdSet::from_list(&[3]),
        topo: CpuTopology {
            kind: TopologyKind::AmdX3D,
            preferred: IdSet::from_list(&[0, 1, 4, 5]),
            non_preferred: IdSet::from_list(&[2, 3, 6, 7]),
            description: String::new(),
            preferred_label: "V".into(),
            non_preferred_label: "F".into(),
        },
        smt_siblings: IdSet::from_list(&[4, 5, 6, 7]),
    }
}

#[test]
fn picker_shows_the_list() {
    let p = AffinityPicker::new(" ", &unequal());
    assert!(p.checkboxes.iter().all(|&b| b));
    let p = AffinityPicker::new("0-1,9", &unequal());
    assert_eq!(p.cpulist(), "0-1");
    let p = AffinityPicker::new("bad", &unequal());
    assert_eq!(p.cpulist(), "");
    assert_eq!(p.parked_notice(), Some("CPUs 3 are parked".into()));
    assert_eq!(p.physical(&p.preferred).items(), &vec![0, 1]);
}

#[test]
fn quick_picks() {
    let mut p = AffinityPicker::new("3", &unequal());
    p.quick_pick(QuickPick::Preferred);
    assert_eq!(p.cpulist(), "0-1,4-5");
    p.quick_pick(QuickPick::NonPreferred);
    assert_eq!(p.cpulist(), "2-3,6-7");
    p.quick_pick(QuickPick::NoSmt);
    assert_eq!(p.cpulist(), "0-2");
    p.quick_pick(QuickPick::Nothing);
    assert_eq!(p.cpulist(), "");
    p.quick_pick(QuickPick::AllOnline);
    assert_eq!(p.cpulist(), "0-2,4-7");
}

#[test]
fn siblings_are_found() {
    let mut p = AffinityPicker::new("", &unequal());
    assert_eq!(p.find_sibling(1), Some(5));
    p.smt_siblings = IdSet::from_list(&[1, 3]);
    assert_eq!(p.find_sibling(2), Some(3));
    assert_eq!(p.find_sibling(7), None);
}

#[test]
fn affinity_dialog_gives_a_list_once() {
    let mut d = AffinityDialog::new("0-2", "steam", &unequal());
    assert_eq!(d.heading(), "Set CPU Affinity — steam");
    assert_eq!(
        d.parked_notice(),
        Some("CPUs 3 are parked — disable Gaming Mode to use them.".into())
    );
    let (a, b, c, e) = d.sections();
    assert_eq!((a.items(), b.items()), (&vec![0, 1], &vec![4, 5]));
    assert_eq!((c.items(), e.items()), (&vec![2, 3], &vec![6, 7]));
    assert_eq!(d.finish(None), None);
    d.checkboxes = vec![false; 8];
    assert_eq!(d.finish(Some(true)), None);
    assert!(d.open);
    d.checkboxes[5] = true;
    assert_eq!(d.finish(Some(true)), Some("5".into()));
    assert!(!d.open);
    assert_eq!(d.finish(None), Some("5".into()));
    let mut e = AffinityDialog::new("", "x", &unequal());
    e.quick_pick(QuickPick::NoneOnline);
    assert!(e.checkboxes[3]);
    assert_eq!(e.finish(Some(false)), Some("".into()));
}

#[test]
fn priority_dialogs() {
    let mut n = NiceDialog::new(5, "a");
    assert_eq!(n.heading(), "Set Priority (nice) — a");
    assert_eq!(n.finish(None), None);
    n.value = -3;
    assert_eq!(n.finish(Some(true)), Some(Some(-3)));
    assert_eq!(n.finish(None), Some(Some(-3)));
    assert_eq!(NiceDialog::new(0, "a").finish(Some(false)), Some(None));
    let mut i = IoNiceDialog::new("a");
    assert_eq!(i.heading(), "Set I/O Priority — a");
    assert!(i.has_level());
    i.class = 3;
    assert!(!i.has_level());
    assert_eq!(i.finish(Some(true)), Some(Some((3, 4))));
    assert_eq!(io_class_label(2), "Best-effort");
    assert_eq!(io_class_label(9), "?");
}

#[test]
fn steam_files() {
    let text = "\"AppState\"\n{\n\t\"appid\"\t\t\"620\"\n\t\"name\"\t\t\"Portal 2\"\n}\n";
    assert_eq!(extract_vdf_field(text, "appid"), Some("620\"".into()));
    assert_eq!(extract_vdf_field(text, "size"), None);
    assert_eq!(extract_vdf_field("\"name\" broken", "name"), None);
    assert_eq!(
        library_folders("\t\"path\"\t\t\"/mnt/games\"\n\"label\" \"x\"\n\"path\"\n"),
        ["/mnt/games"]
    );
    assert!(is_manifest_name("appmanifest_620.acf"));
    assert!(!is_manifest_name("appmanifest_620.acf.tmp"));
    assert_eq!(steam_roots("/home/u").0, "/home/u/.steam/steam");
    let mut l = Libraries::new();
    l.add_root("/s");
    l.add_root("/s");
    l.add_library("/mnt/steamapps");
    l.add_library("/mnt/steamapps");
    assert_eq!(l.dirs, ["/s/steamapps", "/mnt/steamapps"]);
}

fn manifest(id: &str, name: &str) -> String {
    format!("\"appid\"\t\"{id}\n\"name\"\t\"{name}\n")
}

#[test]
fn steam_games_are_sorted_by_name() {
    let m = vec![
        manifest("3", "portal"),
        manifest("1", "Hades"),
        manifest("2", "Árbol"),
        manifest("1", "Hades II"),
        "nothing".to_string(),
    ];
    let games = scan_steam_library(&m);
    let names: Vec<&str> = games.iter().map(|g| g.1.as_str()).collect();
    assert_eq!(names, ["Hades II", "portal", "Árbol"]);
    let mut d = SteamGamePickerDialog::new(&m);
    assert_eq!(d.count_text(), "3 games found");
    assert_eq!(d.row_text(0), "1          Hades II");
    assert_eq!(d.visible(), [0, 1, 2]);
    d.filter = "PORT".into();
    assert_eq!(d.visible(), [1]);
    d.filter = "2".into();
    assert_eq!(d.visible(), [2]);
    assert_eq!(d.finish(true, false), None);
    d.selected = Some(1);
    assert_eq!(d.finish(true, false), Some(Some(("3".into(), "portal".into()))));
    assert!(!d.open);
    let mut c = SteamGamePickerDialog::new(&m);
    assert_eq!(c.finish(false, true), Some(None));
    assert!(shows_game("ab", "xaby", None));
    assert!(!shows_game("ab", "x", Some("a")));
}

#[test]
fn lutris_games() {
    assert_eq!(lutris_db("/home/u"), "/home/u/.local/share/lutris/pga.db");
    let run = |success, out: &str, err: &str| LutrisRun::Ended {
        success,
        stdout: out.into(),
        stderr: err.into(),
    };
    let (g, s) = scan_lutris_library(&run(true, "Doom | doom|linux\nbad line\nA|b|c|d\n", ""));
    assert_eq!(
        g,
        [
            ("doom".to_string(), "Doom  [linux]".to_string()),
            ("b".to_string(), "A  [c|d]".to_string())
        ]
    );
    assert_eq!(s, "2 installed games found");
    assert_eq!(scan_lutris_library(&LutrisRun::NoDatabase).1, "Lutris database not found.");
    assert_eq!(
        scan_lutris_library(&LutrisRun::NotStarted("x".into())).1,
        "sqlite3 not found: x"
    );
    assert_eq!(
        scan_lutris_library(&run(false, "", " locked\n")).1,
        "sqlite3 error: locked"
    );
    let mut d = LutrisGamePickerDialog::new(&run(true, "Doom|doom|linux\n", ""));
    d.filter = "LINUX".into();
    assert_eq!(d.visible(), [0]);
    d.selected = Some(0);
    assert_eq!(d.finish(true, false), Some(Some(("doom".into(), "Doom".into()))));
    assert_eq!(d.finish(false, false), Some(Some(("doom".into(), "Doom".into()))));
}

fn game_proc(pid: u32, comm: &str, cmdline: Option<&str>) -> GameProc {
    GameProc {
        pid,
        comm: comm.into(),
        cmdline: cmdline.map(|s| s.to_string()),
    }
}

#[test]
fn games_are_recognised_by_name() {
    assert!(proc_name_matches("Half-Life 2", &game_proc(1, "halflife2\n", None)));
    assert!(proc_name_matches("Élan", &game_proc(1, "élan.exe", None)));
    assert!(proc_name_matches("Hades", &game_proc(1, "wine64", Some("/games/HADES.exe"))));
    assert!(!proc_name_matches("Hades", &game_proc(1, "bash", Some("/bin/bash"))));
    let procs = vec![game_proc(4, "bash", None), game_proc(5, "hades", None)];
    assert_eq!(find_game("Hades", &procs), Some(5));
    assert_eq!(find_game("Portal", &procs), None);
}
