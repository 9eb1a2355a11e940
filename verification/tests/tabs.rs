//! The other tabs: processes, settings, ProBalance, overview, log, theme.

use argus_lasso::binary::Single;
use argus_lasso::alerts::HwAlertConfig;
use argus_lasso::config::{MonitorConfig, ProBalanceConfig};
use argus_lasso::gui::cpu_bars::{
    average_load, columns_for, core_cell_text, core_hover_text, fmt_freq,
};
use argus_lasso::gui::dialogs::CpuContext;
use argus_lasso::gui::log_tab::{categorize, chip_label, split_time, Category, LogTab};
use argus_lasso::gui::overview_tab::{
    display_name, load_figure, memory_figure, peak_of, percent_text, rate_text, read_ram_mb, scan_meminfo,
    temp_text, top_processes,
};
use argus_lasso::gui::proc_tree::{tree_rows, TreeNode};
use argus_lasso::gui::probalance_tab::{
    current_load, method_label, restore_text, throttle_text, throttled_badge, ProBalanceTab,
};
use argus_lasso::gui::process_rows::{
    entry_action, entry_label, hint_numbers, hint_rates, row_badge, Badge, Columns, MenuEntry,
};
use argus_lasso::gui::process_tab::{
    fmt_bps, fmt_cell, fmt_ionice, format_affinity_display, shorten_affinity, ProcessTab, SortCol,
    TableAction,
};
use argus_lasso::gui::settings_tab::{
    autostart_entry, autostart_path, check_autostart_enabled, read_power, set_on_all, setting_path,
    unit_path, unit_text, LookState, Outcomes, Settings, SettingsTab,
};
use argus_lasso::gui::theme::{
    cpu_load_color, load_color_for, row_color, sem_for, window_bg_rgb, AppTheme, Rgb,
};
use argus_lasso::helper::HelperRun;
use argus_lasso::idmap::IdMap;
use argus_lasso::idset::IdSet;
use argus_lasso::monitor::ProcInfo;
use argus_lasso::topology::CpuTopology;
use std::collections::VecDeque;

fn proc(pid: u32, ppid: u32, name: &str, mpct: i64) -> ProcInfo {
    ProcInfo {
        pid,
        ppid,
        name: name.into(),
        cpu_percent: Single::of(mpct, 1000),
        ..Default::default()
    }
}

fn process_tab() -> ProcessTab {
    ProcessTab::new(&[], &vec![], IdMap::new(), IdSet::new())
}

#[test]
fn cells_of_processes() {
    assert_eq!(fmt_ionice("2/4"), "BE-4");
    assert_eq!(fmt_ionice("1/0"), "RT-0");
    assert_eq!(fmt_ionice("3/7"), "Idle");
    assert_eq!(fmt_ionice(""), "—");
    assert_eq!(fmt_bps(0), "—");
    assert_eq!(fmt_bps(2048), "2 KB/s");
    assert_eq!(fmt_bps(1_572_864), "1.5 MB/s");
    let mut p = proc(7, 1, "a", 12_340);
    p.mem_rss = 1_048_576;
    assert_eq!(fmt_cell(&p, SortCol::Cpu), "12.3");
    assert_eq!(fmt_cell(&p, SortCol::Gpu), "—");
    assert_eq!(fmt_cell(&p, SortCol::Mem), "1.0");
    assert_eq!(shorten_affinity("0-7"), "0-7");
    assert_eq!(shorten_affinity("0,2,4,6,8,10,12"), "0,2,4,6,8,10,…");
    assert_eq!(shorten_affinity("0,2,4,6,8,10,1"), "0,2,4,6,8,10,1");
    assert_eq!(shorten_affinity("äääääää"), "äääääää");
    assert_eq!(shorten_affinity("xääääääää"), "xääääää…");
}

#[test]
fn affinities_hide_parked_cpus_and_group_cores() {
    let mut pairs: IdMap<Vec<u32>> = IdMap::new();
    pairs.insert(0, vec![4]);
    pairs.insert(1, vec![5]);
    let off = IdSet::from_list(&[5]);
    assert_eq!(format_affinity_display("0-1,4-5", &off, &pairs, true), "0+4,1");
    assert_eq!(format_affinity_display("5", &off, &pairs, true), "—");
    assert_eq!(format_affinity_display("0-1", &off, &pairs, false), "0-1");
    assert_eq!(format_affinity_display("0-1,5", &off, &IdMap::new(), true), "0-1");
}

#[test]
fn rows_are_filtered_and_sorted() {
    let snap = [
        proc(1, 0, "firefox", 5_000),
        proc(2, 1, "Firefox-helper", 90_000),
        proc(3, 1, "bash", 30_000),
    ];
    let none = IdSet::new();
    let mut t = process_tab();
    assert_eq!(t.rows(&snap, &none, &none), [1, 2, 0]);
    t.filter = "FIRE".into();
    assert_eq!(t.rows(&snap, &none, &none), [1, 0]);
    t.filter = "^bash$".into();
    t.filter_is_regex = true;
    assert_eq!(t.rows(&snap, &none, &none), [2]);
    t.filter = "(".into();
    assert!(t.refresh_filter());
    t.filter.clear();
    t.chips.high_cpu = true;
    assert_eq!(t.rows(&snap, &none, &none), [1, 2]);
    t.chips.high_cpu = false;
    t.chips.throttled = true;
    assert_eq!(t.rows(&snap, &IdSet::from_list(&[3]), &none), [2]);
}

#[test]
fn headers_sort_and_columns_hide() {
    let mut t = process_tab();
    assert_eq!(t.header_text(SortCol::Cpu), "CPU% ▼");
    t.click_header(SortCol::Cpu);
    assert_eq!(t.header_text(SortCol::Cpu), "CPU% ▲");
    t.click_header(SortCol::Name);
    assert!(t.sort_asc);
    t.set_column_shown(SortCol::Name, false);
    assert!(t.is_column_shown(SortCol::Name));
    t.set_column_shown(SortCol::Gpu, false);
    assert!(!t.is_column_shown(SortCol::Gpu));
    assert_eq!(t.visible_columns(), [0, 1, 2, 4, 5, 6, 7, 8]);
    t.set_column_shown(SortCol::Gpu, true);
    assert_eq!(t.visible_columns().len(), 9);
    t.selected_pid = Some(7);
    let snap = [proc(7, 1, "a", 0)];
    assert!(matches!(
        t.delete_pressed(false, &snap, &vec![0]),
        TableAction::Kill { pid: 7, force: false, .. }
    ));
    assert!(matches!(t.delete_pressed(true, &snap, &vec![0]), TableAction::Nothing));
    t.update_cpu(vec![Single::whole(10), Single::whole(20)], vec![None, None], &IdSet::from_list(&[1]));
    assert_eq!(t.history.history, [Single::whole(15)]);
    assert!(t.cached_offline.contains(1));
}

#[test]
fn columns_fill_the_window() {
    let mut t = process_tab();
    let visible = t.fit_columns(1_000_000);
    assert_eq!(visible.len(), 9);
    assert_eq!(t.columns.widths.iter().sum::<u32>(), 1_000_000);
    t.fit_columns(2_000_000);
    assert_eq!(t.columns.widths[0], 120_000);
    assert_eq!(t.columns.widths.iter().sum::<u32>(), 2_000_000);
    let mut c = Columns::new(&[50_000; 8]);
    assert_eq!(c.widths[3], 55_000);
    c.take_drag(&visible, Some((0, 10_000)));
    assert_eq!(c.widths[0], 60_000);
    assert!(c.dirty);
    c.take_drag(&visible, Some((1, 30_000)));
    assert_eq!(c.widths[2], 30_000);
    c.take_drag(&visible, None);
    assert!(!c.dirty);
}

#[test]
fn menu_of_a_row() {
    let p = proc(7, 1, "a", 0);
    assert_eq!(entry_label(MenuEntry::Kill, "a", 7, false), "Kill a (7)");
    assert_eq!(entry_label(MenuEntry::Pause, "a", 7, true), "Resume a (7)");
    assert_eq!(entry_label(MenuEntry::Rule, "a", 7, true), "Add Rule for 'a'");
    assert_eq!(
        entry_label(MenuEntry::Nice, "a", 7, true),
        "Set Priority (nice) for a"
    );
    assert!(matches!(
        entry_action(MenuEntry::ForceKill, &p, false),
        TableAction::Kill { pid: 7, force: true, .. }
    ));
    assert!(matches!(
        entry_action(MenuEntry::Pause, &p, true),
        TableAction::Resume { pid: 7, .. }
    ));
    assert_eq!(row_badge(true, true), Some(Badge::Suspended));
    assert_eq!(row_badge(false, true), Some(Badge::Throttled));
    assert_eq!(row_badge(false, false), None);
    assert_eq!(hint_numbers(&p), "PID: 7   PPID: 1");
    assert_eq!(hint_rates(&p), "Disk R: —   W: —");
}

fn node(pid: u32, ppid: u32, name: &str) -> TreeNode {
    TreeNode {
        pid,
        ppid,
        name: name.chars().collect(),
    }
}

#[test]
fn tree_shows_every_process_once() {
    let nodes = vec![
        node(10, 1, "z"),
        node(1, 0, "init"),
        node(11, 10, "child"),
        node(12, 1, "a"),
        node(50, 99, "orphan"),
        node(60, 61, "loop"),
        node(61, 60, "loop"),
    ];
    let rows: Vec<(usize, usize)> = tree_rows(&nodes).iter().map(|r| (r.place, r.depth)).collect();
    assert_eq!(rows, [(1, 0), (3, 1), (0, 1), (2, 2), (4, 0)]);
}

fn settings() -> Settings {
    Settings {
        default_affinity: Some("0-3".into()),
        monitor: MonitorConfig {
            display_refresh_interval_ms: 2000,
            rule_enforce_interval_ms: 500,
        },
        notifications_enabled: true,
        check_updates_on_start: false,
        hw_alerts: HwAlertConfig {
            enabled: false,
            temp_threshold_milli: 90_000,
            cooldown_ms: 60_000,
        },
        opacity_milli: 20,
        theme: AppTheme::BreezeDark,
    }
}

fn settings_tab() -> SettingsTab {
    let power = read_power(
        Some("powersave\n"),
        Some("performance powersave"),
        None,
        None,
        false,
    );
    SettingsTab::new(settings(), power, CpuTopology::uniform(IdSet::first(4)))
}

fn all_ok() -> Outcomes {
    Outcomes {
        governor: Ok(()),
        epp: Ok(()),
        autostart: Ok(()),
    }
}

#[test]
fn settings_are_applied_and_discarded() {
    let mut t = settings_tab();
    assert_eq!(t.opacity_milli, 100);
    assert!(!t.is_dirty());
    t.config.hw_alerts.temp_threshold_milli = 90_009;
    assert!(!t.is_dirty());
    t.config.hw_alerts.temp_threshold_milli = 90_010;
    assert_eq!(t.is_dirty(), (90.01f32 - 90.0).abs() > 0.01);
    t.discard();
    assert!(!t.is_dirty());
    t.config.check_updates_on_start = true;
    assert!(t.is_dirty());
    t.discard();
    assert!(!t.is_dirty());
    assert_eq!(t.status, "Changes discarded.");
    t.cpu_governor = "performance".into();
    t.autostart_enabled = true;
    t.use_preset("");
    assert_eq!(t.edited_affinity(), None);
    assert!(t.is_preset(""));
    assert_eq!(t.plan(), (true, false, Some(true)));
    let saved = t.apply(&all_ok());
    assert_eq!(saved.default_affinity, None);
    assert_eq!(
        t.status,
        "Default affinity → all CPUs  ·  Governor → performance  ·  Autostart enabled (XDG + systemd)"
    );
    assert!(!t.is_dirty());
}

#[test]
fn refused_settings_stay_unsaved() {
    let mut t = settings_tab();
    t.cpu_governor = "performance".into();
    t.autostart_enabled = true;
    t.default_affinity_enabled = false;
    t.apply(&Outcomes {
        governor: Err("denied".into()),
        epp: Ok(()),
        autostart: Err("full".into()),
    });
    assert_eq!(
        t.status,
        "Default affinity disabled  ·  Governor failed: denied  ·  Autostart failed: full"
    );
    assert!(t.is_dirty());
    assert_eq!(t.saved_governor, "powersave");
}

#[test]
fn settings_choices() {
    let mut t = settings_tab();
    assert_eq!(t.refresh_choice(), Some(2));
    t.choose_refresh(3);
    assert_eq!(t.config.monitor.display_refresh_interval_ms, 5000);
    assert_eq!(
        t.affinity_help(),
        "Applied to every process that doesn't match a specific rule."
    );
    assert_eq!(t.presets().0, "0-3");
    let cpus = CpuContext {
        cpu_count: 4,
        offline: IdSet::new(),
        topo: CpuTopology::uniform(IdSet::first(4)),
        smt_siblings: IdSet::new(),
    };
    t.open_picker(&cpus);
    assert_eq!(t.cpu_dialog.as_ref().unwrap().title, "Default");
    t.take_picked("1-2");
    assert!(t.cpu_dialog.is_none());
    assert_eq!(t.default_affinity_text, "1-2");
    t.take_picked("");
    assert_eq!(t.default_affinity_text, "1-2");
}

#[test]
fn power_is_written_directly_or_by_the_helper() {
    let failed = HelperRun::NotInstalled;
    assert_eq!(set_on_all(&vec![false, true], &failed), Ok(()));
    assert_eq!(
        set_on_all(&vec![false, false], &failed),
        Err("Helper not installed. Run install first.".into())
    );
    assert_eq!(
        setting_path(3, "scaling_governor"),
        "/sys/devices/system/cpu/cpu3/cpufreq/scaling_governor"
    );
}

#[test]
fn autostart_files() {
    assert_eq!(
        autostart_path("/home/u"),
        "/home/u/.config/autostart/argus-lasso.desktop"
    );
    assert_eq!(
        unit_path("/home/u"),
        "/home/u/.config/systemd/user/argus-lasso.service"
    );
    assert!(autostart_entry("/usr/bin/argus").contains("\nExec=/usr/bin/argus --minimized\n"));
    assert!(unit_text("/usr/bin/argus").contains("\nExecStart=/usr/bin/argus --minimized\n"));
    assert!(check_autostart_enabled(true, None));
    assert!(check_autostart_enabled(false, Some("enabled\n")));
    assert!(!check_autostart_enabled(false, Some("disabled")));
}

#[test]
fn probalance_tab() {
    let mut t = ProBalanceTab::new(ProBalanceConfig::default());
    assert_eq!(
        t.summary(),
        "Throttles processes above 85% CPU for 3 s · restores below 40%"
    );
    assert_eq!(t.state_text(), "ProBalance is on");
    assert_eq!(t.idle_text(), "No processes are being throttled right now.");
    assert!(!t.is_dirty());
    t.adding_exempt = true;
    t.new_exempt = "  steam ".into();
    t.commit_exempt();
    t.new_exempt = "steam".into();
    t.commit_exempt();
    t.new_exempt = "  ".into();
    t.commit_exempt();
    assert_eq!(t.cfg.exempt_patterns.len(), 7);
    assert!(!t.adding_exempt && t.is_dirty());
    let applied = t.apply();
    assert_eq!(applied.exempt_patterns[6], "steam");
    assert!(!t.is_dirty());
    t.remove_exempt(0);
    assert_eq!(t.cfg.exempt_patterns[0], "plasmashell");
    t.discard();
    assert_eq!(t.cfg.exempt_patterns.len(), 7);
    t.new_exempt = "x".into();
    t.cancel_exempt();
    assert_eq!(t.new_exempt, "");
}

#[test]
fn throttled_processes_in_words() {
    assert_eq!(throttled_badge(0), None);
    assert_eq!(throttled_badge(2), Some("2 throttled now".into()));
    let snap = [proc(1, 0, "a", 5), proc(1, 0, "a", 9)];
    assert_eq!(current_load(&snap, 1, Single::whole(7)), Single::of(9, 1000));
    assert_eq!(current_load(&snap, 2, Single::whole(7)), Single::whole(7));
    assert_eq!(throttle_text(None, 0, 10), "nice 0 → 10");
    assert_eq!(throttle_text(Some("a.scope"), 0, 10), "unit a.scope");
    assert_eq!(restore_text(0, 5000), "5.0s");
    assert_eq!(restore_text(0, 1150), "1.1s");
    for low in [0u64, 1, 850, 1234, 3850, 4499, 4500] {
        let left = 5.0f32 - low as f32 / 1000.0;
        assert_eq!(restore_text(low, 5000), format!("{left:.1}s"));
    }
    assert_eq!(restore_text(4600, 5000), "restoring…");
    assert_eq!(restore_text(9000, 5000), "restoring…");
    assert_eq!(method_label("auto"), "auto (cgroup, nice fallback)");
    assert_eq!(method_label("?"), "nice (process priority)");
}

#[test]
fn memory_and_load_figures() {
    let text = "MemTotal:       2097152 kB\nMemFree: 1\nMemAvailable:   1048576 kB\n";
    assert_eq!(scan_meminfo(text), Some((2_097_152, 1_048_576)));
    assert_eq!(read_ram_mb(text), Some((1024, 2048)));
    assert_eq!(read_ram_mb("MemFree: 1\n"), None);
    assert_eq!(scan_meminfo("MemTotal: x\n"), None);
    assert_eq!(memory_figure(1024, 2048), ("50%".into(), "1.0 of 2.0 GB".into()));
    assert_eq!(memory_figure(0, 0).0, "NaN%");
    assert_eq!(memory_figure(1, 0).0, "inf%");
    for (used, total) in [(1u64, 200u64), (15_973, 31_946), (7, 9), (31_000, 31_946)] {
        let pct = used as f32 / total as f32 * 100.0;
        assert_eq!(memory_figure(used, total).0, format!("{pct:.0}%"));
    }
    assert_eq!(
        load_figure(2_500_000, 1_250_000, 500_000, 4),
        ("2.50".into(), "1.25 / 0.50 (5 / 15 min)".into(), 62_500)
    );
    assert_eq!(load_figure(9_000_000, 0, 0, 0).2, 100_000);
    assert_eq!(percent_text(Single::of(12_500, 1000)), "12%");
    assert_eq!(temp_text(Some(45_600)), "46 °C");
    assert_eq!(temp_text(Some(-5_000)), "-5 °C");
    assert_eq!(temp_text(None), "");
}

#[test]
fn busiest_processes() {
    let snap: Vec<ProcInfo> = (0..12).map(|i| proc(i, 0, "p", (i as i64 % 3) * 1000)).collect();
    assert_eq!(top_processes(&snap), [2, 5, 8, 11, 1, 4, 7, 10, 0, 3]);
    assert!(top_processes(&[]).is_empty());
    assert_eq!(display_name("short"), "short");
    assert_eq!(
        display_name("äbcdefghijklmnopqrstuvwxyz"),
        "äbcdefghijklmnopqrstu…"
    );
    let r = |n| Single::of(n, 1000);
    assert_eq!(peak_of(&[(r(5), r(700)), (r(300), r(2))]), r(700));
    assert_eq!(peak_of(&[(r(5), r(7))]), r(100));
    assert_eq!(rate_text("R", r(2_340)), "R 2.3");
}

#[test]
fn log_lines_have_categories() {
    assert_eq!(categorize("[Gaming Mode] x failed"), Some(Category::Error));
    assert_eq!(categorize("[Launcher] x"), Some(Category::Gaming));
    assert_eq!(categorize("[Default] x"), Some(Category::Rules));
    assert_eq!(categorize("[Manual] x"), Some(Category::Manual));
    assert_eq!(categorize("[HW Alert] x"), Some(Category::Hw));
    assert_eq!(categorize("x"), None);
    assert_eq!(split_time("[07:05:59] hello"), ("07:05:59".into(), "hello".into()));
    let mut lines: VecDeque<String> = VecDeque::new();
    lines.push_back("[00:00:01] [Manual] nice".into());
    lines.push_back("[00:00:02] [Default] AFFINITY".into());
    let mut t = LogTab::new();
    assert_eq!(t.rows(&lines).len(), 2);
    t.toggle(Category::Manual);
    assert_eq!(t.rows(&lines)[0].msg, "[Manual] nice");
    assert!(!t.lets_through(Some(Category::Rules)));
    t.toggle(Category::Manual);
    t.search = "affin".into();
    let rows = t.rows(&lines);
    assert_eq!((rows.len(), rows[0].time.as_str()), (1, "00:00:02"));
    assert_ne!(chip_label("HW", true), chip_label("HW", false));
}

#[test]
fn themes_and_colours() {
    for t in [AppTheme::BreezeDark, AppTheme::BreezeLight] {
        assert_eq!(AppTheme::from_str(t.to_str()), t);
    }
    assert_eq!(AppTheme::from_str("?"), AppTheme::BreezeDark);
    assert_ne!(
        window_bg_rgb(&AppTheme::BreezeDark),
        window_bg_rgb(&AppTheme::BreezeLight)
    );
    let s = sem_for(true);
    assert_eq!(load_color_for(true, 0), s.ok);
    assert_eq!(load_color_for(true, 50_000), s.mid);
    assert_eq!(load_color_for(true, 70_000), s.warning);
    assert_eq!(load_color_for(true, 200_000), s.negative);
    assert_eq!(cpu_load_color(100_000), cpu_load_color(150_000));
    let text = Rgb { r: 1, g: 2, b: 3 };
    assert_eq!(row_color(Single::whole(0), false, text, true), text);
    assert_ne!(row_color(Single::whole(0), true, text, true), text);
}

#[test]
fn cpu_bars() {
    assert_eq!(average_load(&[Single::whole(10), Single::whole(20)]), Single::whole(15));
    assert_eq!(average_load(&[]), Single::whole(0));
    let loads = [500, 501, 12_349].map(|m| Single::of(m, 1000));
    let avg = (0.5f32 + 0.501 + 12.349) / 3.0;
    assert_eq!(percent_text(average_load(&loads)), format!("{avg:.0}%"));
    assert_eq!(percent_text(average_load(&loads[..2])), "1%");
    assert_eq!(fmt_freq(4_250_000), "4.25 GHz");
    assert_eq!(fmt_freq(800_000), "800 MHz");
    assert_eq!(core_cell_text(true, Single::whole(0)), "off");
    assert_eq!(core_cell_text(false, Single::of(49_600, 1000)), "50%");
    assert!(core_hover_text(3, true, Single::whole(0), None).starts_with("CPU 3 — parked (offline)"));
    let n = columns_for(16, 10);
    assert!(n >= 1 && n <= 10);
}

#[test]
fn look_is_applied_and_saved_by_itself() {
    let mut l = LookState::new(1000, AppTheme::BreezeDark);
    assert!(!l.preview(1000, AppTheme::BreezeDark));
    let differs = (0.999f32 - 1.0).abs() > 0.001;
    assert_eq!(l.preview(999, AppTheme::BreezeDark), differs);
    assert!(l.preview(900, AppTheme::BreezeDark));
    assert!(!l.preview(900, AppTheme::BreezeDark));
    assert!(l.save_due(900, AppTheme::BreezeDark));
    assert!(!l.save_due(900, AppTheme::BreezeDark));
    assert!(l.preview(900, AppTheme::BreezeLight));
    l.note_saved(900, AppTheme::BreezeLight);
    assert!(!l.save_due(900, AppTheme::BreezeLight));
}
