//! Sensors: reading, merging, warnings and what is shown.

use argus_lasso::binary::Single;
use argus_lasso::alerts::{check_hw_alerts, HwAlertConfig};
use argus_lasso::gui::hw_monitor_tab::{
    category_color, finds_group, fmt_val, group_title, temp_pct, value_mpct, HwMonitorTab,
};
use argus_lasso::gui::theme::sem_for;
use argus_lasso::hw_collect::{collect_hwmon_where, HwCollector, HwScan};
use argus_lasso::hw_monitor::{
    GroupReading, HwMonitorData, Reading, Sensor, SensorGroup, HISTORY_LEN,
};
use argus_lasso::hw_parse::{
    block_device_model, channel_files, classify_driver, collect_cpu_freqs, collect_disk_io, collect_load_avg,
    collect_meminfo, collect_net_io, collect_nvidia_smi, dimm_slot_name, name_device, read_count,
    read_device, read_disk_raw, read_load_avg, read_micro, read_net_raw, Channel, ChannelKind, DriverClass,
    HwmonDevice,
};
use argus_lasso::namemap::NameMap;

fn chars(s: &str) -> Vec<char> {
    s.chars().collect()
}

fn micro(n: i64) -> Single {
    Single::of(n, 1_000_000)
}

fn sensor(label: &str, unit: &str, n: i64) -> Sensor {
    let mut s = Sensor::new(label, unit);
    s.push(micro(n));
    s
}

fn reading(label: &str, n: i64) -> Reading {
    Reading {
        label: label.into(),
        unit: "°C".into(),
        value: micro(n),
    }
}

fn group(category: &str, name: &str, sensors: Vec<Sensor>) -> SensorGroup {
    SensorGroup {
        category: category.into(),
        name: name.into(),
        sensors,
    }
}

#[test]
fn sensors_remember_their_extremes() {
    let mut s = Sensor::new("Tctl", "°C");
    for v in [50, 40, 60] {
        s.push(Single::whole(v));
    }
    assert_eq!(s.value(), Single::whole(60));
    assert_eq!(s.min_display(), Single::whole(40));
    assert_eq!(s.max_display(), Single::whole(60));
    assert_eq!(s.avg(), Single::whole(50).get());
    assert_eq!(s.history().len(), 3);
    for _ in 0..200 {
        s.push(Single::whole(1));
    }
    assert_eq!(s.history().len(), HISTORY_LEN);
    assert_eq!(s.max_display(), Single::whole(60));
    let fresh = Sensor::new("x", "W");
    assert_eq!((fresh.min_display(), fresh.max_display()), (micro(0), micro(0)));
}

#[test]
fn merging_keeps_groups_and_adds_readings() {
    let mut data = HwMonitorData::default();
    let scan = |v| {
        vec![GroupReading {
            category: "CPU".into(),
            name: "AMD CPU [k10temp]".into(),
            readings: vec![reading("Tctl", v)],
        }]
    };
    data.merge(&scan(40_000));
    data.merge(&scan(50_000));
    data.merge(&vec![]);
    assert_eq!(data.groups.len(), 1);
    assert_eq!(data.groups[0].sensors[0].history().len(), 2);
    assert_eq!(data.groups[0].sensors[0].max_display(), micro(50_000));
}

#[test]
fn numbers_of_sensors() {
    assert_eq!(read_count(" 42\n"), Some(42));
    assert_eq!(read_count("4x"), None);
    assert_eq!(read_micro(&chars("1.5")), Some(1_500_000));
    assert_eq!(read_micro(&chars("-0.25")), Some(-250_000));
    assert_eq!(read_micro(&chars("abc")), None);
    for (text, micro) in [
        ("1e3", 1_000_000_000),
        ("+2.5E-1", 250_000),
        (".5", 500_000),
        ("7.", 7_000_000),
        ("-1.2345678", -1_234_567),
        ("5e-9", 0),
        ("0e99999999999999999999999999999999", 0),
        ("1e99999999999999999999999999999999", i64::MAX),
        ("-12345678901234567890123", -i64::MAX),
        ("1e-99999999999999999999999999999999", 0),
    ] {
        assert_eq!(read_micro(&chars(text)), Some(micro));
    }
    for text in ["inf", "+INFINITY", "Infinity"] {
        assert_eq!(read_micro(&chars(text)), Some(i64::MAX));
    }
    assert_eq!(read_micro(&chars("-inf")), Some(-i64::MAX));
    assert_eq!(read_micro(&chars("NaN")), Some(0));
    assert!(collect_load_avg("inf 1 1").is_some());
    for text in ["infinit", "in", "na", "", ".", "-", "e5", "1e", "1e+", "1e5.0", "1.2.3", "1 ", "1E2e3", "[N/A]"] {
        assert_eq!(read_micro(&chars(text)), None);
    }
    assert_eq!(channel_files(ChannelKind::Voltage), ("in", 0, 16));
    assert_eq!(block_device_model(Some("WD Black \n")), Some("WD Black".into()));
    assert_eq!(block_device_model(None), None);
}

fn channel(index: u32, input: &str, label: Option<&str>) -> Channel {
    Channel {
        index,
        input: Some(input.into()),
        label: label.map(|s| s.to_string()),
    }
}

fn device(driver: &str) -> HwmonDevice {
    HwmonDevice {
        driver: driver.into(),
        hint: None,
        temps: vec![channel(1, "45250\n", Some("Tctl")), channel(2, "x", None)],
        fans: vec![channel(1, "1200", None)],
        powers: vec![channel(1, "65000000", None)],
        voltages: vec![],
        freqs: vec![],
    }
}

#[test]
fn channels_are_scaled_to_their_units() {
    let r = read_device(&device("k10temp"));
    let got: Vec<(String, String, Single)> = r
        .iter()
        .map(|x| (x.label.clone(), x.unit.clone(), x.value))
        .collect();
    assert_eq!(got[0], ("Tctl".into(), "°C".into(), micro(45_250_000)));
    assert_eq!(got[1], ("Fan 1".into(), "RPM".into(), Single::whole(1200)));
    assert_eq!(got[2].1, "W");
    assert_eq!(got[2].2, Single::whole(65));
    assert_eq!(got.len(), 3);
}

#[test]
fn drivers_have_their_places() {
    assert_eq!(classify_driver("coretemp"), DriverClass::Cpu);
    assert_eq!(classify_driver("spd5118"), DriverClass::Memory);
    assert_eq!(classify_driver("nvme"), DriverClass::Storage);
    assert_eq!(classify_driver("r8169_0_200:00"), DriverClass::Network);
    assert_eq!(classify_driver("amdgpu"), DriverClass::Gpu);
    assert_eq!(classify_driver("acpitz"), DriverClass::Other);
    assert_eq!(
        name_device("k10temp", None),
        Some(("CPU".into(), "AMD CPU [k10temp]".into()))
    );
    assert_eq!(name_device("acpitz", None), None);
    assert_eq!(dimm_slot_name(Some("3-0053")), "DDR5 Slot 3");
    assert_eq!(dimm_slot_name(None), "DDR5");
    let devices = vec![device("k10temp"), device("acpitz")];
    let cpu = collect_hwmon_where(&devices, DriverClass::Cpu);
    assert_eq!(cpu.len(), 1);
    assert_eq!(cpu[0].name, "AMD CPU [k10temp]");
}

#[test]
fn graphics_cards_are_read() {
    let out = "RTX 4090, 45, 120.5, 2520, 10501, 30, 12, 2048, 24564\nshort line\n";
    let g = collect_nvidia_smi(out);
    assert_eq!(g.len(), 1);
    assert_eq!(g[0].name, "RTX 4090");
    let v = |label: &str| g[0].readings.iter().find(|r| r.label == label).unwrap().value;
    assert_eq!(v("Temperature"), micro(45_000_000));
    assert_eq!(v("Power Draw"), micro(120_500_000));
    assert_eq!(v("VRAM Used"), micro(2_000_000));
}

#[test]
fn system_readings() {
    assert_eq!(read_load_avg("0.50 1.25 2.00 1/200 1"), Some((500_000, 1_250_000, 2_000_000)));
    assert_eq!(read_load_avg("0.50"), None);
    assert_eq!(collect_load_avg("0.50 1.25 2.00").unwrap().readings[1].value, micro(1_250_000));
    let mem = collect_meminfo("MemTotal: 2097152 kB\nMemAvailable: 1048576 kB\n");
    assert_eq!(mem.readings[0].value, micro(2_000_000));
    assert_eq!(mem.readings[1].value, micro(1_000_000));
    assert_eq!(mem.readings.len(), 5);
    assert!(collect_cpu_freqs(&vec![]).is_none());
    assert!(collect_cpu_freqs(&vec![(0, 5_000_000)]).is_some());
}

#[test]
fn rates_follow_the_counters() {
    let disks = read_disk_raw(
        "   8  0 sda 1 0 2048 0 1 0 4096 0 0 0 0\n   8  1 sda1 1 0 9 0 1 0 9 0 0 0 0\n",
    );
    assert_eq!(disks.sorted_names(), ["sda"]);
    assert_eq!(disks.get("sda"), Some(&(2048, 4096)));
    let mut prev: NameMap<(u64, u64)> = NameMap::new();
    prev.insert("sda".into(), (0, 0));
    let mut models: NameMap<String> = NameMap::new();
    models.insert("sda".into(), "Disk".into());
    let g = collect_disk_io(&prev, &disks, &models, 1000);
    assert_eq!(g[0].name, "I/O [sda — Disk]");
    assert_eq!(g[0].readings[0].value, micro(1_000_000));
    assert_eq!(g[0].readings[1].value, micro(2_000_000));
    let net = read_net_raw("a\nb\n eth0: 1048576 0 0 0 0 0 0 0 2097152 0\n");
    let mut before: NameMap<(u64, u64)> = NameMap::new();
    before.insert("eth0".into(), (0, 0));
    let g = collect_net_io(&before, &net, 1000);
    assert_eq!(g[0].readings[0].value, micro(1_000_000));
    assert_eq!(g[0].readings[1].value, micro(2_000_000));
}

#[test]
fn collector_keeps_counters_between_scans() {
    let mut c = HwCollector::new(NameMap::new(), NameMap::new(), 0);
    let mut disk: NameMap<(u64, u64)> = NameMap::new();
    disk.insert("sda".into(), (2048, 0));
    c.update(
        HwScan {
            cpu: vec![],
            freqs: None,
            load: None,
            nvidia: vec![],
            gpu: vec![],
            memory: vec![],
            meminfo: None,
            storage: vec![],
            network: vec![],
            disk,
            net: NameMap::new(),
            models: NameMap::new(),
        },
        1000,
    );
    assert_eq!(c.data.groups.len(), 1);
    assert_eq!(c.data.groups[0].name, "I/O [sda]");
}

#[test]
fn warnings_wait_for_the_cooldown() {
    let data = HwMonitorData {
        groups: vec![group("CPU", "AMD", vec![sensor("Tctl", "°C", 92_000_000)])],
    };
    let cfg = HwAlertConfig {
        enabled: true,
        temp_threshold_milli: 90_000,
        cooldown_ms: 60_000,
    };
    let mut last: NameMap<u64> = NameMap::new();
    let first = check_hw_alerts(&data, &cfg, &mut last, 1000);
    assert_eq!(first.len(), 1);
    assert_eq!(first[0].log, "[HW Alert] AMD — Tctl 92°C  (threshold: 90°C)");
    assert_eq!(first[0].body, "AMD/Tctl: 92°C (limit: 90°C)");
    assert!(check_hw_alerts(&data, &cfg, &mut last, 60_999).is_empty());
    assert_eq!(check_hw_alerts(&data, &cfg, &mut last, 61_000).len(), 1);
    let off = HwAlertConfig { enabled: false, ..cfg };
    assert!(check_hw_alerts(&data, &off, &mut last, 999_999).is_empty());
}

fn two_groups() -> HwMonitorData {
    HwMonitorData {
        groups: vec![
            group("Battery", "BAT0", vec![sensor("Charge", "%", 80_000)]),
            group(
                "Memory",
                "RAM",
                vec![sensor("Used", "GiB", 1), sensor("Free", "GiB", 2)],
            ),
            group("CPU", "AMD", vec![sensor("Tctl", "°C", 1)]),
            group("CPU", "Empty", vec![]),
        ],
    }
}

#[test]
fn nothing_is_hidden_without_a_filter() {
    let tab = HwMonitorTab::new();
    let all = tab.collect_visible(&two_groups(), "");
    assert_eq!(all, [(2, vec![0]), (1, vec![0, 1]), (0, vec![0])]);
}

#[test]
fn chips_and_search_narrow_the_sensors() {
    let data = two_groups();
    let mut tab = HwMonitorTab::new();
    tab.filter = "  FREE ".into();
    assert_eq!(tab.search(), "free");
    assert_eq!(tab.collect_visible(&data, &tab.search()), [(1, vec![1])]);
    assert_eq!(tab.collect_visible(&data, "memory"), [(1, vec![0, 1])]);
    assert!(finds_group("ram", "memory", "mem"));
    assert!(finds_group("ram", "memory", ""));
    assert!(!finds_group("ram", "memory", "cpu"));
    tab.toggle_category("CPU");
    assert!(tab.category_enabled("CPU"));
    assert!(!tab.category_enabled("Memory"));
    assert_eq!(tab.collect_visible(&data, ""), [(2, vec![0])]);
    tab.toggle_category("CPU");
    assert!(tab.category_enabled("Memory"));
}

#[test]
fn columns_follow_the_window() {
    let mut tab = HwMonitorTab::new_with_widths(&[100_000, 80_000, 60_000, 40_000]);
    tab.fit_width(500_000);
    assert_eq!(tab.col_widths, [100_000, 80_000, 60_000, 40_000]);
    tab.fit_width(250_000);
    assert_eq!(tab.col_widths, [50_000, 40_000, 30_000, 30_000]);
    tab.drag_columns([10_000, 0, -9_000, 1]);
    assert_eq!(tab.col_widths, [60_000, 40_000, 30_000, 30_000]);
    assert!(tab.cols_dirty);
    tab.drag_columns([0, 1, -1, 0]);
    assert!(!tab.cols_dirty);
    assert_eq!(HwMonitorTab::new_with_widths(&[1]).col_widths[0], 100_000);
}

#[test]
fn values_are_written_with_their_units() {
    for (n, unit, text) in [
        (45_250_000, "°C", "45.2 °C"),
        (45_350_000, "°C", "45.3 °C"),
        (1_200_000_000, "RPM", "1200 RPM"),
        (65_125_000, "W", "65.12 W"),
        (1_250_000, "V", "1.250 V"),
        (5_000_400_000, "MHz", "5000 MHz"),
        (12_345_000, "GiB", "12.35 GiB"),
        (7_600_000, "MB", "8 MB"),
        (99_900_000, "%", "99.9%"),
        (1_500_000, "", "1.50"),
        (2_000_000, "Ah", "2.00 Ah"),
        (-500_000, "V", "-0.500 V"),
        (1_005_400, "W", "1.01 W"),
        (1_000_499, "V", "1.000 V"),
    ] {
        assert_eq!(fmt_val(micro(n).get(), unit), text);
    }
    assert_eq!(group_title("Memory", "RAM"), "MEMORY · RAM");
}

#[test]
fn values_have_places_on_the_ramp() {
    assert_eq!(temp_pct(30_000), 0);
    assert_eq!(temp_pct(70_000), 50_000);
    assert_eq!(temp_pct(120_000), 100_000);
    assert_eq!(value_mpct(micro(150_000_000), "W"), Some(50_000));
    assert_eq!(value_mpct(micro(-1000), "%"), Some(0));
    assert_eq!(value_mpct(micro(5), "RPM"), None);
    assert_eq!(category_color(true, "CPU"), Some(sem_for(true).accent));
    assert_eq!(category_color(true, "Other"), None);
}

#[test]
fn sensors_average_as_single_precision_does() {
    let mut s = Sensor::new("Tctl", "°C");
    let mut sum = 0f64;
    for (i, n) in [45_100i64, 45_200, 45_250, 60_333, 33_333].into_iter().enumerate() {
        s.push(Single::of(n, 1000));
        sum += (n as f32 / 1000.0) as f64;
        let avg = (sum / (i + 1) as f64) as f32;
        assert_eq!(fmt_val(s.avg(), "V"), format!("{avg:.3} V"));
        assert_eq!(fmt_val(s.avg(), "°C"), format!("{avg:.1} °C"));
    }
}

#[test]
fn memory_is_not_cut_before_it_is_rounded() {
    let mem = collect_meminfo("MemTotal: 1179649 kB\nMemAvailable: 11 kB\n");
    let (total, available) = (1179649f32 / 1048576.0, 11f32 / 1048576.0);
    assert_eq!(
        fmt_val(mem.readings[0].value.get(), "GiB"),
        format!("{total:.2} GiB")
    );
    assert_eq!(
        fmt_val(mem.readings[1].value.get(), "GiB"),
        format!("{:.2} GiB", total - available)
    );
}
