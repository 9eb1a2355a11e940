//! Reading processes and CPUs.

use argus_lasso::binary::Single;
use argus_lasso::hw_monitor::{hw_io_totals, HwMonitorData, Sensor, SensorGroup};
use argus_lasso::idmap::IdMap;
use argus_lasso::monitor::{
    collect_cpu_percents, cpu_share, is_game_process, parse_proc_io, read_cpu_model, read_ionice,
    read_percpu_stats, read_sys_cpu_total, remember_ticks, CpuTicks, ProcInfo, ProcSample, Sampler,
};

fn proc_with_cmdline(cmd: &str) -> ProcInfo {
    ProcInfo {
        cmdline: cmd.to_string(),
        ..Default::default()
    }
}

#[test]
fn game_detection_matches_steam_and_proton() {
    assert!(is_game_process(&proc_with_cmdline(
        "/home/u/.local/share/Steam/steamapps/common/Hades/Hades.exe"
    )));
    assert!(is_game_process(&proc_with_cmdline(
        "/usr/bin/python3 /path/proton waitforexitandrun game.exe"
    )));
}

#[test]
fn game_detection_ignores_normal_processes() {
    assert!(!is_game_process(&proc_with_cmdline("/usr/bin/firefox")));
    assert!(!is_game_process(&proc_with_cmdline(
        "/usr/lib/systemd/systemd --user"
    )));
    // Steam client itself lives outside steamapps/common
    assert!(!is_game_process(&proc_with_cmdline(
        "/home/u/.local/share/Steam/ubuntu12_32/steam"
    )));
}

/// A value as the library holds it.
fn micro(x: f64) -> Single {
    Single::of((x * 1_000_000.0).round() as i64, 1_000_000)
}

#[test]
fn hw_io_totals_sums_matching_groups_only() {
    fn sensor(label: &'static str, v: f64) -> Sensor {
        let mut s = Sensor::new(label, "MB/s");
        s.push(micro(v));
        s
    }

    let data = HwMonitorData {
        groups: vec![
            SensorGroup {
                category: "Storage".into(),
                name: "I/O [nvme0n1]".into(),
                sensors: vec![sensor("Read", 1.5), sensor("Write", 0.5)],
            },
            SensorGroup {
                category: "Storage".into(),
                name: "I/O [sda]".into(),
                sensors: vec![sensor("Read", 0.5), sensor("Write", 1.0)],
            },
            SensorGroup {
                category: "Network".into(),
                name: "I/O [eth0]".into(),
                sensors: vec![sensor("Receive", 2.0), sensor("Transmit", 0.25)],
            },
            // Non-I/O group must be ignored even with matching labels
            SensorGroup {
                category: "Storage".into(),
                name: "nvme".into(),
                sensors: vec![sensor("Read", 99.0)],
            },
        ],
    };
    let ((dr, dw), (rx, tx)) = hw_io_totals(&data);
    assert_eq!((dr, dw), (micro(2.0), micro(1.5)));
    assert_eq!((rx, tx), (micro(2.0), micro(0.25)));
}

#[test]
fn cpu_model_is_read_from_cpuinfo() {
    let text = "processor\t: 0\nmodel name\t: AMD Ryzen 9 7950X3D\n";
    assert_eq!(read_cpu_model(Some(text)), "AMD Ryzen 9 7950X3D");
    assert_eq!(read_cpu_model(Some("processor : 0\n")), "Unknown CPU");
    assert_eq!(read_cpu_model(None), "Unknown CPU");
}

#[test]
fn io_file_gives_bytes() {
    let text = "rchar: 1\nread_bytes: 4096\nwrite_bytes: 8192\ncancelled_write_bytes: 0\n";
    assert_eq!(parse_proc_io(text), (4096, 8192));
    assert_eq!(parse_proc_io(""), (0, 0));
}

#[test]
fn io_priority_is_split_into_class_and_level() {
    assert_eq!(read_ionice((2 << 13) | 4), "2/4");
    assert_eq!(read_ionice(0), "0/0");
    assert_eq!(read_ionice(-1), "");
}

#[test]
fn ticks_add_up() {
    let stat = "cpu  10 0 10 80 0 0 0 0 0 0\ncpu0 5 0 5 40 0 0 0 0 0 0\ncpu3 5 0 5 40 0 0 0 0 0 0\nintr 1\n";
    assert_eq!(read_sys_cpu_total(stat), 100);
    let per = read_percpu_stats(stat);
    assert_eq!(
        per,
        [
            (0, CpuTicks { total: 50, idle: 40 }),
            (3, CpuTicks { total: 50, idle: 40 })
        ]
    );
}

#[test]
fn loads_follow_the_cpu_numbers_when_cpus_are_parked() {
    let before = remember_ticks(&vec![
        (0, CpuTicks { total: 100, idle: 100 }),
        (2, CpuTicks { total: 100, idle: 100 }),
    ]);
    let now = vec![
        (0, CpuTicks { total: 200, idle: 150 }),
        (2, CpuTicks { total: 200, idle: 200 }),
        (9, CpuTicks { total: 7, idle: 0 }),
    ];
    assert_eq!(collect_cpu_percents(4, &before, &now), [micro(50.0), micro(0.0), micro(0.0), micro(0.0)]);
    let none: IdMap<CpuTicks> = IdMap::new();
    assert_eq!(collect_cpu_percents(2, &none, &now), [micro(0.0), micro(0.0)]);
}

#[test]
fn process_load_is_per_core_and_capped() {
    assert_eq!(cpu_share(25, 100, 4), micro(100.0));
    assert_eq!(cpu_share(1000, 100, 4), micro(400.0));
    assert_eq!(cpu_share(25, 0, 4), micro(0.0));
}

fn sample(pid: u32, ticks: u64, io: Option<&str>) -> ProcSample {
    ProcSample {
        pid,
        ppid: 1,
        name: "p".into(),
        ticks,
        mem_rss: 4096,
        nice: 0,
        affinity: "0-3".into(),
        ioprio: -1,
        io: io.map(|s| s.to_string()),
        cmdline: "p".into(),
    }
}

#[test]
fn second_snapshot_shows_what_changed() {
    let mut s = Sampler::new();
    let first = s.collect_snapshot(
        &vec![sample(7, 100, Some("read_bytes: 1000\nwrite_bytes: 0\n"))],
        1000,
        4,
    );
    assert_eq!(first.len(), 1);
    let second = s.collect_snapshot(
        &vec![
            sample(7, 150, Some("read_bytes: 3000\nwrite_bytes: 10\n")),
            sample(8, 5, None),
        ],
        1200,
        4,
    );
    assert_eq!(second[0].cpu_percent, micro(100.0));
    assert_eq!(second[0].pid, 7);
    assert_eq!(second[1].pid, 8);
    assert_eq!(second[1].disk_read_bps, 0);
}
