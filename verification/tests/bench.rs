//! The memory benchmarks.

use argus_lasso::binary::Binary;
use argus_lasso::gui::bench_tab::{
    build_csv, compare_rate, csv_message, fmt_size, fmt_size_short, latency_color, latency_detail,
    latency_text, level_caption, max_latency, nice_ceil, nice_y_steps, point_hover, rate_text,
    region_index, region_label, region_latencies, stage_text, y_top, BenchTab, Trend,
};
use argus_lasso::gui::theme::load_color_for;
use argus_lasso::mem_bench::{
    access_count, bandwidth_len, build_chase_array, chase, fill_source, parse_cache_size,
    nanos_per_access, read_pass, test_sizes, throughput, write_pass, BandwidthResult, CacheEntry,
    CacheSizes, LatencyPoint, Lcg64, MemLatencyResult, STRIDE,
};

const CACHE: CacheSizes = CacheSizes {
    l1d: 32_768,
    l2: 524_288,
    l3: 33_554_432,
};

fn point(size_bytes: usize, picos: u64) -> LatencyPoint {
    LatencyPoint {
        size_bytes,
        nanos: picos,
        accesses: 1000,
    }
}

fn ns(picos: u64) -> Binary {
    Binary::double(picos, 1000)
}

#[test]
fn sizes_double_from_4_kib_to_256_mib() {
    let v = test_sizes();
    assert_eq!(v.len(), 17);
    assert_eq!((v[0], v[16]), (4096, 268_435_456));
    assert!(v.windows(2).all(|w| w[1] == 2 * w[0]));
    assert!(v.iter().all(|&s| fmt_size_short(s) != "?"));
}

#[test]
fn chase_visits_every_line_once() {
    let buf = build_chase_array(64 * 100);
    let lines = buf.len() / STRIDE;
    let mut seen = vec![false; lines];
    let mut at = 0u64;
    for _ in 0..lines {
        assert_eq!(at as usize % STRIDE, 0);
        assert!(!seen[at as usize / STRIDE]);
        seen[at as usize / STRIDE] = true;
        at = buf[at as usize];
    }
    assert_eq!(at, 0);
    assert_eq!(chase(&buf, lines as u64), 0);
    assert_ne!(chase(&buf, 1), 0);
}

#[test]
fn random_numbers_are_reproducible() {
    let mut a = Lcg64::new(42);
    let mut b = Lcg64::new(42);
    for _ in 0..10 {
        assert_eq!(a.next(), b.next());
        assert!(a.next_bounded(7) < 7);
        b.next();
    }
}

fn entry(level: &str, kind: &str, size: &str) -> CacheEntry {
    CacheEntry {
        level: Some(level.into()),
        kind: Some(kind.into()),
        size: Some(size.into()),
    }
}

#[test]
fn cache_sizes_are_read() {
    assert_eq!(parse_cache_size("48K\n"), Some(49_152));
    assert_eq!(parse_cache_size("96M"), Some(100_663_296));
    assert_eq!(parse_cache_size("x"), None);
    let c = CacheSizes::read(&[
        entry("1", "Data", "48K"),
        entry("1", "Instruction", "32K"),
        entry("2", "Unified", "1M"),
        entry("3", "Unified", "16M"),
        entry("3", "Unified", "96M"),
    ]);
    assert_eq!((c.l1d, c.l2, c.l3), (49_152, 1_048_576, 100_663_296));
    let d = CacheSizes::read(&[]);
    assert_eq!((d.l1d, d.l2, d.l3), (CACHE.l1d, CACHE.l2, CACHE.l3));
}

#[test]
fn runs_are_recorded() {
    let mut r = MemLatencyResult::default();
    assert!(r.start());
    assert!(!r.start());
    r.reach(8, 17, 4096);
    assert_eq!(r.progress_text(), format!("{:.0}%", 8f32 / 17f32 * 100.0));
    assert_eq!(r.current_size, Some(4096));
    r.record(point(4096, 1000));
    r.finish(false);
    assert!(r.complete && !r.running);
    assert_eq!(r.points, [point(4096, 1000)]);
    assert_eq!(r.progress_text(), "100%");
    assert_eq!(nanos_per_access(1000, 100), Binary::double(10, 1));
    assert_eq!(nanos_per_access(1000, 0), Binary::zero());
    assert_eq!(access_count(0, 50_000), None);
    assert_eq!(access_count(150_000, 50_000), Some(100_000_000));
    assert_eq!(access_count(1, 50_000), Some(500_000_000));
    assert_eq!(access_count(u64::MAX, 50_000), Some(100_000));
    assert_eq!(
        access_count(123_457, 50_000),
        Some((300_000_000.0 / (123_457f64 / 50_000.0)) as u64)
    );
}

#[test]
fn bandwidth_passes_touch_the_whole_buffer() {
    let n = 1024;
    let mut src = vec![0u64; n];
    fill_source(&mut src);
    assert!(src.iter().any(|&x| x != 0));
    let sums = read_pass(&src);
    let expected: u64 = src.iter().fold(0u64, |a, &x| a.wrapping_add(x));
    assert_eq!(sums.iter().fold(0u64, |a, &x| a.wrapping_add(x)), expected);
    let mut dst = vec![u64::MAX; n];
    write_pass(&mut dst);
    assert!(dst.iter().any(|&x| x != u64::MAX));
    assert!(bandwidth_len(CACHE.l3) * 8 >= 4 * CACHE.l3);
    assert_eq!(throughput(1_000_000_000, 2, 1_000_000_000), ns(2_000));
    for (bytes, passes, nanos) in [(536_870_912u64, 31u64, 1_512_345_678u64), (7, 3, 999)] {
        let secs = (nanos / 1_000_000_000) as f64 + (nanos % 1_000_000_000) as f64 / 1e9;
        let rate = bytes as f64 * passes as f64 / secs / 1e9;
        let r = throughput(bytes, passes, nanos);
        assert_eq!(r.mant as f64 * 2f64.powi(r.exp as i32), rate);
    }
}

#[test]
fn levels_partition_the_sizes() {
    for (size, level) in [(4096, 0), (32_768, 0), (32_769, 1), (524_289, 2), (33_554_433, 3)] {
        assert_eq!(region_index(size, &CACHE), level);
    }
    assert_eq!(region_label(3), "DRAM");
    assert_eq!(level_caption(0, &CACHE), "L1 · 32 KiB");
    assert_eq!(level_caption(3, &CACHE), "DRAM · > 32 MiB");
}

#[test]
fn levels_are_averaged() {
    let points = [
        point(4096, 1000),
        point(8192, 1101),
        point(1 << 26, 50_000),
        point(1 << 27, 70_000),
        point(1 << 28, 90_000),
    ];
    let r = region_latencies(&points, &CACHE);
    assert_eq!(latency_text(r[0]), format!("{:.1} ns", (1.0 + 1.101) / 2.0));
    assert_eq!(latency_text(r[3]), "80.0 ns");
    for (a, b, text) in [(1250, 1251, "1.3 ns"), (100, 200, "0.2 ns"), (1150, 1150, "1.1 ns")] {
        let r = region_latencies(&[point(4096, a), point(8192, b)], &CACHE);
        assert_eq!(latency_text(r[0]), text);
        let shown = (a as f64 / 1000.0 + b as f64 / 1000.0) / 2.0;
        assert_eq!(latency_text(r[0]), format!("{shown:.1} ns"));
    }
    assert_eq!(latency_text(r[1]), "—");
    assert_eq!(latency_detail(ns(70_125)), "70.12 ns");
    assert_eq!(point_hover(&points[0]), "4 KiB  →  1.0 ns");
    assert_eq!(max_latency(&points), ns(90_000));
    assert_eq!(max_latency(&[]), Binary::zero());
}

#[test]
fn sizes_are_written() {
    assert_eq!(fmt_size(1023), "1023 B");
    assert_eq!(fmt_size(1536), "1 KiB");
    assert_eq!(fmt_size(268_435_456), "256 MiB");
    assert_eq!(fmt_size_short(65536), "64K");
    assert_eq!(fmt_size_short(5), "?");
}

#[test]
fn results_are_saved_as_csv() {
    assert_eq!(
        build_csv(&[point(4096, 1005), point(1_048_576, 12_000)]),
        "size_bytes,size_label,latency_ns\n4096,4 KiB,1.005\n1048576,1 MiB,12.000\n"
    );
    assert_eq!(csv_message(None), "CSV saved.");
    assert_eq!(csv_message(Some("full")), "Save failed: full");
}

#[test]
fn rates_are_compared() {
    assert_eq!(rate_text(ns(45_678)), "45.68 GB/s");
    assert_eq!(
        compare_rate(ns(45_100), Some(ns(45_000))),
        ("+0.10 vs. previous".into(), Trend::Better)
    );
    assert_eq!(
        compare_rate(ns(44_900), Some(ns(45_000))),
        ("-0.10 vs. previous".into(), Trend::Worse)
    );
    assert_eq!(
        compare_rate(ns(45_050), Some(ns(45_000))),
        ("+0.05 vs. previous".into(), Trend::Same)
    );
    assert_eq!(compare_rate(ns(1), None), ("no previous run".into(), Trend::Same));
    assert_eq!(stage_text(0), "Running Read…");
    assert_eq!(stage_text(334), "Running Write…");
    assert_eq!(stage_text(1000), "Running Copy…");
}

#[test]
fn scales_read_well() {
    assert_eq!(nice_ceil(1, 1), 1);
    assert_eq!(nice_ceil(3, 1), 5);
    assert_eq!(nice_ceil(51, 1), 100);
    assert_eq!(nice_ceil(100, 6), 20);
    assert_eq!(y_top(Binary::zero()), 10_000_000);
    assert_eq!(y_top(ns(80_000)), 10_000_000);
    let top = y_top(ns(80_000));
    assert_eq!(
        nice_y_steps(top),
        [2_000_000, 4_000_000, 6_000_000, 8_000_000, 10_000_000]
    );
    assert_eq!(latency_color(true, ns(50_000), ns(100_000)), load_color_for(true, 50_000));
    assert_eq!(latency_color(true, ns(5), Binary::zero()), load_color_for(true, 500));
}

#[test]
fn results_open_once_for_each_run() {
    let done = || MemLatencyResult {
        complete: true,
        ..MemLatencyResult::default()
    };
    let running = || MemLatencyResult {
        running: true,
        ..MemLatencyResult::default()
    };
    let mut tab = BenchTab::new(CACHE);
    tab.take_latency(done());
    assert!(tab.results_open);
    tab.results_open = false;
    tab.take_latency(done());
    assert!(!tab.results_open);
    tab.take_latency(running());
    tab.take_latency(done());
    assert!(tab.results_open);
    assert!(!tab.shows_results());
}

#[test]
fn ended_bandwidth_runs_are_recorded() {
    let run = |running, complete, read| BandwidthResult {
        read_gb_s: ns(read),
        running,
        complete,
        ..BandwidthResult::default()
    };
    let mut tab = BenchTab::new(CACHE);
    assert!(tab.previous_run().is_none());
    for read in [10, 20] {
        tab.take_bandwidth(run(true, false, 0));
        tab.take_bandwidth(run(false, true, read));
        tab.take_bandwidth(run(false, true, read));
    }
    assert_eq!(tab.bw_history.len(), 2);
    assert_eq!(tab.previous_run().unwrap().read_gb_s, ns(10));
    assert_eq!(tab.runs_text(), Some("2 runs recorded".into()));
}
