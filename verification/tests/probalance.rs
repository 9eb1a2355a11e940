//! ProBalance: exemptions, the steps of one process, and whole rounds.

use argus_lasso::binary::Single;
use argus_lasso::config::ProBalanceConfig;
use argus_lasso::probalance::{
    decide, finalize_restore, finalize_throttle, is_exempt_match, Decision, ProBalance, ProcEntry,
    ProcSnapshot, ProcState,
};

/// Thousandths, in which the library counts thresholds and seconds.
fn milli(x: f64) -> u64 {
    (x * 1000.0).round() as u64
}

fn pat(s: &str) -> Vec<String> {
    vec![s.into()]
}

#[test]
fn exempt_match_is_case_insensitive() {
    assert!(is_exempt_match("KWin", &pat("kwin")));
    assert!(is_exempt_match("kwin_wayland", &pat("KWIN")));
}

#[test]
fn exempt_match_is_substring_not_anchored() {
    // "systemd" should match "systemd-journald" too — this is intentional.
    assert!(is_exempt_match("systemd-journald", &pat("systemd")));
    assert!(is_exempt_match("dbus-systemd-helper", &pat("systemd")));
}

#[test]
fn exempt_match_no_pattern_means_not_exempt() {
    assert!(!is_exempt_match("anything", &[]));
}

#[test]
fn exempt_match_blank_pattern_is_ignored() {
    // Empty patterns must not exempt every process — guards against a stray
    // blank entry in the exempt list config nuking ProBalance silently.
    assert!(!is_exempt_match("steam", &pat("")));
    // But a real pattern alongside the blank still works.
    let mixed = ["".to_string(), "steam".to_string()];
    assert!(is_exempt_match("steam", &mixed));
}

#[test]
fn exempt_match_unrelated_name() {
    assert!(!is_exempt_match("firefox", &pat("kwin")));
}

#[test]
fn tick_disabled_is_noop() {
    let cfg = ProBalanceConfig {
        enabled: false,
        ..Default::default()
    };
    let mut pb = ProBalance::new(cfg);
    let snap = vec![ProcSnapshot {
        pid: 99999,
        name: "anything".into(),
        cpu_percent: Single::of(milli(99.0) as i64, 1000),
        nice: 0,
    }];
    pb.tick(&snap, milli(1.0), &[true]);
    // Disabled → state map stays empty, no syscalls attempted.
    assert_eq!(pb.tracked_pid_count(), 0);
}

#[test]
fn tick_skips_exempt_processes_without_tracking() {
    let cfg = ProBalanceConfig {
        exempt_patterns: vec!["kwin".into()],
        ..Default::default()
    };
    let mut pb = ProBalance::new(cfg);
    let snap = vec![ProcSnapshot {
        pid: 4242,
        name: "kwin_wayland".into(),
        cpu_percent: Single::of(milli(99.0) as i64, 1000),
        nice: 0,
    }];
    pb.tick(&snap, milli(10.0), &[true]);
    // Exempt processes are skipped entirely — no entry created in state map.
    assert_eq!(pb.tracked_pid_count(), 0);
}

#[test]
fn tick_tracks_non_exempt_below_threshold_without_throttling() {
    // Below threshold → entry exists but stays Normal, no syscalls fire.
    let mut pb = ProBalance::new(ProBalanceConfig::default());
    let snap = vec![ProcSnapshot {
        pid: 4242,
        name: "myapp".into(),
        cpu_percent: Single::of(milli(10.0) as i64, 1000),
        nice: 0,
    }];
    pb.tick(&snap, milli(1.0), &[true]);
    assert_eq!(pb.tracked_pid_count(), 1);
    assert!(pb.throttled_pids().is_empty());
}

#[test]
fn tick_evicts_dead_pids() {
    let mut pb = ProBalance::new(ProBalanceConfig::default());
    let snap1 = vec![ProcSnapshot {
        pid: 4242,
        name: "myapp".into(),
        cpu_percent: Single::of(milli(10.0) as i64, 1000),
        nice: 0,
    }];
    pb.tick(&snap1, milli(1.0), &[true]);
    assert_eq!(pb.tracked_pid_count(), 1);

    // PID disappears from snapshot → state entry should be cleaned up.
    pb.tick(&[], milli(1.0), &[]);
    assert_eq!(pb.tracked_pid_count(), 0);
}

// ── State-machine kernel tests (drive decide() directly) ────────────────
//
// These exercise the full Normal↔Throttled lifecycle by
// calling decide() and feeding the result to finalize_*() directly. They
// verify the pure decisions, the threshold/hysteresis windows, the
// nice_floor cap, and the syscall-failure retry behavior.

fn cfg_for_state_tests() -> ProBalanceConfig {
    ProBalanceConfig {
        enabled: true,
        cpu_threshold_mpct: milli(80.0) as u32,
        consecutive_ms: milli(3.0),
        nice_adjustment: 5,
        nice_floor: 19,
        restore_threshold_mpct: milli(30.0) as u32,
        restore_hysteresis_ms: milli(4.0),
        exempt_patterns: vec![],
    }
}

fn snap(pid: u32, cpu: f64, nice: i32) -> ProcSnapshot {
    ProcSnapshot {
        pid,
        name: "test".into(),
        cpu_percent: Single::of(milli(cpu) as i64, 1000),
        nice,
    }
}

#[test]
fn decide_below_threshold_decays_counter() {
    let cfg = cfg_for_state_tests();
    let mut e = ProcEntry::new(0);
    e.consecutive_high = milli(2.0);
    let d = decide(&mut e, &snap(1, 10.0, 0), milli(1.0), &cfg);
    assert_eq!(d, Decision::Keep);
    assert_eq!(e.consecutive_high, milli(1.0));
    // Doesn't go negative
    let d = decide(&mut e, &snap(1, 10.0, 0), milli(5.0), &cfg);
    assert_eq!(d, Decision::Keep);
    assert_eq!(e.consecutive_high, milli(0.0));
}

#[test]
fn decide_above_threshold_below_window_no_action() {
    let cfg = cfg_for_state_tests(); // window = 3.0s
    let mut e = ProcEntry::new(0);
    // 1s above threshold — not yet enough.
    let d = decide(&mut e, &snap(1, 95.0, 0), milli(1.0), &cfg);
    assert_eq!(d, Decision::Keep);
    assert_eq!(e.consecutive_high, milli(1.0));
    // Total 2s — still not enough.
    let d = decide(&mut e, &snap(1, 95.0, 0), milli(1.0), &cfg);
    assert_eq!(d, Decision::Keep);
    assert_eq!(e.state, ProcState::Normal);
}

#[test]
fn decide_throttles_after_consecutive_seconds() {
    let cfg = cfg_for_state_tests();
    let mut e = ProcEntry::new(0);
    let _ = decide(&mut e, &snap(1, 95.0, 0), milli(1.5), &cfg);
    let d = decide(&mut e, &snap(1, 95.0, 0), milli(1.5), &cfg); // total 3.0s
    match d {
        Decision::Throttle { new_nice } => {
            // proc.nice (0) + adjustment (5) = 5, capped at nice_floor (19)
            assert_eq!(new_nice, 5);
        }
        other => panic!("expected Throttle, got {other:?}"),
    }
    // decide() captures original_nice but does NOT flip the state — that's finalize_*'s job.
    assert_eq!(e.state, ProcState::Normal);
    assert_eq!(e.original_nice, Some(0));
}

#[test]
fn decide_caps_new_nice_at_nice_floor() {
    let cfg = cfg_for_state_tests(); // floor=19, adjustment=5
    let mut e = ProcEntry::new(18);
    let _ = decide(&mut e, &snap(1, 95.0, 18), milli(3.0), &cfg);
    // 18 + 5 = 23, but capped at floor=19
    match decide(&mut e, &snap(1, 95.0, 18), milli(0.01), &cfg) {
        Decision::Throttle { new_nice } => assert_eq!(new_nice, 19),
        // The first decide() already triggered. Re-derive directly:
        _ => {
            // In rare cases the first call was the trigger — that's fine,
            // re-create to verify the cap once.
            let mut e2 = ProcEntry::new(18);
            if let Decision::Throttle { new_nice } =
                decide(&mut e2, &snap(1, 95.0, 18), milli(3.5), &cfg)
            {
                assert_eq!(new_nice, 19);
            } else {
                panic!("expected Throttle on second attempt");
            }
        }
    }
}

#[test]
fn finalize_throttle_success_flips_state_and_resets_counters() {
    let mut e = ProcEntry::new(0);
    e.consecutive_high = milli(3.5);
    e.consecutive_low = milli(1.0);
    finalize_throttle(&mut e, 10, true);
    assert_eq!(e.state, ProcState::Throttled);
    assert_eq!(e.throttle_nice, Some(10));
    assert_eq!(e.consecutive_high, milli(0.0));
    assert_eq!(e.consecutive_low, milli(0.0));
}

#[test]
fn finalize_throttle_failure_keeps_state_for_retry() {
    // If set_nice fails (e.g., process exited), we stay Normal with
    // consecutive_high intact — next tick re-decides cleanly.
    let mut e = ProcEntry::new(0);
    e.consecutive_high = milli(3.0);
    finalize_throttle(&mut e, 10, false);
    assert_eq!(e.state, ProcState::Normal);
    assert_eq!(e.throttle_nice, None);
    assert_eq!(e.consecutive_high, milli(3.0)); // not reset
}

#[test]
fn decide_restored_resets_low_counter_on_high_cpu() {
    let cfg = cfg_for_state_tests();
    let mut e = ProcEntry::new(0);
    e.state = ProcState::Throttled;
    e.consecutive_low = milli(3.0);
    // CPU above restore_threshold (30%) → counter resets, no decision.
    let d = decide(&mut e, &snap(1, 50.0, 0), milli(1.0), &cfg);
    assert_eq!(d, Decision::Keep);
    assert_eq!(e.consecutive_low, milli(0.0));
    assert_eq!(e.state, ProcState::Throttled);
}

#[test]
fn decide_restores_after_hysteresis_window() {
    let cfg = cfg_for_state_tests(); // restore_hyst = 4.0s
    let mut e = ProcEntry::new(0);
    e.state = ProcState::Throttled;
    e.original_nice = Some(2);
    e.throttle_nice = Some(7);

    // 2s low — not enough.
    let d = decide(&mut e, &snap(1, 5.0, 7), milli(2.0), &cfg);
    assert_eq!(d, Decision::Keep);
    // 4.5s total — past hysteresis.
    let d = decide(&mut e, &snap(1, 5.0, 7), milli(2.5), &cfg);
    match d {
        Decision::Restore { original_nice } => assert_eq!(original_nice, 2),
        other => panic!("expected Restore, got {other:?}"),
    }
    // Still Throttled until finalize runs.
    assert_eq!(e.state, ProcState::Throttled);
}

#[test]
fn finalize_restore_resets_state_regardless_of_syscall() {
    // Even when set_nice fails, we return to Normal — our bookkeeping
    // shouldn't outlive the kernel state we couldn't write.
    let mut e = ProcEntry::new(0);
    e.state = ProcState::Throttled;
    e.throttle_nice = Some(15);
    e.consecutive_low = milli(4.0);
    finalize_restore(&mut e, 0);
    assert_eq!(e.state, ProcState::Normal);
    assert_eq!(e.throttle_nice, None);
    assert_eq!(e.consecutive_low, milli(0.0));
    assert_eq!(e.original_nice, Some(0));
}

#[test]
fn full_lifecycle_normal_throttled_normal() {
    // End-to-end: drive a process from idle → high → low → idle through
    // decide() + simulated syscall successes.
    let cfg = cfg_for_state_tests();
    let mut e = ProcEntry::new(0);

    // Stay below threshold first — counter remains 0.
    let _ = decide(&mut e, &snap(1, 5.0, 0), milli(1.0), &cfg);
    assert_eq!(e.state, ProcState::Normal);

    // CPU spikes for 4s → throttle decision on 3rd second.
    let _ = decide(&mut e, &snap(1, 95.0, 0), milli(1.0), &cfg);
    let _ = decide(&mut e, &snap(1, 95.0, 0), milli(1.0), &cfg);
    let d = decide(&mut e, &snap(1, 95.0, 0), milli(1.0), &cfg);
    let new_nice = match d {
        Decision::Throttle { new_nice } => new_nice,
        other => panic!("expected Throttle, got {other:?}"),
    };
    finalize_throttle(&mut e, new_nice, true);
    assert_eq!(e.state, ProcState::Throttled);

    // CPU drops to 5% — restore after 4s hysteresis.
    let _ = decide(&mut e, &snap(1, 5.0, 5), milli(2.0), &cfg);
    let d = decide(&mut e, &snap(1, 5.0, 5), milli(2.0), &cfg);
    let orig = match d {
        Decision::Restore { original_nice } => original_nice,
        other => panic!("expected Restore, got {other:?}"),
    };
    assert_eq!(orig, 0);
    finalize_restore(&mut e, orig);
    assert_eq!(e.state, ProcState::Normal);
    assert_eq!(e.throttle_nice, None);
}
