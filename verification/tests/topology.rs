//! Detecting unequal cores.

use argus_lasso::idmap::IdMap;
use argus_lasso::idset::IdSet;
use argus_lasso::topology::{
    core_pairs, detect_topology, get_smt_siblings_of, parse_core_id, parse_khz, parse_l3_kib,
    CpuTopology, Readings, TopologyKind,
};

fn map(pairs: &[(u32, u64)]) -> IdMap<u64> {
    let mut m = IdMap::new();
    for &(k, v) in pairs {
        m.insert(k, v);
    }
    m
}

fn readings(l3: &[(u32, u64)], offline: &[u32]) -> Readings {
    Readings {
        present: IdSet::first(4),
        offline: IdSet::from_list(offline),
        l3: map(l3),
        core_cpus: None,
        atom_cpus: None,
        max_freq: IdMap::new(),
    }
}

#[test]
fn sysfs_values() {
    assert_eq!(parse_l3_kib("98304K\n"), Some(98304));
    assert_eq!(parse_l3_kib("96M"), Some(98304));
    assert_eq!(parse_l3_kib("big"), None);
    assert_eq!(parse_khz("5500000\n"), Some(5_500_000));
    assert_eq!(parse_core_id(" 12\n"), Some(12));
    assert_eq!(parse_core_id("-1"), None);
}

#[test]
fn cpus_stand_before_the_bracket_on_a_button() {
    let mut t = CpuTopology::uniform(IdSet::first(8));
    assert_eq!(t.preferred_button_label(), " (0-7)");
    t.preferred_label = "P-cores (5.5 GHz)".into();
    assert_eq!(t.preferred_button_label(), "P-cores 0-7 (5.5 GHz)");
    t.preferred_label = "P-cores".into();
    assert_eq!(t.preferred_button_label(), "P-cores (0-7)");
    t.preferred_label = "P-cores (fast) first".into();
    assert_eq!(t.preferred_button_label(), "P-cores (fast) first (0-7)");
    for c in 8..24 {
        t.non_preferred.insert(c);
    }
    t.non_preferred_label = "E-cores (x) (4.9 GHz)".into();
    assert_eq!(t.non_preferred_button_label(), "E-cores (x) 8-23 (4.9 GHz)");
    t.non_preferred_label = "E-cores (4.9 GHz)".into();
    assert_eq!(t.non_preferred_button_label(), "E-cores 8-23 (4.9 GHz)");
}

#[test]
fn larger_cache_is_preferred_and_survives_parking() {
    let mut cache: Option<CpuTopology> = None;
    let full = [(0, 98304), (1, 98304), (2, 32768), (3, 32768)];
    let t = detect_topology(&mut cache, &readings(&full, &[]));
    assert_eq!(t.kind, TopologyKind::AmdX3D);
    assert_eq!(t.preferred.items(), &vec![0, 1]);
    assert_eq!(t.non_preferred.items(), &vec![2, 3]);
    assert!(t.has_asymmetry());
    assert_eq!(t.kind_label(), "AMD X3D");
    assert_eq!(t.preferred_label, "V-Cache CCD (96 MB L3)");
    assert_eq!(t.preferred_button_label(), "V-Cache CCD 0-1 (96 MB L3)");
    assert_eq!(t.non_preferred_button_label(), "Standard CCD 2-3 (32 MB L3)");
    let parked = detect_topology(&mut cache, &readings(&full[..2], &[2, 3]));
    assert_eq!(parked.non_preferred.items(), &vec![2, 3]);
    assert_eq!(parked.preferred.items(), &vec![0, 1]);
}

#[test]
fn kernel_lists_tell_hybrid_cores_apart() {
    let mut r = readings(&[], &[]);
    r.core_cpus = Some(IdSet::from_list(&[0, 1]));
    r.atom_cpus = Some(IdSet::from_list(&[2, 3]));
    r.max_freq = map(&[(0, 5_500_000), (1, 5_400_000), (2, 4_300_000), (3, 4_300_000)]);
    let t = detect_topology(&mut None, &r);
    assert_eq!(t.kind, TopologyKind::IntelHybrid);
    assert!(t.preferred_label.contains("5.5 GHz"));
    assert!(t.non_preferred_label.contains("4.3 GHz"));
}

#[test]
fn equal_cores_are_uniform() {
    let t = detect_topology(&mut None, &readings(&[(0, 32768), (1, 32768)], &[]));
    assert_eq!(t.kind, TopologyKind::Uniform);
    assert!(!t.has_asymmetry());
    assert_eq!(t.preferred.items(), &vec![0, 1, 2, 3]);
    assert!(t.copy().non_preferred.is_empty());
}

#[test]
fn every_core_has_one_first_cpu() {
    let mut cores: IdMap<u32> = IdMap::new();
    for (cpu, core) in [(0, 0), (1, 1), (2, 0), (3, 1), (7, 0)] {
        cores.insert(cpu, core);
    }
    assert_eq!(get_smt_siblings_of(&cores).items(), &vec![2, 3, 7]);
    let pairs = core_pairs(&cores);
    assert_eq!(pairs.keys().items(), &vec![0, 1]);
    assert_eq!(pairs.get(0).unwrap(), &vec![2, 7]);
    assert_eq!(pairs.get(1).unwrap(), &vec![3]);
}
