use powerstation::cpu::{
    boost_enabled_from, get_features, has_feature, parse_status_on, render_bool01, render_on_off,
    smt_enabled_from, CPU, CPUCore,
};
use powerstation::error::CpuError;

fn mk_core(number: u32, core_id: u32) -> CPUCore {
    CPUCore {
        number,
        path: format!("/sys/bus/cpu/devices/cpu{}", number),
        core_id,
        online: true,
    }
}

/// Eight logical threads over four physical cores, siblings adjacent:
/// cpu0/cpu1 share core 0, cpu2/cpu3 core 1, and so on.
fn eight_thread_host() -> CPU {
    let cores = vec![
        mk_core(0, 0),
        mk_core(1, 0),
        mk_core(2, 1),
        mk_core(3, 1),
        mk_core(4, 2),
        mk_core(5, 2),
        mk_core(6, 3),
        mk_core(7, 3),
    ];
    CPU::new(cores)
}

fn online_map(plan: &[(u32, bool)]) -> std::collections::BTreeMap<u32, bool> {
    let mut m = std::collections::BTreeMap::new();
    for (n, e) in plan {
        m.insert(*n, *e);
    }
    m
}

#[test]
fn enable_three_with_smt_takes_one_thread_per_core_first() {
    let mut cpu = eight_thread_host();
    let plan = cpu.set_cores_enabled(3, true).unwrap();
    assert_eq!(cpu.cores_enabled(), 3);
    let m = online_map(&plan);
    // Cores 0, 2 and 4 online; 1, 3, 5, 6 and 7 offline.
    assert_eq!(m[&2], true);
    assert_eq!(m[&4], true);
    assert_eq!(m[&1], false);
    assert_eq!(m[&3], false);
    assert_eq!(m[&5], false);
    assert_eq!(m[&6], false);
    assert_eq!(m[&7], false);
    assert_eq!(plan.len(), 7);
    // The plan lists every core but core 0 in map order, each entry
    // carrying the core's new state.
    assert_eq!(
        plan,
        vec![
            (1, false),
            (2, true),
            (3, false),
            (4, true),
            (5, false),
            (6, false),
            (7, false),
        ]
    );
}

#[test]
fn enable_six_without_smt_clamps_to_physical_cores() {
    let mut cpu = eight_thread_host();
    let plan = cpu.set_cores_enabled(6, false).unwrap();
    assert_eq!(cpu.cores_enabled(), 4);
    let m = online_map(&plan);
    // Cores 0, 2, 4 and 6 online; every second sibling offline.
    assert_eq!(m[&2], true);
    assert_eq!(m[&4], true);
    assert_eq!(m[&6], true);
    assert_eq!(m[&1], false);
    assert_eq!(m[&3], false);
    assert_eq!(m[&5], false);
    assert_eq!(m[&7], false);
}

#[test]
fn enable_zero_cores_is_rejected_without_change() {
    let mut cpu = eight_thread_host();
    let before = cpu.cores_enabled();
    let r = cpu.set_cores_enabled(0, true);
    assert!(matches!(r, Err(CpuError::InvalidArgs(_))));
    assert_eq!(cpu.cores_enabled(), before);
}

#[test]
fn enable_more_than_count_enables_all() {
    let mut cpu = eight_thread_host();
    cpu.set_cores_enabled(3, true).unwrap();
    cpu.set_cores_enabled(64, true).unwrap();
    assert_eq!(cpu.cores_enabled(), 8);
}

#[test]
fn core_zero_reports_online_whatever_was_recorded() {
    let mut c0 = mk_core(0, 0);
    let write_needed = c0.set_online(false);
    assert!(!write_needed);
    assert!(c0.online());
    let mut c1 = mk_core(1, 0);
    assert!(c1.set_online(false));
    assert!(!c1.online());
    assert!(c1.set_online(true));
    assert!(c1.online());
}

#[test]
fn discovery_counts_and_onlines_every_core() {
    let cpu = eight_thread_host();
    assert_eq!(cpu.cores_count(), 8);
    assert_eq!(cpu.cores_enabled(), 8);
}

#[test]
fn sysfs_boolean_round_trips() {
    for x in [true, false] {
        assert_eq!(parse_status_on(&render_bool01(x)), x);
        assert_eq!(parse_status_on(&render_on_off(x)), x);
    }
    assert!(parse_status_on(b"1\n"));
    assert!(parse_status_on(b"on"));
    assert!(parse_status_on(b" ON \n"));
    assert!(!parse_status_on(b"0\n"));
    assert!(!parse_status_on(b"off"));
}

#[test]
fn boost_and_smt_honor_feature_flags() {
    assert_eq!(boost_enabled_from(false, Ok(b"1".to_vec())).unwrap(), false);
    assert_eq!(boost_enabled_from(true, Ok(b"1\n".to_vec())).unwrap(), true);
    assert_eq!(boost_enabled_from(true, Ok(b"0\n".to_vec())).unwrap(), false);
    assert!(matches!(
        boost_enabled_from(true, Err(String::from("gone"))),
        Err(CpuError::IOError(_))
    ));
    assert_eq!(smt_enabled_from(false, Ok(b"on".to_vec())).unwrap(), false);
    assert_eq!(smt_enabled_from(true, Ok(b"on\n".to_vec())).unwrap(), true);
    assert_eq!(smt_enabled_from(true, Ok(b"off\n".to_vec())).unwrap(), false);
}

#[test]
fn features_come_from_the_first_flags_line() {
    let cpuinfo = b"processor\t: 0\nmodel name\t: Fake CPU 100\nflags\t\t: fpu vme ht cpb sse\nbugs\t\t: none\nflags\t\t: other line\n";
    let fs = get_features(cpuinfo);
    assert_eq!(fs.len(), 5);
    assert_eq!(fs[0], "fpu");
    assert_eq!(fs[3], "cpb");
    assert!(has_feature(&fs, &String::from("ht")));
    assert!(!has_feature(&fs, &String::from("avx512")));
}

#[test]
fn core_object_paths_enumerate_in_order() {
    let cpu = eight_thread_host();
    let paths = cpu.enumerate_cores();
    assert_eq!(paths.len(), 8);
    assert_eq!(paths[0], "/org/shadowblip/Performance/CPU/Core0");
    assert_eq!(paths[7], "/org/shadowblip/Performance/CPU/Core7");
}

#[test]
fn features_empty_without_flags_line() {
    let fs = get_features(b"processor: 0\n");
    assert!(fs.is_empty());
}
