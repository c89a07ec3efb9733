use powerstation::acpi::{Acpi, ProfileAction};
use powerstation::amd_tdp;
use powerstation::asus::{policy_for_profile, profile_from_daemon_policy, profile_from_wmi_policy, ASUS};
use powerstation::asus_wmi::{AsusWmi, FirmwareWrite};
use powerstation::error::TDPError;
use powerstation::hardware::{
    check_model_exists, extract_model_name, get_current_model, merge_configs, profile_for, Config,
    Hardware, ModelConfig,
};
use powerstation::hardware::watts_mw;
use powerstation::hwmon::{attr_name, build_label_map, lookup_label, Hwmon, PptCaps};
use powerstation::intel_tdp::{RaplLimits, Tdp};
use powerstation::ryzenadj::{boost_mw, plan_set_boost, plan_set_stapm, RyzenAdjCall, RyzenAdjTdp};
use powerstation::tdp::{aggregate_step, AggregateDecision, HardwareAccess};

#[test]
fn rapl_reads_and_preserves_boost_on_tdp_change() {
    let tdp = Tdp::new(None);
    let limits = RaplLimits { long_uw: 15_000_000, short_uw: 25_000_000 };
    assert_eq!(tdp.tdp_uw(&limits), 15_000_000);
    assert_eq!(tdp.boost_uw(&limits), 10_000_000);
    let next = tdp.set_tdp(&limits, 20_000_000).unwrap();
    assert_eq!(next.long_uw, 20_000_000);
    assert_eq!(next.short_uw, 30_000_000);
    assert_eq!(tdp.boost_uw(&next), 10_000_000);
    assert!(next.short_uw >= next.long_uw);
}

#[test]
fn rapl_rejects_sub_watt_tdp_without_change() {
    let tdp = Tdp::new(None);
    let limits = RaplLimits { long_uw: 15_000_000, short_uw: 25_000_000 };
    let r = tdp.set_tdp(&limits, 900_000);
    assert!(matches!(r, Err(TDPError::InvalidArgument(_))));
    assert_eq!(limits.long_uw, 15_000_000);
    assert_eq!(limits.short_uw, 25_000_000);
}

#[test]
fn rapl_rejects_negative_boost() {
    let tdp = Tdp::new(None);
    let limits = RaplLimits { long_uw: 15_000_000, short_uw: 25_000_000 };
    let r = tdp.set_boost(&limits, -100_000);
    assert!(matches!(r, Err(TDPError::InvalidArgument(_))));
}

#[test]
fn rapl_boost_round_trips_and_keeps_order() {
    let tdp = Tdp::new(None);
    let mut limits = RaplLimits { long_uw: 15_000_000, short_uw: 15_000_000 };
    for boost in [0i64, 2_000_000, 7_500_000] {
        limits = tdp.set_boost(&limits, boost).unwrap();
        assert_eq!(tdp.boost_uw(&limits) as i64, boost);
        assert!(limits.short_uw >= limits.long_uw);
        limits = tdp.set_tdp(&limits, 18_000_000).unwrap();
        assert_eq!(tdp.tdp_uw(&limits), 18_000_000);
        assert_eq!(tdp.boost_uw(&limits) as i64, boost);
        assert!(limits.short_uw >= limits.long_uw);
    }
}

#[test]
fn rapl_offers_no_thermal_or_profile_features() {
    let tdp = Tdp::new(None);
    assert!(matches!(tdp.thermal_throttle_limit_c(), Err(TDPError::FeatureUnsupported)));
    assert!(matches!(tdp.power_profile(), Err(TDPError::FeatureUnsupported)));
    assert!(matches!(tdp.power_profiles_available(), Err(TDPError::FeatureUnsupported)));
}

#[test]
fn asus_wmi_tdp_change_keeps_boost() {
    // STAPM 15 W, SPPT 18 W: a boost of 3 W.
    let mut wmi = AsusWmi::new(15, 18);
    assert_eq!(wmi.boost(), 3);
    let mut writes: Vec<FirmwareWrite> = Vec::new();
    wmi.set_tdp(10, &mut writes).unwrap();
    assert_eq!(wmi.tdp(), 10);
    assert_eq!(wmi.boost(), 3);
    assert!(matches!(writes[0], FirmwareWrite::Spl(10)));
    assert!(matches!(writes[1], FirmwareWrite::Sppt(13)));
}

#[test]
fn asus_wmi_rejects_out_of_range_tdp() {
    let mut wmi = AsusWmi::new(15, 18);
    let mut writes: Vec<FirmwareWrite> = Vec::new();
    let r = wmi.set_tdp(300, &mut writes);
    assert!(matches!(r, Err(TDPError::InvalidArgument(_))));
    assert_eq!(wmi.tdp(), 15);
    assert_eq!(wmi.boost(), 3);
    assert!(writes.is_empty());
}

#[test]
fn asus_wmi_rejects_combined_overflow_on_boost() {
    let mut wmi = AsusWmi::new(200, 210);
    let mut writes: Vec<FirmwareWrite> = Vec::new();
    let r = wmi.set_boost(100, &mut writes);
    assert!(matches!(r, Err(TDPError::InvalidArgument(_))));
    assert_eq!(wmi.boost(), 10);
}

#[test]
fn ryzenadj_shadow_serves_unreadable_apu() {
    // A fresh backend for the Vangogh APU reads 12 W from the shadow.
    let mut dev = RyzenAdjTdp::new(String::new(), String::from("163f"), None);
    assert!(dev.is_unsupported_gpu());
    let read = dev.read_stapm_limit(Err(String::from("smu busy")));
    assert_eq!(read.unwrap(), 12_000);
    // Set 8 W: the library call succeeds, the shadow follows.
    let stapm = plan_set_stapm(8_000).unwrap();
    assert_eq!(stapm, 8_000);
    dev.apply_set_stapm(stapm, Ok(())).unwrap();
    let read = dev.read_stapm_limit(Err(String::from("smu busy")));
    assert_eq!(read.unwrap(), 8_000);
}

#[test]
fn ryzenadj_supported_apu_passes_library_values_through() {
    let dev = RyzenAdjTdp::new(String::new(), String::from("1681"), None);
    assert!(!dev.is_unsupported_gpu());
    assert_eq!(dev.read_stapm_limit(Ok(25_000)).unwrap(), 25_000);
    assert!(dev.read_stapm_limit(Err(String::from("nope"))).is_err());
}

#[test]
fn ryzenadj_boost_is_preserved_across_set_tdp() {
    // Boost measured before: slow 18 W over STAPM 15 W.
    let boost = boost_mw(18_000, 15_000);
    assert_eq!(boost, 3_000);
    // Set TDP 10 W, then restore the boost.
    let stapm = plan_set_stapm(10_000).unwrap();
    let (slow, fast) = plan_set_boost(stapm, boost).unwrap();
    assert_eq!(slow, 13_000);
    assert_eq!(fast, 16_250);
    assert_eq!(boost_mw(slow, stapm), boost);
}

#[test]
fn ryzenadj_rejects_bad_requests() {
    assert!(matches!(plan_set_stapm(900), Err(TDPError::InvalidArgument(_))));
    assert!(matches!(plan_set_boost(10_000, -1), Err(TDPError::InvalidArgument(_))));
}

#[test]
fn ryzenadj_profiles() {
    let mut dev = RyzenAdjTdp::new(String::new(), String::from("163f"), None);
    assert_eq!(dev.power_profile(), "power-saving");
    let call = dev.set_power_profile(String::from("max-performance")).unwrap();
    assert!(matches!(call, RyzenAdjCall::SetMaxPerformance));
    assert_eq!(dev.power_profile(), "max-performance");
    assert!(dev.set_power_profile(String::from("turbo")).is_err());
    assert_eq!(dev.power_profile(), "max-performance");
    let avail = dev.power_profiles_available();
    assert_eq!(avail, vec![String::from("max-performance"), String::from("power-saving")]);
}

#[test]
fn aggregate_policy() {
    match aggregate_step::<u64>(Ok(7), true) {
        AggregateDecision::Done(Ok(v)) => assert_eq!(v, 7),
        _ => panic!("first success must win"),
    }
    match aggregate_step::<u64>(Err(TDPError::InvalidArgument(String::from("no"))), true) {
        AggregateDecision::Done(Err(TDPError::InvalidArgument(_))) => {}
        _ => panic!("a rejected value must surface at once"),
    }
    assert!(matches!(
        aggregate_step::<u64>(Err(TDPError::FeatureUnsupported), true),
        AggregateDecision::TryNext
    ));
    assert!(matches!(
        aggregate_step::<u64>(Err(TDPError::FeatureUnsupported), false),
        AggregateDecision::Done(Err(TDPError::FailedOperation(_)))
    ));
}

#[test]
fn aggregator_limits_come_from_the_profile_alone() {
    let hw = Hardware { min_tdp_mw: 5_000, max_tdp_mw: 30_000, max_boost_mw: 5_000 };
    let stack = amd_tdp::Tdp::new(None, None, None, Some(hw));
    assert_eq!(stack.min_tdp().unwrap(), 5_000);
    assert_eq!(stack.max_tdp().unwrap(), 30_000);
    assert_eq!(stack.max_boost().unwrap(), 5_000);
    assert!(!stack.has_power_backend());
    let bare = amd_tdp::Tdp::new(None, None, None, None);
    assert!(matches!(bare.min_tdp(), Err(TDPError::FailedOperation(_))));
}

#[test]
fn acpi_profile_decisions() {
    let acpi = Acpi::new();
    let choices = vec![
        String::from("performance"),
        String::from("balanced"),
        String::from("quiet"),
    ];
    let current = String::from("balanced");
    assert!(matches!(
        acpi.set_power_profile(&current, &choices, &String::from("balanced")),
        Ok(ProfileAction::NoChange)
    ));
    assert!(matches!(
        acpi.set_power_profile(&current, &choices, &String::from("quiet")),
        Ok(ProfileAction::WriteRequested)
    ));
    assert!(matches!(
        acpi.set_power_profile(&current, &choices, &String::from("max-performance")),
        Ok(ProfileAction::WritePerformance)
    ));
    assert!(matches!(
        acpi.set_power_profile(&current, &choices, &String::from("power-saving")),
        Ok(ProfileAction::WriteBalanced)
    ));
    assert!(matches!(
        acpi.set_power_profile(&current, &choices, &String::from("ludicrous")),
        Err(TDPError::InvalidArgument(_))
    ));
}

#[test]
fn acpi_reads_profiles_from_file_contents() {
    let acpi = Acpi::new();
    assert_eq!(acpi.power_profile(b"balanced\n"), "balanced");
    let avail = acpi.power_profiles_available(b"low-power balanced performance\n");
    assert_eq!(avail, vec![
        String::from("low-power"),
        String::from("balanced"),
        String::from("performance"),
    ]);
}

#[test]
fn asus_legacy_mirror_and_policies() {
    let mut asus = ASUS::new();
    assert_eq!(asus.tdp(), 5);
    assert_eq!(asus.boost(), 0);
    let fppt = asus.set_tdp(12).unwrap();
    assert_eq!(fppt, 12);
    let fppt = asus.set_boost(3).unwrap();
    assert_eq!(fppt, 15);
    assert_eq!(asus.tdp(), 12);
    assert_eq!(asus.boost(), 3);
    // Out-of-range requests are rejected and nothing changes.
    assert!(matches!(asus.set_tdp(0), Err(TDPError::InvalidArgument(_))));
    assert!(matches!(asus.set_tdp(300), Err(TDPError::InvalidArgument(_))));
    assert!(matches!(asus.set_boost(250), Err(TDPError::InvalidArgument(_))));
    assert_eq!(asus.tdp(), 12);
    assert_eq!(asus.boost(), 3);
    assert_eq!(profile_from_wmi_policy(1), "max-performance");
    assert_eq!(profile_from_wmi_policy(0), "power-saving");
    assert_eq!(profile_from_daemon_policy(2), "power-saving");
    assert_eq!(profile_from_daemon_policy(1), "max-performance");
    assert_eq!(policy_for_profile(&String::from("max-performance")), Some(1));
    assert_eq!(policy_for_profile(&String::from("power-saving")), Some(0));
    assert_eq!(policy_for_profile(&String::from("other")), None);
}

#[test]
fn hwmon_label_map_and_caps() {
    let attrs: Vec<(Vec<u8>, Vec<u8>)> = vec![
        (b"power1_label".to_vec(), b"slowPPT".to_vec()),
        (b"power1_cap".to_vec(), b"15000000".to_vec()),
        (b"power2_label".to_vec(), b"fastPPT".to_vec()),
    ];
    let map = build_label_map(&attrs);
    assert_eq!(lookup_label(&map, b"slowPPT").unwrap(), b"power1".to_vec());
    assert_eq!(lookup_label(&map, b"fastPPT").unwrap(), b"power2".to_vec());
    assert!(lookup_label(&map, b"edge").is_none());
    assert_eq!(attr_name(b"power1", b"cap_max"), b"power1_cap_max".to_vec());

    let dev = Hwmon { hardware: None, label_map: map };
    let caps = PptCaps { slow_uw: 15_000_000, fast_uw: 18_000_000 };
    assert_eq!(dev.tdp_uw(&caps), 15_000_000);
    assert_eq!(dev.boost_uw(&caps), 3_000_000);
    let next = dev.set_tdp(&caps, 10_000_000).unwrap();
    assert_eq!(next.slow_uw, 10_000_000);
    assert_eq!(next.fast_uw, 13_000_000);
    assert!(matches!(dev.set_tdp(&caps, 900_000), Err(TDPError::InvalidArgument(_))));
    assert!(matches!(dev.set_boost(&caps, -5), Err(TDPError::InvalidArgument(_))));
    let hw = powerstation::hwmon::get_limits(5_000_000, 30_000_000);
    assert_eq!(hw.min_tdp_mw, 5_000);
    assert_eq!(hw.max_tdp_mw, 30_000);
}

fn entry(name: &str, min: u64, max: u64, boost: u64) -> ModelConfig {
    ModelConfig {
        model_name: String::from(name),
        min_tdp_mw: min,
        max_tdp_mw: max,
        max_boost_mw: boost,
    }
}

#[test]
fn hardware_profiles_merge_and_match() {
    let amd = Config { models: vec![entry("Jupiter", 4_000, 15_000, 2_000)] };
    let intel = Config { models: vec![entry("NUC", 10_000, 28_000, 12_000)] };
    let dmi = Config { models: vec![entry("Jupiter", 5_000, 18_000, 3_000)] };
    let merged = merge_configs(vec![amd, intel, dmi]);
    assert!(check_model_exists(&merged, &String::from("Jupiter")));
    assert!(check_model_exists(&merged, &String::from("NUC")));
    assert!(!check_model_exists(&merged, &String::from("Toaster")));

    // The DMI override wins over the earlier AMD entry.
    let hw = profile_for(&merged, &String::from("Jupiter"));
    assert_eq!(hw.min_tdp_mw, 5_000);
    assert_eq!(hw.max_tdp_mw, 18_000);
    assert_eq!(hw.max_boost_mw, 3_000);

    // Product name wins when known.
    let m = get_current_model(
        Some(String::from("Jupiter")),
        Some(String::from("NUC")),
        &merged,
    );
    assert_eq!(m, "Jupiter");
    // Otherwise the CPU model, when known.
    let m = get_current_model(Some(String::from("Toaster")), Some(String::from("NUC")), &merged);
    assert_eq!(m, "NUC");
    // Otherwise the product name as a fallback.
    let m = get_current_model(Some(String::from("Toaster")), Some(String::from("Oven")), &merged);
    assert_eq!(m, "Toaster");
    let m = get_current_model(None, Some(String::from("Oven")), &merged);
    assert_eq!(m, "Unknown Model");
    // An unknown model gets the all-zero profile.
    let hw = profile_for(&merged, &String::from("Toaster"));
    assert_eq!(hw.min_tdp_mw, 0);
    assert_eq!(hw.max_tdp_mw, 0);
    assert_eq!(hw.max_boost_mw, 0);
}

#[test]
fn database_files_parse_to_milliwatts() {
    let toml = b"# comment
[[models]]
model_name = \"Jupiter\"
min_tdp = 4
max_tdp = 15.5
max_boost = 2.25 # headroom

[[models]]
model_name = \"NUC\" # dmi name
min_tdp = 10
max_tdp = 28
max_boost = 12.125
";
    let models = powerstation::hardware::parse_models(toml);
    assert_eq!(models.len(), 2);
    assert_eq!(models[0].model_name, "Jupiter");
    assert_eq!(models[0].min_tdp_mw, 4_000);
    assert_eq!(models[0].max_tdp_mw, 15_500);
    // A trailing comment after the number does not zero the value.
    assert_eq!(models[0].max_boost_mw, 2_250);
    assert_eq!(models[1].model_name, "NUC");
    assert_eq!(models[1].max_boost_mw, 12_125);
    // A file without entries parses to nothing.
    assert!(powerstation::hardware::parse_models(b"just text
").is_empty());
    // A malformed number falls back to zero, as the original did.
    let bad = b"[[models]]
model_name = \"X\"
min_tdp = lots
";
    let models = powerstation::hardware::parse_models(bad);
    assert_eq!(models[0].min_tdp_mw, 0);
}

#[test]
fn wattages_read_to_milliwatt_precision() {
    assert_eq!(watts_mw(b"15"), 15_000);
    assert_eq!(watts_mw(b"15.5"), 15_500);
    assert_eq!(watts_mw(b"0.125"), 125);
    assert_eq!(watts_mw(b"2."), 2_000);
    assert_eq!(watts_mw(b".5"), 500);
    assert_eq!(watts_mw(b"-3"), 0);
    assert_eq!(watts_mw(b""), 0);
}

#[test]
fn cpu_model_name_extraction() {
    let cpuinfo = b"processor\t: 0\nvendor_id\t: AuthenticAMD\nmodel name\t: AMD Custom APU 0405\nstepping\t: 1\n";
    let m = extract_model_name(cpuinfo).unwrap();
    assert_eq!(m, b"AMD Custom APU 0405".to_vec());
    assert!(extract_model_name(b"processor: 0\n").is_none());
}
