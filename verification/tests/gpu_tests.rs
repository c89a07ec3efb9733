use powerstation::amdgpu::{
    get_clock_limits, get_clock_values, parse_manual_clock, render_clock_cmd, render_commit_cmd,
    render_manual_clock, AMDGPU,
};
use powerstation::connector::{
    parse_connector_id, parse_dpms, parse_enabled, parse_modes, parse_status,
};
use powerstation::devices::GPUDevices;
use powerstation::error::GPUError;
use powerstation::gpu::{
    class_string, get_connector, get_gpu, is_card_name, normalize_id, title_case, GPU, GPUBus,
};
use powerstation::intelgpu::{parse_freq_mhz, IntelGPU};
use powerstation::pci::resolve_pci_names;

/// A miniature PCI identity database in the hwdata layout.
const PCI_DB: &[u8] = b"#\n# A comment line\n\n1002  Advanced Micro Devices, Inc. [AMD/ATI]\n\t163f  VanGogh [AMD Custom GPU 0405]\n\t\t1002 0123  Steam Deck APU\n\t15bf  Phoenix1\n10de  NVIDIA Corporation\n\t2684  AD102 [GeForce RTX 4090]\n8086  Intel Corporation\n\t46a6  Alder Lake-P [Iris Xe Graphics]\n";

#[test]
fn pci_lookup_finds_vendor_device_and_subdevice() {
    let names = resolve_pci_names(PCI_DB, b"1002", b"163f", b"1002", b"0123");
    assert_eq!(names.vendor.unwrap(), b"Advanced Micro Devices, Inc. [AMD/ATI]".to_vec());
    assert_eq!(names.device.unwrap(), b"VanGogh [AMD Custom GPU 0405]".to_vec());
    assert_eq!(names.subdevice.unwrap(), b"Steam Deck APU".to_vec());
}

#[test]
fn pci_lookup_stops_at_section_ends() {
    // The device id exists, but under another vendor.
    let names = resolve_pci_names(PCI_DB, b"10de", b"163f", b"0000", b"0000");
    assert_eq!(names.vendor.unwrap(), b"NVIDIA Corporation".to_vec());
    assert!(names.device.is_none());
    // Unknown vendor: nothing resolves.
    let names = resolve_pci_names(PCI_DB, b"ffff", b"163f", b"0000", b"0000");
    assert!(names.vendor.is_none());
    assert!(names.device.is_none());
    assert!(names.subdevice.is_none());
}

#[test]
fn discovery_classifies_an_amd_card() {
    let r = get_gpu(
        String::from("/sys/class/drm/card0"),
        b"0x030000\n",
        b"0x1002\n",
        b"0x163f\n",
        b"0x00\n",
        b"0x1002\n",
        b"0x0123\n",
        PCI_DB,
    );
    match r.unwrap() {
        GPU::AMD(g) => {
            assert_eq!(g.name, "card0");
            assert_eq!(g.vendor, "AMD");
            assert_eq!(g.vendor_id, "1002");
            assert_eq!(g.device_id, "163f");
            assert_eq!(g.class, "integrated");
            assert_eq!(g.device, "VanGogh [AMD Custom GPU 0405]");
            assert_eq!(g.subdevice, "Steam Deck APU");
        }
        GPU::Intel(_) => panic!("an AMD card classified as Intel"),
    }
}

#[test]
fn discovery_classifies_an_intel_card() {
    let r = get_gpu(
        String::from("/sys/class/drm/card1"),
        b"0x030000\n",
        b"0x8086\n",
        b"0x46a6\n",
        b"0x00\n",
        b"0x8086\n",
        b"0x0000\n",
        PCI_DB,
    );
    match r.unwrap() {
        GPU::Intel(g) => {
            assert_eq!(g.vendor, "Intel");
            assert_eq!(g.device, "Alder Lake-P [Iris Xe Graphics]");
            assert!(g.manual_clock);
        }
        GPU::AMD(_) => panic!("an Intel card classified as AMD"),
    }
}

#[test]
fn discovery_skips_other_vendors() {
    // An NVIDIA card resolves to a vendor the daemon does not support.
    let r = get_gpu(
        String::from("/sys/class/drm/card2"),
        b"0x030000\n",
        b"0x10de\n",
        b"0x2684\n",
        b"0x00\n",
        b"0x0000\n",
        b"0x0000\n",
        PCI_DB,
    );
    assert!(matches!(r, Err(GPUError::FailedOperation(_))));
}

#[test]
fn ids_and_classes_normalize() {
    assert_eq!(normalize_id(b" 0x1002\n"), b"1002".to_vec());
    assert_eq!(normalize_id(b"0x163F\n"), b"163f".to_vec());
    assert_eq!(class_string(b"030000"), "integrated");
    assert_eq!(class_string(b"038000"), "dedicated");
    assert_eq!(class_string(b"0c0330"), "unknown");
}

const PP_OD: &[u8] = b"OD_SCLK:\n0:       200Mhz\n1:      1600Mhz\nOD_RANGE:\nSCLK:     200Mhz      1600Mhz\n";

#[test]
fn overdrive_table_parses_limits_and_values() {
    let (min, max) = get_clock_limits(PP_OD).unwrap();
    assert_eq!((min, max), (200, 1600));
    let (cur_min, cur_max) = get_clock_values(PP_OD).unwrap();
    assert_eq!((cur_min, cur_max), (200, 1600));
    // An empty table — the file outside manual mode — has no limits.
    assert!(matches!(get_clock_limits(b""), Err(GPUError::IOError(_))));
    assert!(matches!(get_clock_values(b"\n"), Err(GPUError::IOError(_))));
}

#[test]
fn overdrive_commands_render_exactly() {
    assert_eq!(render_clock_cmd(0, 800), b"s 0 800\n".to_vec());
    assert_eq!(render_clock_cmd(1, 1600), b"s 1 1600\n".to_vec());
    assert_eq!(render_commit_cmd(), b"c\n".to_vec());
    let card = amd_card();
    let (cmd, commit) = card.set_clock_value_mhz_min(417).unwrap();
    assert_eq!(cmd, b"s 0 417\n".to_vec());
    assert_eq!(commit, b"c\n".to_vec());
    // Zero is rejected before any command is produced.
    assert!(matches!(
        card.set_clock_value_mhz_min(0),
        Err(GPUError::InvalidArgument(_))
    ));
    assert!(matches!(
        card.set_clock_value_mhz_max(0),
        Err(GPUError::InvalidArgument(_))
    ));
    let (cmd, _) = card.set_clock_value_mhz_max(1600).unwrap();
    assert_eq!(cmd, b"s 1 1600\n".to_vec());
}

#[test]
fn manual_clock_round_trips() {
    for x in [true, false] {
        assert_eq!(parse_manual_clock(&render_manual_clock(x)), x);
    }
    assert!(parse_manual_clock(b"manual\n"));
    assert!(!parse_manual_clock(b"auto\n"));
}

fn amd_card() -> AMDGPU {
    AMDGPU {
        name: String::from("card0"),
        path: String::from("/sys/class/drm/card0"),
        class: String::from("integrated"),
        class_id: String::from("030000"),
        vendor: String::from("AMD"),
        vendor_id: String::from("1002"),
        device: String::new(),
        device_id: String::from("163f"),
        device_type: String::new(),
        subdevice: String::new(),
        subdevice_id: String::new(),
        subvendor_id: String::from("1002"),
        revision_id: String::from("00"),
    }
}

fn intel_card() -> IntelGPU {
    IntelGPU {
        name: String::from("card1"),
        path: String::from("/sys/class/drm/card1"),
        class: String::from("integrated"),
        class_id: String::from("030000"),
        vendor: String::from("Intel"),
        vendor_id: String::from("8086"),
        device: String::new(),
        device_id: String::from("46a6"),
        device_type: String::new(),
        subdevice: String::new(),
        subdevice_id: String::new(),
        subvendor_id: String::from("8086"),
        revision_id: String::from("00"),
        manual_clock: true,
    }
}

#[test]
fn intel_clocks_parse_render_and_reject_zero() {
    assert_eq!(parse_freq_mhz(b"350\n").unwrap(), 350);
    assert!(parse_freq_mhz(b"\n").is_err());
    let mut card = intel_card();
    assert!(matches!(
        card.set_clock_value_mhz_min(0),
        Err(GPUError::InvalidArgument(_))
    ));
    assert_eq!(card.set_clock_value_mhz_min(800).unwrap(), b"800".to_vec());
    assert_eq!(card.set_clock_value_mhz_max(1100).unwrap(), b"1100".to_vec());
    // The written digits read back as the same value.
    let written = card.set_clock_value_mhz_max(1100).unwrap();
    assert_eq!(parse_freq_mhz(&written).unwrap(), 1100);
}

#[test]
fn intel_manual_clock_round_trips_in_process() {
    let mut card = intel_card();
    card.set_manual_clock(false).unwrap();
    assert!(!card.manual_clock());
    card.set_manual_clock(true).unwrap();
    assert!(card.manual_clock());
}

#[test]
fn connectors_parse_their_files() {
    let c = get_connector(String::from("card0"), String::from("card0-HDMI-A-1"));
    assert_eq!(c.name, "HDMI-A-1");
    assert_eq!(c.path, "/sys/class/drm/card0-HDMI-A-1");
    assert_eq!(parse_connector_id(b"123\n").unwrap(), 123);
    assert!(parse_connector_id(b"x\n").is_none());
    assert!(parse_enabled(b"enabled\n"));
    assert!(!parse_enabled(b"disabled\n"));
    assert!(parse_dpms(b"On\n"));
    assert!(!parse_dpms(b"Off\n"));
    assert_eq!(parse_status(b"connected\n"), "connected");
    let modes = parse_modes(b"1920x1080\n1280x720\n\n");
    assert_eq!(modes, vec![String::from("1920x1080"), String::from("1280x720")]);
}

#[test]
fn card_names_match_exactly() {
    assert!(is_card_name(b"card0"));
    assert!(is_card_name(b"card12"));
    assert!(!is_card_name(b"card"));
    assert!(!is_card_name(b"card0-HDMI-A-1"));
    assert!(!is_card_name(b"renderD128"));
    assert!(!is_card_name(b"cardX"));
}

#[test]
fn busy_percent_parses() {
    assert_eq!(powerstation::gpu::parse_busy_percent(b"42\n").unwrap(), 42);
    assert!(powerstation::gpu::parse_busy_percent(b"lots\n").is_err());
    assert!(powerstation::gpu::parse_busy_percent(b"300\n").is_err());
}

#[test]
fn card_object_names_and_paths() {
    assert_eq!(title_case(&String::from("card0")), "Card0");
    assert_eq!(title_case(&String::from("")), "");
    let dev = GPUDevices::AmdGpu(amd_card());
    assert_eq!(dev.get_gpu_path(), "/org/shadowblip/Performance/GPU/card0");
    assert!(dev.wants_tdp_interface());
    assert_eq!(dev.name(), "card0");
    assert_eq!(dev.class(), "integrated");
    let bus = GPUBus::new(vec![String::from("/org/shadowblip/Performance/GPU/Card0")]);
    let cards = bus.enumerate_cards();
    assert_eq!(cards, vec![String::from("/org/shadowblip/Performance/GPU/Card0")]);
}
