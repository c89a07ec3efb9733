//! Verified core of a CPU/GPU power-management daemon.
//!
//! The library models the hardware state that the daemon controls — CPU
//! core topology, PCI identity of graphics cards, and the vendor TDP
//! backends — as plain values, and proves the control logic over that
//! model.  All kernel and firmware I/O stays outside the library: callers
//! read the relevant pseudo-files, hand their contents in as bytes or
//! integers, and write back the values and commands the library returns.
//!
//! Power units are integral throughout: the RyzenAdj backend counts
//! milliwatts, the RAPL and hwmon backends microwatts, and the ASUS
//! firmware backend whole watts, exactly as the underlying interfaces do.

pub mod connector;
pub mod cpu;
pub mod gpu;
pub mod hardware;
pub mod devices;
pub mod error;
pub mod acpi;
pub mod amd_tdp;
pub mod amdgpu;
pub mod asus;
pub mod asus_wmi;
pub mod hwmon;
pub mod intel_tdp;
pub mod intelgpu;
pub mod pci;
pub mod ryzenadj;
pub mod tdp;
pub mod text;
