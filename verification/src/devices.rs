//! The tagged unions the daemon serves: one per card for TDP control,
//! one per card for clock and identity control.

use vstd::prelude::*;
use vstd::string::StringExecFns;

use crate::amd_tdp;
use crate::amdgpu::AMDGPU;
use crate::error::TDPError;
use crate::intel_tdp;
use crate::intelgpu::IntelGPU;
use crate::tdp::HardwareAccess;

verus! {

/// The TDP backend stack a card carries.
pub enum TDPDevices {
    Amd(amd_tdp::Tdp),
    Intel(intel_tdp::Tdp),
}

impl TDPDevices {
    /// The hardware profile behind the stack.
    pub open spec fn spec_hardware(&self) -> Option<crate::hardware::Hardware> {
        match self {
            TDPDevices::Amd(d) => d.spec_hardware(),
            TDPDevices::Intel(d) => d.spec_hardware(),
        }
    }

    /// The lowest supported TDP, in milliwatts, from the profile alone.
    pub fn min_tdp(&self) -> (r: Result<u64, TDPError>)
        ensures
            match self.spec_hardware() {
                Some(h) => r matches Ok(v) && v == h.min_tdp_mw,
                None => r matches Err(TDPError::FailedOperation(_)),
            },
    {
        match self {
            TDPDevices::Amd(d) => d.min_tdp(),
            TDPDevices::Intel(d) => d.min_tdp(),
        }
    }

    /// The highest supported TDP, in milliwatts.
    pub fn max_tdp(&self) -> (r: Result<u64, TDPError>)
        ensures
            match self.spec_hardware() {
                Some(h) => r matches Ok(v) && v == h.max_tdp_mw,
                None => r matches Err(TDPError::FailedOperation(_)),
            },
    {
        match self {
            TDPDevices::Amd(d) => d.max_tdp(),
            TDPDevices::Intel(d) => d.max_tdp(),
        }
    }

    /// The highest supported boost, in milliwatts.
    pub fn max_boost(&self) -> (r: Result<u64, TDPError>)
        ensures
            match self.spec_hardware() {
                Some(h) => r matches Ok(v) && v == h.max_boost_mw,
                None => r matches Err(TDPError::FailedOperation(_)),
            },
    {
        match self {
            TDPDevices::Amd(d) => d.max_boost(),
            TDPDevices::Intel(d) => d.max_boost(),
        }
    }
}

/// A discovered card of either vendor.
pub enum GPUDevices {
    AmdGpu(AMDGPU),
    IntelGpu(IntelGPU),
}

impl GPUDevices {
    /// The card's DRM name.
    pub open spec fn spec_name(&self) -> Seq<char> {
        match self {
            GPUDevices::AmdGpu(g) => g.name@,
            GPUDevices::IntelGpu(g) => g.name@,
        }
    }

    pub fn name(&self) -> (r: String)
        ensures
            r@ == self.spec_name(),
    {
        match self {
            GPUDevices::AmdGpu(g) => g.name(),
            GPUDevices::IntelGpu(g) => g.name(),
        }
    }

    /// The card's sysfs path.
    pub fn path(&self) -> (r: String)
        ensures
            match self {
                GPUDevices::AmdGpu(g) => r@ == g.path@,
                GPUDevices::IntelGpu(g) => r@ == g.path@,
            },
    {
        match self {
            GPUDevices::AmdGpu(g) => g.path(),
            GPUDevices::IntelGpu(g) => g.path(),
        }
    }

    /// The card's class name.
    pub fn class(&self) -> (r: String)
        ensures
            match self {
                GPUDevices::AmdGpu(g) => r@ == g.class@,
                GPUDevices::IntelGpu(g) => r@ == g.class@,
            },
    {
        match self {
            GPUDevices::AmdGpu(g) => g.class(),
            GPUDevices::IntelGpu(g) => g.class(),
        }
    }

    /// The bus object path the card is served at.
    pub fn get_gpu_path(&self) -> (r: String)
        ensures
            r@ == "/org/shadowblip/Performance/GPU/"@ + self.spec_name(),
    {
        let name = self.name();
        String::from_str("/org/shadowblip/Performance/GPU/").concat(name.as_str())
    }

    /// Whether the card offers a TDP backend: only the integrated card
    /// does.
    pub fn wants_tdp_interface(&self) -> (r: bool)
        ensures
            match self {
                GPUDevices::AmdGpu(g) => r == (g.class@ == "integrated"@),
                GPUDevices::IntelGpu(g) => r == (g.class@ == "integrated"@),
            },
    {
        match self {
            GPUDevices::AmdGpu(g) => g.wants_tdp_interface(),
            GPUDevices::IntelGpu(g) => g.wants_tdp_interface(),
        }
    }
}

} // verus!
