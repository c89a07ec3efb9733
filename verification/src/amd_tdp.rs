//! The AMD TDP aggregator: one facade over the vendor backends.
//!
//! For each operation the backends are tried in a fixed order — the ASUS
//! firmware backend first for power limits, ACPI first for platform
//! profiles, RyzenAdj as the fallback — under the selection rule of
//! [`crate::tdp::aggregate_step`].  The profile limits come only from
//! the hardware database.

use vstd::prelude::*;

use crate::acpi::Acpi;
use crate::asus_wmi::AsusWmi;
use crate::hardware::Hardware;
use crate::ryzenadj::RyzenAdjTdp;
use crate::tdp::HardwareAccess;

verus! {

/// The per-card AMD TDP stack: whichever backends probed successfully
/// at start-up, and the host's hardware profile.
pub struct Tdp {
    pub asus_wmi: Option<AsusWmi>,
    pub acpi: Option<Acpi>,
    pub ryzenadj: Option<RyzenAdjTdp>,
    pub hardware: Option<Hardware>,
}

impl Tdp {
    /// Assembles the stack from the backends that probed successfully.
    pub fn new(
        asus_wmi: Option<AsusWmi>,
        acpi: Option<Acpi>,
        ryzenadj: Option<RyzenAdjTdp>,
        hardware: Option<Hardware>,
    ) -> (r: Tdp)
        ensures
            r.asus_wmi == asus_wmi,
            r.ryzenadj == ryzenadj,
            r.hardware == hardware,
            r.acpi == acpi,
    {
        Tdp { asus_wmi, acpi, ryzenadj, hardware }
    }

    /// Whether a power-limit backend is available at all.
    pub fn has_power_backend(&self) -> (r: bool)
        ensures
            r == (self.asus_wmi is Some || self.ryzenadj is Some),
    {
        self.asus_wmi.is_some() || self.ryzenadj.is_some()
    }

    /// The power-limit backends to try, in preference order: the ASUS
    /// firmware first when it probed, RyzenAdj as the fallback.
    pub fn power_backend_order(&self) -> (r: Vec<PowerBackend>)
        ensures
            r@ == power_order_spec(self.asus_wmi is Some, self.ryzenadj is Some),
    {
        let mut order: Vec<PowerBackend> = Vec::new();
        if self.asus_wmi.is_some() {
            order.push(PowerBackend::AsusWmi);
        }
        if self.ryzenadj.is_some() {
            order.push(PowerBackend::RyzenAdj);
        }
        proof {
            assert(order@ =~= power_order_spec(
                self.asus_wmi is Some,
                self.ryzenadj is Some,
            ));
        }
        order
    }

    /// The platform-profile backends to try, in preference order: ACPI
    /// first when it probed, RyzenAdj as the fallback.
    pub fn profile_backend_order(&self) -> (r: Vec<ProfileBackend>)
        ensures
            r@ == profile_order_spec(self.acpi is Some, self.ryzenadj is Some),
    {
        let mut order: Vec<ProfileBackend> = Vec::new();
        if self.acpi.is_some() {
            order.push(ProfileBackend::Acpi);
        }
        if self.ryzenadj.is_some() {
            order.push(ProfileBackend::RyzenAdj);
        }
        proof {
            assert(order@ =~= profile_order_spec(self.acpi is Some, self.ryzenadj is Some));
        }
        order
    }
}

/// A power-limit backend of the stack.
pub enum PowerBackend {
    AsusWmi,
    RyzenAdj,
}

/// A platform-profile backend of the stack.
pub enum ProfileBackend {
    Acpi,
    RyzenAdj,
}

/// The power-limit preference order: ASUS firmware, then RyzenAdj,
/// each when present.
pub open spec fn power_order_spec(asus: bool, ryzenadj: bool) -> Seq<PowerBackend> {
    (if asus {
        seq![PowerBackend::AsusWmi]
    } else {
        Seq::<PowerBackend>::empty()
    }) + (if ryzenadj {
        seq![PowerBackend::RyzenAdj]
    } else {
        Seq::<PowerBackend>::empty()
    })
}

/// The platform-profile preference order: ACPI, then RyzenAdj, each
/// when present.
pub open spec fn profile_order_spec(acpi: bool, ryzenadj: bool) -> Seq<ProfileBackend> {
    (if acpi {
        seq![ProfileBackend::Acpi]
    } else {
        Seq::<ProfileBackend>::empty()
    }) + (if ryzenadj {
        seq![ProfileBackend::RyzenAdj]
    } else {
        Seq::<ProfileBackend>::empty()
    })
}

impl HardwareAccess for Tdp {
    open spec fn spec_hardware(&self) -> Option<Hardware> {
        self.hardware
    }

    fn hardware(&self) -> (r: Option<&Hardware>) {
        self.hardware.as_ref()
    }
}

} // verus!
