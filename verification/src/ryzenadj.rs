//! AMD RyzenAdj TDP backend.
//!
//! The backend drives the native MSR control library.  Its units are
//! milliwatts: the TDP is the STAPM limit, the boost is the slow PPT
//! limit's headroom above it, and the fast PPT limit follows the slow
//! one at 25% extra.  Some APUs cannot read their own limits back; for
//! those, reads are served from an in-process shadow of the last write,
//! seeded with known defaults.  The library calls themselves are made
//! by the caller, which hands their results in.

use vstd::prelude::*;
use vstd::string::StringExecFns;

use crate::error::TDPError;
use crate::hardware::Hardware;
use crate::tdp::HardwareAccess;
use crate::text;

verus! {

/// One call into the MSR control library, units as the library takes
/// them: milliwatts for power limits, degrees Celsius for the thermal
/// limit.
pub enum RyzenAdjCall {
    SetStapmLimit(u32),
    SetSlowLimit(u32),
    SetFastLimit(u32),
    SetTctlTemp(u32),
    SetPowerSaving,
    SetMaxPerformance,
}

/// The RyzenAdj backend state: the device it drives, the last-written
/// power profile, and the shadows served to APUs that cannot read their
/// own limits.
pub struct RyzenAdjTdp {
    pub device_id: String,
    pub profile: String,
    pub unsupported_stapm_limit_mw: u32,
    pub unsupported_ppt_limit_fast_mw: u32,
    pub unsupported_thm_limit_c: u32,
    pub hardware: Option<Hardware>,
}

impl HardwareAccess for RyzenAdjTdp {
    open spec fn spec_hardware(&self) -> Option<Hardware> {
        self.hardware
    }

    fn hardware(&self) -> (r: Option<&Hardware>) {
        self.hardware.as_ref()
    }
}

/// The device identities whose limits the library cannot read back.
pub open spec fn spec_unsupported(id: Seq<char>) -> bool {
    id == "163f"@ || id == "1435"@
}

/// The backend state after a successful STAPM write: only an unreadable
/// APU's shadow follows the value.
pub open spec fn spec_after_set_stapm(s: RyzenAdjTdp, value_mw: u32) -> RyzenAdjTdp {
    if spec_unsupported(s.device_id@) {
        RyzenAdjTdp { unsupported_stapm_limit_mw: value_mw, ..s }
    } else {
        s
    }
}

/// The backend state after a successful fast PPT write.
pub open spec fn spec_after_set_fast(s: RyzenAdjTdp, value_mw: u32) -> RyzenAdjTdp {
    if spec_unsupported(s.device_id@) {
        RyzenAdjTdp { unsupported_ppt_limit_fast_mw: value_mw, ..s }
    } else {
        s
    }
}

/// The backend state after a successful thermal limit write.
pub open spec fn spec_after_set_thm(s: RyzenAdjTdp, value_c: u32) -> RyzenAdjTdp {
    if spec_unsupported(s.device_id@) {
        RyzenAdjTdp { unsupported_thm_limit_c: value_c, ..s }
    } else {
        s
    }
}

impl RyzenAdjTdp {
    /// Builds the backend state for a device, seeding the shadows with
    /// the known defaults of the unreadable APUs.
    pub fn new(_path: String, device_id: String, hardware: Option<Hardware>) -> (r: RyzenAdjTdp)
        ensures
            r.device_id == device_id,
            r.profile@ == "power-saving"@,
            spec_unsupported(device_id@) ==> r.unsupported_stapm_limit_mw == 12000
                && r.unsupported_ppt_limit_fast_mw == 15000,
            !spec_unsupported(device_id@) ==> r.unsupported_stapm_limit_mw == 10000
                && r.unsupported_ppt_limit_fast_mw == 10000,
            r.unsupported_thm_limit_c == 95,
            r.hardware == hardware,
    {
        proof {
            reveal_strlit("163f");
            reveal_strlit("1435");
            assert(("163f").is_ascii());
            assert(("1435").is_ascii());
        }
        let unsupported = text::str_eq_lit(device_id.as_str(), "163f") || text::str_eq_lit(
            device_id.as_str(),
            "1435",
        );
        let stapm: u32 = if unsupported {
            12000
        } else {
            10000
        };
        let fast: u32 = if unsupported {
            15000
        } else {
            10000
        };
        RyzenAdjTdp {
            device_id,
            profile: String::from_str("power-saving"),
            unsupported_stapm_limit_mw: stapm,
            unsupported_ppt_limit_fast_mw: fast,
            unsupported_thm_limit_c: 95,
            hardware,
        }
    }

    /// Whether the library cannot read this device's limits back.
    pub fn is_unsupported_gpu(&self) -> (r: bool)
        ensures
            r == spec_unsupported(self.device_id@),
    {
        proof {
            reveal_strlit("163f");
            reveal_strlit("1435");
            assert(("163f").is_ascii());
            assert(("1435").is_ascii());
        }
        text::str_eq_lit(self.device_id.as_str(), "163f") || text::str_eq_lit(
            self.device_id.as_str(),
            "1435",
        )
    }

    /// What a STAPM limit read returns: the shadow on unreadable APUs,
    /// the library's answer otherwise.
    pub open spec fn spec_read_stapm(&self, lib_mw: Result<u32, String>) -> Result<u32, String> {
        if spec_unsupported(self.device_id@) {
            Result::Ok(self.unsupported_stapm_limit_mw)
        } else {
            lib_mw
        }
    }

    /// Resolves a STAPM limit read from the library's answer.
    pub fn read_stapm_limit(&self, lib_mw: Result<u32, String>) -> (r: Result<u32, String>)
        ensures
            r == self.spec_read_stapm(lib_mw),
    {
        if self.is_unsupported_gpu() {
            Ok(self.unsupported_stapm_limit_mw)
        } else {
            lib_mw
        }
    }

    /// What a fast PPT limit read returns.
    pub open spec fn spec_read_fast(&self, lib_mw: Result<u32, String>) -> Result<u32, String> {
        if spec_unsupported(self.device_id@) {
            Result::Ok(self.unsupported_ppt_limit_fast_mw)
        } else {
            lib_mw
        }
    }

    /// Resolves a fast PPT limit read from the library's answer.
    pub fn read_fast_limit(&self, lib_mw: Result<u32, String>) -> (r: Result<u32, String>)
        ensures
            r == self.spec_read_fast(lib_mw),
    {
        if self.is_unsupported_gpu() {
            Ok(self.unsupported_ppt_limit_fast_mw)
        } else {
            lib_mw
        }
    }

    /// What a thermal limit read returns.
    pub open spec fn spec_read_thm(&self, lib_c: Result<u32, String>) -> Result<u32, String> {
        if spec_unsupported(self.device_id@) {
            Result::Ok(self.unsupported_thm_limit_c)
        } else {
            lib_c
        }
    }

    /// Resolves a thermal limit read from the library's answer.
    pub fn read_thm_limit(&self, lib_c: Result<u32, String>) -> (r: Result<u32, String>)
        ensures
            r == self.spec_read_thm(lib_c),
    {
        if self.is_unsupported_gpu() {
            Ok(self.unsupported_thm_limit_c)
        } else {
            lib_c
        }
    }

    /// Records the outcome of a STAPM limit write: on success the
    /// shadow of an unreadable APU follows the written value; a library
    /// failure changes nothing and is passed through.
    pub fn apply_set_stapm(&mut self, value_mw: u32, lib: Result<(), String>) -> (r: Result<
        (),
        String,
    >)
        ensures
            lib is Ok ==> r is Ok && *final(self) == spec_after_set_stapm(*old(self), value_mw),
            lib matches Err(e) ==> (r matches Err(e2) && e2 == e) && *final(self) == *old(self),
    {
        match lib {
            Ok(_) => {
                if self.is_unsupported_gpu() {
                    self.unsupported_stapm_limit_mw = value_mw;
                }
                Ok(())
            },
            Err(e) => Err(e),
        }
    }

    /// Records the outcome of a fast PPT limit write.
    pub fn apply_set_fast(&mut self, value_mw: u32, lib: Result<(), String>) -> (r: Result<
        (),
        String,
    >)
        ensures
            lib is Ok ==> r is Ok && *final(self) == spec_after_set_fast(*old(self), value_mw),
            lib matches Err(e) ==> (r matches Err(e2) && e2 == e) && *final(self) == *old(self),
    {
        match lib {
            Ok(_) => {
                if self.is_unsupported_gpu() {
                    self.unsupported_ppt_limit_fast_mw = value_mw;
                }
                Ok(())
            },
            Err(e) => Err(e),
        }
    }

    /// Records the outcome of a thermal limit write.
    pub fn apply_set_thm(&mut self, value_c: u32, lib: Result<(), String>) -> (r: Result<
        (),
        String,
    >)
        ensures
            lib is Ok ==> r is Ok && *final(self) == spec_after_set_thm(*old(self), value_c),
            lib matches Err(e) ==> (r matches Err(e2) && e2 == e) && *final(self) == *old(self),
    {
        match lib {
            Ok(_) => {
                if self.is_unsupported_gpu() {
                    self.unsupported_thm_limit_c = value_c;
                }
                Ok(())
            },
            Err(e) => Err(e),
        }
    }

    /// The last-written power profile; there is no way to read it from
    /// the hardware.
    pub fn power_profile(&self) -> (r: String)
        ensures
            r@ == self.profile@,
    {
        self.profile.clone()
    }

    /// Picks the library call for a profile request and records the
    /// profile.  Unknown profiles are rejected and nothing changes.
    pub fn set_power_profile(&mut self, profile: String) -> (r: Result<RyzenAdjCall, TDPError>)
        ensures
            profile@ == "power-saving"@ ==> (r matches Ok(RyzenAdjCall::SetPowerSaving))
                && final(self).profile@ == profile@,
            profile@ == "max-performance"@ ==> (r matches Ok(RyzenAdjCall::SetMaxPerformance))
                && final(self).profile@ == profile@,
            profile@ != "power-saving"@ && profile@ != "max-performance"@ ==> (r matches Err(
                TDPError::FailedOperation(_),
            )) && *final(self) == *old(self),
    {
        proof {
            reveal_strlit("power-saving");
            reveal_strlit("max-performance");
            assert(("power-saving").is_ascii());
            assert(("max-performance").is_ascii());
        }
        if text::str_eq_lit(profile.as_str(), "power-saving") {
            self.profile = profile;
            Ok(RyzenAdjCall::SetPowerSaving)
        } else if text::str_eq_lit(profile.as_str(), "max-performance") {
            self.profile = profile;
            Ok(RyzenAdjCall::SetMaxPerformance)
        } else {
            Err(
                TDPError::FailedOperation(
                    String::from_str(
                        "Invalid power profile. Must be in [max-performance, power-saving]",
                    ),
                ),
            )
        }
    }

    /// The profiles this backend understands.
    pub fn power_profiles_available(&self) -> (r: Vec<String>)
        ensures
            r@.len() == 2,
            r@[0]@ == "max-performance"@,
            r@[1]@ == "power-saving"@,
    {
        let mut v: Vec<String> = Vec::new();
        v.push(String::from_str("max-performance"));
        v.push(String::from_str("power-saving"));
        v
    }
}

/// The boost the limits encode: the slow PPT limit's distance above the
/// STAPM limit, or zero when the slow limit reads below one watt.
pub open spec fn spec_boost_mw(slow_mw: u32, stapm_mw: u32) -> int {
    if slow_mw < 1000 {
        0
    } else {
        slow_mw - stapm_mw
    }
}

/// Computes the boost from the slow PPT and STAPM limits.
pub fn boost_mw(slow_mw: u32, stapm_mw: u32) -> (r: i64)
    ensures
        r == spec_boost_mw(slow_mw, stapm_mw),
{
    if slow_mw < 1000 {
        0
    } else {
        (slow_mw as i64) - (stapm_mw as i64)
    }
}

/// The saturating narrowing the library's 32-bit arguments force.
pub open spec fn sat_u32(v: int) -> u32 {
    if v > u32::MAX {
        u32::MAX
    } else if v < 0 {
        0
    } else {
        v as u32
    }
}

/// Validates a TDP request and gives the STAPM value to write.  Values
/// below one watt are rejected.
pub fn plan_set_stapm(value_mw: u64) -> (r: Result<u32, TDPError>)
    ensures
        value_mw < 1000 ==> (r matches Err(TDPError::InvalidArgument(_))),
        value_mw >= 1000 ==> (r matches Ok(v) && v == sat_u32(value_mw as int)),
{
    if value_mw < 1000 {
        return Err(
            TDPError::InvalidArgument(
                String::from_str("Cowardly refusing to set TDP less than 1W"),
            ),
        );
    }
    if value_mw > u32::MAX as u64 {
        Ok(u32::MAX)
    } else {
        Ok(value_mw as u32)
    }
}

/// Validates a boost request and gives the slow and fast PPT values to
/// write: the slow limit is the STAPM limit plus the boost, the fast
/// limit 25% above the slow one.  Negative boosts are rejected.
pub fn plan_set_boost(stapm_mw: u32, value_mw: i64) -> (r: Result<(u32, u32), TDPError>)
    ensures
        value_mw < 0 ==> (r matches Err(TDPError::InvalidArgument(_))),
        value_mw >= 0 ==> (r matches Ok(sf) && sf.0 == sat_u32(stapm_mw + value_mw) && sf.1
            == sat_u32((stapm_mw + value_mw) * 5 / 4)),
{
    if value_mw < 0 {
        return Err(
            TDPError::InvalidArgument(
                String::from_str("Cowardly refusing to set TDP Boost less than 0W"),
            ),
        );
    }
    let slow_wide: u64 = (stapm_mw as u64) + (value_mw as u64);
    let fast_wide: u128 = (slow_wide as u128) * 5 / 4;
    let slow: u32 = if slow_wide > u32::MAX as u64 {
        u32::MAX
    } else {
        slow_wide as u32
    };
    let fast: u32 = if fast_wide > u32::MAX as u128 {
        u32::MAX
    } else {
        fast_wide as u32
    };
    Ok((slow, fast))
}

/// On the APUs the library cannot read, a recorded STAPM write is what
/// every later read returns, whatever the library answers.
pub proof fn lemma_shadow_read(dev: RyzenAdjTdp, lib: Result<u32, String>)
    requires
        spec_unsupported(dev.device_id@),
    ensures
        dev.spec_read_stapm(lib) == Result::<u32, String>::Ok(dev.unsupported_stapm_limit_mw),
{
}

/// Setting the TDP preserves the boost: reading the boost from the
/// limits a TDP change plans gives the boost measured before it.
pub proof fn lemma_ryzenadj_boost_preserved(stapm_new_mw: u32, boost_mw: i64)
    requires
        0 <= boost_mw,
        1000 <= stapm_new_mw,
        stapm_new_mw + boost_mw <= u32::MAX,
    ensures
        spec_boost_mw(sat_u32(stapm_new_mw + boost_mw), stapm_new_mw) == boost_mw,
{
}

} // verus!
