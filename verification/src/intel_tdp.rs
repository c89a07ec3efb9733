//! Intel RAPL TDP backend.
//!
//! The kernel exposes two power limits under the powercap hierarchy, in
//! microwatts: the sustained (long-term) limit and the peak (short-term)
//! limit.  The TDP is the sustained limit; the boost is the headroom of
//! the peak limit above it.  Changing the TDP keeps that headroom.

use vstd::prelude::*;
use vstd::string::StringExecFns;

use crate::error::TDPError;
use crate::hardware::Hardware;
use crate::tdp::HardwareAccess;

verus! {

/// The two RAPL power limits, in microwatts: `long_uw` is the first
/// constraint (sustained), `short_uw` the second (peak).
pub struct RaplLimits {
    pub long_uw: u64,
    pub short_uw: u64,
}

/// The RAPL TDP backend.  The limits themselves live in the kernel; the
/// caller reads them, lets this backend compute, and writes back.
pub struct Tdp {
    pub hardware: Option<Hardware>,
}

impl HardwareAccess for Tdp {
    open spec fn spec_hardware(&self) -> Option<Hardware> {
        self.hardware
    }

    fn hardware(&self) -> (r: Option<&Hardware>) {
        self.hardware.as_ref()
    }
}

/// The boost the limits encode: the peak limit's headroom above the
/// sustained limit, and zero when the peak sits below it.
pub open spec fn spec_boost_uw(l: RaplLimits) -> nat {
    if l.short_uw >= l.long_uw {
        (l.short_uw - l.long_uw) as nat
    } else {
        0
    }
}

/// The limits after a TDP change: the sustained limit becomes the new
/// value and the peak limit follows at the old boost distance.
pub open spec fn spec_set_tdp(l: RaplLimits, value_uw: u64) -> RaplLimits {
    RaplLimits { long_uw: value_uw, short_uw: (value_uw + spec_boost_uw(l)) as u64 }
}

/// The limits after a boost change: the peak limit moves to the
/// sustained limit plus the new boost.
pub open spec fn spec_set_boost(l: RaplLimits, value_uw: u64) -> RaplLimits {
    RaplLimits { long_uw: l.long_uw, short_uw: (l.long_uw + value_uw) as u64 }
}

impl Tdp {
    pub fn new(hardware: Option<Hardware>) -> (r: Tdp)
        ensures
            r.hardware == hardware,
    {
        Tdp { hardware }
    }

    /// The TDP the limits encode, in microwatts.
    pub fn tdp_uw(&self, limits: &RaplLimits) -> (r: u64)
        ensures
            r == limits.long_uw,
    {
        limits.long_uw
    }

    /// The boost the limits encode, in microwatts.
    pub fn boost_uw(&self, limits: &RaplLimits) -> (r: u64)
        ensures
            r as nat == spec_boost_uw(*limits),
    {
        if limits.short_uw >= limits.long_uw {
            limits.short_uw - limits.long_uw
        } else {
            0
        }
    }

    /// Computes the limits to write for a TDP request.  Values below one
    /// watt are rejected and nothing changes; otherwise the sustained
    /// limit becomes the request and the peak limit keeps its boost
    /// distance.
    pub fn set_tdp(&self, limits: &RaplLimits, value_uw: u64) -> (r: Result<RaplLimits, TDPError>)
        requires
            value_uw + spec_boost_uw(*limits) <= u64::MAX,
        ensures
            value_uw < 1000000 ==> (r matches Err(TDPError::InvalidArgument(_))),
            value_uw >= 1000000 ==> (r matches Ok(nl) && nl == spec_set_tdp(*limits, value_uw)),
    {
        if value_uw < 1000000 {
            return Err(
                TDPError::InvalidArgument(
                    String::from_str("refusing to set TDP below 1 W"),
                ),
            );
        }
        let boost = self.boost_uw(limits);
        Ok(RaplLimits { long_uw: value_uw, short_uw: value_uw + boost })
    }

    /// Computes the limits to write for a boost request.  Negative
    /// values are rejected; otherwise the peak limit moves to the
    /// sustained limit plus the request.
    pub fn set_boost(&self, limits: &RaplLimits, value_uw: i64) -> (r: Result<RaplLimits, TDPError>)
        requires
            value_uw >= 0 ==> limits.long_uw + value_uw <= u64::MAX,
        ensures
            value_uw < 0 ==> (r matches Err(TDPError::InvalidArgument(_))),
            value_uw >= 0 ==> (r matches Ok(nl) && nl == spec_set_boost(*limits, value_uw as u64)),
    {
        if value_uw < 0 {
            return Err(
                TDPError::InvalidArgument(
                    String::from_str("refusing to set boost below 0 W"),
                ),
            );
        }
        Ok(RaplLimits { long_uw: limits.long_uw, short_uw: limits.long_uw + (value_uw as u64) })
    }

    /// RAPL offers no thermal throttle limit.
    pub fn thermal_throttle_limit_c(&self) -> (r: Result<u64, TDPError>)
        ensures
            r matches Err(TDPError::FeatureUnsupported),
    {
        Err(TDPError::FeatureUnsupported)
    }

    /// RAPL offers no thermal throttle limit.
    pub fn set_thermal_throttle_limit_c(&self, _limit_c: u64) -> (r: Result<(), TDPError>)
        ensures
            r matches Err(TDPError::FeatureUnsupported),
    {
        Err(TDPError::FeatureUnsupported)
    }

    /// RAPL offers no power profiles.
    pub fn power_profile(&self) -> (r: Result<String, TDPError>)
        ensures
            r matches Err(TDPError::FeatureUnsupported),
    {
        Err(TDPError::FeatureUnsupported)
    }

    /// RAPL offers no power profiles.
    pub fn set_power_profile(&self, _profile: String) -> (r: Result<(), TDPError>)
        ensures
            r matches Err(TDPError::FeatureUnsupported),
    {
        Err(TDPError::FeatureUnsupported)
    }

    /// RAPL offers no power profiles.
    pub fn power_profiles_available(&self) -> (r: Result<Vec<String>, TDPError>)
        ensures
            r matches Err(TDPError::FeatureUnsupported),
    {
        Err(TDPError::FeatureUnsupported)
    }
}

/// Setting the TDP keeps the boost distance: reading the boost right
/// after a TDP change gives the boost read right before it.
pub proof fn lemma_rapl_boost_preserved(l: RaplLimits, value_uw: u64)
    requires
        value_uw + spec_boost_uw(l) <= u64::MAX,
    ensures
        spec_boost_uw(spec_set_tdp(l, value_uw)) == spec_boost_uw(l),
{
}

/// Every limit pair a TDP or boost change writes keeps the peak limit
/// at or above the sustained limit, so the invariant holds over any
/// sequence of such changes.
pub proof fn lemma_rapl_order(l: RaplLimits, tdp_uw: u64, boost_uw: u64)
    requires
        tdp_uw + spec_boost_uw(l) <= u64::MAX,
        l.long_uw + boost_uw <= u64::MAX,
    ensures
        spec_set_tdp(l, tdp_uw).short_uw >= spec_set_tdp(l, tdp_uw).long_uw,
        spec_set_boost(l, boost_uw).short_uw >= spec_set_boost(l, boost_uw).long_uw,
{
}

/// A written TDP reads back exactly: the sustained limit is the value
/// set.
pub proof fn lemma_rapl_tdp_round_trip(l: RaplLimits, value_uw: u64)
    requires
        value_uw + spec_boost_uw(l) <= u64::MAX,
    ensures
        spec_set_tdp(l, value_uw).long_uw == value_uw,
{
}

/// A written boost reads back exactly.
pub proof fn lemma_rapl_boost_round_trip(l: RaplLimits, value_uw: u64)
    requires
        l.long_uw + value_uw <= u64::MAX,
    ensures
        spec_boost_uw(spec_set_boost(l, value_uw)) == value_uw,
{
}

} // verus!
