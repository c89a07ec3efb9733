//! The ASUS laptop TDP transport that mirrors its limits in process.
//!
//! This backend keeps the last-written TDP and boost, both whole watts,
//! and on every change hands the caller the combined fast PPT value to
//! write — through the vendor daemon when it answers, through the
//! firmware files otherwise.  The throttle policy numbers of those
//! transports map to the two profile names.

use vstd::prelude::*;
use vstd::string::StringExecFns;

use crate::error::TDPError;
use crate::text;

verus! {

/// The mirrored state: last-written TDP and boost, whole watts.
pub struct ASUS {
    pub tdp: u8,
    pub boost: u8,
}

impl ASUS {
    /// The mirror is sound when the combined limit fits the firmware's
    /// single-byte register.  The constructor establishes it and the
    /// setters preserve it.
    pub open spec fn wf(&self) -> bool {
        self.tdp + self.boost <= 255
    }

    /// The initial mirror: a conservative 5 W TDP with no boost.
    pub fn new() -> (r: ASUS)
        ensures
            r.tdp == 5,
            r.boost == 0,
            r.wf(),
    {
        ASUS { tdp: 5, boost: 0 }
    }

    pub fn tdp(&self) -> (r: u64)
        ensures
            r == self.tdp,
    {
        self.tdp as u64
    }

    pub fn boost(&self) -> (r: u64)
        ensures
            r == self.boost,
    {
        self.boost as u64
    }

    /// The combined fast PPT value the firmware wants: TDP plus boost.
    pub fn ppt_fppt(&self) -> (r: u8)
        requires
            self.wf(),
        ensures
            r == self.tdp + self.boost,
    {
        self.tdp + self.boost
    }

    /// Records a TDP change and returns the fast PPT value to write.
    /// A value outside the firmware's range, or one whose combined
    /// limit with the kept boost leaves it, is rejected and nothing
    /// changes.
    pub fn set_tdp(&mut self, value_w: u64) -> (r: Result<u8, TDPError>)
        requires
            old(self).wf(),
        ensures
            final(self).wf(),
            (value_w < 1 || value_w + old(self).boost > 255) ==> (r matches Err(
                TDPError::InvalidArgument(_),
            )) && *final(self) == *old(self),
            (1 <= value_w && value_w + old(self).boost <= 255) ==> (r matches Ok(fppt) && fppt
                == value_w + old(self).boost) && final(self).tdp == value_w && final(self).boost
                == old(self).boost,
    {
        if value_w < 1 || value_w > 255 - (self.boost as u64) {
            return Err(
                TDPError::InvalidArgument(
                    String::from_str("Combined TDP + Boost value must be between 1 and 255"),
                ),
            );
        }
        self.tdp = value_w as u8;
        Ok(self.ppt_fppt())
    }

    /// Records a boost change and returns the fast PPT value to write.
    /// A boost whose combined limit with the kept TDP leaves the
    /// firmware's range is rejected and nothing changes.
    pub fn set_boost(&mut self, value_w: u64) -> (r: Result<u8, TDPError>)
        requires
            old(self).wf(),
        ensures
            final(self).wf(),
            (old(self).tdp + value_w < 1 || old(self).tdp + value_w > 255) ==> (r matches Err(
                TDPError::InvalidArgument(_),
            )) && *final(self) == *old(self),
            (1 <= old(self).tdp + value_w <= 255) ==> (r matches Ok(fppt) && fppt == old(self).tdp
                + value_w) && final(self).tdp == old(self).tdp && final(self).boost == value_w,
    {
        if value_w > 255 - (self.tdp as u64) || (self.tdp as u64) + value_w < 1 {
            return Err(
                TDPError::InvalidArgument(
                    String::from_str("Combined TDP + Boost value must be between 1 and 255"),
                ),
            );
        }
        self.boost = value_w as u8;
        Ok(self.ppt_fppt())
    }
}

/// The profile a firmware throttle-policy byte means: 1 is performance,
/// everything else power saving.
pub fn profile_from_wmi_policy(value: u8) -> (r: String)
    ensures
        value == 1 ==> r@ == "max-performance"@,
        value != 1 ==> r@ == "power-saving"@,
{
    if value == 1 {
        String::from_str("max-performance")
    } else {
        String::from_str("power-saving")
    }
}

/// The profile a daemon throttle-policy word means: 0 and 2 (balanced
/// and quiet) are power saving, everything else performance.
pub fn profile_from_daemon_policy(value: u32) -> (r: String)
    ensures
        value == 0 || value == 2 ==> r@ == "power-saving"@,
        value != 0 && value != 2 ==> r@ == "max-performance"@,
{
    if value == 0 || value == 2 {
        String::from_str("power-saving")
    } else {
        String::from_str("max-performance")
    }
}

/// The throttle policy a profile name asks for: performance is 1, power
/// saving 0, and any other name asks for nothing.
pub fn policy_for_profile(profile: &String) -> (r: Option<u32>)
    ensures
        profile@ == "max-performance"@ ==> (r matches Some(p) && p == 1),
        profile@ == "power-saving"@ ==> (r matches Some(p) && p == 0),
        profile@ != "max-performance"@ && profile@ != "power-saving"@ ==> r is None,
{
    proof {
        reveal_strlit("max-performance");
        reveal_strlit("power-saving");
        assert(("max-performance").is_ascii());
        assert(("power-saving").is_ascii());
    }
    if text::str_eq_lit(profile.as_str(), "max-performance") {
        Some(1)
    } else if text::str_eq_lit(profile.as_str(), "power-saving") {
        Some(0)
    } else {
        None
    }
}

} // verus!
