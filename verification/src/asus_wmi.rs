//! ASUS firmware-attribute TDP backend.
//!
//! The firmware exposes three limits in whole watts: the sustained power
//! limit (SPL, the TDP), the slow package power tracking limit (SPPT),
//! and a fast limit the firmware derives itself from the SPPT.  The
//! boost is the SPPT's headroom above the SPL.  This backend mirrors the
//! two firmware registers and computes the writes the caller owes to
//! the firmware, through either of its two transports.

use vstd::prelude::*;
use vstd::string::StringExecFns;

use crate::error::TDPError;

verus! {

/// One firmware register write, in whole watts.
pub enum FirmwareWrite {
    Spl(u8),
    Sppt(u8),
}

/// The mirrored firmware state: the sustained power limit and the slow
/// PPT limit, both whole watts.
pub struct AsusWmi {
    pub spl_w: u8,
    pub sppt_w: u8,
}

/// The boost the registers encode: the SPPT's distance above the SPL,
/// possibly negative.
pub open spec fn spec_boost_w(s: AsusWmi) -> int {
    s.sppt_w - s.spl_w
}

impl AsusWmi {
    /// Mirrors the firmware registers as read at start-up.
    pub fn new(spl_w: u8, sppt_w: u8) -> (r: AsusWmi)
        ensures
            r.spl_w == spl_w,
            r.sppt_w == sppt_w,
    {
        AsusWmi { spl_w, sppt_w }
    }

    /// The current TDP: the sustained power limit.
    pub fn tdp(&self) -> (r: u64)
        ensures
            r == self.spl_w,
    {
        self.spl_w as u64
    }

    /// The current boost: SPPT minus SPL.
    pub fn boost(&self) -> (r: i64)
        ensures
            r == spec_boost_w(*self),
    {
        (self.sppt_w as i64) - (self.spl_w as i64)
    }

    /// Sets the SPPT so the boost above the current SPL becomes
    /// `value_w`.  The combined SPL + boost must land in the firmware's
    /// 1 to 255 watt range, else the request is rejected and nothing
    /// changes.  The owed register write is appended to `writes`.
    pub fn set_boost(&mut self, value_w: i64, writes: &mut Vec<FirmwareWrite>) -> (r: Result<
        (),
        TDPError,
    >)
        ensures
            ({
                let combined = old(self).spl_w + value_w;
                if combined < 1 || combined > 255 {
                    &&& r matches Err(TDPError::InvalidArgument(_))
                    &&& *final(self) == *old(self)
                    &&& final(writes)@ == old(writes)@
                } else {
                    &&& r is Ok
                    &&& final(self).spl_w == old(self).spl_w
                    &&& final(self).sppt_w == combined
                    &&& spec_boost_w(*final(self)) == value_w
                    &&& final(writes)@ == old(writes)@.push(FirmwareWrite::Sppt(combined as u8))
                }
            }),
    {
        let combined: i128 = (self.spl_w as i128) + (value_w as i128);
        if combined < 1 || combined > 255 {
            return Err(
                TDPError::InvalidArgument(
                    String::from_str("Combined TDP + Boost value must be between 1 and 255"),
                ),
            );
        }
        self.sppt_w = combined as u8;
        writes.push(FirmwareWrite::Sppt(combined as u8));
        Ok(())
    }

    /// Sets the SPL to `value_w`, then restores the previous boost on
    /// top of it.  Values outside 1 to 255 watts are rejected before
    /// anything is written.  When the restored boost would leave the
    /// range, the SPL write has already been made and the boost step's
    /// rejection is surfaced; the next successful request restores the
    /// coupling.
    pub fn set_tdp(&mut self, value_w: u64, writes: &mut Vec<FirmwareWrite>) -> (r: Result<
        (),
        TDPError,
    >)
        ensures
            ({
                let boost = spec_boost_w(*old(self));
                let combined = value_w + boost;
                if value_w < 1 || value_w > 255 {
                    &&& r matches Err(TDPError::InvalidArgument(_))
                    &&& *final(self) == *old(self)
                    &&& final(writes)@ == old(writes)@
                } else if combined < 1 || combined > 255 {
                    &&& r matches Err(TDPError::InvalidArgument(_))
                    &&& final(self).spl_w == value_w
                    &&& final(self).sppt_w == old(self).sppt_w
                    &&& final(writes)@ == old(writes)@.push(FirmwareWrite::Spl(value_w as u8))
                } else {
                    &&& r is Ok
                    &&& final(self).spl_w == value_w
                    &&& final(self).sppt_w == combined
                    &&& spec_boost_w(*final(self)) == boost
                    &&& final(writes)@ == old(writes)@.push(
                        FirmwareWrite::Spl(value_w as u8),
                    ).push(FirmwareWrite::Sppt(combined as u8))
                }
            }),
    {
        if value_w < 1 || value_w > 255 {
            return Err(
                TDPError::InvalidArgument(String::from_str("Value must be between 1 and 255")),
            );
        }
        let boost = self.boost();
        self.spl_w = value_w as u8;
        writes.push(FirmwareWrite::Spl(value_w as u8));
        self.set_boost(boost, writes)
    }
}

/// A successful TDP change preserves the boost distance between the two
/// registers.
pub proof fn lemma_asus_boost_preserved(before: AsusWmi, after: AsusWmi, value_w: u64)
    requires
        1 <= value_w <= 255,
        after.spl_w == value_w,
        after.sppt_w == value_w + spec_boost_w(before),
    ensures
        spec_boost_w(after) == spec_boost_w(before),
{
}

} // verus!
