//! Intel graphics cards: identity and GT clock control.
//!
//! The clock files hold whole megahertz: `gt_RPn`/`gt_RP0` are the
//! hardware limits, `gt_min`/`gt_max` the current window.  Writes of
//! zero are rejected.  The manual-clock flag has no sysfs home and is
//! held in process.

use vstd::prelude::*;
use vstd::string::StringExecFns;

use crate::error::GPUError;
use crate::text;

verus! {

/// An Intel card as discovery classified it.
pub struct IntelGPU {
    pub name: String,
    pub path: String,
    pub class: String,
    pub class_id: String,
    pub vendor: String,
    pub vendor_id: String,
    pub device: String,
    pub device_id: String,
    pub device_type: String,
    pub subdevice: String,
    pub subdevice_id: String,
    pub subvendor_id: String,
    pub revision_id: String,
    pub manual_clock: bool,
}

/// What a GT clock file denotes: its trimmed contents as whole
/// megahertz.
pub open spec fn freq_spec(content: Seq<u8>) -> Option<u64> {
    let t = text::trim_spec(content);
    if t.len() > 0 && text::all_digits(t) && text::digits_val(t) <= u64::MAX as nat {
        Option::Some(text::digits_val(t) as u64)
    } else {
        Option::None
    }
}

/// Parses a GT clock file; a file that does not hold a number is a
/// failed operation.
pub fn parse_freq_mhz(content: &[u8]) -> (r: Result<u64, GPUError>)
    ensures
        match freq_spec(content@) {
            Option::Some(v) => r matches Ok(w) && w == v,
            Option::None => r matches Err(GPUError::FailedOperation(_)),
        },
{
    let t = text::trim(content);
    match text::parse_u64(t.as_slice()) {
        Some(v) => Ok(v),
        None => Err(GPUError::FailedOperation(String::from_str("not a whole number of MHz"))),
    }
}

impl IntelGPU {
    /// Decides a minimum-clock write: zero is rejected, anything else
    /// becomes the decimal bytes for `gt_min_freq_mhz`.
    pub fn set_clock_value_mhz_min(&mut self, value: u64) -> (r: Result<Vec<u8>, GPUError>)
        ensures
            *final(self) == *old(self),
            value == 0 ==> (r matches Err(GPUError::InvalidArgument(_))),
            value != 0 ==> (r matches Ok(w) && w@ == text::render_spec(value as nat)),
    {
        if value == 0 {
            return Err(
                GPUError::InvalidArgument(
                    String::from_str("Cowardly refusing to set clock to 0MHz"),
                ),
            );
        }
        Ok(text::render_u64(value))
    }

    /// Decides a maximum-clock write for `gt_max_freq_mhz`.
    pub fn set_clock_value_mhz_max(&mut self, value: u64) -> (r: Result<Vec<u8>, GPUError>)
        ensures
            *final(self) == *old(self),
            value == 0 ==> (r matches Err(GPUError::InvalidArgument(_))),
            value != 0 ==> (r matches Ok(w) && w@ == text::render_spec(value as nat)),
    {
        if value == 0 {
            return Err(
                GPUError::InvalidArgument(
                    String::from_str("Cowardly refusing to set clock to 0MHz"),
                ),
            );
        }
        Ok(text::render_u64(value))
    }

    /// The in-process manual-clock flag.
    pub fn manual_clock(&self) -> (r: bool)
        ensures
            r == self.manual_clock,
    {
        self.manual_clock
    }

    /// Records the manual-clock flag; reading it back gives the value
    /// set.
    pub fn set_manual_clock(&mut self, enabled: bool) -> (r: Result<(), GPUError>)
        ensures
            r is Ok,
            final(self).manual_clock == enabled,
            final(self).name == old(self).name,
            final(self).path == old(self).path,
            final(self).class == old(self).class,
            final(self).class_id == old(self).class_id,
            final(self).vendor == old(self).vendor,
            final(self).vendor_id == old(self).vendor_id,
            final(self).device == old(self).device,
            final(self).device_id == old(self).device_id,
            final(self).device_type == old(self).device_type,
            final(self).subdevice == old(self).subdevice,
            final(self).subdevice_id == old(self).subdevice_id,
            final(self).subvendor_id == old(self).subvendor_id,
            final(self).revision_id == old(self).revision_id,
    {
        self.manual_clock = enabled;
        Ok(())
    }

    pub fn name(&self) -> (r: String)
        ensures
            r@ == self.name@,
    {
        self.name.clone()
    }

    pub fn path(&self) -> (r: String)
        ensures
            r@ == self.path@,
    {
        self.path.clone()
    }

    pub fn class(&self) -> (r: String)
        ensures
            r@ == self.class@,
    {
        self.class.clone()
    }

    pub fn class_id(&self) -> (r: String)
        ensures
            r@ == self.class_id@,
    {
        self.class_id.clone()
    }

    pub fn vendor(&self) -> (r: String)
        ensures
            r@ == self.vendor@,
    {
        self.vendor.clone()
    }

    pub fn vendor_id(&self) -> (r: String)
        ensures
            r@ == self.vendor_id@,
    {
        self.vendor_id.clone()
    }

    pub fn device(&self) -> (r: String)
        ensures
            r@ == self.device@,
    {
        self.device.clone()
    }

    pub fn device_id(&self) -> (r: String)
        ensures
            r@ == self.device_id@,
    {
        self.device_id.clone()
    }

    pub fn subdevice(&self) -> (r: String)
        ensures
            r@ == self.subdevice@,
    {
        self.subdevice.clone()
    }

    pub fn subdevice_id(&self) -> (r: String)
        ensures
            r@ == self.subdevice_id@,
    {
        self.subdevice_id.clone()
    }

    pub fn subvendor_id(&self) -> (r: String)
        ensures
            r@ == self.subvendor_id@,
    {
        self.subvendor_id.clone()
    }

    pub fn revision_id(&self) -> (r: String)
        ensures
            r@ == self.revision_id@,
    {
        self.revision_id.clone()
    }

    /// An Intel card offers the RAPL TDP backend exactly when it is the
    /// integrated one.
    pub fn wants_tdp_interface(&self) -> (r: bool)
        ensures
            r == (self.class@ == "integrated"@),
    {
        proof {
            reveal_strlit("integrated");
            assert(("integrated").is_ascii());
        }
        text::str_eq_lit(self.class.as_str(), "integrated")
    }
}

/// A clock value written as decimal digits reads back as itself: the
/// write-then-read round trip of the GT clock files.
pub proof fn lemma_intel_clock_round_trip(value: u64)
    ensures
        freq_spec(text::render_spec(value as nat)) == Option::Some(value),
{
    text::lemma_render_val(value as nat);
    text::lemma_trim_digits(text::render_spec(value as nat));
}

} // verus!
