//! AMD graphics cards: identity, overdrive clock table, and the manual
//! performance level.
//!
//! In manual mode the overdrive file lists, among other lines, the
//! hardware clock range as `SCLK: <min>Mhz <max>Mhz` and the current
//! window as `0: <min>Mhz` and `1: <max>Mhz`.  Writes go through the
//! same file as `s <slot> <value>` commands followed by a literal
//! commit command; both must succeed.

use vstd::prelude::*;
use vstd::string::StringExecFns;

use crate::error::GPUError;
use crate::text;

verus! {

/// An AMD card as discovery classified it.
pub struct AMDGPU {
    pub name: String,
    pub path: String,
    pub class: String,
    pub class_id: String,
    pub vendor: String,
    pub vendor_id: String,
    pub device: String,
    pub device_id: String,
    pub device_type: String,
    pub subdevice: String,
    pub subdevice_id: String,
    pub subvendor_id: String,
    pub revision_id: String,
}

/// The `Mhz` unit suffix of the overdrive table.
pub open spec fn mhz_suffix() -> Seq<u8> {
    seq![77u8, 104u8, 122u8]
}

/// The `SCLK:` tag of the limits line.
pub open spec fn sclk_tag() -> Seq<u8> {
    seq![83u8, 67u8, 76u8, 75u8, 58u8]
}

/// The `0:` tag of the current-minimum line.
pub open spec fn min_tag() -> Seq<u8> {
    seq![48u8, 58u8]
}

/// The `1:` tag of the current-maximum line.
pub open spec fn max_tag() -> Seq<u8> {
    seq![49u8, 58u8]
}

/// The megahertz a table token denotes: the token with its `Mhz`
/// suffixes removed, read as a decimal number.
pub open spec fn mhz_val(tok: Seq<u8>) -> Option<u64> {
    let t = text::strip_suffix_all_spec(tok, mhz_suffix());
    if t.len() > 0 && text::all_digits(t) && text::digits_val(t) <= u64::MAX as nat {
        Option::Some(text::digits_val(t) as u64)
    } else {
        Option::None
    }
}

/// One sweep over the table's lines for the `SCLK:` hardware limits,
/// the later lines overriding the earlier: each well-formed value token
/// after the tag updates its slot, a malformed or missing token leaves
/// it.
pub open spec fn limits_scan(
    lines: Seq<Seq<u8>>,
    i: int,
    min: Option<u64>,
    max: Option<u64>,
) -> (Option<u64>, Option<u64>)
    decreases lines.len() - i,
{
    if i < 0 || i >= lines.len() {
        (min, max)
    } else {
        let ts = text::tokens_spec(lines[i]);
        if ts.len() == 0 || ts[0] != sclk_tag() {
            limits_scan(lines, i + 1, min, max)
        } else if ts.len() < 2 {
            limits_scan(lines, i + 1, min, max)
        } else {
            match mhz_val(ts[1]) {
                Option::None => limits_scan(lines, i + 1, min, max),
                Option::Some(v2) => {
                    if ts.len() < 3 {
                        limits_scan(lines, i + 1, Option::Some(v2), max)
                    } else {
                        match mhz_val(ts[2]) {
                            Option::None => limits_scan(lines, i + 1, Option::Some(v2), max),
                            Option::Some(v3) => limits_scan(
                                lines,
                                i + 1,
                                Option::Some(v2),
                                Option::Some(v3),
                            ),
                        }
                    }
                },
            }
        }
    }
}

/// One sweep over the table's lines for the current clock window: `0:`
/// lines set the minimum, `1:` lines the maximum.
pub open spec fn values_scan(
    lines: Seq<Seq<u8>>,
    i: int,
    min: Option<u64>,
    max: Option<u64>,
) -> (Option<u64>, Option<u64>)
    decreases lines.len() - i,
{
    if i < 0 || i >= lines.len() {
        (min, max)
    } else {
        let ts = text::tokens_spec(lines[i]);
        if ts.len() < 2 || (ts[0] != min_tag() && ts[0] != max_tag()) {
            values_scan(lines, i + 1, min, max)
        } else {
            match mhz_val(ts[1]) {
                Option::None => values_scan(lines, i + 1, min, max),
                Option::Some(v) => {
                    if ts[0] == min_tag() {
                        values_scan(lines, i + 1, Option::Some(v), max)
                    } else {
                        values_scan(lines, i + 1, min, Option::Some(v))
                    }
                },
            }
        }
    }
}

/// Parses a table value token.
fn parse_mhz(tok: &[u8]) -> (r: Option<u64>)
    ensures
        r == mhz_val(tok@),
{
    let mut suf: Vec<u8> = Vec::new();
    suf.push(77);
    suf.push(104);
    suf.push(122);
    proof {
        assert(suf@ =~= mhz_suffix());
    }
    let t = text::strip_suffix_all(tok, suf.as_slice());
    text::parse_u64(t.as_slice())
}

/// Reads the hardware clock range from the overdrive table.  A table
/// without a complete `SCLK:` line — the file is empty outside manual
/// mode — has no limits to give.
pub fn get_clock_limits(content: &[u8]) -> (r: Result<(u64, u64), GPUError>)
    ensures
        ({
            let scan = limits_scan(
                text::lines_spec(content@),
                0,
                Option::None,
                Option::None,
            );
            match scan {
                (Option::Some(mn), Option::Some(mx)) => r matches Ok(p) && p.0 == mn && p.1 == mx,
                _ => r matches Err(GPUError::IOError(_)),
            }
        }),
{
    let lines = text::split_lines(content);
    let ghost dv = lines.deep_view();
    proof {
        assert(forall|q: int| 0 <= q < dv.len() ==> dv[q] =~= (#[trigger] lines@[q])@);
    }
    let mut tag: Vec<u8> = Vec::new();
    tag.push(83);
    tag.push(67);
    tag.push(76);
    tag.push(75);
    tag.push(58);
    proof {
        assert(tag@ =~= sclk_tag());
    }
    let mut min: Option<u64> = None;
    let mut max: Option<u64> = None;
    let mut i: usize = 0;
    while i < lines.len()
        invariant
            0 <= i <= dv.len(),
            dv == lines.deep_view(),
            forall|q: int| 0 <= q < dv.len() ==> dv[q] == (#[trigger] lines@[q])@,
            tag@ == sclk_tag(),
            limits_scan(dv, 0, Option::None, Option::None) == limits_scan(dv, i as int, min, max),
        decreases dv.len() - i,
    {
        let toks = text::split_tokens(lines[i].as_slice());
        let ghost ts = toks.deep_view();
        proof {
            assert(lines@[i as int]@ == dv[i as int]);
            assert(forall|w: int| 0 <= w < ts.len() ==> ts[w] =~= (#[trigger] toks@[w])@);
        }
        if toks.len() >= 2 && text::bytes_eq(toks[0].as_slice(), tag.as_slice()) {
            match parse_mhz(toks[1].as_slice()) {
                Some(v2) => {
                    min = Some(v2);
                    if toks.len() >= 3 {
                        match parse_mhz(toks[2].as_slice()) {
                            Some(v3) => {
                                max = Some(v3);
                            },
                            None => {},
                        }
                    }
                },
                None => {},
            }
        }
        i = i + 1;
    }
    match (min, max) {
        (Some(mn), Some(mx)) => Ok((mn, mx)),
        _ => Err(GPUError::IOError(String::from_str("No limits found"))),
    }
}

/// Reads the current clock window from the overdrive table.
pub fn get_clock_values(content: &[u8]) -> (r: Result<(u64, u64), GPUError>)
    ensures
        ({
            let scan = values_scan(
                text::lines_spec(content@),
                0,
                Option::None,
                Option::None,
            );
            match scan {
                (Option::Some(mn), Option::Some(mx)) => r matches Ok(p) && p.0 == mn && p.1 == mx,
                _ => r matches Err(GPUError::IOError(_)),
            }
        }),
{
    let lines = text::split_lines(content);
    let ghost dv = lines.deep_view();
    proof {
        assert(forall|q: int| 0 <= q < dv.len() ==> dv[q] =~= (#[trigger] lines@[q])@);
    }
    let mut tag0: Vec<u8> = Vec::new();
    tag0.push(48);
    tag0.push(58);
    let mut tag1: Vec<u8> = Vec::new();
    tag1.push(49);
    tag1.push(58);
    proof {
        assert(tag0@ =~= min_tag());
        assert(tag1@ =~= max_tag());
    }
    let mut min: Option<u64> = None;
    let mut max: Option<u64> = None;
    let mut i: usize = 0;
    while i < lines.len()
        invariant
            0 <= i <= dv.len(),
            dv == lines.deep_view(),
            forall|q: int| 0 <= q < dv.len() ==> dv[q] == (#[trigger] lines@[q])@,
            tag0@ == min_tag(),
            tag1@ == max_tag(),
            values_scan(dv, 0, Option::None, Option::None) == values_scan(dv, i as int, min, max),
        decreases dv.len() - i,
    {
        let toks = text::split_tokens(lines[i].as_slice());
        let ghost ts = toks.deep_view();
        proof {
            assert(lines@[i as int]@ == dv[i as int]);
            assert(forall|w: int| 0 <= w < ts.len() ==> ts[w] =~= (#[trigger] toks@[w])@);
        }
        if toks.len() >= 2 {
            let is0 = text::bytes_eq(toks[0].as_slice(), tag0.as_slice());
            let is1 = text::bytes_eq(toks[0].as_slice(), tag1.as_slice());
            if is0 || is1 {
                match parse_mhz(toks[1].as_slice()) {
                    Some(v) => {
                        if is0 {
                            min = Some(v);
                        } else {
                            max = Some(v);
                        }
                    },
                    None => {},
                }
            }
        }
        i = i + 1;
    }
    match (min, max) {
        (Some(mn), Some(mx)) => Ok((mn, mx)),
        _ => Err(GPUError::IOError(String::from_str("No limits found"))),
    }
}

/// The overdrive command that sets clock slot `slot` to `value`:
/// `s <slot> <value>` and a newline.
pub open spec fn clock_cmd_spec(slot: u8, value: u64) -> Seq<u8> {
    seq![115u8, 32u8, (48 + slot) as u8, 32u8] + text::render_spec(value as nat) + seq![10u8]
}

/// Renders an overdrive clock command.
pub fn render_clock_cmd(slot: u8, value: u64) -> (r: Vec<u8>)
    requires
        slot <= 1,
    ensures
        r@ == clock_cmd_spec(slot, value),
{
    let mut r: Vec<u8> = Vec::new();
    r.push(115);
    r.push(32);
    r.push(48 + slot);
    r.push(32);
    let digits = text::render_u64(value);
    let ghost head = r@;
    let mut k: usize = 0;
    while k < digits.len()
        invariant
            0 <= k <= digits@.len(),
            r@ == head + digits@.subrange(0, k as int),
        decreases digits@.len() - k,
    {
        r.push(digits[k]);
        proof {
            assert(r@ =~= head + digits@.subrange(0, k + 1));
        }
        k = k + 1;
    }
    proof {
        assert(digits@.subrange(0, digits@.len() as int) =~= digits@);
    }
    r.push(10);
    proof {
        assert(r@ =~= clock_cmd_spec(slot, value));
    }
    r
}

/// The literal commit command the overdrive file wants after a change.
pub fn render_commit_cmd() -> (r: Vec<u8>)
    ensures
        r@ == seq![99u8, 10u8],
{
    let mut r: Vec<u8> = Vec::new();
    r.push(99);
    r.push(10);
    proof {
        assert(r@ =~= seq![99u8, 10u8]);
    }
    r
}

/// The performance level file reads manual exactly when its trimmed,
/// lower-cased contents are `manual`.
pub open spec fn manual_clock_spec(content: Seq<u8>) -> bool {
    text::lower_spec(text::trim_spec(content)) == text::chars_bytes("manual"@)
}

/// Parses the performance level file.
pub fn parse_manual_clock(content: &[u8]) -> (r: bool)
    ensures
        r == manual_clock_spec(content@),
{
    proof {
        reveal_strlit("manual");
        assert(("manual").is_ascii());
    }
    let t0 = text::trim(content);
    let t = text::to_lower(t0.as_slice());
    text::eq_str(t.as_slice(), "manual")
}

/// The bytes written to pick a performance level: `manual` or `auto`.
pub open spec fn render_manual_spec(enabled: bool) -> Seq<u8> {
    if enabled {
        text::chars_bytes("manual"@)
    } else {
        text::chars_bytes("auto"@)
    }
}

/// Renders a performance level write.
pub fn render_manual_clock(enabled: bool) -> (r: Vec<u8>)
    ensures
        r@ == render_manual_spec(enabled),
{
    proof {
        reveal_strlit("manual");
        reveal_strlit("auto");
        assert(("manual").is_ascii());
        assert(("auto").is_ascii());
    }
    if enabled {
        text::str_bytes("manual")
    } else {
        text::str_bytes("auto")
    }
}

/// A performance level written by [`render_manual_clock`] reads back as
/// itself.
pub proof fn lemma_manual_clock_round_trip(enabled: bool)
    ensures
        manual_clock_spec(render_manual_spec(enabled)) == enabled,
{
    reveal_strlit("manual");
    reveal_strlit("auto");
    let w = render_manual_spec(enabled);
    assert(forall|i: int| 0 <= i < w.len() ==> !text::is_ws(#[trigger] w[i]));
    assert(!text::is_ws(w[0]));
    assert(!text::is_ws(w.last()));
    assert(text::trim_start_spec(w) == w);
    assert(text::trim_end_spec(w) == w);
    assert(text::lower_spec(w) =~= w);
    if !enabled {
        assert(w.len() == 4);
        assert(text::chars_bytes("manual"@).len() == 6);
    }
}

impl AMDGPU {
    /// Decides the writes for a minimum-clock change: zero is rejected
    /// before anything is written, anything else becomes the slot-zero
    /// command and the commit, both to the overdrive file.
    pub fn set_clock_value_mhz_min(&self, value: u64) -> (r: Result<(Vec<u8>, Vec<u8>), GPUError>)
        ensures
            value == 0 ==> (r matches Err(GPUError::InvalidArgument(_))),
            value != 0 ==> (r matches Ok(w) && w.0@ == clock_cmd_spec(0, value) && w.1@ == seq![
                99u8,
                10u8,
            ]),
    {
        if value == 0 {
            return Err(
                GPUError::InvalidArgument(
                    String::from_str("Cowardly refusing to set clock to 0MHz"),
                ),
            );
        }
        Ok((render_clock_cmd(0, value), render_commit_cmd()))
    }

    /// Decides the writes for a maximum-clock change: zero is rejected,
    /// anything else becomes the slot-one command and the commit.
    pub fn set_clock_value_mhz_max(&self, value: u64) -> (r: Result<(Vec<u8>, Vec<u8>), GPUError>)
        ensures
            value == 0 ==> (r matches Err(GPUError::InvalidArgument(_))),
            value != 0 ==> (r matches Ok(w) && w.0@ == clock_cmd_spec(1, value) && w.1@ == seq![
                99u8,
                10u8,
            ]),
    {
        if value == 0 {
            return Err(
                GPUError::InvalidArgument(
                    String::from_str("Cowardly refusing to set clock to 0MHz"),
                ),
            );
        }
        Ok((render_clock_cmd(1, value), render_commit_cmd()))
    }

    /// An AMD card offers a TDP backend exactly when it is the
    /// integrated one.
    pub fn wants_tdp_interface(&self) -> (r: bool)
        ensures
            r == (self.class@ == "integrated"@),
    {
        proof {
            reveal_strlit("integrated");
            assert(("integrated").is_ascii());
        }
        text::str_eq_lit(self.class.as_str(), "integrated")
    }

    pub fn name(&self) -> (r: String)
        ensures
            r@ == self.name@,
    {
        self.name.clone()
    }

    pub fn path(&self) -> (r: String)
        ensures
            r@ == self.path@,
    {
        self.path.clone()
    }

    pub fn class(&self) -> (r: String)
        ensures
            r@ == self.class@,
    {
        self.class.clone()
    }

    pub fn class_id(&self) -> (r: String)
        ensures
            r@ == self.class_id@,
    {
        self.class_id.clone()
    }

    pub fn vendor(&self) -> (r: String)
        ensures
            r@ == self.vendor@,
    {
        self.vendor.clone()
    }

    pub fn vendor_id(&self) -> (r: String)
        ensures
            r@ == self.vendor_id@,
    {
        self.vendor_id.clone()
    }

    pub fn device(&self) -> (r: String)
        ensures
            r@ == self.device@,
    {
        self.device.clone()
    }

    pub fn device_id(&self) -> (r: String)
        ensures
            r@ == self.device_id@,
    {
        self.device_id.clone()
    }

    pub fn subdevice(&self) -> (r: String)
        ensures
            r@ == self.subdevice@,
    {
        self.subdevice.clone()
    }

    pub fn subdevice_id(&self) -> (r: String)
        ensures
            r@ == self.subdevice_id@,
    {
        self.subdevice_id.clone()
    }

    pub fn subvendor_id(&self) -> (r: String)
        ensures
            r@ == self.subvendor_id@,
    {
        self.subvendor_id.clone()
    }

    pub fn revision_id(&self) -> (r: String)
        ensures
            r@ == self.revision_id@,
    {
        self.revision_id.clone()
    }
}

} // verus!
