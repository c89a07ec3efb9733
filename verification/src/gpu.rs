//! GPU discovery: classifying a DRM card from its sysfs identity and
//! the PCI database.
//!
//! The caller enumerates `/sys/class/drm`, keeps the entries named like
//! a card, and hands each card's identity files and the database text
//! here.  The card's class comes from its PCI class id, its vendor from
//! the database's vendor string; cards of other vendors are skipped.

use vstd::prelude::*;
use vstd::string::StringExecFns;
use vstd::string::StringSliceAdditionalSpecFns;

use crate::amdgpu::AMDGPU;
use crate::connector::Connector;
use crate::error::GPUError;
use crate::intelgpu::IntelGPU;
use crate::pci;
use crate::text;

verus! {

/// A supported graphics card.
pub enum GPU {
    AMD(AMDGPU),
    Intel(IntelGPU),
}

/// A DRM directory entry is a card exactly when its name is `card`
/// followed by digits alone; `card0-HDMI-A-1` and the like are
/// connectors.
pub open spec fn is_card_name_spec(n: Seq<u8>) -> bool {
    n.len() > 4 && n.subrange(0, 4) == seq![99u8, 97u8, 114u8, 100u8] && text::all_digits(
        n.subrange(4, n.len() as int),
    )
}

/// Tests a DRM entry name for the card shape.
pub fn is_card_name(n: &[u8]) -> (r: bool)
    ensures
        r == is_card_name_spec(n@),
{
    if n.len() <= 4 {
        return false;
    }
    if !(n[0] == 99 && n[1] == 97 && n[2] == 114 && n[3] == 100) {
        proof {
            assert(n@.subrange(0, 4) != seq![99u8, 97u8, 114u8, 100u8]) by {
                if n@.subrange(0, 4) == seq![99u8, 97u8, 114u8, 100u8] {
                    assert(n@.subrange(0, 4)[0] == 99 && n@.subrange(0, 4)[1] == 97 && n@.subrange(
                        0,
                        4,
                    )[2] == 114 && n@.subrange(0, 4)[3] == 100);
                }
            }
        }
        return false;
    }
    proof {
        assert(n@.subrange(0, 4) =~= seq![99u8, 97u8, 114u8, 100u8]);
    }
    let mut k: usize = 4;
    while k < n.len()
        invariant
            4 <= k <= n@.len(),
            forall|q: int| 4 <= q < k ==> text::is_digit(n@[q]),
        decreases n@.len() - k,
    {
        if n[k] < 48 || n[k] > 57 {
            assert(!text::is_digit(n@.subrange(4, n@.len() as int)[k - 4]));
            return false;
        }
        k = k + 1;
    }
    proof {
        assert(forall|q: int|
            0 <= q < n@.len() - 4 ==> text::is_digit(#[trigger] n@.subrange(4, n@.len() as int)[q]));
    }
    true
}

/// A raw sysfs id, trimmed, with `0x` removed and lower-cased — the
/// form the PCI database uses.
pub open spec fn norm_spec(raw: Seq<u8>) -> Seq<u8> {
    text::lower_spec(text::remove_0x_spec(text::trim_spec(raw)))
}

/// Normalizes a raw sysfs id.
pub fn normalize_id(raw: &[u8]) -> (r: Vec<u8>)
    ensures
        r@ == norm_spec(raw@),
{
    let t = text::trim(raw);
    let n = text::remove_0x(t.as_slice());
    text::to_lower(n.as_slice())
}

/// The class a PCI class id denotes.
pub open spec fn class_of(cid: Seq<u8>) -> Seq<char> {
    if cid == text::chars_bytes("030000"@) {
        "integrated"@
    } else if cid == text::chars_bytes("038000"@) {
        "dedicated"@
    } else {
        "unknown"@
    }
}

/// Maps a normalized class id to the class name.
pub fn class_string(cid: &[u8]) -> (r: String)
    ensures
        r@ == class_of(cid@),
{
    proof {
        reveal_strlit("030000");
        reveal_strlit("038000");
        reveal_strlit("integrated");
        reveal_strlit("dedicated");
        reveal_strlit("unknown");
        assert(("030000").is_ascii());
        assert(("038000").is_ascii());
    }
    if text::eq_str(cid, "030000") {
        String::from_str("integrated")
    } else if text::eq_str(cid, "038000") {
        String::from_str("dedicated")
    } else {
        String::from_str("unknown")
    }
}

/// The vendor strings the database uses for AMD.
pub open spec fn is_amd_vendor(n: Seq<u8>) -> bool {
    ||| n == text::chars_bytes("AMD"@)
    ||| n == text::chars_bytes("AuthenticAMD"@)
    ||| n == text::chars_bytes("AuthenticAMD Advanced Micro Devices, Inc."@)
    ||| n == text::chars_bytes("Advanced Micro Devices, Inc. [AMD/ATI]"@)
}

/// The vendor strings the database uses for Intel.
pub open spec fn is_intel_vendor(n: Seq<u8>) -> bool {
    ||| n == text::chars_bytes("Intel"@)
    ||| n == text::chars_bytes("GenuineIntel"@)
    ||| n == text::chars_bytes("Intel Corporation"@)
}

/// Tests a resolved vendor name against the AMD spellings.
pub fn vendor_is_amd(n: &[u8]) -> (r: bool)
    ensures
        r == is_amd_vendor(n@),
{
    proof {
        reveal_strlit("AMD");
        reveal_strlit("AuthenticAMD");
        reveal_strlit("AuthenticAMD Advanced Micro Devices, Inc.");
        reveal_strlit("Advanced Micro Devices, Inc. [AMD/ATI]");
        assert(("AMD").is_ascii());
        assert(("AuthenticAMD").is_ascii());
        assert(("AuthenticAMD Advanced Micro Devices, Inc.").is_ascii());
        assert(("Advanced Micro Devices, Inc. [AMD/ATI]").is_ascii());
    }
    text::eq_str(n, "AMD") || text::eq_str(n, "AuthenticAMD") || text::eq_str(
        n,
        "AuthenticAMD Advanced Micro Devices, Inc.",
    ) || text::eq_str(n, "Advanced Micro Devices, Inc. [AMD/ATI]")
}

/// Tests a resolved vendor name against the Intel spellings.
pub fn vendor_is_intel(n: &[u8]) -> (r: bool)
    ensures
        r == is_intel_vendor(n@),
{
    proof {
        reveal_strlit("Intel");
        reveal_strlit("GenuineIntel");
        reveal_strlit("Intel Corporation");
        assert(("Intel").is_ascii());
        assert(("GenuineIntel").is_ascii());
        assert(("Intel Corporation").is_ascii());
    }
    text::eq_str(n, "Intel") || text::eq_str(n, "GenuineIntel") || text::eq_str(
        n,
        "Intel Corporation",
    )
}

/// The bytes after the last `/`, or the whole string without one.
pub open spec fn after_last_slash(s: Seq<u8>) -> Seq<u8>
    decreases s.len(),
{
    if s.len() == 0 {
        s
    } else if s.last() == 47 {
        Seq::<u8>::empty()
    } else {
        after_last_slash(s.drop_last()).push(s.last())
    }
}

/// Copies the bytes after the last `/`.
pub fn last_path_segment(s: &[u8]) -> (r: Vec<u8>)
    ensures
        r@ == after_last_slash(s@),
{
    let mut j: usize = s.len();
    while j > 0
        invariant
            0 <= j <= s@.len(),
            forall|q: int| j <= q < s@.len() ==> s@[q] != 47,
        decreases j,
    {
        if s[j - 1] == 47 {
            proof {
                lemma_after_last_slash(s@, j as int);
            }
            return text::sub_bytes(s, j, s.len());
        }
        j = j - 1;
    }
    proof {
        lemma_after_last_slash(s@, 0);
    }
    text::sub_bytes(s, 0, s.len())
}

proof fn lemma_after_last_slash(s: Seq<u8>, j: int)
    requires
        0 <= j <= s.len(),
        forall|q: int| j <= q < s.len() ==> s[q] != 47,
        j > 0 ==> s[j - 1] == 47,
    ensures
        after_last_slash(s) == s.subrange(j, s.len() as int),
    decreases s.len(),
{
    if s.len() == 0 {
        assert(s.subrange(0, 0) =~= s);
    } else if j == s.len() {
        assert(s.last() == 47);
        assert(s.subrange(j, s.len() as int) =~= Seq::<u8>::empty());
    } else {
        assert(s.last() != 47);
        let t = s.drop_last();
        assert(forall|q: int| j <= q < t.len() ==> t[q] != 47);
        lemma_after_last_slash(t, j);
        assert(t.subrange(j, t.len() as int).push(s.last()) =~= s.subrange(j, s.len() as int));
    }
}

proof fn lemma_after_last_slash_ascii(s: Seq<u8>)
    requires
        text::all_ascii(s),
    ensures
        text::all_ascii(after_last_slash(s)),
    decreases s.len(),
{
    if s.len() > 0 && s.last() != 47 {
        lemma_after_last_slash_ascii(s.drop_last());
    }
}

/// The identity every classified card carries: the sysfs path as given
/// and its basename as the name, the class from the class id, each
/// normalized id, the resolved human names — empty when the database
/// had none — and an empty device type.  The string fields are pinned
/// for ASCII content; beyond ASCII the transliteration is the standard
/// library's.
pub open spec fn card_identity_ok(
    name_f: Seq<char>,
    path_f: Seq<char>,
    class_f: Seq<char>,
    class_id_f: Seq<char>,
    vendor_id_f: Seq<char>,
    device_f: Seq<char>,
    device_id_f: Seq<char>,
    device_type_f: Seq<char>,
    subdevice_f: Seq<char>,
    subdevice_id_f: Seq<char>,
    subvendor_id_f: Seq<char>,
    revision_id_f: Seq<char>,
    path: Seq<char>,
    cid: Seq<u8>,
    vid: Seq<u8>,
    did: Seq<u8>,
    rid: Seq<u8>,
    svid: Seq<u8>,
    sdid: Seq<u8>,
    dev_name: Option<Seq<u8>>,
    sub_name: Option<Seq<u8>>,
) -> bool {
    &&& path_f == path
    &&& class_f == class_of(cid)
    &&& (vstd::utf8::is_ascii_chars(path) ==> text::ascii_rep(
        name_f,
        after_last_slash(text::chars_bytes(path)),
    ))
    &&& (text::all_ascii(cid) ==> text::ascii_rep(class_id_f, cid))
    &&& (text::all_ascii(vid) ==> text::ascii_rep(vendor_id_f, vid))
    &&& (text::all_ascii(did) ==> text::ascii_rep(device_id_f, did))
    &&& (text::all_ascii(rid) ==> text::ascii_rep(revision_id_f, rid))
    &&& (text::all_ascii(svid) ==> text::ascii_rep(subvendor_id_f, svid))
    &&& (text::all_ascii(sdid) ==> text::ascii_rep(subdevice_id_f, sdid))
    &&& (match dev_name {
        Option::Some(d) => text::all_ascii(d) ==> text::ascii_rep(device_f, d),
        Option::None => device_f == Seq::<char>::empty(),
    })
    &&& (match sub_name {
        Option::Some(d) => text::all_ascii(d) ==> text::ascii_rep(subdevice_f, d),
        Option::None => subdevice_f == Seq::<char>::empty(),
    })
    &&& device_type_f == Seq::<char>::empty()
}

/// The normalized id together with its display form.
fn id_string(raw: &[u8]) -> (r: (Vec<u8>, String))
    ensures
        r.0@ == norm_spec(raw@),
        text::all_ascii(norm_spec(raw@)) ==> text::ascii_rep(r.1@, norm_spec(raw@)),
{
    let n = normalize_id(raw);
    let s = text::lossy_string(n.as_slice());
    (n, s)
}

/// Classifies one DRM card from its sysfs identity files and the PCI
/// database text.  Cards whose vendor the database does not know, and
/// cards of vendors other than AMD and Intel, are not supported.
pub fn get_gpu(
    path: String,
    class_raw: &[u8],
    vendor_raw: &[u8],
    device_raw: &[u8],
    revision_raw: &[u8],
    subvendor_raw: &[u8],
    subdevice_raw: &[u8],
    db: &[u8],
) -> (r: Result<GPU, GPUError>)
    ensures
        ({
            let vid = norm_spec(vendor_raw@);
            let did = norm_spec(device_raw@);
            let svid = norm_spec(subvendor_raw@);
            let sdid = norm_spec(subdevice_raw@);
            let cid = norm_spec(class_raw@);
            let rs = pci::resolve_spec(
                text::lines_spec(db@),
                vid,
                did,
                pci::subsys_prefix(svid, sdid),
            );
            match rs.0 {
                Option::None => r matches Err(GPUError::FailedOperation(_)),
                Option::Some(vname) => {
                    if is_amd_vendor(vname) {
                        r matches Ok(GPU::AMD(g)) && g.vendor@ == "AMD"@ && card_identity_ok(
                            g.name@,
                            g.path@,
                            g.class@,
                            g.class_id@,
                            g.vendor_id@,
                            g.device@,
                            g.device_id@,
                            g.device_type@,
                            g.subdevice@,
                            g.subdevice_id@,
                            g.subvendor_id@,
                            g.revision_id@,
                            path@,
                            cid,
                            vid,
                            did,
                            norm_spec(revision_raw@),
                            svid,
                            sdid,
                            rs.1,
                            rs.2,
                        )
                    } else if is_intel_vendor(vname) {
                        r matches Ok(GPU::Intel(g)) && g.vendor@ == "Intel"@ && g.manual_clock
                            == true && card_identity_ok(
                            g.name@,
                            g.path@,
                            g.class@,
                            g.class_id@,
                            g.vendor_id@,
                            g.device@,
                            g.device_id@,
                            g.device_type@,
                            g.subdevice@,
                            g.subdevice_id@,
                            g.subvendor_id@,
                            g.revision_id@,
                            path@,
                            cid,
                            vid,
                            did,
                            norm_spec(revision_raw@),
                            svid,
                            sdid,
                            rs.1,
                            rs.2,
                        )
                    } else {
                        r matches Err(GPUError::FailedOperation(_))
                    }
                },
            }
        }),
{
    let (cid_b, class_id) = id_string(class_raw);
    let (vid_b, vendor_id) = id_string(vendor_raw);
    let (did_b, device_id) = id_string(device_raw);
    let (rid_b, revision_id) = id_string(revision_raw);
    let (svid_b, subvendor_id) = id_string(subvendor_raw);
    let (sdid_b, subdevice_id) = id_string(subdevice_raw);
    let names = pci::resolve_pci_names(
        db,
        vid_b.as_slice(),
        did_b.as_slice(),
        svid_b.as_slice(),
        sdid_b.as_slice(),
    );
    let vendor_name = match names.vendor {
        Some(v) => v,
        None => {
            return Err(GPUError::FailedOperation(String::from_str("No vendor found")));
        },
    };
    let class = class_string(cid_b.as_slice());
    let device = match names.device {
        Some(d) => text::lossy_string(d.as_slice()),
        None => String::new(),
    };
    let subdevice = match names.subdevice {
        Some(d) => text::lossy_string(d.as_slice()),
        None => String::new(),
    };
    let name_b = last_path_segment(path.as_str().as_bytes());
    proof {
        if path.is_ascii() {
            vstd::utf8::is_ascii_chars_encode_utf8(path@);
            assert(vstd::utf8::encode_utf8(path@) =~= text::chars_bytes(path@));
            assert(text::all_ascii(text::chars_bytes(path@)));
            lemma_after_last_slash_ascii(text::chars_bytes(path@));
        }
    }
    let name = text::lossy_string(name_b.as_slice());
    if vendor_is_amd(vendor_name.as_slice()) {
        let g = AMDGPU {
            name,
            path,
            class,
            class_id,
            vendor: String::from_str("AMD"),
            vendor_id,
            device,
            device_id,
            device_type: String::new(),
            subdevice,
            subdevice_id,
            subvendor_id,
            revision_id,
        };
        Ok(GPU::AMD(g))
    } else if vendor_is_intel(vendor_name.as_slice()) {
        let g = IntelGPU {
            name,
            path,
            class,
            class_id,
            vendor: String::from_str("Intel"),
            vendor_id,
            device,
            device_id,
            device_type: String::new(),
            subdevice,
            subdevice_id,
            subvendor_id,
            revision_id,
            manual_clock: true,
        };
        Ok(GPU::Intel(g))
    } else {
        Err(GPUError::FailedOperation(String::from_str("Unsupported vendor")))
    }
}

/// Serves card enumeration: the object paths of the discovered cards.
pub struct GPUBus {
    gpu_object_paths: Vec<String>,
}

impl GPUBus {
    /// Return a new instance of the GPU bus for the given card paths.
    pub fn new(gpu_paths: Vec<String>) -> (r: GPUBus)
        ensures
            r.paths() == gpu_paths@,
    {
        GPUBus { gpu_object_paths: gpu_paths }
    }

    /// The served card paths, for specification purposes.
    pub closed spec fn paths(&self) -> Seq<String> {
        self.gpu_object_paths@
    }

    /// Lists the object paths of all discovered cards.
    pub fn enumerate_cards(&self) -> (r: Vec<String>)
        ensures
            r.deep_view() =~= self.paths().map_values(|s: String| s@),
    {
        let mut out: Vec<String> = Vec::new();
        let mut i: usize = 0;
        while i < self.gpu_object_paths.len()
            invariant
                0 <= i <= self.gpu_object_paths@.len(),
                out@.len() == i,
                forall|q: int| 0 <= q < i ==> (#[trigger] out@[q])@ == self.gpu_object_paths@[q]@,
            decreases self.gpu_object_paths@.len() - i,
        {
            out.push(self.gpu_object_paths[i].clone());
            i = i + 1;
        }
        proof {
            assert(out.deep_view() =~= self.paths().map_values(|s: String| s@));
        }
        out
    }
}

/// Builds the connector for a sibling directory of a card: the name is
/// the directory name with the leading `<card>-` stripped, the path the
/// directory under the DRM tree.
pub fn get_connector(gpu_name: String, path: String) -> (r: Connector)
    ensures
        path.is_ascii() && gpu_name.is_ascii() ==> text::ascii_rep(
            r.name@,
            text::strip_prefix_all_spec(
                text::chars_bytes(path@),
                text::chars_bytes(gpu_name@).push(45),
            ),
        ),
        r.path@ == "/sys/class/drm/"@ + path@,
{
    proof {
        reveal_strlit("/sys/class/drm/");
        broadcast use vstd::string::is_ascii_spec_bytes;

    }
    let mut prefix = path_bytes(&gpu_name);
    prefix.push(45);
    let name_b = text::strip_prefix_all(path.as_str().as_bytes(), prefix.as_slice());
    let name = text::lossy_string(name_b.as_slice());
    let full = String::from_str("/sys/class/drm/").concat(path.as_str());
    proof {
        if path.is_ascii() && gpu_name.is_ascii() {
            vstd::utf8::is_ascii_chars_encode_utf8(path@);
            assert(prefix@ =~= text::chars_bytes(gpu_name@).push(45));
            assert(vstd::utf8::encode_utf8(path@) =~= text::chars_bytes(path@));
            assert(text::all_ascii(text::chars_bytes(path@)));
            text::lemma_strip_prefix_all_ascii(text::chars_bytes(path@), prefix@);
        }
    }
    Connector { name, path: full }
}

/// The bytes of an ASCII string's view; opaque content otherwise.
fn path_bytes(s: &String) -> (r: Vec<u8>)
    ensures
        s.is_ascii() ==> r@ == text::chars_bytes(s@),
{
    proof {
        if s.is_ascii() {
            vstd::utf8::is_ascii_chars_encode_utf8(s@);
            assert(vstd::utf8::encode_utf8(s@) =~= text::chars_bytes(s@));
        }
    }
    vstd::string::StrSliceExecFns::as_bytes_vec(s.as_str())
}

/// A byte upper-cased, ASCII-wise.
pub open spec fn upper_byte(b: u8) -> u8 {
    if 97 <= b <= 122 {
        (b - 32) as u8
    } else {
        b
    }
}

/// The DRM name with its first byte upper-cased — the card's object
/// name, `card0` becoming `Card0`.  Names that are empty or not ASCII
/// are kept as they are.
pub fn title_case(name: &String) -> (r: String)
    ensures
        name@.len() == 0 || !vstd::utf8::is_ascii_chars(name@) ==> r@ == name@,
        name@.len() > 0 && vstd::utf8::is_ascii_chars(name@) ==> text::ascii_rep(
            r@,
            text::chars_bytes(name@).update(0, upper_byte(text::chars_bytes(name@)[0])),
        ),
{
    if name.as_str().is_empty() || !name.as_str().is_ascii() {
        return name.clone();
    }
    let bs = path_bytes(name);
    let mut out: Vec<u8> = Vec::new();
    let b0 = bs[0];
    if 97 <= b0 && b0 <= 122 {
        out.push(b0 - 32);
    } else {
        out.push(b0);
    }
    let mut k: usize = 1;
    while k < bs.len()
        invariant
            1 <= k <= bs@.len(),
            bs@.len() >= 1,
            out@.len() == k,
            out@[0] == upper_byte(bs@[0]),
            forall|q: int| 1 <= q < k ==> out@[q] == bs@[q],
        decreases bs@.len() - k,
    {
        out.push(bs[k]);
        k = k + 1;
    }
    proof {
        assert(out@ =~= bs@.update(0, upper_byte(bs@[0])));
        assert(forall|i: int|
            0 <= i < out@.len() ==> #[trigger] out@[i] < 128 || !text::all_ascii(bs@));
    }
    let r = text::lossy_string(out.as_slice());
    proof {
        if name@.len() > 0 && vstd::utf8::is_ascii_chars(name@) {
            assert(text::all_ascii(bs@));
            assert(text::all_ascii(out@)) by {
                assert(forall|i: int| 0 <= i < bs@.len() ==> (#[trigger] bs@[i]) < 128);
            }
        }
    }
    r
}

/// Parses the busy-percent file: its trimmed contents as a percentage
/// byte; anything else is an I/O error.
pub fn parse_busy_percent(content: &[u8]) -> (r: Result<u8, GPUError>)
    ensures
        ({
            let t = text::trim_spec(content@);
            if t.len() > 0 && text::all_digits(t) && text::digits_val(t) <= u8::MAX as nat {
                r matches Ok(v) && v as nat == text::digits_val(t)
            } else {
                r matches Err(GPUError::IOError(_))
            }
        }),
{
    let t = text::trim(content);
    match text::parse_u8(t.as_slice()) {
        Some(v) => Ok(v),
        None => Err(GPUError::IOError(String::from_str("not a percentage"))),
    }
}

} // verus!
