//! The PCI identity database resolver.
//!
//! The database is a line-oriented text file: vendors start at column
//! zero as `<id><ws><name>`, their devices follow indented by one tab,
//! and each device's subsystems by two tabs, as
//! `<subvendor> <subdevice><ws><name>`.  Lookup scans forward: first
//! the vendor line, then its devices until the section ends at an
//! un-indented non-comment line, then the matched device's subsystems
//! until a line without two tabs.

use vstd::prelude::*;

use crate::text;

verus! {

/// The human-readable names a lookup found, if any.
pub struct PciNames {
    pub vendor: Option<Vec<u8>>,
    pub device: Option<Vec<u8>>,
    pub subdevice: Option<Vec<u8>>,
}

/// A line indented by at least one tab.
pub open spec fn starts_tab(l: Seq<u8>) -> bool {
    l.len() > 0 && l[0] == 9
}

/// A line indented by two tabs.
pub open spec fn starts_tab2(l: Seq<u8>) -> bool {
    l.len() > 1 && l[0] == 9 && l[1] == 9
}

/// A comment line.
pub open spec fn is_comment(l: Seq<u8>) -> bool {
    l.len() > 0 && l[0] == 35
}

/// The first vendor line at or after `i`: un-indented and starting with
/// the vendor id.
pub open spec fn find_vendor_line(lines: Seq<Seq<u8>>, vid: Seq<u8>, i: int) -> Option<int>
    decreases lines.len() - i,
{
    if i < 0 || i >= lines.len() {
        Option::None
    } else if !starts_tab(lines[i]) && text::is_prefix_of(vid, lines[i]) {
        Option::Some(i)
    } else {
        find_vendor_line(lines, vid, i + 1)
    }
}

/// The first device line at or after `i` within the vendor's section:
/// one tab deep, its trimmed text starting with the device id.  The
/// section ends at the first un-indented line that is not a comment.
pub open spec fn find_device_line(lines: Seq<Seq<u8>>, did: Seq<u8>, i: int) -> Option<int>
    decreases lines.len() - i,
{
    if i < 0 || i >= lines.len() {
        Option::None
    } else if !starts_tab(lines[i]) {
        if is_comment(lines[i]) {
            find_device_line(lines, did, i + 1)
        } else {
            Option::None
        }
    } else if !starts_tab2(lines[i]) && text::is_prefix_of(did, text::trim_spec(lines[i])) {
        Option::Some(i)
    } else {
        find_device_line(lines, did, i + 1)
    }
}

/// The first subsystem line at or after `i` under the matched device:
/// two tabs deep, its trimmed text starting with the subsystem prefix.
/// The scan ends at the first line without two tabs.
pub open spec fn find_subdevice_line(lines: Seq<Seq<u8>>, pre: Seq<u8>, i: int) -> Option<int>
    decreases lines.len() - i,
{
    if i < 0 || i >= lines.len() {
        Option::None
    } else if !starts_tab2(lines[i]) {
        Option::None
    } else if text::is_prefix_of(pre, text::trim_spec(lines[i])) {
        Option::Some(i)
    } else {
        find_subdevice_line(lines, pre, i + 1)
    }
}

/// The literal subsystem match prefix: `<subvendor> <subdevice>`.
pub open spec fn subsys_prefix(svid: Seq<u8>, sdid: Seq<u8>) -> Seq<u8> {
    svid + seq![32u8] + sdid
}

/// A matched line's name: the line with the matched key stripped from
/// the front and the remainder trimmed.
pub open spec fn name_after(line: Seq<u8>, key: Seq<u8>) -> Seq<u8> {
    text::trim_spec(text::strip_prefix_all_spec(line, key))
}

/// What a lookup of the whole database returns.
pub open spec fn resolve_spec(lines: Seq<Seq<u8>>, vid: Seq<u8>, did: Seq<u8>, pre: Seq<u8>) -> (
    Option<Seq<u8>>,
    Option<Seq<u8>>,
    Option<Seq<u8>>,
) {
    match find_vendor_line(lines, vid, 0) {
        Option::None => (Option::None, Option::None, Option::None),
        Option::Some(v) => {
            let vendor = Option::Some(name_after(lines[v], vid));
            match find_device_line(lines, did, v + 1) {
                Option::None => (vendor, Option::None, Option::None),
                Option::Some(d) => {
                    let device = Option::Some(name_after(text::trim_spec(lines[d]), did));
                    match find_subdevice_line(lines, pre, d + 1) {
                        Option::None => (vendor, device, Option::None),
                        Option::Some(sd) => (
                            vendor,
                            device,
                            Option::Some(name_after(text::trim_spec(lines[sd]), pre)),
                        ),
                    }
                },
            }
        },
    }
}

/// Finds the vendor line, pinned to [`find_vendor_line`].
fn scan_vendor(lines: &Vec<Vec<u8>>, vid: &[u8], start: usize) -> (r: Option<usize>)
    ensures
        match r {
            Some(j) => start <= j < lines@.len() && find_vendor_line(
                lines.deep_view(),
                vid@,
                start as int,
            ) == Option::Some(j as int),
            None => find_vendor_line(lines.deep_view(), vid@, start as int) is None,
        },
{
    let ghost dv = lines.deep_view();
    proof {
        assert(forall|q: int| 0 <= q < dv.len() ==> dv[q] =~= (#[trigger] lines@[q])@);
    }
    let mut i: usize = start;
    while i < lines.len()
        invariant
            start <= i,
            dv == lines.deep_view(),
            forall|q: int| 0 <= q < dv.len() ==> dv[q] == (#[trigger] lines@[q])@,
            find_vendor_line(dv, vid@, start as int) == find_vendor_line(dv, vid@, i as int),
        decreases dv.len() - i,
    {
        let l = lines[i].as_slice();
        proof {
            assert(l@ == dv[i as int]);
        }
        let tab = l.len() > 0 && l[0] == 9;
        if !tab && text::starts_with(l, vid) {
            return Some(i);
        }
        i = i + 1;
    }
    None
}

/// Finds the device line, pinned to [`find_device_line`].
fn scan_device(lines: &Vec<Vec<u8>>, did: &[u8], start: usize) -> (r: Option<usize>)
    ensures
        match r {
            Some(j) => start <= j < lines@.len() && find_device_line(
                lines.deep_view(),
                did@,
                start as int,
            ) == Option::Some(j as int),
            None => find_device_line(lines.deep_view(), did@, start as int) is None,
        },
{
    let ghost dv = lines.deep_view();
    proof {
        assert(forall|q: int| 0 <= q < dv.len() ==> dv[q] =~= (#[trigger] lines@[q])@);
    }
    let mut i: usize = start;
    while i < lines.len()
        invariant
            start <= i,
            dv == lines.deep_view(),
            forall|q: int| 0 <= q < dv.len() ==> dv[q] == (#[trigger] lines@[q])@,
            find_device_line(dv, did@, start as int) == find_device_line(dv, did@, i as int),
        decreases dv.len() - i,
    {
        let l = lines[i].as_slice();
        proof {
            assert(l@ == dv[i as int]);
        }
        let tab = l.len() > 0 && l[0] == 9;
        let tab2 = l.len() > 1 && l[0] == 9 && l[1] == 9;
        if !tab {
            let comment = l.len() > 0 && l[0] == 35;
            if !comment {
                return None;
            }
        } else if !tab2 {
            let t = text::trim(l);
            if text::starts_with(t.as_slice(), did) {
                return Some(i);
            }
        }
        i = i + 1;
    }
    None
}

/// Finds the subsystem line, pinned to [`find_subdevice_line`].
fn scan_subdevice(lines: &Vec<Vec<u8>>, pre: &[u8], start: usize) -> (r: Option<usize>)
    ensures
        match r {
            Some(j) => start <= j < lines@.len() && find_subdevice_line(
                lines.deep_view(),
                pre@,
                start as int,
            ) == Option::Some(j as int),
            None => find_subdevice_line(lines.deep_view(), pre@, start as int) is None,
        },
{
    let ghost dv = lines.deep_view();
    proof {
        assert(forall|q: int| 0 <= q < dv.len() ==> dv[q] =~= (#[trigger] lines@[q])@);
    }
    let mut i: usize = start;
    while i < lines.len()
        invariant
            start <= i,
            dv == lines.deep_view(),
            forall|q: int| 0 <= q < dv.len() ==> dv[q] == (#[trigger] lines@[q])@,
            find_subdevice_line(dv, pre@, start as int) == find_subdevice_line(dv, pre@, i as int),
        decreases dv.len() - i,
    {
        let l = lines[i].as_slice();
        proof {
            assert(l@ == dv[i as int]);
        }
        let tab2 = l.len() > 1 && l[0] == 9 && l[1] == 9;
        if !tab2 {
            return None;
        }
        let t = text::trim(l);
        if text::starts_with(t.as_slice(), pre) {
            return Some(i);
        }
        i = i + 1;
    }
    None
}

/// Looks the numeric identity up in the database text and returns the
/// human-readable vendor, device and subsystem names it finds.
pub fn resolve_pci_names(
    db: &[u8],
    vendor_id: &[u8],
    device_id: &[u8],
    subvendor_id: &[u8],
    subdevice_id: &[u8],
) -> (r: PciNames)
    ensures
        ({
            let lines = text::lines_spec(db@);
            let pre = subsys_prefix(subvendor_id@, subdevice_id@);
            let expect = resolve_spec(lines, vendor_id@, device_id@, pre);
            &&& match (r.vendor, expect.0) {
                (Some(v), Option::Some(e)) => v@ == e,
                (None, Option::None) => true,
                _ => false,
            }
            &&& match (r.device, expect.1) {
                (Some(v), Option::Some(e)) => v@ == e,
                (None, Option::None) => true,
                _ => false,
            }
            &&& match (r.subdevice, expect.2) {
                (Some(v), Option::Some(e)) => v@ == e,
                (None, Option::None) => true,
                _ => false,
            }
        }),
{
    let lines = text::split_lines(db);
    let ghost dv = lines.deep_view();
    proof {
        assert(forall|q: int| 0 <= q < dv.len() ==> dv[q] =~= (#[trigger] lines@[q])@);
    }
    let mut pre: Vec<u8> = text::sub_bytes(subvendor_id, 0, subvendor_id.len());
    pre.push(32);
    let mut k: usize = 0;
    let ghost pre_mid = pre@;
    while k < subdevice_id.len()
        invariant
            0 <= k <= subdevice_id@.len(),
            pre@ == pre_mid + subdevice_id@.subrange(0, k as int),
        decreases subdevice_id@.len() - k,
    {
        pre.push(subdevice_id[k]);
        proof {
            assert(pre@ =~= pre_mid + subdevice_id@.subrange(0, k + 1));
        }
        k = k + 1;
    }
    proof {
        assert(subvendor_id@.subrange(0, subvendor_id@.len() as int) =~= subvendor_id@);
        assert(subdevice_id@.subrange(0, subdevice_id@.len() as int) =~= subdevice_id@);
        assert(pre@ =~= subsys_prefix(subvendor_id@, subdevice_id@));
    }
    let vendor_at = scan_vendor(&lines, vendor_id, 0);
    match vendor_at {
        None => PciNames { vendor: None, device: None, subdevice: None },
        Some(v) => {
            let vline = lines[v].as_slice();
            proof {
                assert(vline@ == dv[v as int]);
            }
            let vendor_name = text::trim(text::strip_prefix_all(vline, vendor_id).as_slice());
            let device_at = scan_device(&lines, device_id, v + 1);
            match device_at {
                None => PciNames { vendor: Some(vendor_name), device: None, subdevice: None },
                Some(d) => {
                    let dline = lines[d].as_slice();
                    proof {
                        assert(dline@ == dv[d as int]);
                    }
                    let dtrim = text::trim(dline);
                    let device_name = text::trim(
                        text::strip_prefix_all(dtrim.as_slice(), device_id).as_slice(),
                    );
                    let sub_at = scan_subdevice(&lines, pre.as_slice(), d + 1);
                    match sub_at {
                        None => PciNames {
                            vendor: Some(vendor_name),
                            device: Some(device_name),
                            subdevice: None,
                        },
                        Some(sd) => {
                            let sline = lines[sd].as_slice();
                            proof {
                                assert(sline@ == dv[sd as int]);
                            }
                            let strim = text::trim(sline);
                            let sub_name = text::trim(
                                text::strip_prefix_all(strim.as_slice(), pre.as_slice()).as_slice(),
                            );
                            PciNames {
                                vendor: Some(vendor_name),
                                device: Some(device_name),
                                subdevice: Some(sub_name),
                            }
                        },
                    }
                },
            }
        },
    }
}

} // verus!
