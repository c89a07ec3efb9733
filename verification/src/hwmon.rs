//! AMD hwmon TDP backend.
//!
//! The hwmon directory names its attributes indirectly: each `*_label`
//! attribute holds a role name, and the attributes sharing its prefix
//! carry that role's values.  The slow and fast package power tracking
//! caps are found this way; both count microwatts.  A TDP change moves
//! the slow cap and keeps the fast cap's headroom above it.

use vstd::prelude::*;
use vstd::string::StringExecFns;

use crate::error::TDPError;
use crate::hardware::Hardware;
use crate::tdp::HardwareAccess;
use crate::text;

verus! {

/// The hwmon backend: the host profile, when the caps gave one, and
/// the role-to-prefix map built from the `*_label` attributes.
pub struct Hwmon {
    pub hardware: Option<Hardware>,
    pub label_map: Vec<(Vec<u8>, Vec<u8>)>,
}

/// The view of an attribute or map entry list: the byte strings of each
/// pair.
pub open spec fn pairs_view(m: Seq<(Vec<u8>, Vec<u8>)>) -> Seq<(Seq<u8>, Seq<u8>)> {
    m.map_values(|p: (Vec<u8>, Vec<u8>)| (p.0@, p.1@))
}

/// The `_label` suffix of the naming attributes.
pub open spec fn label_suffix() -> Seq<u8> {
    seq![95u8, 108u8, 97u8, 98u8, 101u8, 108u8]
}

/// The first map entry with this key, or -1.
pub open spec fn find_label(m: Seq<(Seq<u8>, Seq<u8>)>, key: Seq<u8>) -> int
    decreases m.len(),
{
    if m.len() == 0 {
        -1
    } else if m[0].0 == key {
        0
    } else {
        let r = find_label(m.drop_first(), key);
        if r == -1 {
            -1
        } else {
            r + 1
        }
    }
}

proof fn lemma_find_label_props(m: Seq<(Seq<u8>, Seq<u8>)>, key: Seq<u8>)
    ensures
        find_label(m, key) >= -1,
        find_label(m, key) == -1 ==> forall|i: int| 0 <= i < m.len() ==> (#[trigger] m[i]).0 != key,
        find_label(m, key) >= 0 ==> find_label(m, key) < m.len() && m[find_label(m, key)].0 == key,
    decreases m.len(),
{
    if m.len() > 0 && m[0].0 != key {
        lemma_find_label_props(m.drop_first(), key);
        let t = m.drop_first();
        assert(find_label(t, key) >= -1);
        assert(find_label(m, key) == (if find_label(t, key) == -1 {
            -1int
        } else {
            find_label(t, key) + 1
        }));
        if find_label(m, key) == -1 {
            assert forall|i: int| 0 <= i < m.len() implies (#[trigger] m[i]).0 != key by {
                if i > 0 {
                    assert(m[i] == t[i - 1]);
                }
            }
        }
    }
}

/// One map step: a later label replaces the first entry of its key, or
/// is appended when the key is new.
pub open spec fn label_upsert(acc: Seq<(Seq<u8>, Seq<u8>)>, e: (Seq<u8>, Seq<u8>)) -> Seq<
    (Seq<u8>, Seq<u8>),
> {
    let i = find_label(acc, e.0);
    if i >= 0 {
        acc.update(i, e)
    } else {
        acc.push(e)
    }
}

/// The map an attribute listing builds, from `i` on: every attribute
/// named `<prefix>_label` maps its value to `<prefix>`, later entries
/// overriding earlier ones of the same value.
pub open spec fn lmap_spec(
    acc: Seq<(Seq<u8>, Seq<u8>)>,
    attrs: Seq<(Seq<u8>, Seq<u8>)>,
    i: int,
) -> Seq<(Seq<u8>, Seq<u8>)>
    decreases attrs.len() - i,
{
    if i < 0 || i >= attrs.len() {
        acc
    } else {
        let name = attrs[i].0;
        if text::is_suffix_of(label_suffix(), name) {
            let e = (attrs[i].1, name.subrange(0, name.len() - 6));
            lmap_spec(label_upsert(acc, e), attrs, i + 1)
        } else {
            lmap_spec(acc, attrs, i + 1)
        }
    }
}

/// Builds the role map from the attribute listing: `(name, value)`
/// pairs as the directory shows them.
pub fn build_label_map(attrs: &Vec<(Vec<u8>, Vec<u8>)>) -> (r: Vec<(Vec<u8>, Vec<u8>)>)
    ensures
        pairs_view(r@) == lmap_spec(Seq::<(Seq<u8>, Seq<u8>)>::empty(), pairs_view(attrs@), 0),
{
    let ghost av = pairs_view(attrs@);
    let mut suf: Vec<u8> = Vec::new();
    suf.push(95);
    suf.push(108);
    suf.push(97);
    suf.push(98);
    suf.push(101);
    suf.push(108);
    proof {
        assert(suf@ =~= label_suffix());
    }
    let mut acc: Vec<(Vec<u8>, Vec<u8>)> = Vec::new();
    let mut i: usize = 0;
    proof {
        assert(pairs_view(acc@) =~= Seq::<(Seq<u8>, Seq<u8>)>::empty());
    }
    while i < attrs.len()
        invariant
            0 <= i <= attrs@.len(),
            av == pairs_view(attrs@),
            suf@ == label_suffix(),
            lmap_spec(Seq::<(Seq<u8>, Seq<u8>)>::empty(), av, 0) == lmap_spec(
                pairs_view(acc@),
                av,
                i as int,
            ),
        decreases attrs@.len() - i,
    {
        let name = &attrs[i].0;
        proof {
            assert(av[i as int] == (attrs@[i as int].0@, attrs@[i as int].1@));
        }
        if text::ends_with(name.as_slice(), suf.as_slice()) {
            let key = clone_bytes(&attrs[i].1);
            let prefix = text::sub_bytes(name.as_slice(), 0, name.len() - 6);
            proof {
                assert(prefix@ =~= av[i as int].0.subrange(0, av[i as int].0.len() - 6));
            }
            let ghost old_view = pairs_view(acc@);
            let ghost e = (key@, prefix@);
            let found = find_label_idx(&acc, key.as_slice());
            match found {
                Some(fj) => {
                    acc[fj] = (key, prefix);
                    proof {
                        assert(pairs_view(acc@) =~= label_upsert(old_view, e));
                    }
                },
                None => {
                    acc.push((key, prefix));
                    proof {
                        assert(pairs_view(acc@) =~= label_upsert(old_view, e));
                    }
                },
            }
        }
        i = i + 1;
    }
    acc
}

/// Finds a key's entry, pinned to [`find_label`].
fn find_label_idx(map: &Vec<(Vec<u8>, Vec<u8>)>, key: &[u8]) -> (r: Option<usize>)
    ensures
        match r {
            Some(j) => (j as int) < map@.len() && j as int == find_label(pairs_view(map@), key@),
            None => find_label(pairs_view(map@), key@) == -1,
        },
{
    let mut j: usize = 0;
    while j < map.len()
        invariant
            0 <= j <= map@.len(),
            forall|q: int| 0 <= q < j ==> (#[trigger] pairs_view(map@)[q]).0 != key@,
        decreases map@.len() - j,
    {
        if text::bytes_eq(map[j].0.as_slice(), key) {
            proof {
                assert(pairs_view(map@)[j as int] == (map@[j as int].0@, map@[j as int].1@));
                lemma_find_label_at(pairs_view(map@), key@, j as int);
            }
            return Some(j);
        }
        proof {
            assert(pairs_view(map@)[j as int] == (map@[j as int].0@, map@[j as int].1@));
        }
        j = j + 1;
    }
    proof {
        lemma_find_label_none(pairs_view(map@), key@);
    }
    None
}

proof fn lemma_find_label_at(m: Seq<(Seq<u8>, Seq<u8>)>, key: Seq<u8>, j: int)
    requires
        0 <= j < m.len(),
        m[j].0 == key,
        forall|q: int| 0 <= q < j ==> (#[trigger] m[q]).0 != key,
    ensures
        find_label(m, key) == j,
    decreases j,
{
    if j == 0 {
    } else {
        let t = m.drop_first();
        assert(forall|q: int| 0 <= q < j - 1 ==> (#[trigger] t[q]).0 != key);
        assert(t[j - 1].0 == key);
        lemma_find_label_at(t, key, j - 1);
    }
}

proof fn lemma_find_label_none(m: Seq<(Seq<u8>, Seq<u8>)>, key: Seq<u8>)
    requires
        forall|q: int| 0 <= q < m.len() ==> (#[trigger] m[q]).0 != key,
    ensures
        find_label(m, key) == -1,
    decreases m.len(),
{
    if m.len() > 0 {
        lemma_find_label_none(m.drop_first(), key);
    }
}

/// Copies a byte vector.
fn clone_bytes(v: &Vec<u8>) -> (r: Vec<u8>)
    ensures
        r@ == v@,
{
    text::sub_bytes(v.as_slice(), 0, v.len())
}

/// Looks a role up in the map: the prefix of the first entry carrying
/// the label.
pub fn lookup_label(map: &Vec<(Vec<u8>, Vec<u8>)>, label: &[u8]) -> (r: Option<Vec<u8>>)
    ensures
        ({
            let i = find_label(pairs_view(map@), label@);
            match r {
                Some(p) => i >= 0 && p@ == pairs_view(map@)[i].1,
                None => i == -1,
            }
        }),
{
    let mut j: usize = 0;
    while j < map.len()
        invariant
            0 <= j <= map@.len(),
            forall|q: int| 0 <= q < j ==> (#[trigger] pairs_view(map@)[q]).0 != label@,
        decreases map@.len() - j,
    {
        if text::bytes_eq(map[j].0.as_slice(), label) {
            proof {
                lemma_find_label_at(pairs_view(map@), label@, j as int);
            }
            return Some(clone_bytes(&map[j].1));
        }
        j = j + 1;
    }
    proof {
        lemma_find_label_none(pairs_view(map@), label@);
    }
    None
}

/// The sysfs name of a role's attribute: the prefix, an underscore and
/// the attribute suffix.
pub fn attr_name(prefix: &[u8], attr: &[u8]) -> (r: Vec<u8>)
    ensures
        r@ == prefix@ + seq![95u8] + attr@,
{
    let mut r = text::sub_bytes(prefix, 0, prefix.len());
    proof {
        assert(r@ =~= prefix@);
    }
    r.push(95);
    let ghost mid = r@;
    let mut k: usize = 0;
    while k < attr.len()
        invariant
            0 <= k <= attr@.len(),
            r@ == mid + attr@.subrange(0, k as int),
        decreases attr@.len() - k,
    {
        r.push(attr[k]);
        proof {
            assert(r@ =~= mid + attr@.subrange(0, k + 1));
        }
        k = k + 1;
    }
    proof {
        assert(attr@.subrange(0, attr@.len() as int) =~= attr@);
        assert(r@ =~= prefix@ + seq![95u8] + attr@);
    }
    r
}

/// The two power tracking caps, in microwatts.
pub struct PptCaps {
    pub slow_uw: u64,
    pub fast_uw: u64,
}

/// The boost the caps encode: the fast cap's headroom above the slow
/// one, and zero when it sits below.
pub open spec fn spec_caps_boost_uw(c: PptCaps) -> nat {
    if c.fast_uw >= c.slow_uw {
        (c.fast_uw - c.slow_uw) as nat
    } else {
        0
    }
}

/// The caps after a TDP change: the slow cap becomes the value and the
/// fast cap follows at the old headroom.
pub open spec fn spec_caps_set_tdp(c: PptCaps, value_uw: u64) -> PptCaps {
    PptCaps { slow_uw: value_uw, fast_uw: (value_uw + spec_caps_boost_uw(c)) as u64 }
}

impl Hwmon {
    /// The TDP the caps encode, in microwatts.
    pub fn tdp_uw(&self, caps: &PptCaps) -> (r: u64)
        ensures
            r == caps.slow_uw,
    {
        caps.slow_uw
    }

    /// The boost the caps encode, in microwatts.
    pub fn boost_uw(&self, caps: &PptCaps) -> (r: u64)
        ensures
            r as nat == spec_caps_boost_uw(*caps),
    {
        if caps.fast_uw >= caps.slow_uw {
            caps.fast_uw - caps.slow_uw
        } else {
            0
        }
    }

    /// Computes the caps to write for a TDP request: below one watt is
    /// rejected, otherwise the slow cap moves and the fast cap keeps
    /// its headroom.
    pub fn set_tdp(&self, caps: &PptCaps, value_uw: u64) -> (r: Result<PptCaps, TDPError>)
        requires
            value_uw + spec_caps_boost_uw(*caps) <= u64::MAX,
        ensures
            value_uw < 1000000 ==> (r matches Err(TDPError::InvalidArgument(_))),
            value_uw >= 1000000 ==> (r matches Ok(nc) && nc == spec_caps_set_tdp(*caps, value_uw)),
    {
        if value_uw < 1000000 {
            return Err(
                TDPError::InvalidArgument(
                    String::from_str("Cowardly refusing to set TDP less than 1W"),
                ),
            );
        }
        let boost = self.boost_uw(caps);
        Ok(PptCaps { slow_uw: value_uw, fast_uw: value_uw + boost })
    }

    /// Computes the caps to write for a boost request: negative boosts
    /// are rejected, otherwise the fast cap moves to the slow cap plus
    /// the request.
    pub fn set_boost(&self, caps: &PptCaps, value_uw: i64) -> (r: Result<PptCaps, TDPError>)
        requires
            value_uw >= 0 ==> caps.slow_uw + value_uw <= u64::MAX,
        ensures
            value_uw < 0 ==> (r matches Err(TDPError::InvalidArgument(_))),
            value_uw >= 0 ==> (r matches Ok(nc) && nc.slow_uw == caps.slow_uw && nc.fast_uw
                == caps.slow_uw + value_uw),
    {
        if value_uw < 0 {
            return Err(
                TDPError::InvalidArgument(
                    String::from_str("Cowardly refusing to set TDP Boost less than 0W"),
                ),
            );
        }
        Ok(PptCaps { slow_uw: caps.slow_uw, fast_uw: caps.slow_uw + (value_uw as u64) })
    }
}

/// The profile the fast cap's hardware range gives: microwatt bounds
/// scaled to milliwatts, with no boost headroom advertised.
pub fn get_limits(cap_min_uw: u64, cap_max_uw: u64) -> (r: Hardware)
    ensures
        r.min_tdp_mw == cap_min_uw / 1000,
        r.max_tdp_mw == cap_max_uw / 1000,
        r.max_boost_mw == 0,
{
    Hardware { min_tdp_mw: cap_min_uw / 1000, max_tdp_mw: cap_max_uw / 1000, max_boost_mw: 0 }
}

/// A TDP change through the caps preserves the boost headroom.
pub proof fn lemma_hwmon_boost_preserved(c: PptCaps, value_uw: u64)
    requires
        value_uw + spec_caps_boost_uw(c) <= u64::MAX,
    ensures
        spec_caps_boost_uw(spec_caps_set_tdp(c, value_uw)) == spec_caps_boost_uw(c),
{
}

} // verus!
