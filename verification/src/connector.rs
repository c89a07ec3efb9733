//! DRM display connectors: read-only views of a card's outputs.
//!
//! Each connector is a sysfs directory beside its card.  The caller
//! reads the files and the functions here decide what they mean.

use vstd::prelude::*;

use crate::text;

verus! {

/// One display output: its name (the card-name suffix) and its sysfs
/// directory.
pub struct Connector {
    pub name: String,
    pub path: String,
}

impl Connector {
    pub fn name(&self) -> (r: String)
        ensures
            r@ == self.name@,
    {
        self.name.clone()
    }

    pub fn path(&self) -> (r: String)
        ensures
            r@ == self.path@,
    {
        self.path.clone()
    }
}

/// Parses the `connector_id` file: the trimmed, lower-cased contents as
/// a decimal number.
pub fn parse_connector_id(content: &[u8]) -> (r: Option<u32>)
    ensures
        ({
            let t = text::lower_spec(text::trim_spec(content@));
            match r {
                Some(v) => t.len() > 0 && text::all_digits(t) && text::digits_val(t) == v as nat,
                None => t.len() == 0 || !text::all_digits(t) || text::digits_val(t)
                    > u32::MAX as nat,
            }
        }),
{
    let t0 = text::trim(content);
    let t = text::to_lower(t0.as_slice());
    text::parse_u32(t.as_slice())
}

/// The `enabled` file reads enabled exactly when its trimmed,
/// lower-cased contents are `enabled`.
pub open spec fn enabled_spec(content: Seq<u8>) -> bool {
    text::lower_spec(text::trim_spec(content)) == "enabled"@.map_values(|c: char| c as u8)
}

/// Parses the `enabled` file.
pub fn parse_enabled(content: &[u8]) -> (r: bool)
    ensures
        r == enabled_spec(content@),
{
    proof {
        reveal_strlit("enabled");
        assert(("enabled").is_ascii());
    }
    let t0 = text::trim(content);
    let t = text::to_lower(t0.as_slice());
    let r = text::eq_str(t.as_slice(), "enabled");
    proof {
        assert(text::chars_bytes("enabled"@) =~= "enabled"@.map_values(|c: char| c as u8));
    }
    r
}

/// The `dpms` file reads on exactly when its trimmed, lower-cased
/// contents are `on`.
pub open spec fn dpms_spec(content: Seq<u8>) -> bool {
    text::lower_spec(text::trim_spec(content)) == seq![111u8, 110u8]
}

/// Parses the `dpms` file.
pub fn parse_dpms(content: &[u8]) -> (r: bool)
    ensures
        r == dpms_spec(content@),
{
    let t0 = text::trim(content);
    let t = text::to_lower(t0.as_slice());
    let is_on = t.len() == 2 && t[0] == 111 && t[1] == 110;
    proof {
        if is_on {
            assert(t@ =~= seq![111u8, 110u8]);
        }
    }
    is_on
}

/// The `status` file's value: trimmed and lower-cased.
pub fn parse_status(content: &[u8]) -> (r: String)
    ensures
        text::all_ascii(text::lower_spec(text::trim_spec(content@))) ==> text::ascii_rep(
            r@,
            text::lower_spec(text::trim_spec(content@)),
        ),
{
    let t0 = text::trim(content);
    let t = text::to_lower(t0.as_slice());
    text::lossy_string(t.as_slice())
}

/// The display modes a `modes` file lists: its lines, trimmed, with the
/// empty ones dropped, in order.
pub open spec fn modes_spec(lines: Seq<Seq<u8>>) -> Seq<Seq<u8>>
    decreases lines.len(),
{
    if lines.len() == 0 {
        Seq::<Seq<u8>>::empty()
    } else {
        let t = text::trim_spec(lines[0]);
        let rest = modes_spec(lines.drop_first());
        if t.len() > 0 {
            seq![t] + rest
        } else {
            rest
        }
    }
}

/// Parses the `modes` file.
pub fn parse_modes(content: &[u8]) -> (r: Vec<String>)
    ensures
        ({
            let ms = modes_spec(text::lines_spec(content@));
            &&& r@.len() == ms.len()
            &&& forall|i: int|
                0 <= i < ms.len() && text::all_ascii(#[trigger] ms[i]) ==> text::ascii_rep(
                    r@[i]@,
                    ms[i],
                )
        }),
{
    let lines = text::split_lines(content);
    let ghost dv = lines.deep_view();
    proof {
        assert(forall|q: int| 0 <= q < dv.len() ==> dv[q] =~= (#[trigger] lines@[q])@);
        assert(dv.subrange(0, dv.len() as int) =~= dv);
    }
    let mut out: Vec<String> = Vec::new();
    let ghost mut done: Seq<Seq<u8>> = Seq::<Seq<u8>>::empty();
    let mut i: usize = 0;
    proof {
        assert(done + modes_spec(dv) =~= modes_spec(dv));
    }
    while i < lines.len()
        invariant
            0 <= i <= dv.len(),
            dv == lines.deep_view(),
            forall|q: int| 0 <= q < dv.len() ==> dv[q] == (#[trigger] lines@[q])@,
            modes_spec(dv) == done + modes_spec(dv.subrange(i as int, dv.len() as int)),
            out@.len() == done.len(),
            forall|q: int|
                0 <= q < done.len() && text::all_ascii(#[trigger] done[q]) ==> text::ascii_rep(
                    out@[q]@,
                    done[q],
                ),
        decreases dv.len() - i,
    {
        let ghost tail = dv.subrange(i as int, dv.len() as int);
        let ghost tail2 = dv.subrange(i + 1, dv.len() as int);
        proof {
            assert(tail[0] == dv[i as int]);
            assert(tail.drop_first() =~= tail2);
        }
        let t = text::trim(lines[i].as_slice());
        if t.len() > 0 {
            proof {
                assert(done + modes_spec(tail) =~= done.push(t@) + modes_spec(tail2));
            }
            let sstr = text::lossy_string(t.as_slice());
            out.push(sstr);
            proof {
                done = done.push(t@);
            }
        } else {
            proof {
                assert(done + modes_spec(tail) =~= done + modes_spec(tail2));
            }
        }
        i = i + 1;
    }
    proof {
        assert(dv.subrange(dv.len() as int, dv.len() as int) =~= Seq::<Seq<u8>>::empty());
        assert(done + modes_spec(Seq::<Seq<u8>>::empty()) =~= done);
    }
    out
}

} // verus!
