//! ACPI platform-profile backend.
//!
//! The firmware exposes the current coarse performance profile and the
//! set of valid choices as whitespace-separated words.  Legacy clients
//! still ask for the two RyzenAdj profile names; when the firmware does
//! not list them, they are translated to the nearest ACPI profile.

use vstd::prelude::*;
use vstd::string::StringExecFns;

use crate::error::TDPError;
use crate::text;

verus! {

/// The ACPI platform-profile interface.  Its state lives entirely in
/// the firmware files; the caller reads them and applies the write this
/// backend decides on.
pub struct Acpi {}

/// What a profile request asks the caller to write, if anything.
pub enum ProfileAction {
    /// The requested profile is already current: write nothing.
    NoChange,
    /// Write the requested profile as given.
    WriteRequested,
    /// Write the fixed ACPI name `performance`.
    WritePerformance,
    /// Write the fixed ACPI name `balanced`.
    WriteBalanced,
}

/// The concatenation of the whitespace-separated words of `s` — how the
/// raw profile file is read.
pub open spec fn concat_tokens_spec(ts: Seq<Seq<u8>>) -> Seq<u8>
    decreases ts.len(),
{
    if ts.len() == 0 {
        Seq::<u8>::empty()
    } else {
        ts[0] + concat_tokens_spec(ts.drop_first())
    }
}

impl Acpi {
    pub fn new() -> (r: Acpi) {
        Acpi {}
    }

    /// Reads the current profile from the profile file's contents: its
    /// whitespace-separated words, joined.
    pub fn power_profile(&self, content: &[u8]) -> (r: String)
        ensures
            text::all_ascii(concat_tokens_spec(text::tokens_spec(content@))) ==> text::ascii_rep(
                r@,
                concat_tokens_spec(text::tokens_spec(content@)),
            ),
    {
        let toks = text::split_tokens(content);
        let ghost ts = toks.deep_view();
        proof {
            assert(forall|w: int| 0 <= w < ts.len() ==> ts[w] =~= (#[trigger] toks@[w])@);
        }
        let mut joined: Vec<u8> = Vec::new();
        let mut i: usize = 0;
        proof {
            assert(ts.subrange(0, ts.len() as int) =~= ts);
            assert(joined@ + concat_tokens_spec(ts) =~= concat_tokens_spec(ts));
        }
        while i < toks.len()
            invariant
                0 <= i <= ts.len(),
                ts == toks.deep_view(),
                forall|w: int| 0 <= w < ts.len() ==> ts[w] == (#[trigger] toks@[w])@,
                concat_tokens_spec(ts) == joined@ + concat_tokens_spec(
                    ts.subrange(i as int, ts.len() as int),
                ),
            decreases ts.len() - i,
        {
            let ghost tail = ts.subrange(i as int, ts.len() as int);
            let ghost tail2 = ts.subrange(i + 1, ts.len() as int);
            proof {
                assert(tail[0] == ts[i as int]);
                assert(tail.drop_first() =~= tail2);
                assert(joined@ + concat_tokens_spec(tail) =~= (joined@ + ts[i as int])
                    + concat_tokens_spec(tail2));
            }
            let tok = &toks[i];
            let ghost base = joined@;
            let mut k: usize = 0;
            proof {
                assert(joined@ =~= base + tok@.subrange(0, 0));
            }
            while k < tok.len()
                invariant
                    0 <= k <= tok@.len(),
                    joined@ == base + tok@.subrange(0, k as int),
                decreases tok@.len() - k,
            {
                joined.push(tok[k]);
                proof {
                    assert(joined@ =~= base + tok@.subrange(0, k + 1));
                }
                k = k + 1;
            }
            proof {
                assert(tok@.subrange(0, tok@.len() as int) =~= tok@);
                assert(joined@ == base + ts[i as int]);
            }
            i = i + 1;
        }
        proof {
            assert(ts.subrange(ts.len() as int, ts.len() as int) =~= Seq::<Seq<u8>>::empty());
            assert(joined@ + concat_tokens_spec(Seq::<Seq<u8>>::empty()) =~= joined@);
        }
        text::lossy_string(joined.as_slice())
    }

    /// Reads the available profiles from the choices file's contents:
    /// one per whitespace-separated word.
    pub fn power_profiles_available(&self, content: &[u8]) -> (r: Vec<String>)
        ensures
            ({
                let ts = text::tokens_spec(content@);
                &&& r@.len() == ts.len()
                &&& forall|i: int|
                    0 <= i < ts.len() && text::all_ascii(#[trigger] ts[i]) ==> text::ascii_rep(
                        r@[i]@,
                        ts[i],
                    )
            }),
    {
        let toks = text::split_tokens(content);
        let ghost ts = toks.deep_view();
        proof {
            assert(forall|w: int| 0 <= w < ts.len() ==> ts[w] =~= (#[trigger] toks@[w])@);
        }
        let mut out: Vec<String> = Vec::new();
        let mut q: usize = 0;
        while q < toks.len()
            invariant
                0 <= q <= ts.len(),
                ts == toks.deep_view(),
                forall|w: int| 0 <= w < ts.len() ==> ts[w] == (#[trigger] toks@[w])@,
                out@.len() == q,
                forall|i: int|
                    0 <= i < q && text::all_ascii(#[trigger] ts[i]) ==> text::ascii_rep(
                        out@[i]@,
                        ts[i],
                    ),
            decreases ts.len() - q,
        {
            let sstr = text::lossy_string(toks[q].as_slice());
            proof {
                assert(toks@[q as int]@ == ts[q as int]);
            }
            out.push(sstr);
            q = q + 1;
        }
        out
    }

    /// Decides what to write for a profile request: nothing when the
    /// profile is already current; the profile itself when the firmware
    /// lists it; the translated ACPI name for the two legacy RyzenAdj
    /// profiles; and a rejection for anything else.
    pub fn set_power_profile(
        &self,
        current: &String,
        choices: &Vec<String>,
        profile: &String,
    ) -> (r: Result<ProfileAction, TDPError>)
        ensures
            current@ == profile@ ==> (r matches Ok(ProfileAction::NoChange)),
            current@ != profile@ && choices.deep_view().contains(profile@) ==> (r matches Ok(
                ProfileAction::WriteRequested,
            )),
            current@ != profile@ && !choices.deep_view().contains(profile@) && profile@
                == "max-performance"@ ==> (r matches Ok(ProfileAction::WritePerformance)),
            current@ != profile@ && !choices.deep_view().contains(profile@) && profile@
                == "power-saving"@ ==> (r matches Ok(ProfileAction::WriteBalanced)),
            current@ != profile@ && !choices.deep_view().contains(profile@) && profile@
                != "max-performance"@ && profile@ != "power-saving"@ ==> (r matches Err(
                TDPError::InvalidArgument(_),
            )),
    {
        if *current == *profile {
            return Ok(ProfileAction::NoChange);
        }
        if crate::cpu::has_feature(choices, profile) {
            return Ok(ProfileAction::WriteRequested);
        }
        proof {
            reveal_strlit("max-performance");
            reveal_strlit("power-saving");
            assert(("max-performance").is_ascii());
            assert(("power-saving").is_ascii());
        }
        if text::str_eq_lit(profile.as_str(), "max-performance") {
            Ok(ProfileAction::WritePerformance)
        } else if text::str_eq_lit(profile.as_str(), "power-saving") {
            Ok(ProfileAction::WriteBalanced)
        } else {
            Err(
                TDPError::InvalidArgument(
                    String::from_str("not a valid platform profile for this host"),
                ),
            )
        }
    }
}

} // verus!
