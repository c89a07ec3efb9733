//! Per-model TDP limits from the merged APU databases.
//!
//! Three databases — AMD, Intel, and DMI overrides, in that order — each
//! hold a list of `{model name, min TDP, max TDP, max boost}` entries.
//! They are merged by model name with later entries overriding earlier
//! ones, and the host is matched first by DMI product name, then by CPU
//! model name.  Power values are milliwatts.

use vstd::prelude::*;
use vstd::string::StringExecFns;

use crate::text;

verus! {

/// One database entry.
pub struct ModelConfig {
    pub model_name: String,
    pub min_tdp_mw: u64,
    pub max_tdp_mw: u64,
    pub max_boost_mw: u64,
}

/// One database: a list of entries.
pub struct Config {
    pub models: Vec<ModelConfig>,
}

/// The limits that apply to the host.
pub struct Hardware {
    pub min_tdp_mw: u64,
    pub max_tdp_mw: u64,
    pub max_boost_mw: u64,
}

impl Hardware {
    pub fn min_tdp(&self) -> (r: u64)
        ensures
            r == self.min_tdp_mw,
    {
        self.min_tdp_mw
    }

    pub fn max_tdp(&self) -> (r: u64)
        ensures
            r == self.max_tdp_mw,
    {
        self.max_tdp_mw
    }

    pub fn max_boost(&self) -> (r: u64)
        ensures
            r == self.max_boost_mw,
    {
        self.max_boost_mw
    }
}

/// The first index whose entry carries `name`, or -1.
pub open spec fn find_name(models: Seq<ModelConfig>, name: Seq<char>) -> int
    decreases models.len(),
{
    if models.len() == 0 {
        -1
    } else if models[0].model_name@ == name {
        0
    } else {
        let r = find_name(models.drop_first(), name);
        if r == -1 {
            -1
        } else {
            r + 1
        }
    }
}

proof fn lemma_find_name_props(models: Seq<ModelConfig>, name: Seq<char>)
    ensures
        find_name(models, name) >= -1,
        find_name(models, name) == -1 ==> forall|i: int|
            0 <= i < models.len() ==> (#[trigger] models[i]).model_name@ != name,
        find_name(models, name) >= 0 ==> find_name(models, name) < models.len() && models[find_name(
            models,
            name,
        )].model_name@ == name,
    decreases models.len(),
{
    if models.len() > 0 && models[0].model_name@ != name {
        lemma_find_name_props(models.drop_first(), name);
        let t = models.drop_first();
        assert(find_name(t, name) >= -1);
        assert(find_name(models, name) == (if find_name(t, name) == -1 {
            -1int
        } else {
            find_name(t, name) + 1
        }));
        if find_name(models, name) == -1 {
            assert(find_name(t, name) == -1);
            assert forall|i: int| 0 <= i < models.len() implies (
            #[trigger] models[i]).model_name@ != name by {
                if i > 0 {
                    assert(models[i] == t[i - 1]);
                    assert(t[i - 1].model_name@ != name);
                }
            }
        }
    }
}

/// Looks an entry up by name, pinned to [`find_name`].
fn find_entry(models: &Vec<ModelConfig>, name: &String) -> (r: Option<usize>)
    ensures
        match r {
            Some(i) => i as int == find_name(models@, name@),
            None => find_name(models@, name@) == -1,
        },
{
    let mut i: usize = 0;
    proof {
        assert(models@.subrange(0, models@.len() as int) =~= models@);
    }
    while i < models.len()
        invariant
            0 <= i <= models@.len(),
            forall|q: int| 0 <= q < i ==> (#[trigger] models@[q]).model_name@ != name@,
            find_name(models@, name@) == find_name(
                models@.subrange(i as int, models@.len() as int),
                name@,
            ) + (if find_name(models@.subrange(i as int, models@.len() as int), name@) >= 0 {
                i as int
            } else {
                0
            }),
        decreases models@.len() - i,
    {
        let ghost tail = models@.subrange(i as int, models@.len() as int);
        let ghost tail2 = models@.subrange(i + 1, models@.len() as int);
        proof {
            assert(tail[0] == models@[i as int]);
            assert(tail.drop_first() =~= tail2);
        }
        if models[i].model_name == *name {
            proof {
                assert(find_name(tail, name@) == 0);
            }
            return Some(i);
        }
        proof {
            assert(models@[i as int].model_name@ != name@);
            lemma_find_name_props(tail2, name@);
            assert(find_name(tail, name@) == (if find_name(tail2, name@) == -1 {
                -1int
            } else {
                find_name(tail2, name@) + 1
            }));
            assert(tail2 == models@.subrange(i as int + 1, models@.len() as int));
            assert(find_name(models@, name@) == find_name(tail2, name@) + (if find_name(
                tail2,
                name@,
            ) >= 0 {
                i as int + 1
            } else {
                0
            }));
        }
        i = i + 1;
    }
    proof {
        assert(models@.subrange(models@.len() as int, models@.len() as int)
            =~= Seq::<ModelConfig>::empty());
    }
    None
}

/// Whether the merged databases know this model name.
pub fn check_model_exists(merged: &Config, model: &String) -> (r: bool)
    ensures
        r == (find_name(merged.models@, model@) >= 0),
{
    match find_entry(&merged.models, model) {
        Some(_) => true,
        None => false,
    }
}

/// One merge step: a later entry replaces the first entry of its name,
/// or is appended when the name is new.
pub open spec fn upsert(acc: Seq<ModelConfig>, e: ModelConfig) -> Seq<ModelConfig> {
    let i = find_name(acc, e.model_name@);
    if i >= 0 {
        acc.update(i, e)
    } else {
        acc.push(e)
    }
}

/// Merging a list of entries into an accumulator, left to right.
pub open spec fn merge_entries(acc: Seq<ModelConfig>, es: Seq<ModelConfig>) -> Seq<ModelConfig>
    decreases es.len(),
{
    if es.len() == 0 {
        acc
    } else {
        merge_entries(upsert(acc, es[0]), es.drop_first())
    }
}

/// Merges the databases in priority order: every entry of a later
/// database overrides any earlier entry of the same model name.
pub fn merge_configs(configs: Vec<Config>) -> (r: Config)
    ensures
        r.models@ == spec_merge_configs(configs@),
{
    let mut acc: Vec<ModelConfig> = Vec::new();
    let mut ci: usize = 0;
    proof {
        lemma_merge_configs_upto_zero(configs@);
    }
    while ci < configs.len()
        invariant
            0 <= ci <= configs@.len(),
            spec_merge_configs(configs@) == spec_merge_configs_from(acc@, configs@, ci as int),
        decreases configs@.len() - ci,
    {
        let models = &configs[ci].models;
        let mut ei: usize = 0;
        proof {
            assert(models@.subrange(0, models@.len() as int) =~= models@);
            assert(spec_merge_configs_from(acc@, configs@, ci as int) == spec_merge_configs_from(
                merge_entries(acc@, configs@[ci as int].models@),
                configs@,
                ci + 1,
            ));
        }
        while ei < models.len()
            invariant
                0 <= ci < configs@.len(),
                0 <= ei <= models@.len(),
                models@ == configs@[ci as int].models@,
                spec_merge_configs(configs@) == spec_merge_configs_from(
                    merge_entries(acc@, models@.subrange(ei as int, models@.len() as int)),
                    configs@,
                    ci + 1,
                ),
            decreases models@.len() - ei,
        {
            let ghost tail = models@.subrange(ei as int, models@.len() as int);
            let ghost tail2 = models@.subrange(ei + 1, models@.len() as int);
            proof {
                assert(tail[0] == models@[ei as int]);
                assert(tail.drop_first() =~= tail2);
            }
            let e = clone_entry(&models[ei]);
            let ghost eg = e;
            let ghost old_acc = acc@;
            proof {
                assert(eg == models@[ei as int]);
            }
            match find_entry(&acc, &e.model_name) {
                Some(i) => {
                    proof {
                        lemma_find_name_props(old_acc, eg.model_name@);
                        assert(i < old_acc.len());
                    }
                    acc[i] = e;
                    proof {
                        assert(acc@ =~= upsert(old_acc, eg));
                    }
                },
                None => {
                    acc.push(e);
                    proof {
                        assert(acc@ =~= upsert(old_acc, eg));
                    }
                },
            }
            proof {
                assert(merge_entries(old_acc, tail) == merge_entries(upsert(old_acc, tail[0]), tail2));
                assert(acc@ == upsert(old_acc, eg));
            }
            ei = ei + 1;
        }
        proof {
            assert(models@.subrange(models@.len() as int, models@.len() as int)
                =~= Seq::<ModelConfig>::empty());
        }
        ci = ci + 1;
    }
    Config { models: acc }
}

/// The merge of whole databases, later databases overriding earlier
/// ones.
pub open spec fn spec_merge_configs(configs: Seq<Config>) -> Seq<ModelConfig> {
    spec_merge_configs_from(Seq::<ModelConfig>::empty(), configs, 0)
}

/// Merging the databases from index `ci` onward into `acc`.
pub open spec fn spec_merge_configs_from(
    acc: Seq<ModelConfig>,
    configs: Seq<Config>,
    ci: int,
) -> Seq<ModelConfig>
    decreases configs.len() - ci,
{
    if ci < 0 || ci >= configs.len() {
        acc
    } else {
        spec_merge_configs_from(merge_entries(acc, configs[ci].models@), configs, ci + 1)
    }
}

proof fn lemma_merge_configs_upto_zero(configs: Seq<Config>)
    ensures
        spec_merge_configs(configs) == spec_merge_configs_from(
            Seq::<ModelConfig>::empty(),
            configs,
            0,
        ),
{
}

/// Copies an entry field by field.
fn clone_entry(e: &ModelConfig) -> (r: ModelConfig)
    ensures
        r == *e,
{
    ModelConfig {
        model_name: e.model_name.clone(),
        min_tdp_mw: e.min_tdp_mw,
        max_tdp_mw: e.max_tdp_mw,
        max_boost_mw: e.max_boost_mw,
    }
}

/// The `[[models]]` block header of the database files.
pub open spec fn models_header() -> Seq<u8> {
    seq![91u8, 91u8, 109u8, 111u8, 100u8, 101u8, 108u8, 115u8, 93u8, 93u8]
}

/// The `model_name` key.
pub open spec fn key_model_name() -> Seq<u8> {
    seq![109u8, 111u8, 100u8, 101u8, 108u8, 95u8, 110u8, 97u8, 109u8, 101u8]
}

/// The `min_tdp` key.
pub open spec fn key_min_tdp() -> Seq<u8> {
    seq![109u8, 105u8, 110u8, 95u8, 116u8, 100u8, 112u8]
}

/// The `max_tdp` key.
pub open spec fn key_max_tdp() -> Seq<u8> {
    seq![109u8, 97u8, 120u8, 95u8, 116u8, 100u8, 112u8]
}

/// The `max_boost` key.
pub open spec fn key_max_boost() -> Seq<u8> {
    seq![109u8, 97u8, 120u8, 95u8, 98u8, 111u8, 111u8, 115u8, 116u8]
}

/// The milliwatts of a fraction read to three places: shorter fractions
/// scale up, further digits are beyond the stored precision and are
/// dropped.
pub open spec fn frac_mw(fr: Seq<u8>) -> nat {
    if fr.len() >= 3 {
        text::digits_val(fr.subrange(0, 3))
    } else if fr.len() == 2 {
        text::digits_val(fr) * 10
    } else if fr.len() == 1 {
        text::digits_val(fr) * 100
    } else {
        0
    }
}

/// The watts a database number denotes, in milliwatts: decimal digits
/// with an optional fraction.  Anything else — the original read these
/// as floating point and fell back to zero — counts zero, as does a
/// value too large for the milliwatt scale.
pub open spec fn watts_mw_spec(v: Seq<u8>) -> u64 {
    let ip = text::before_byte_spec(v, 46);
    let fr = text::after_byte_spec(v, 46);
    if text::all_digits(ip) && text::all_digits(fr) && (ip.len() > 0 || fr.len() > 0)
        && text::digits_val(ip) <= (u64::MAX - 999) as nat / 1000 {
        (text::digits_val(ip) * 1000 + frac_mw(fr)) as u64
    } else {
        0
    }
}

proof fn lemma_digits3(s: Seq<u8>)
    requires
        text::all_digits(s),
        s.len() == 3,
    ensures
        text::digits_val(s) <= 999,
{
    let s2 = s.drop_last();
    let s1 = s2.drop_last();
    let s0 = s1.drop_last();
    assert(s0 =~= Seq::<u8>::empty());
    assert(text::digits_val(s0) == 0);
    assert(s2[0] == s[0] && s2[1] == s[1]);
    assert(s1[0] == s[0]);
    assert(text::digits_val(s1) == (s1.last() - 48) as nat);
    assert(text::digits_val(s1) <= 9);
    assert(text::digits_val(s2) == text::digits_val(s1) * 10 + (s2.last() - 48) as nat);
    assert(text::digits_val(s2) <= 99);
}

proof fn lemma_digits2(s: Seq<u8>)
    requires
        text::all_digits(s),
        s.len() <= 2,
    ensures
        text::digits_val(s) <= 99,
{
    if s.len() > 0 {
        let s1 = s.drop_last();
        if s1.len() > 0 {
            assert(s1.drop_last() =~= Seq::<u8>::empty());
            assert(text::digits_val(s1.drop_last()) == 0);
            assert(s1[0] == s[0]);
            assert(text::digits_val(s1) == (s1.last() - 48) as nat);
        }
        assert(text::digits_val(s1) <= 9);
        assert(text::digits_val(s) == text::digits_val(s1) * 10 + (s.last() - 48) as nat);
    }
}

/// Reads a database wattage into milliwatts.
pub fn watts_mw(v: &[u8]) -> (r: u64)
    ensures
        r == watts_mw_spec(v@),
{
    let (ip, fr, _) = text::split_at_byte(v, 46);
    let ip_ok = text::check_all_digits(ip.as_slice());
    let fr_ok = text::check_all_digits(fr.as_slice());
    if !ip_ok || !fr_ok || (ip.len() == 0 && fr.len() == 0) {
        return 0;
    }
    let ipv: u64 = if ip.len() == 0 {
        0
    } else {
        match text::parse_u64(ip.as_slice()) {
            Some(x) => x,
            None => {
                return 0;
            },
        }
    };
    if ipv > (u64::MAX - 999) / 1000 {
        return 0;
    }
    let frv: u64 = if fr.len() == 0 {
        0
    } else if fr.len() == 1 {
        proof {
            assert(fr@ =~= seq![fr@[0]]);
            assert(fr@.drop_last() =~= Seq::<u8>::empty());
            assert(text::digits_val(fr@.drop_last()) == 0);
            assert(text::digits_val(fr@) == (fr@.last() - 48) as nat);
        }
        ((fr[0] - 48) as u64) * 100
    } else if fr.len() == 2 {
        proof {
            assert(fr@.drop_last() =~= seq![fr@[0]]);
            assert(fr@.drop_last().drop_last() =~= Seq::<u8>::empty());
            assert(text::digits_val(fr@.drop_last().drop_last()) == 0);
            assert(text::digits_val(fr@.drop_last()) == (fr@[0] - 48) as nat);
            assert(text::digits_val(fr@) == text::digits_val(fr@.drop_last()) * 10 + (fr@.last()
                - 48) as nat);
        }
        (((fr[0] - 48) as u64) * 10 + ((fr[1] - 48) as u64)) * 10
    } else {
        let f3 = text::sub_bytes(fr.as_slice(), 0, 3);
        proof {
            lemma_digits3(f3@);
        }
        match text::parse_u64(f3.as_slice()) {
            Some(x) => x,
            None => 0,
        }
    };
    proof {
        if fr@.len() >= 3 {
            lemma_digits3(fr@.subrange(0, 3));
        } else {
            lemma_digits2(fr@);
        }
        assert(frv as nat == frac_mw(fr@));
        assert(frv <= 999);
        assert(ipv * 1000 <= u64::MAX - 999) by (nonlinear_arith)
            requires
                ipv <= (u64::MAX - 999) / 1000,
        {}
    }
    ipv * 1000 + frv
}

/// The model name a `model_name` value denotes: the content of its
/// quoted string when one opens and closes, the value itself otherwise.
pub open spec fn name_of_value_spec(v: Seq<u8>) -> Seq<u8> {
    if v.len() > 0 && v[0] == 34 {
        let rest = v.drop_first();
        if exists|q: int| 0 <= q < rest.len() && rest[q] == 34 {
            text::before_byte_spec(rest, 34)
        } else {
            v
        }
    } else {
        v
    }
}

/// Extracts a model name from its value bytes.
pub fn name_of_value(v: &[u8]) -> (r: Vec<u8>)
    ensures
        r@ == name_of_value_spec(v@),
{
    if v.len() > 0 && v[0] == 34 {
        let rest = text::sub_bytes(v, 1, v.len());
        proof {
            assert(rest@ =~= v@.drop_first());
        }
        let (before, _, found) = text::split_at_byte(rest.as_slice(), 34);
        if found {
            return before;
        }
    }
    text::sub_bytes(v, 0, v.len())
}

/// One sweep over a database file's lines, as entries
/// `(name, min, max, boost)`: a `[[models]]` header closes the entry
/// in progress and opens a fresh one; inside an entry, a `key = value`
/// line fills the key's slot — the name from its quoted string, the
/// wattages in milliwatts with any trailing comment cut; everything
/// else, and anything outside an entry, is passed over.
pub open spec fn models_scan(
    lines: Seq<Seq<u8>>,
    i: int,
    cur: Option<(Seq<u8>, u64, u64, u64)>,
    acc: Seq<(Seq<u8>, u64, u64, u64)>,
) -> Seq<(Seq<u8>, u64, u64, u64)>
    decreases lines.len() - i,
{
    if i < 0 || i >= lines.len() {
        match cur {
            Option::None => acc,
            Option::Some(m) => acc.push(m),
        }
    } else {
        let t = text::trim_spec(lines[i]);
        if t == models_header() {
            models_scan(
                lines,
                i + 1,
                Option::Some((Seq::<u8>::empty(), 0, 0, 0)),
                match cur {
                    Option::None => acc,
                    Option::Some(m) => acc.push(m),
                },
            )
        } else {
            match cur {
                Option::None => models_scan(lines, i + 1, cur, acc),
                Option::Some(m) => {
                    if exists|q: int| 0 <= q < t.len() && t[q] == 61 {
                        let key = text::trim_spec(text::before_byte_spec(t, 61));
                        let value = text::trim_spec(text::after_byte_spec(t, 61));
                        let num = text::trim_spec(text::before_byte_spec(value, 35));
                        let m2 = if key == key_model_name() {
                            (name_of_value_spec(value), m.1, m.2, m.3)
                        } else if key == key_min_tdp() {
                            (m.0, watts_mw_spec(num), m.2, m.3)
                        } else if key == key_max_tdp() {
                            (m.0, m.1, watts_mw_spec(num), m.3)
                        } else if key == key_max_boost() {
                            (m.0, m.1, m.2, watts_mw_spec(num))
                        } else {
                            m
                        };
                        models_scan(lines, i + 1, Option::Some(m2), acc)
                    } else {
                        models_scan(lines, i + 1, cur, acc)
                    }
                },
            }
        }
    }
}

/// The entries a database file holds.
pub open spec fn models_spec(content: Seq<u8>) -> Seq<(Seq<u8>, u64, u64, u64)> {
    models_scan(
        text::lines_spec(content),
        0,
        Option::<(Seq<u8>, u64, u64, u64)>::None,
        Seq::<(Seq<u8>, u64, u64, u64)>::empty(),
    )
}

/// Reads one database file: its `[[models]]` entries in order, wattages
/// in milliwatts, names pinned for ASCII content.
pub fn parse_models(content: &[u8]) -> (r: Vec<ModelConfig>)
    ensures
        ({
            let ms = models_spec(content@);
            &&& r@.len() == ms.len()
            &&& forall|i: int|
                0 <= i < ms.len() ==> {
                    let e = #[trigger] ms[i];
                    &&& r@[i].min_tdp_mw == e.1
                    &&& r@[i].max_tdp_mw == e.2
                    &&& r@[i].max_boost_mw == e.3
                    &&& (text::all_ascii(e.0) ==> text::ascii_rep(r@[i].model_name@, e.0))
                }
        }),
{
    let lines = text::split_lines(content);
    let ghost dv = lines.deep_view();
    proof {
        assert(forall|q: int| 0 <= q < dv.len() ==> dv[q] =~= (#[trigger] lines@[q])@);
    }
    let mut hdr: Vec<u8> = Vec::new();
    hdr.push(91);
    hdr.push(91);
    hdr.push(109);
    hdr.push(111);
    hdr.push(100);
    hdr.push(101);
    hdr.push(108);
    hdr.push(115);
    hdr.push(93);
    hdr.push(93);
    let mut k_name: Vec<u8> = Vec::new();
    k_name.push(109);
    k_name.push(111);
    k_name.push(100);
    k_name.push(101);
    k_name.push(108);
    k_name.push(95);
    k_name.push(110);
    k_name.push(97);
    k_name.push(109);
    k_name.push(101);
    let mut k_min: Vec<u8> = Vec::new();
    k_min.push(109);
    k_min.push(105);
    k_min.push(110);
    k_min.push(95);
    k_min.push(116);
    k_min.push(100);
    k_min.push(112);
    let mut k_max: Vec<u8> = Vec::new();
    k_max.push(109);
    k_max.push(97);
    k_max.push(120);
    k_max.push(95);
    k_max.push(116);
    k_max.push(100);
    k_max.push(112);
    let mut k_boost: Vec<u8> = Vec::new();
    k_boost.push(109);
    k_boost.push(97);
    k_boost.push(120);
    k_boost.push(95);
    k_boost.push(98);
    k_boost.push(111);
    k_boost.push(111);
    k_boost.push(115);
    k_boost.push(116);
    proof {
        assert(hdr@ =~= models_header());
        assert(k_name@ =~= key_model_name());
        assert(k_min@ =~= key_min_tdp());
        assert(k_max@ =~= key_max_tdp());
        assert(k_boost@ =~= key_max_boost());
    }
    let mut out: Vec<ModelConfig> = Vec::new();
    let ghost mut acc: Seq<(Seq<u8>, u64, u64, u64)> = Seq::<(Seq<u8>, u64, u64, u64)>::empty();
    let mut have_cur = false;
    let mut name_b: Vec<u8> = Vec::new();
    let mut mn: u64 = 0;
    let mut mx: u64 = 0;
    let mut mb: u64 = 0;
    let mut i: usize = 0;
    while i < lines.len()
        invariant
            0 <= i <= dv.len(),
            dv == lines.deep_view(),
            forall|q: int| 0 <= q < dv.len() ==> dv[q] == (#[trigger] lines@[q])@,
            hdr@ == models_header(),
            k_name@ == key_model_name(),
            k_min@ == key_min_tdp(),
            k_max@ == key_max_tdp(),
            k_boost@ == key_max_boost(),
            dv == text::lines_spec(content@),
            models_spec(content@) == models_scan(
                dv,
                i as int,
                if have_cur {
                    Option::Some((name_b@, mn, mx, mb))
                } else {
                    Option::<(Seq<u8>, u64, u64, u64)>::None
                },
                acc,
            ),
            out@.len() == acc.len(),
            forall|q: int|
                0 <= q < acc.len() ==> {
                    let e = #[trigger] acc[q];
                    &&& out@[q].min_tdp_mw == e.1
                    &&& out@[q].max_tdp_mw == e.2
                    &&& out@[q].max_boost_mw == e.3
                    &&& (text::all_ascii(e.0) ==> text::ascii_rep(out@[q].model_name@, e.0))
                },
        decreases dv.len() - i,
    {
        let t = text::trim(lines[i].as_slice());
        proof {
            assert(lines@[i as int]@ == dv[i as int]);
        }
        if text::bytes_eq(t.as_slice(), hdr.as_slice()) {
            if have_cur {
                let entry = ModelConfig {
                    model_name: text::lossy_string(name_b.as_slice()),
                    min_tdp_mw: mn,
                    max_tdp_mw: mx,
                    max_boost_mw: mb,
                };
                proof {
                    acc = acc.push((name_b@, mn, mx, mb));
                }
                out.push(entry);
            }
            have_cur = true;
            name_b = Vec::new();
            mn = 0;
            mx = 0;
            mb = 0;
        } else if have_cur {
            let (before, after, found) = text::split_at_byte(t.as_slice(), 61);
            if found {
                let key = text::trim(before.as_slice());
                let value = text::trim(after.as_slice());
                let (num_raw, _, _) = text::split_at_byte(value.as_slice(), 35);
                let num = text::trim(num_raw.as_slice());
                if text::bytes_eq(key.as_slice(), k_name.as_slice()) {
                    name_b = name_of_value(value.as_slice());
                } else if text::bytes_eq(key.as_slice(), k_min.as_slice()) {
                    mn = watts_mw(num.as_slice());
                } else if text::bytes_eq(key.as_slice(), k_max.as_slice()) {
                    mx = watts_mw(num.as_slice());
                } else if text::bytes_eq(key.as_slice(), k_boost.as_slice()) {
                    mb = watts_mw(num.as_slice());
                }
            }
        }
        i = i + 1;
    }
    if have_cur {
        let entry = ModelConfig {
            model_name: text::lossy_string(name_b.as_slice()),
            min_tdp_mw: mn,
            max_tdp_mw: mx,
            max_boost_mw: mb,
        };
        proof {
            acc = acc.push((name_b@, mn, mx, mb));
        }
        out.push(entry);
    }
    out
}

/// Picks the model name that selects the host's profile: the DMI product
/// name when the databases know it, else the CPU model name when they
/// know it, else the product name as a fallback, else a fixed unknown
/// marker.
pub fn get_current_model(
    product_name: Option<String>,
    cpu_model: Option<String>,
    merged: &Config,
) -> (r: String)
    ensures
        ({
            let pn_hit = product_name matches Some(p) && find_name(merged.models@, p@) >= 0;
            let cm_hit = cpu_model matches Some(c) && find_name(merged.models@, c@) >= 0;
            &&& pn_hit ==> r@ == product_name->Some_0@
            &&& !pn_hit && cm_hit ==> r@ == cpu_model->Some_0@
            &&& !pn_hit && !cm_hit && product_name is Some ==> r@ == product_name->Some_0@
            &&& !pn_hit && !cm_hit && product_name is None ==> r@ == "Unknown Model"@
        }),
{
    if let Some(p) = &product_name {
        if check_model_exists(merged, p) {
            return p.clone();
        }
    }
    if let Some(c) = &cpu_model {
        if check_model_exists(merged, c) {
            return c.clone();
        }
    }
    match product_name {
        Some(p) => p,
        None => String::from_str("Unknown Model"),
    }
}

/// The profile for the chosen model: the first merged entry of that
/// name, or all-zero limits when the databases do not know the host.
pub fn profile_for(merged: &Config, model: &String) -> (r: Hardware)
    ensures
        ({
            let i = find_name(merged.models@, model@);
            if i >= 0 {
                &&& r.min_tdp_mw == merged.models@[i].min_tdp_mw
                &&& r.max_tdp_mw == merged.models@[i].max_tdp_mw
                &&& r.max_boost_mw == merged.models@[i].max_boost_mw
            } else {
                r.min_tdp_mw == 0 && r.max_tdp_mw == 0 && r.max_boost_mw == 0
            }
        }),
{
    match find_entry(&merged.models, model) {
        Some(i) => {
            proof {
                lemma_find_name_props(merged.models@, model@);
            }
            Hardware {
                min_tdp_mw: merged.models[i].min_tdp_mw,
                max_tdp_mw: merged.models[i].max_tdp_mw,
                max_boost_mw: merged.models[i].max_boost_mw,
            }
        },
        None => Hardware { min_tdp_mw: 0, max_tdp_mw: 0, max_boost_mw: 0 },
    }
}

/// The first line of `/proc/cpuinfo` starting with `model name`, taken
/// after its colon and trimmed; how the CPU model name is read.
pub open spec fn model_name_spec(content: Seq<u8>) -> Option<Seq<u8>> {
    match first_model_line(text::lines_spec(content)) {
        Option::None => Option::None,
        Option::Some(l) => Option::Some(
            text::trim_spec(text::after_colon_spec(l)),
        ),
    }
}

/// The `model name` line prefix.
pub open spec fn model_prefix() -> Seq<u8> {
    seq![109u8, 111u8, 100u8, 101u8, 108u8, 32u8, 110u8, 97u8, 109u8, 101u8]
}

/// The first line starting with `model name`.
pub open spec fn first_model_line(lines: Seq<Seq<u8>>) -> Option<Seq<u8>>
    decreases lines.len(),
{
    if lines.len() == 0 {
        None
    } else if text::is_prefix_of(model_prefix(), lines[0]) {
        Some(lines[0])
    } else {
        first_model_line(lines.drop_first())
    }
}

/// Extracts the CPU model name from the contents of `/proc/cpuinfo`.
pub fn extract_model_name(content: &[u8]) -> (r: Option<Vec<u8>>)
    ensures
        match (r, model_name_spec(content@)) {
            (Some(v), Some(m)) => v@ == m,
            (None, None) => true,
            _ => false,
        },
{
    let lines = crate::text::split_lines(content);
    let ghost dv = lines.deep_view();
    proof {
        assert(dv.subrange(0, dv.len() as int) =~= dv);
        assert(forall|q: int| 0 <= q < dv.len() ==> dv[q] =~= (#[trigger] lines@[q])@);
    }
    let mp = model_prefix_bytes();
    let mut li: usize = 0;
    while li < lines.len()
        invariant
            0 <= li <= dv.len(),
            dv == lines.deep_view(),
            dv == text::lines_spec(content@),
            mp@ == model_prefix(),
            forall|q: int| 0 <= q < dv.len() ==> dv[q] == (#[trigger] lines@[q])@,
            first_model_line(dv) == first_model_line(dv.subrange(li as int, dv.len() as int)),
        decreases dv.len() - li,
    {
        let ghost tail = dv.subrange(li as int, dv.len() as int);
        let ghost tail2 = dv.subrange(li + 1, dv.len() as int);
        proof {
            assert(tail[0] == dv[li as int]);
            assert(tail.drop_first() =~= tail2);
        }
        if text::starts_with(lines[li].as_slice(), mp.as_slice()) {
            proof {
                assert(text::is_prefix_of(model_prefix(), dv[li as int]));
                assert(first_model_line(tail) == Option::Some(dv[li as int]));
            }
            let line = lines[li].as_slice();
            proof {
                assert(line@ =~= dv[li as int]);
            }
            let value: Vec<u8> = match text::find_colon(line) {
                Some(cj) => {
                    proof {
                        text::lemma_after_colon_at(line@, cj as int);
                    }
                    assert(cj < line.len());
                    text::sub_bytes(line, cj + 1, line.len())
                },
                None => {
                    proof {
                        text::lemma_after_colon_at(line@, line@.len() as int);
                    }
                    Vec::new()
                },
            };
            proof {
                assert(value@ =~= text::after_colon_spec(line@));
            }
            return Some(text::trim(value.as_slice()));
        }
        proof {
            assert(!text::is_prefix_of(model_prefix(), dv[li as int]));
            assert(first_model_line(tail) == first_model_line(tail2));
        }
        li = li + 1;
    }
    proof {
        assert(dv.subrange(dv.len() as int, dv.len() as int) =~= Seq::<Seq<u8>>::empty());
    }
    None
}

/// The literal bytes of `model name`.
fn model_prefix_bytes() -> (r: Vec<u8>)
    ensures
        r@ == model_prefix(),
{
    let mut r: Vec<u8> = Vec::new();
    r.push(109);
    r.push(111);
    r.push(100);
    r.push(101);
    r.push(108);
    r.push(32);
    r.push(110);
    r.push(97);
    r.push(109);
    r.push(101);
    proof {
        assert(r@ =~= model_prefix());
    }
    r
}

} // verus!
