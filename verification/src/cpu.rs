//! CPU core topology and the SMT-aware core enable/disable logic.
//!
//! The controller models each hardware thread as a [`CPUCore`] and groups
//! threads that share a physical core into buckets keyed by their kernel
//! `core_id`.  All decisions are made over this model; the caller carries
//! the resulting writes to the kernel's `online` pseudo-files.

use vstd::prelude::*;
use vstd::string::StringExecFns;

use crate::error::CpuError;

verus! {

/// One hardware thread.
///
/// `number` is the kernel CPU number, `path` its sysfs directory,
/// `core_id` the physical-core key shared by SMT siblings, and `online`
/// the last state recorded for the kernel's `online` file.
pub struct CPUCore {
    pub number: u32,
    pub path: String,
    pub core_id: u32,
    pub online: bool,
}

impl CPUCore {
    /// A freshly discovered core: presumed online, physical core not yet
    /// read.
    pub fn new(number: u32, path: String) -> (r: CPUCore)
        ensures
            r.number == number,
            r.path == path,
            r.core_id == 0,
            r.online,
    {
        CPUCore { number, path, core_id: 0, online: true }
    }

    /// The same core with its physical-core key filled in from
    /// `topology/core_id`.
    pub fn with_core_id(self, core_id: u32) -> (r: CPUCore)
        ensures
            r.number == self.number,
            r.path == self.path,
            r.core_id == core_id,
            r.online == self.online,
    {
        CPUCore { core_id, ..self }
    }

    pub fn number(&self) -> (r: u32)
        ensures
            r == self.number,
    {
        self.number
    }

    pub fn core_id(&self) -> (r: u32)
        ensures
            r == self.core_id,
    {
        self.core_id
    }

    /// Whether the core counts as online.  Core 0 is pinned online no
    /// matter what state was recorded for it.
    pub open spec fn spec_online(&self) -> bool {
        self.number == 0 || self.online
    }

    /// Reports the core's online state; core 0 always reports online.
    pub fn online(&self) -> (r: bool)
        ensures
            r == self.spec_online(),
            self.number == 0 ==> r,
    {
        self.number == 0 || self.online
    }

    /// Records the requested state.  Core 0 never changes.  Returns
    /// whether the caller owes a write to the core's `online` file.
    pub fn set_online(&mut self, enabled: bool) -> (write_needed: bool)
        ensures
            final(self).number == old(self).number,
            final(self).path == old(self).path,
            final(self).core_id == old(self).core_id,
            old(self).number == 0 ==> final(self).online == old(self).online && !write_needed,
            old(self).number != 0 ==> final(self).online == enabled && write_needed,
            final(self).spec_online() == (old(self).number == 0 || enabled),
    {
        if self.number == 0 {
            return false;
        }
        self.online = enabled;
        true
    }
}

/// The SMT siblings that share one physical core.
pub struct CoreBucket {
    pub core_id: u32,
    pub cores: Vec<CPUCore>,
}

/// What a per-core count counts.
pub enum Measure {
    /// Cores that report online (core 0 always does).
    Online,
    /// Cores numbered 0.
    Zero,
    /// Candidate cores: every core but core 0.
    Cand,
    /// All cores.
    Size,
}

/// The contribution of one core to a count.
pub open spec fn core_m(m: Measure, c: CPUCore) -> nat {
    match m {
        Measure::Online => if c.spec_online() {
            1nat
        } else {
            0nat
        },
        Measure::Zero => if c.number == 0 {
            1nat
        } else {
            0nat
        },
        Measure::Cand => if c.number != 0 {
            1nat
        } else {
            0nat
        },
        Measure::Size => 1nat,
    }
}

/// The count over the first `k` cores of a sibling list.
pub open spec fn count_upto(m: Measure, cs: Seq<CPUCore>, k: int) -> nat
    decreases k,
{
    if k <= 0 {
        0
    } else {
        count_upto(m, cs, k - 1) + core_m(m, cs[k - 1])
    }
}

/// The count over a whole bucket.
pub open spec fn bucket_m(m: Measure, b: CoreBucket) -> nat {
    count_upto(m, b.cores@, b.cores@.len() as int)
}

/// The count over the first `i` buckets.
pub open spec fn sum_upto(m: Measure, bs: Seq<CoreBucket>, i: int) -> nat
    decreases i,
{
    if i <= 0 {
        0
    } else {
        sum_upto(m, bs, i - 1) + bucket_m(m, bs[i - 1])
    }
}

/// The count over the whole core map.
pub open spec fn sum_all(m: Measure, bs: Seq<CoreBucket>) -> nat {
    sum_upto(m, bs, bs.len() as int)
}

proof fn lemma_count_upto_congruent(m: Measure, cs1: Seq<CPUCore>, cs2: Seq<CPUCore>, k: int)
    requires
        forall|t: int| 0 <= t < k ==> cs1[t] == cs2[t],
    ensures
        count_upto(m, cs1, k) == count_upto(m, cs2, k),
    decreases k,
{
    if k > 0 {
        lemma_count_upto_congruent(m, cs1, cs2, k - 1);
    }
}

proof fn lemma_count_upto_mono(m: Measure, cs: Seq<CPUCore>, k1: int, k2: int)
    requires
        k1 <= k2,
    ensures
        count_upto(m, cs, k1) <= count_upto(m, cs, k2),
    decreases k2,
{
    if k2 > 0 && k1 < k2 {
        lemma_count_upto_mono(m, cs, k1, k2 - 1);
    }
}

proof fn lemma_sum_upto_congruent(m: Measure, bs1: Seq<CoreBucket>, bs2: Seq<CoreBucket>, i: int)
    requires
        forall|t: int| 0 <= t < i ==> bs1[t] == bs2[t],
    ensures
        sum_upto(m, bs1, i) == sum_upto(m, bs2, i),
    decreases i,
{
    if i > 0 {
        lemma_sum_upto_congruent(m, bs1, bs2, i - 1);
    }
}

/// Replacing bucket `j` changes a prefix sum that covers it by the
/// difference of the bucket counts.
proof fn lemma_sum_upto_update(m: Measure, bs: Seq<CoreBucket>, j: int, b2: CoreBucket, i: int)
    requires
        0 <= j < bs.len(),
        i <= bs.len(),
    ensures
        j < i ==> sum_upto(m, bs.update(j, b2), i) + bucket_m(m, bs[j]) == sum_upto(m, bs, i)
            + bucket_m(m, b2),
        j >= i ==> sum_upto(m, bs.update(j, b2), i) == sum_upto(m, bs, i),
    decreases i,
{
    if i > 0 {
        lemma_sum_upto_update(m, bs, j, b2, i - 1);
    }
}

/// Inserting a bucket adds its count to the whole-map sum.
proof fn lemma_sum_insert(m: Measure, bs: Seq<CoreBucket>, p: int, b: CoreBucket)
    requires
        0 <= p <= bs.len(),
    ensures
        sum_all(m, bs.insert(p, b)) == sum_all(m, bs) + bucket_m(m, b),
    decreases bs.len() - p,
{
    let bs2 = bs.insert(p, b);
    if p == bs.len() {
        assert forall|t: int| 0 <= t < bs.len() implies bs2[t] == bs[t] by {}
        lemma_sum_upto_congruent(m, bs2, bs, bs.len() as int);
        assert(sum_upto(m, bs2, bs2.len() as int) == sum_upto(m, bs2, bs.len() as int) + bucket_m(
            m,
            bs2[bs.len() as int],
        ));
    } else {
        let last = bs[bs.len() - 1];
        let bs_short = bs.drop_last();
        lemma_sum_insert(m, bs_short, p, b);
        assert(bs_short.insert(p, b) =~= bs2.drop_last());
        assert(forall|t: int| 0 <= t < bs.len() - 1 ==> bs_short[t] == bs[t]);
        lemma_sum_upto_congruent(m, bs_short, bs, bs.len() - 1);
        assert(sum_all(m, bs) == sum_upto(m, bs, bs.len() - 1) + bucket_m(m, last));
        assert(forall|t: int| 0 <= t < bs2.len() - 1 ==> (bs2.drop_last())[t] == bs2[t]);
        lemma_sum_upto_congruent(m, bs2.drop_last(), bs2, bs2.len() - 1);
        assert(bs2[bs2.len() - 1] == last);
        assert(sum_all(m, bs2) == sum_upto(m, bs2, bs2.len() - 1) + bucket_m(m, last));
    }
}

/// When two counts agree core by core over a region, the sums agree.
proof fn lemma_count_upto_pointwise(m1: Measure, m2: Measure, cs: Seq<CPUCore>, k: int)
    requires
        forall|t: int| 0 <= t < k ==> core_m(m1, cs[t]) == core_m(m2, cs[t]),
    ensures
        count_upto(m1, cs, k) == count_upto(m2, cs, k),
    decreases k,
{
    if k > 0 {
        lemma_count_upto_pointwise(m1, m2, cs, k - 1);
    }
}

/// How many siblings of bucket `i` a sibling-level sweep standing at level
/// `s`, bucket `b` has visited: buckets before `b` have seen level `s`
/// too, the rest only the levels below it.
pub open spec fn visited_cap(bs: Seq<CoreBucket>, s: int, b: int, i: int) -> int {
    let lv = if i < b {
        s + 1
    } else {
        s
    };
    if lv <= bs[i].cores@.len() {
        lv
    } else {
        bs[i].cores@.len() as int
    }
}

/// The count over everything a sibling-level sweep at `(s, b)` has
/// visited, over the first `i` buckets.
pub open spec fn sum_visited_upto(m: Measure, bs: Seq<CoreBucket>, s: int, b: int, i: int) -> nat
    decreases i,
{
    if i <= 0 {
        0
    } else {
        sum_visited_upto(m, bs, s, b, i - 1) + count_upto(m, bs[i - 1].cores@, visited_cap(bs, s, b, i - 1))
    }
}

/// The count over everything a sibling-level sweep at `(s, b)` has
/// visited.
pub open spec fn sum_visited(m: Measure, bs: Seq<CoreBucket>, s: int, b: int) -> nat {
    sum_visited_upto(m, bs, s, b, bs.len() as int)
}

/// Nothing is visited when the sweep starts.
proof fn lemma_sum_visited_zero(m: Measure, bs: Seq<CoreBucket>, i: int)
    ensures
        sum_visited_upto(m, bs, 0, 0, i) == 0,
    decreases i,
{
    if i > 0 {
        lemma_sum_visited_zero(m, bs, i - 1);
    }
}

/// Stepping the sweep to the next bucket adds the core at `(b, s)`, when
/// that bucket has one at this level.
proof fn lemma_sum_visited_step(m: Measure, bs: Seq<CoreBucket>, s: int, b: int, i: int)
    requires
        0 <= s,
        0 <= b < bs.len(),
    ensures
        sum_visited_upto(m, bs, s, b + 1, i) == sum_visited_upto(m, bs, s, b, i) + (if b < i && s
            < bs[b].cores@.len() {
            core_m(m, bs[b].cores@[s])
        } else {
            0nat
        }),
    decreases i,
{
    if i > 0 {
        lemma_sum_visited_step(m, bs, s, b, i - 1);
        if i - 1 == b {
            if s < bs[b].cores@.len() {
                assert(visited_cap(bs, s, b, b) == s);
                assert(visited_cap(bs, s, b + 1, b) == s + 1);
            } else {
                assert(visited_cap(bs, s, b, b) == visited_cap(bs, s, b + 1, b));
            }
        } else {
            assert(visited_cap(bs, s, b, i - 1) == visited_cap(bs, s, b + 1, i - 1));
        }
    }
}

/// Finishing a level and starting the next one visits the same region.
proof fn lemma_sum_visited_wrap(m: Measure, bs: Seq<CoreBucket>, s: int, i: int)
    requires
        0 <= s,
        i <= bs.len(),
    ensures
        sum_visited_upto(m, bs, s, bs.len() as int, i) == sum_visited_upto(m, bs, s + 1, 0, i),
    decreases i,
{
    if i > 0 {
        lemma_sum_visited_wrap(m, bs, s, i - 1);
        assert(visited_cap(bs, s, bs.len() as int, i - 1) == visited_cap(bs, s + 1, 0, i - 1));
    }
}

/// Once the level passes every bucket's length, the sweep has visited the
/// whole map.
proof fn lemma_sum_visited_all(m: Measure, bs: Seq<CoreBucket>, s: int, i: int)
    requires
        i <= bs.len(),
        forall|t: int| 0 <= t < bs.len() ==> #[trigger] bs[t].cores@.len() <= s,
    ensures
        sum_visited_upto(m, bs, s, 0, i) == sum_upto(m, bs, i),
    decreases i,
{
    if i > 0 {
        lemma_sum_visited_all(m, bs, s, i - 1);
        if 0 <= i - 1 < bs.len() {
            assert(visited_cap(bs, s, 0, i - 1) == bs[i - 1].cores@.len());
        }
    }
}

/// The shape of two core maps agrees: same buckets, same cores, with only
/// the recorded online flags possibly different.
pub open spec fn same_shape(bs1: Seq<CoreBucket>, bs2: Seq<CoreBucket>) -> bool {
    &&& bs1.len() == bs2.len()
    &&& forall|i: int|
        0 <= i < bs1.len() ==> {
            &&& #[trigger] bs2[i].core_id == bs1[i].core_id
            &&& bs2[i].cores@.len() == bs1[i].cores@.len()
            &&& forall|k: int|
                0 <= k < bs1[i].cores@.len() ==> {
                    &&& (#[trigger] bs2[i].cores@[k]).number == bs1[i].cores@[k].number
                    &&& bs2[i].cores@[k].path == bs1[i].cores@[k].path
                    &&& bs2[i].cores@[k].core_id == bs1[i].cores@[k].core_id
                }
        }
}

/// The CPU: all discovered cores, bucketed by physical core.
pub struct CPU {
    core_map: Vec<CoreBucket>,
    core_count: u32,
}

impl CPU {
    /// The bucket list, for specification purposes.
    pub closed spec fn buckets(&self) -> Seq<CoreBucket> {
        self.core_map@
    }

    /// The advertised core count, for specification purposes.
    pub closed spec fn spec_cores_count(&self) -> u32 {
        self.core_count
    }

    /// Well-formedness: buckets strictly sorted by `core_id`, every core
    /// sitting in the bucket of its own `core_id`, the advertised core
    /// count matching the map, and exactly one core numbered 0.
    pub open spec fn wf(&self) -> bool {
        let bs = self.buckets();
        &&& forall|i: int, j: int|
            0 <= i < j < bs.len() ==> (#[trigger] bs[i].core_id) < (#[trigger] bs[j].core_id)
        &&& forall|i: int, k: int|
            0 <= i < bs.len() && 0 <= k < bs[i].cores@.len() ==> (#[trigger] bs[i].cores@[k]).core_id
                == bs[i].core_id
        &&& sum_all(Measure::Size, bs) == self.spec_cores_count()
        &&& sum_all(Measure::Zero, bs) == 1
    }

    /// How many cores the map reports online.
    pub open spec fn spec_cores_online(&self) -> nat {
        sum_all(Measure::Online, self.buckets())
    }

    pub fn cores_count(&self) -> (r: u32)
        ensures
            r == self.spec_cores_count(),
    {
        self.core_count
    }
}

/// `Size` counts one per core, so a size count is a length.
proof fn lemma_size_is_len(cs: Seq<CPUCore>, k: int)
    requires
        0 <= k,
    ensures
        count_upto(Measure::Size, cs, k) == k,
    decreases k,
{
    if k > 0 {
        lemma_size_is_len(cs, k - 1);
    }
}

/// Any per-core count over `k` cores is at most `k`.
proof fn lemma_count_le_len(m: Measure, cs: Seq<CPUCore>, k: int)
    requires
        0 <= k,
    ensures
        count_upto(m, cs, k) <= k,
    decreases k,
{
    if k > 0 {
        lemma_count_le_len(m, cs, k - 1);
    }
}

/// Any bucket sum is bounded by the size sum.
proof fn lemma_sum_le_size(m: Measure, bs: Seq<CoreBucket>, i: int)
    requires
        0 <= i,
    ensures
        sum_upto(m, bs, i) <= sum_upto(Measure::Size, bs, i),
    decreases i,
{
    if i > 0 {
        lemma_sum_le_size(m, bs, i - 1);
        lemma_count_le_len(m, bs[i - 1].cores@, bs[i - 1].cores@.len() as int);
        lemma_size_is_len(bs[i - 1].cores@, bs[i - 1].cores@.len() as int);
    }
}

/// One bucket's count is bounded by the sum over the whole map.
proof fn lemma_bucket_le_sum(m: Measure, bs: Seq<CoreBucket>, i: int)
    requires
        0 <= i < bs.len(),
    ensures
        bucket_m(m, bs[i]) <= sum_all(m, bs),
    decreases bs.len() - i,
{
    lemma_sum_partial_le(m, bs, i + 1, bs.len() as int);
    assert(sum_upto(m, bs, i + 1) == sum_upto(m, bs, i) + bucket_m(m, bs[i]));
}

proof fn lemma_sum_partial_le(m: Measure, bs: Seq<CoreBucket>, i: int, j: int)
    requires
        0 <= i <= j,
    ensures
        sum_upto(m, bs, i) <= sum_upto(m, bs, j),
    decreases j,
{
    if i < j {
        lemma_sum_partial_le(m, bs, i, j - 1);
    }
}

/// A core is either core 0 or a candidate, so the two counts add up to
/// the size.
proof fn lemma_cand_zero_size(cs: Seq<CPUCore>, k: int)
    requires
        0 <= k,
    ensures
        count_upto(Measure::Cand, cs, k) + count_upto(Measure::Zero, cs, k) == k,
    decreases k,
{
    if k > 0 {
        lemma_cand_zero_size(cs, k - 1);
    }
}

proof fn lemma_sum_cand_zero_size(bs: Seq<CoreBucket>, i: int)
    requires
        0 <= i,
    ensures
        sum_upto(Measure::Cand, bs, i) + sum_upto(Measure::Zero, bs, i) == sum_upto(
            Measure::Size,
            bs,
            i,
        ),
    decreases i,
{
    if i > 0 {
        lemma_sum_cand_zero_size(bs, i - 1);
        lemma_cand_zero_size(bs[i - 1].cores@, bs[i - 1].cores@.len() as int);
        lemma_size_is_len(bs[i - 1].cores@, bs[i - 1].cores@.len() as int);
    }
}

/// Two core lists that agree on a measure, core by core, count the same.
proof fn lemma_count_upto_same_m(m: Measure, cs1: Seq<CPUCore>, cs2: Seq<CPUCore>, k: int)
    requires
        forall|t: int| 0 <= t < k ==> core_m(m, cs1[t]) == core_m(m, cs2[t]),
    ensures
        count_upto(m, cs1, k) == count_upto(m, cs2, k),
    decreases k,
{
    if k > 0 {
        lemma_count_upto_same_m(m, cs1, cs2, k - 1);
    }
}

/// A discovered core as the constructor records it: brought online.
pub open spec fn onlined(c: CPUCore) -> CPUCore {
    CPUCore { online: true, ..c }
}

/// How often the value `c` occurs among the first `k` cores of a list.
pub open spec fn core_count_in(cs: Seq<CPUCore>, k: int, c: CPUCore) -> nat
    decreases k,
{
    if k <= 0 {
        0
    } else {
        core_count_in(cs, k - 1, c) + if cs[k - 1] == c {
            1nat
        } else {
            0nat
        }
    }
}

/// How often the value `c` occurs in the first `i` buckets of a map.
pub open spec fn map_core_count(bs: Seq<CoreBucket>, i: int, c: CPUCore) -> nat
    decreases i,
{
    if i <= 0 {
        0
    } else {
        map_core_count(bs, i - 1, c) + core_count_in(
            bs[i - 1].cores@,
            bs[i - 1].cores@.len() as int,
            c,
        )
    }
}

/// How often the first `i` discovered cores, each brought online, give
/// the value `c`.
pub open spec fn input_core_count(cs: Seq<CPUCore>, i: int, c: CPUCore) -> nat
    decreases i,
{
    if i <= 0 {
        0
    } else {
        input_core_count(cs, i - 1, c) + if onlined(cs[i - 1]) == c {
            1nat
        } else {
            0nat
        }
    }
}

proof fn lemma_core_count_congruent(cs1: Seq<CPUCore>, cs2: Seq<CPUCore>, k: int, c: CPUCore)
    requires
        forall|t: int| 0 <= t < k ==> cs1[t] == cs2[t],
    ensures
        core_count_in(cs1, k, c) == core_count_in(cs2, k, c),
    decreases k,
{
    if k > 0 {
        lemma_core_count_congruent(cs1, cs2, k - 1, c);
    }
}

proof fn lemma_map_count_congruent(bs1: Seq<CoreBucket>, bs2: Seq<CoreBucket>, i: int, c: CPUCore)
    requires
        forall|t: int| 0 <= t < i ==> bs1[t] == bs2[t],
    ensures
        map_core_count(bs1, i, c) == map_core_count(bs2, i, c),
    decreases i,
{
    if i > 0 {
        lemma_map_count_congruent(bs1, bs2, i - 1, c);
    }
}

/// Replacing bucket `j` changes the count by the bucket difference.
proof fn lemma_map_count_update(bs: Seq<CoreBucket>, j: int, b2: CoreBucket, i: int, c: CPUCore)
    requires
        0 <= j < bs.len(),
        i <= bs.len(),
    ensures
        j < i ==> map_core_count(bs.update(j, b2), i, c) + core_count_in(
            bs[j].cores@,
            bs[j].cores@.len() as int,
            c,
        ) == map_core_count(bs, i, c) + core_count_in(b2.cores@, b2.cores@.len() as int, c),
        j >= i ==> map_core_count(bs.update(j, b2), i, c) == map_core_count(bs, i, c),
    decreases i,
{
    if i > 0 {
        lemma_map_count_update(bs, j, b2, i - 1, c);
    }
}

/// Inserting a bucket adds its count.
proof fn lemma_map_count_insert(bs: Seq<CoreBucket>, p: int, b: CoreBucket, c: CPUCore)
    requires
        0 <= p <= bs.len(),
    ensures
        map_core_count(bs.insert(p, b), bs.len() as int + 1, c) == map_core_count(bs, bs.len() as int, c)
            + core_count_in(b.cores@, b.cores@.len() as int, c),
    decreases bs.len() - p,
{
    let bs2 = bs.insert(p, b);
    if p == bs.len() {
        assert forall|t: int| 0 <= t < bs.len() implies bs2[t] == bs[t] by {}
        lemma_map_count_congruent(bs2, bs, bs.len() as int, c);
        assert(map_core_count(bs2, bs.len() as int + 1, c) == map_core_count(bs2, bs.len() as int, c)
            + core_count_in(bs2[bs.len() as int].cores@, bs2[bs.len() as int].cores@.len() as int, c));
    } else {
        let last = bs[bs.len() - 1];
        let bs_short = bs.drop_last();
        lemma_map_count_insert(bs_short, p, b, c);
        assert(bs_short.insert(p, b) =~= bs2.drop_last());
        assert(forall|t: int| 0 <= t < bs.len() - 1 ==> bs_short[t] == bs[t]);
        lemma_map_count_congruent(bs_short, bs, bs.len() - 1, c);
        assert(forall|t: int| 0 <= t < bs2.len() - 1 ==> (bs2.drop_last())[t] == bs2[t]);
        lemma_map_count_congruent(bs2.drop_last(), bs2, bs2.len() - 1, c);
        assert(bs2[bs2.len() - 1] == last);
        assert(map_core_count(bs2, bs.len() as int + 1, c) == map_core_count(bs2, bs.len() as int, c)
            + core_count_in(last.cores@, last.cores@.len() as int, c));
    }
}

impl CPU {
    /// Builds the CPU from the discovered cores.  Discovery first tries
    /// to bring every core online, so each core is recorded online here;
    /// the caller owes a best-effort `"1"` write to every non-zero core.
    /// The buckets hold exactly the discovered cores — each appears once,
    /// in the bucket of its `core_id`, brought online.  Exactly one
    /// discovered core must be core 0 — a core map without it is a
    /// discovery bug, not a client error.
    pub fn new(cores: Vec<CPUCore>) -> (r: CPU)
        requires
            cores@.len() <= u32::MAX,
            count_upto(Measure::Zero, cores@, cores@.len() as int) == 1,
        ensures
            r.wf(),
            r.spec_cores_count() == cores@.len(),
            r.spec_cores_online() == cores@.len(),
            forall|i: int, k: int|
                0 <= i < r.buckets().len() && 0 <= k < r.buckets()[i].cores@.len() ==> (
                #[trigger] r.buckets()[i].cores@[k]).online,
            forall|c: CPUCore|
                map_core_count(r.buckets(), r.buckets().len() as int, c) == input_core_count(
                    cores@,
                    cores@.len() as int,
                    c,
                ),
    {
        let n = cores.len();
        let mut core_map: Vec<CoreBucket> = Vec::new();
        let mut i: usize = 0;
        while i < n
            invariant
                0 <= i <= n,
                n == cores@.len() <= u32::MAX,
                count_upto(Measure::Zero, cores@, cores@.len() as int) == 1,
                forall|p: int, q: int|
                    0 <= p < q < core_map@.len() ==> (#[trigger] core_map@[p].core_id) < (
                    #[trigger] core_map@[q].core_id),
                forall|p: int, k: int|
                    0 <= p < core_map@.len() && 0 <= k < core_map@[p].cores@.len() ==> (
                    #[trigger] core_map@[p].cores@[k]).core_id == core_map@[p].core_id,
                forall|p: int, k: int|
                    0 <= p < core_map@.len() && 0 <= k < core_map@[p].cores@.len() ==> (
                    #[trigger] core_map@[p].cores@[k]).online,
                sum_all(Measure::Size, core_map@) == i,
                sum_all(Measure::Zero, core_map@) == count_upto(Measure::Zero, cores@, i as int),
                forall|c: CPUCore|
                    map_core_count(core_map@, core_map@.len() as int, c) == input_core_count(
                        cores@,
                        i as int,
                        c,
                    ),
            decreases n - i,
        {
            let number = cores[i].number;
            let core_id = cores[i].core_id;
            let path = cores[i].path.clone();
            let c = CPUCore { number, path, core_id, online: true };
            let ghost cg = c;
            proof {
                assert(core_m(Measure::Zero, cg) == core_m(Measure::Zero, cores@[i as int]));
                assert(onlined(cores@[i as int]) == cg);
            }
            let mut b: usize = 0;
            while b < core_map.len() && core_map[b].core_id < core_id
                invariant
                    0 <= b <= core_map@.len(),
                    forall|t: int| 0 <= t < b ==> (#[trigger] core_map@[t].core_id) < core_id,
                    forall|p: int, q: int|
                        0 <= p < q < core_map@.len() ==> (#[trigger] core_map@[p].core_id) < (
                        #[trigger] core_map@[q].core_id),
                decreases core_map@.len() - b,
            {
                b = b + 1;
            }
            let ghost bs = core_map@;
            if b < core_map.len() && core_map[b].core_id == core_id {
                let ghost old_bucket = bs[b as int];
                let bucket = &mut core_map[b];
                bucket.cores.push(c);
                proof {
                    let b2 = core_map@[b as int];
                    assert(core_map@ =~= bs.update(b as int, b2));
                    assert(b2.cores@ == old_bucket.cores@.push(cg));
                    assert(forall|t: int|
                        0 <= t < old_bucket.cores@.len() ==> old_bucket.cores@[t] == #[trigger] b2.cores@[t]);
                    lemma_count_upto_congruent(
                        Measure::Size,
                        b2.cores@,
                        old_bucket.cores@,
                        old_bucket.cores@.len() as int,
                    );
                    lemma_count_upto_congruent(
                        Measure::Zero,
                        b2.cores@,
                        old_bucket.cores@,
                        old_bucket.cores@.len() as int,
                    );
                    assert(bucket_m(Measure::Size, b2) == bucket_m(Measure::Size, old_bucket) + 1);
                    assert(bucket_m(Measure::Zero, b2) == bucket_m(Measure::Zero, old_bucket)
                        + core_m(Measure::Zero, cg));
                    lemma_sum_upto_update(Measure::Size, bs, b as int, b2, bs.len() as int);
                    lemma_sum_upto_update(Measure::Zero, bs, b as int, b2, bs.len() as int);
                    assert forall|c: CPUCore|
                        map_core_count(core_map@, core_map@.len() as int, c) == input_core_count(
                            cores@,
                            i as int + 1,
                            c,
                        ) by {
                        assert(map_core_count(bs, bs.len() as int, c) == input_core_count(
                            cores@,
                            i as int,
                            c,
                        ));
                        assert(input_core_count(cores@, i as int + 1, c) == input_core_count(
                            cores@,
                            i as int,
                            c,
                        ) + (if onlined(cores@[i as int]) == c {
                            1nat
                        } else {
                            0nat
                        }));
                        lemma_core_count_congruent(
                            b2.cores@,
                            old_bucket.cores@,
                            old_bucket.cores@.len() as int,
                            c,
                        );
                        assert(core_count_in(b2.cores@, b2.cores@.len() as int, c) == core_count_in(
                            old_bucket.cores@,
                            old_bucket.cores@.len() as int,
                            c,
                        ) + (if cg == c {
                            1nat
                        } else {
                            0nat
                        }));
                        lemma_map_count_update(bs, b as int, b2, bs.len() as int, c);
                    }
                }
            } else {
                let mut cs: Vec<CPUCore> = Vec::new();
                cs.push(c);
                let nb = CoreBucket { core_id, cores: cs };
                let ghost nbg = nb;
                proof {
                    assert(nbg.cores@ =~= seq![cg]);
                    assert(count_upto(Measure::Size, nbg.cores@, 0) == 0);
                    assert(count_upto(Measure::Zero, nbg.cores@, 0) == 0);
                    assert(nbg.cores@[0] == cg);
                    assert(bucket_m(Measure::Size, nbg) == 1);
                    assert(bucket_m(Measure::Zero, nbg) == core_m(Measure::Zero, cg));
                    lemma_sum_insert(Measure::Size, bs, b as int, nbg);
                    lemma_sum_insert(Measure::Zero, bs, b as int, nbg);
                }
                core_map.insert(b, nb);
                proof {
                    assert(core_map@ =~= bs.insert(b as int, nbg));
                    assert forall|c: CPUCore|
                        map_core_count(core_map@, core_map@.len() as int, c) == input_core_count(
                            cores@,
                            i as int + 1,
                            c,
                        ) by {
                        assert(map_core_count(bs, bs.len() as int, c) == input_core_count(
                            cores@,
                            i as int,
                            c,
                        ));
                        assert(input_core_count(cores@, i as int + 1, c) == input_core_count(
                            cores@,
                            i as int,
                            c,
                        ) + (if onlined(cores@[i as int]) == c {
                            1nat
                        } else {
                            0nat
                        }));
                        assert(core_count_in(nbg.cores@, 0, c) == 0);
                        assert(core_count_in(nbg.cores@, 1, c) == (if cg == c {
                            1nat
                        } else {
                            0nat
                        }));
                        lemma_map_count_insert(bs, b as int, nbg, c);
                    }
                }
            }
            i = i + 1;
        }
        proof {
            lemma_all_online_sum(core_map@, core_map@.len() as int);
        }
        CPU { core_map, core_count: n as u32 }
    }
}

/// When every core of the map is recorded online, the online count is
/// the size.
proof fn lemma_all_online_sum(bs: Seq<CoreBucket>, i: int)
    requires
        0 <= i <= bs.len(),
        forall|p: int, k: int|
            0 <= p < bs.len() && 0 <= k < bs[p].cores@.len() ==> (
            #[trigger] bs[p].cores@[k]).online,
    ensures
        sum_upto(Measure::Online, bs, i) == sum_upto(Measure::Size, bs, i),
    decreases i,
{
    if i > 0 {
        lemma_all_online_sum(bs, i - 1);
        let cs = bs[i - 1].cores@;
        assert(forall|t: int|
            0 <= t < cs.len() ==> core_m(Measure::Online, #[trigger] cs[t]) == core_m(
                Measure::Size,
                cs[t],
            ));
        lemma_count_upto_pointwise(Measure::Online, Measure::Size, cs, cs.len() as int);
    }
}

impl CPU {
    /// Counts the cores the map reports online.
    pub fn cores_enabled(&self) -> (r: u32)
        requires
            self.wf(),
        ensures
            r == self.spec_cores_online(),
    {
        let ghost bs = self.buckets();
        proof {
            lemma_sum_le_size(Measure::Online, bs, bs.len() as int);
        }
        let mut count: u32 = 0;
        let mut b: usize = 0;
        while b < self.core_map.len()
            invariant
                self.wf(),
                bs == self.buckets(),
                0 <= b <= bs.len(),
                count == sum_upto(Measure::Online, bs, b as int),
                sum_all(Measure::Online, bs) <= self.spec_cores_count(),
            decreases bs.len() - b,
        {
            let bucket = &self.core_map[b];
            let mut k: usize = 0;
            while k < bucket.cores.len()
                invariant
                    self.wf(),
                    bs == self.buckets(),
                    0 <= b < bs.len(),
                    bucket == bs[b as int],
                    0 <= k <= bucket.cores@.len(),
                    count == sum_upto(Measure::Online, bs, b as int) + count_upto(
                        Measure::Online,
                        bucket.cores@,
                        k as int,
                    ),
                    sum_all(Measure::Online, bs) <= self.spec_cores_count(),
                decreases bucket.cores@.len() - k,
            {
                proof {
                    lemma_count_upto_mono(
                        Measure::Online,
                        bucket.cores@,
                        k + 1,
                        bucket.cores@.len() as int,
                    );
                    lemma_bucket_le_sum(Measure::Online, bs, b as int);
                    lemma_sum_partial_le(Measure::Online, bs, b as int, bs.len() as int);
                    assert(sum_upto(Measure::Online, bs, b as int) + count_upto(
                        Measure::Online,
                        bucket.cores@,
                        k + 1,
                    ) <= sum_all(Measure::Online, bs)) by {
                        lemma_sum_visited_helper_le(Measure::Online, bs, b as int, k + 1);
                    }
                }
                if bucket.cores[k].online() {
                    count = count + 1;
                }
                k = k + 1;
            }
            b = b + 1;
        }
        count
    }
}

/// A prefix sum plus a partial bucket count stays within the total.
proof fn lemma_sum_visited_helper_le(m: Measure, bs: Seq<CoreBucket>, b: int, k: int)
    requires
        0 <= b < bs.len(),
        0 <= k <= bs[b].cores@.len(),
    ensures
        sum_upto(m, bs, b) + count_upto(m, bs[b].cores@, k) <= sum_all(m, bs),
{
    lemma_count_upto_mono(m, bs[b].cores@, k, bs[b].cores@.len() as int);
    lemma_sum_partial_le(m, bs, b + 1, bs.len() as int);
}

/// The sum of the first `i` per-bucket enable quotas.
pub open spec fn sum_t_upto(ts: Seq<u32>, i: int) -> nat
    decreases i,
{
    if i <= 0 {
        0
    } else {
        sum_t_upto(ts, i - 1) + ts[i - 1] as nat
    }
}

proof fn lemma_sum_t_update(ts: Seq<u32>, j: int, v: u32, i: int)
    requires
        0 <= j < ts.len(),
        i <= ts.len(),
    ensures
        j < i ==> sum_t_upto(ts.update(j, v), i) + ts[j] == sum_t_upto(ts, i) + v,
        j >= i ==> sum_t_upto(ts.update(j, v), i) == sum_t_upto(ts, i),
    decreases i,
{
    if i > 0 {
        lemma_sum_t_update(ts, j, v, i - 1);
    }
}

proof fn lemma_t_le_sum(ts: Seq<u32>, j: int, i: int)
    requires
        0 <= j < i <= ts.len(),
    ensures
        ts[j] <= sum_t_upto(ts, i),
    decreases i,
{
    if j < i - 1 {
        lemma_t_le_sum(ts, j, i - 1);
    }
}

proof fn lemma_sum_t_zero(ts: Seq<u32>, i: int)
    requires
        forall|q: int| 0 <= q < i ==> ts[q] == 0,
    ensures
        sum_t_upto(ts, i) == 0,
    decreases i,
{
    if i > 0 {
        lemma_sum_t_zero(ts, i - 1);
    }
}

/// Two core maps of the same shape have the same counts for any measure
/// that agrees core by core.
proof fn lemma_sum_same_shape(m: Measure, bs1: Seq<CoreBucket>, bs2: Seq<CoreBucket>, i: int)
    requires
        forall|ii: int|
            0 <= ii < i ==> (#[trigger] bs2[ii].cores@).len() == bs1[ii].cores@.len(),
        forall|ii: int, q: int|
            0 <= ii < i && 0 <= q < bs1[ii].cores@.len() ==> core_m(
                m,
                #[trigger] bs2[ii].cores@[q],
            ) == core_m(m, bs1[ii].cores@[q]),
    ensures
        sum_upto(m, bs1, i) == sum_upto(m, bs2, i),
    decreases i,
{
    if i > 0 {
        lemma_sum_same_shape(m, bs1, bs2, i - 1);
        lemma_count_upto_same_m(m, bs1[i - 1].cores@, bs2[i - 1].cores@, bs1[i - 1].cores@.len() as int);
    }
}

/// Whether the sibling-first sweep takes the candidate at sibling level
/// `q` of bucket `i` online: it is not core 0, and its column-major rank
/// among candidates — every level below `q`, and bucket positions before
/// `i` at level `q` — still fits the budget beyond the always-online
/// core 0.
pub open spec fn pos_enabled(bs: Seq<CoreBucket>, i: int, q: int, eff: u32) -> bool {
    bs[i].cores@[q].number != 0 && sum_visited(Measure::Cand, bs, q, i) + 1 < eff
}

/// How many of the first `k` siblings of bucket `i` the sweep takes
/// online.
pub open spec fn enabled_upto(bs: Seq<CoreBucket>, i: int, k: int, eff: u32) -> nat
    decreases k,
{
    if k <= 0 {
        0
    } else {
        enabled_upto(bs, i, k - 1, eff) + if pos_enabled(bs, i, k - 1, eff) {
            1nat
        } else {
            0nat
        }
    }
}

/// The sweep's visited region only grows along the column-major order.
proof fn lemma_sum_visited_le(
    m: Measure,
    bs: Seq<CoreBucket>,
    s1: int,
    b1: int,
    s2: int,
    b2: int,
    i: int,
)
    requires
        0 <= s1,
        0 <= b1,
        0 <= b2,
        s1 < s2 || (s1 == s2 && b1 <= b2),
        i <= bs.len(),
    ensures
        sum_visited_upto(m, bs, s1, b1, i) <= sum_visited_upto(m, bs, s2, b2, i),
    decreases i,
{
    if i > 0 {
        lemma_sum_visited_le(m, bs, s1, b1, s2, b2, i - 1);
        assert(visited_cap(bs, s1, b1, i - 1) <= visited_cap(bs, s2, b2, i - 1));
        lemma_count_upto_mono(
            m,
            bs[i - 1].cores@,
            visited_cap(bs, s1, b1, i - 1),
            visited_cap(bs, s2, b2, i - 1),
        );
    }
}

/// Within one bucket, a later candidate has a strictly larger rank.
proof fn lemma_rank_grows(bs: Seq<CoreBucket>, i: int, q1: int, q2: int)
    requires
        0 <= i < bs.len(),
        0 <= q1 < q2,
        q1 < bs[i].cores@.len(),
        bs[i].cores@[q1].number != 0,
    ensures
        sum_visited(Measure::Cand, bs, q1, i) + 1 <= sum_visited(Measure::Cand, bs, q2, i),
{
    lemma_sum_visited_step(Measure::Cand, bs, q1, i, bs.len() as int);
    lemma_sum_visited_le(Measure::Cand, bs, q1, i + 1, q2, i, bs.len() as int);
}

/// The sweep takes a bucket's candidates as a prefix: if a candidate is
/// taken, every earlier candidate of its bucket is taken too.
proof fn lemma_enabled_prefix(bs: Seq<CoreBucket>, i: int, q1: int, q2: int, eff: u32)
    requires
        0 <= i < bs.len(),
        0 <= q1 < q2,
        q1 < bs[i].cores@.len(),
        bs[i].cores@[q1].number != 0,
        pos_enabled(bs, i, q2, eff),
    ensures
        pos_enabled(bs, i, q1, eff),
{
    lemma_rank_grows(bs, i, q1, q2);
}

/// Every taken sibling is a candidate, so the taken count never exceeds
/// the candidate count.
proof fn lemma_enabled_le_cand(bs: Seq<CoreBucket>, i: int, k: int, eff: u32)
    requires
        0 <= k,
    ensures
        enabled_upto(bs, i, k, eff) <= count_upto(Measure::Cand, bs[i].cores@, k),
    decreases k,
{
    if k > 0 {
        lemma_enabled_le_cand(bs, i, k - 1, eff);
    }
}

proof fn lemma_enabled_upto_mono(bs: Seq<CoreBucket>, i: int, k1: int, k2: int, eff: u32)
    requires
        k1 <= k2,
    ensures
        enabled_upto(bs, i, k1, eff) <= enabled_upto(bs, i, k2, eff),
    decreases k2,
{
    if k2 > 0 && k1 < k2 {
        lemma_enabled_upto_mono(bs, i, k1, k2 - 1, eff);
    }
}

/// When every candidate among the first `k` siblings is taken, the
/// taken count equals the candidate count there.
proof fn lemma_enabled_eq_cand(bs: Seq<CoreBucket>, i: int, k: int, eff: u32)
    requires
        0 <= i < bs.len(),
        0 <= k,
        forall|q: int|
            0 <= q < k && (#[trigger] bs[i].cores@[q]).number != 0 ==> pos_enabled(bs, i, q, eff),
    ensures
        enabled_upto(bs, i, k, eff) == count_upto(Measure::Cand, bs[i].cores@, k),
    decreases k,
{
    if k > 0 {
        lemma_enabled_eq_cand(bs, i, k - 1, eff);
    }
}

/// When no sibling from `k` on is taken, the taken count stops growing
/// there.
proof fn lemma_enabled_stops(bs: Seq<CoreBucket>, i: int, k: int, k2: int, eff: u32)
    requires
        0 <= k <= k2,
        forall|q: int| k <= q < k2 ==> !pos_enabled(bs, i, q, eff),
    ensures
        enabled_upto(bs, i, k2, eff) == enabled_upto(bs, i, k, eff),
    decreases k2,
{
    if k2 > k {
        lemma_enabled_stops(bs, i, k, k2 - 1, eff);
    }
}

/// The sweep's per-bucket quota takes exactly a bucket's first
/// candidates: the candidate at sibling level `k` is taken exactly when
/// the candidates before it do not already exhaust the bucket's share.
proof fn lemma_flag_iff(bs: Seq<CoreBucket>, i: int, k: int, eff: u32)
    requires
        0 <= i < bs.len(),
        0 <= k < bs[i].cores@.len(),
        bs[i].cores@[k].number != 0,
    ensures
        (count_upto(Measure::Cand, bs[i].cores@, k) < enabled_upto(
            bs,
            i,
            bs[i].cores@.len() as int,
            eff,
        )) <==> pos_enabled(bs, i, k, eff),
{
    let cs = bs[i].cores@;
    let len = cs.len() as int;
    if pos_enabled(bs, i, k, eff) {
        assert forall|q: int| 0 <= q < k + 1 && (#[trigger] cs[q]).number != 0 implies pos_enabled(
            bs,
            i,
            q,
            eff,
        ) by {
            if q < k {
                lemma_enabled_prefix(bs, i, q, k, eff);
            }
        }
        lemma_enabled_eq_cand(bs, i, k + 1, eff);
        lemma_enabled_upto_mono(bs, i, k + 1, len, eff);
        assert(count_upto(Measure::Cand, cs, k + 1) == count_upto(Measure::Cand, cs, k) + 1);
    } else {
        assert forall|q: int| k <= q < len implies !pos_enabled(bs, i, q, eff) by {
            if q > k && pos_enabled(bs, i, q, eff) {
                lemma_enabled_prefix(bs, i, k, q, eff);
            }
        }
        lemma_enabled_stops(bs, i, k, len, eff);
        lemma_enabled_le_cand(bs, i, k, eff);
    }
}

/// The writes a bucket owes: one entry per core other than core 0, in
/// sibling order, carrying the core's new online flag.
pub open spec fn bucket_plan(cs: Seq<CPUCore>, k: int) -> Seq<(u32, bool)>
    decreases k,
{
    if k <= 0 {
        Seq::<(u32, bool)>::empty()
    } else {
        bucket_plan(cs, k - 1) + (if cs[k - 1].number != 0 {
            seq![(cs[k - 1].number, cs[k - 1].online)]
        } else {
            Seq::<(u32, bool)>::empty()
        })
    }
}

/// The writes the whole map owes, bucket by bucket in ascending
/// `core_id` order.
pub open spec fn plan_spec(bs: Seq<CoreBucket>, i: int) -> Seq<(u32, bool)>
    decreases i,
{
    if i <= 0 {
        Seq::<(u32, bool)>::empty()
    } else {
        plan_spec(bs, i - 1) + bucket_plan(bs[i - 1].cores@, bs[i - 1].cores@.len() as int)
    }
}

proof fn lemma_bucket_plan_congruent(cs1: Seq<CPUCore>, cs2: Seq<CPUCore>, k: int)
    requires
        forall|t: int| 0 <= t < k ==> cs1[t] == cs2[t],
    ensures
        bucket_plan(cs1, k) == bucket_plan(cs2, k),
    decreases k,
{
    if k > 0 {
        lemma_bucket_plan_congruent(cs1, cs2, k - 1);
    }
}

proof fn lemma_plan_spec_congruent(bs1: Seq<CoreBucket>, bs2: Seq<CoreBucket>, i: int)
    requires
        forall|t: int| 0 <= t < i ==> bs1[t] == bs2[t],
    ensures
        plan_spec(bs1, i) == plan_spec(bs2, i),
    decreases i,
{
    if i > 0 {
        lemma_plan_spec_congruent(bs1, bs2, i - 1);
    }
}

/// The enable target after the SMT clamp: half the cores when SMT is off
/// and the request exceeds it, else the request itself.
pub open spec fn effective_target(num: u32, core_count: u32, smt_enabled: bool) -> u32 {
    if !smt_enabled && num > core_count / 2 {
        core_count / 2
    } else {
        num
    }
}

/// The online count a successful enable request settles on: the target,
/// clamped to the cores that exist, and never below the always-online
/// core 0.
pub open spec fn enabled_after(eff: u32, core_count: u32) -> nat {
    vstd::math::max(1, vstd::math::min(eff as int, core_count as int)) as nat
}

impl CPU {
    /// Enables `num` cores, one sibling per physical core first — lowest
    /// `core_id` first — then the remaining siblings, skipping the
    /// always-online core 0: a core goes online exactly when its
    /// column-major rank in that sweep fits the budget
    /// ([`pos_enabled`]).  A request below 1 is rejected and nothing
    /// changes.  When SMT is off and the request exceeds the physical
    /// core count, it is clamped to it.
    ///
    /// Returns the `(core number, online)` writes the caller owes to the
    /// kernel: one per core other than core 0, in map order, each
    /// carrying that core's new state ([`plan_spec`]).
    pub fn set_cores_enabled(&mut self, num: u32, smt_enabled: bool) -> (r: Result<
        Vec<(u32, bool)>,
        CpuError,
    >)
        requires
            old(self).wf(),
        ensures
            final(self).wf(),
            final(self).spec_cores_count() == old(self).spec_cores_count(),
            num < 1 ==> (r matches Err(CpuError::InvalidArgs(_))) && *final(self) == *old(self),
            num >= 1 ==> r is Ok && same_shape(old(self).buckets(), final(self).buckets()),
            num >= 1 ==> final(self).spec_cores_online() == enabled_after(
                effective_target(num, old(self).spec_cores_count(), smt_enabled),
                old(self).spec_cores_count(),
            ),
            num >= 1 ==> (r matches Ok(plan) ==> plan@.len() + 1 == old(self).spec_cores_count()),
            num >= 1 ==> (r matches Ok(plan) ==> plan@ == plan_spec(
                final(self).buckets(),
                final(self).buckets().len() as int,
            )),
            num >= 1 ==> (forall|i: int, q: int|
                0 <= i < old(self).buckets().len() && 0 <= q < old(self).buckets()[i].cores@.len()
                    && (#[trigger] old(self).buckets()[i].cores@[q]).number != 0
                    ==> final(self).buckets()[i].cores@[q].online == pos_enabled(
                    old(self).buckets(),
                    i,
                    q,
                    effective_target(num, old(self).spec_cores_count(), smt_enabled),
                )),
    {
        if num < 1 {
            return Err(
                CpuError::InvalidArgs(String::from_str("refusing to take every core offline")),
            );
        }
        let cc = self.core_count;
        let eff: u32 = if !smt_enabled && num > cc / 2 {
            cc / 2
        } else {
            num
        };
        let ghost bs = self.buckets();
        let n = self.core_map.len();

        // The widest bucket bounds the sibling-level sweep.
        let mut max_len: usize = 0;
        let mut b0: usize = 0;
        while b0 < n
            invariant
                0 <= b0 <= n,
                n == bs.len(),
                bs == self.buckets(),
                self.wf(),
                forall|q: int| 0 <= q < b0 ==> #[trigger] bs[q].cores@.len() <= max_len,
            decreases n - b0,
        {
            let l = self.core_map[b0].cores.len();
            if l > max_len {
                max_len = l;
            }
            b0 = b0 + 1;
        }

        // First pass: sweep sibling levels over the buckets, granting one
        // online slot at a time while the budget lasts, and record how
        // many candidates of each bucket go online.
        let mut t: Vec<u32> = Vec::new();
        let mut z: usize = 0;
        while z < n
            invariant
                0 <= z <= n,
                t@.len() == z,
                forall|q: int| 0 <= q < z ==> t@[q] == 0,
            decreases n - z,
        {
            t.push(0);
            z = z + 1;
        }
        let mut cnt: u32 = 1;
        let mut s: usize = 0;
        proof {
            lemma_sum_visited_zero(Measure::Cand, bs, n as int);
            lemma_sum_t_zero(t@, n as int);
            assert(forall|ii: int|
                0 <= ii < n ==> t@[ii] as nat <= count_upto(
                    Measure::Cand,
                    #[trigger] bs[ii].cores@,
                    visited_cap(bs, 0, 0, ii),
                ));
            assert forall|ii: int| 0 <= ii < n implies #[trigger] t@[ii] as nat == enabled_upto(
                bs,
                ii,
                visited_cap(bs, 0, 0, ii),
                eff,
            ) by {
                assert(visited_cap(bs, 0, 0, ii) == 0);
            }
        }
        while s < max_len
            invariant
                0 <= s,
                n == bs.len(),
                bs == self.buckets(),
                self.wf(),
                forall|q: int| 0 <= q < n ==> #[trigger] bs[q].cores@.len() <= max_len,
                t@.len() == n,
                1 <= cnt,
                cnt as int <= vstd::math::max(1, eff as int),
                cnt as int == vstd::math::max(
                    1,
                    vstd::math::min(
                        eff as int,
                        1 + sum_visited(Measure::Cand, bs, s as int, 0) as int,
                    ),
                ),
                sum_t_upto(t@, n as int) + 1 == cnt,
                forall|ii: int|
                    0 <= ii < n ==> t@[ii] as nat <= count_upto(
                        Measure::Cand,
                        #[trigger] bs[ii].cores@,
                        visited_cap(bs, s as int, 0, ii),
                    ),
                forall|ii: int|
                    0 <= ii < n ==> #[trigger] t@[ii] as nat == enabled_upto(
                        bs,
                        ii,
                        visited_cap(bs, s as int, 0, ii),
                        eff,
                    ),
            decreases max_len - s,
        {
            let mut b: usize = 0;
            while b < n
                invariant
                    0 <= b <= n,
                    0 <= s,
                    n == bs.len(),
                    bs == self.buckets(),
                    self.wf(),
                    t@.len() == n,
                    1 <= cnt,
                    cnt as int <= vstd::math::max(1, eff as int),
                    cnt as int == vstd::math::max(
                        1,
                        vstd::math::min(
                            eff as int,
                            1 + sum_visited(Measure::Cand, bs, s as int, b as int) as int,
                        ),
                    ),
                    sum_t_upto(t@, n as int) + 1 == cnt,
                    forall|ii: int|
                        0 <= ii < n ==> t@[ii] as nat <= count_upto(
                            Measure::Cand,
                            #[trigger] bs[ii].cores@,
                            visited_cap(bs, s as int, b as int, ii),
                        ),
                    forall|ii: int|
                        0 <= ii < n ==> #[trigger] t@[ii] as nat == enabled_upto(
                            bs,
                            ii,
                            visited_cap(bs, s as int, b as int, ii),
                            eff,
                        ),
                decreases n - b,
            {
                proof {
                    lemma_sum_visited_step(Measure::Cand, bs, s as int, b as int, n as int);
                }
                let blen = self.core_map[b].cores.len();
                if s < blen {
                    let number = self.core_map[b].cores[s].number;
                    if number != 0 {
                        if cnt < eff {
                            let tb = t[b];
                            let ghost t_old = t@;
                            proof {
                                lemma_t_le_sum(t@, b as int, n as int);
                            }
                            t[b] = tb + 1;
                            cnt = cnt + 1;
                            proof {
                                lemma_sum_t_update(t_old, b as int, (tb + 1) as u32, n as int);
                                assert(sum_visited(Measure::Cand, bs, s as int, b as int) + 1
                                    < eff);
                                assert(pos_enabled(bs, b as int, s as int, eff));
                                assert forall|ii: int| 0 <= ii < n implies t@[ii] as nat
                                    <= count_upto(
                                    Measure::Cand,
                                    #[trigger] bs[ii].cores@,
                                    visited_cap(bs, s as int, b + 1, ii),
                                ) by {
                                    if ii == b {
                                        assert(visited_cap(bs, s as int, b + 1, ii) == s + 1);
                                        assert(count_upto(Measure::Cand, bs[ii].cores@, s + 1)
                                            == count_upto(Measure::Cand, bs[ii].cores@, s as int)
                                            + 1);
                                    } else {
                                        assert(visited_cap(bs, s as int, b as int, ii)
                                            == visited_cap(bs, s as int, b + 1, ii));
                                    }
                                }
                                assert forall|ii: int| 0 <= ii < n implies #[trigger] t@[ii] as nat
                                    == enabled_upto(
                                    bs,
                                    ii,
                                    visited_cap(bs, s as int, b + 1, ii),
                                    eff,
                                ) by {
                                    if ii == b {
                                        assert(visited_cap(bs, s as int, b as int, ii) == s);
                                        assert(visited_cap(bs, s as int, b + 1, ii) == s + 1);
                                        assert(enabled_upto(bs, ii, s + 1, eff) == enabled_upto(
                                            bs,
                                            ii,
                                            s as int,
                                            eff,
                                        ) + 1);
                                    } else {
                                        assert(visited_cap(bs, s as int, b as int, ii)
                                            == visited_cap(bs, s as int, b + 1, ii));
                                    }
                                }
                            }
                        } else {
                            proof {
                                assert(!(sum_visited(Measure::Cand, bs, s as int, b as int) + 1
                                    < eff));
                                assert(!pos_enabled(bs, b as int, s as int, eff));
                                assert forall|ii: int| 0 <= ii < n implies t@[ii] as nat
                                    <= count_upto(
                                    Measure::Cand,
                                    #[trigger] bs[ii].cores@,
                                    visited_cap(bs, s as int, b + 1, ii),
                                ) by {
                                    if ii == b {
                                        lemma_count_upto_mono(
                                            Measure::Cand,
                                            bs[ii].cores@,
                                            visited_cap(bs, s as int, b as int, ii),
                                            visited_cap(bs, s as int, b + 1, ii),
                                        );
                                    } else {
                                        assert(visited_cap(bs, s as int, b as int, ii)
                                            == visited_cap(bs, s as int, b + 1, ii));
                                    }
                                }
                                assert forall|ii: int| 0 <= ii < n implies #[trigger] t@[ii] as nat
                                    == enabled_upto(
                                    bs,
                                    ii,
                                    visited_cap(bs, s as int, b + 1, ii),
                                    eff,
                                ) by {
                                    if ii == b {
                                        assert(visited_cap(bs, s as int, b as int, ii) == s);
                                        assert(visited_cap(bs, s as int, b + 1, ii) == s + 1);
                                        assert(enabled_upto(bs, ii, s + 1, eff) == enabled_upto(
                                            bs,
                                            ii,
                                            s as int,
                                            eff,
                                        ));
                                    } else {
                                        assert(visited_cap(bs, s as int, b as int, ii)
                                            == visited_cap(bs, s as int, b + 1, ii));
                                    }
                                }
                            }
                        }
                    } else {
                        proof {
                            assert(core_m(Measure::Cand, bs[b as int].cores@[s as int]) == 0);
                            assert(!pos_enabled(bs, b as int, s as int, eff));
                            assert forall|ii: int| 0 <= ii < n implies t@[ii] as nat <= count_upto(
                                Measure::Cand,
                                #[trigger] bs[ii].cores@,
                                visited_cap(bs, s as int, b + 1, ii),
                            ) by {
                                if ii == b {
                                    lemma_count_upto_mono(
                                        Measure::Cand,
                                        bs[ii].cores@,
                                        visited_cap(bs, s as int, b as int, ii),
                                        visited_cap(bs, s as int, b + 1, ii),
                                    );
                                } else {
                                    assert(visited_cap(bs, s as int, b as int, ii) == visited_cap(
                                        bs,
                                        s as int,
                                        b + 1,
                                        ii,
                                    ));
                                }
                            }
                            assert forall|ii: int| 0 <= ii < n implies #[trigger] t@[ii] as nat
                                == enabled_upto(
                                bs,
                                ii,
                                visited_cap(bs, s as int, b + 1, ii),
                                eff,
                            ) by {
                                if ii == b {
                                    assert(visited_cap(bs, s as int, b as int, ii) == s);
                                    assert(visited_cap(bs, s as int, b + 1, ii) == s + 1);
                                    assert(enabled_upto(bs, ii, s + 1, eff) == enabled_upto(
                                        bs,
                                        ii,
                                        s as int,
                                        eff,
                                    ));
                                } else {
                                    assert(visited_cap(bs, s as int, b as int, ii) == visited_cap(
                                        bs,
                                        s as int,
                                        b + 1,
                                        ii,
                                    ));
                                }
                            }
                        }
                    }
                } else {
                    proof {
                        assert forall|ii: int| 0 <= ii < n implies t@[ii] as nat <= count_upto(
                            Measure::Cand,
                            #[trigger] bs[ii].cores@,
                            visited_cap(bs, s as int, b + 1, ii),
                        ) by {
                            if ii == b {
                                lemma_count_upto_mono(
                                    Measure::Cand,
                                    bs[ii].cores@,
                                    visited_cap(bs, s as int, b as int, ii),
                                    visited_cap(bs, s as int, b + 1, ii),
                                );
                            } else {
                                assert(visited_cap(bs, s as int, b as int, ii) == visited_cap(
                                    bs,
                                    s as int,
                                    b + 1,
                                    ii,
                                ));
                            }
                        }
                        assert forall|ii: int| 0 <= ii < n implies #[trigger] t@[ii] as nat
                            == enabled_upto(
                            bs,
                            ii,
                            visited_cap(bs, s as int, b + 1, ii),
                            eff,
                        ) by {
                            assert(visited_cap(bs, s as int, b as int, ii) == visited_cap(
                                bs,
                                s as int,
                                b + 1,
                                ii,
                            ));
                        }
                    }
                }
                b = b + 1;
            }
            proof {
                lemma_sum_visited_wrap(Measure::Cand, bs, s as int, n as int);
                assert forall|ii: int| 0 <= ii < n implies visited_cap(bs, s as int, n as int, ii)
                    == visited_cap(bs, s + 1, 0, ii) by {}
            }
            s = s + 1;
        }
        proof {
            lemma_sum_visited_all(Measure::Cand, bs, s as int, n as int);
            lemma_sum_cand_zero_size(bs, n as int);
            assert forall|ii: int| 0 <= ii < n implies #[trigger] t@[ii] as nat == enabled_upto(
                bs,
                ii,
                bs[ii].cores@.len() as int,
                eff,
            ) by {
                assert(visited_cap(bs, s as int, 0, ii) == bs[ii].cores@.len());
            }
        }

        // Second pass: rebuild each bucket, taking each bucket's first
        // quota of candidates online and the rest offline.
        let mut new_map: Vec<CoreBucket> = Vec::new();
        let mut plan: Vec<(u32, bool)> = Vec::new();
        let mut b2: usize = 0;
        while b2 < n
            invariant
                0 <= b2 <= n,
                n == bs.len(),
                bs == self.buckets(),
                self.wf(),
                t@.len() == n,
                new_map@.len() == b2,
                forall|ii: int|
                    0 <= ii < n ==> t@[ii] as nat <= bucket_m(Measure::Cand, #[trigger] bs[ii]),
                forall|ii: int|
                    0 <= ii < n ==> #[trigger] t@[ii] as nat == enabled_upto(
                        bs,
                        ii,
                        bs[ii].cores@.len() as int,
                        eff,
                    ),
                forall|ii: int, q: int|
                    0 <= ii < b2 && 0 <= q < bs[ii].cores@.len() && (
                    #[trigger] new_map@[ii].cores@[q]).number != 0 ==> new_map@[ii].cores@[q].online
                        == pos_enabled(bs, ii, q, eff),
                plan@ == plan_spec(new_map@, b2 as int),
                forall|ii: int|
                    0 <= ii < b2 ==> (#[trigger] new_map@[ii]).core_id == bs[ii].core_id,
                forall|ii: int|
                    0 <= ii < b2 ==> (#[trigger] new_map@[ii]).cores@.len() == bs[ii].cores@.len(),
                forall|ii: int, q: int|
                    0 <= ii < b2 && 0 <= q < bs[ii].cores@.len() ==> {
                        &&& (#[trigger] new_map@[ii].cores@[q]).number == bs[ii].cores@[q].number
                        &&& new_map@[ii].cores@[q].path == bs[ii].cores@[q].path
                        &&& new_map@[ii].cores@[q].core_id == bs[ii].cores@[q].core_id
                    },
                sum_upto(Measure::Online, new_map@, b2 as int) == sum_upto(
                    Measure::Zero,
                    bs,
                    b2 as int,
                ) + sum_t_upto(t@, b2 as int),
                plan@.len() == sum_upto(Measure::Cand, bs, b2 as int),
            decreases n - b2,
        {
            let tb = t[b2];
            let blen = self.core_map[b2].cores.len();
            let mut nc: Vec<CPUCore> = Vec::new();
            let mut j: usize = 0;
            let mut k: usize = 0;
            while k < blen
                invariant
                    0 <= k <= blen,
                    0 <= b2 < n,
                    n == bs.len(),
                    bs == self.buckets(),
                    self.wf(),
                    blen == bs[b2 as int].cores@.len(),
                    tb == t@[b2 as int],
                    nc@.len() == k,
                    j as nat == count_upto(Measure::Cand, bs[b2 as int].cores@, k as int),
                    count_upto(Measure::Online, nc@, k as int) == count_upto(
                        Measure::Zero,
                        bs[b2 as int].cores@,
                        k as int,
                    ) + vstd::math::min(j as int, tb as int),
                    forall|q: int|
                        0 <= q < k ==> {
                            &&& (#[trigger] nc@[q]).number == bs[b2 as int].cores@[q].number
                            &&& nc@[q].path == bs[b2 as int].cores@[q].path
                            &&& nc@[q].core_id == bs[b2 as int].cores@[q].core_id
                        },
                    plan@.len() == sum_upto(Measure::Cand, bs, b2 as int) + count_upto(
                        Measure::Cand,
                        bs[b2 as int].cores@,
                        k as int,
                    ),
                    forall|q: int|
                        0 <= q < k && (#[trigger] nc@[q]).number != 0 ==> nc@[q].online == (
                        count_upto(Measure::Cand, bs[b2 as int].cores@, q) < t@[b2 as int]),
                    new_map@.len() == b2,
                    plan@ == plan_spec(new_map@, b2 as int) + bucket_plan(nc@, k as int),
                decreases blen - k,
            {
                let number = self.core_map[b2].cores[k].number;
                let core_id = self.core_map[b2].cores[k].core_id;
                let path = self.core_map[b2].cores[k].path.clone();
                let old_online = self.core_map[b2].cores[k].online;
                let ghost nc_old = nc@;
                if number == 0 {
                    let c = CPUCore { number, path, core_id, online: old_online };
                    let ghost cg = c;
                    nc.push(c);
                    proof {
                        assert(nc@ =~= nc_old.push(cg));
                        assert(core_m(Measure::Online, cg) == 1);
                        lemma_count_upto_congruent(Measure::Online, nc@, nc_old, k as int);
                        lemma_bucket_plan_congruent(nc@, nc_old, k as int);
                        assert(bucket_plan(nc@, k + 1) =~= bucket_plan(nc_old, k as int));
                    }
                } else {
                    let en = j < tb as usize;
                    let c = CPUCore { number, path, core_id, online: en };
                    let ghost cg = c;
                    let ghost plan_old = plan@;
                    nc.push(c);
                    plan.push((number, en));
                    proof {
                        assert(nc@ =~= nc_old.push(cg));
                        assert(core_m(Measure::Online, cg) == (if en {
                            1nat
                        } else {
                            0nat
                        }));
                        lemma_count_upto_congruent(Measure::Online, nc@, nc_old, k as int);
                        lemma_count_le_len(Measure::Cand, bs[b2 as int].cores@, k as int);
                        lemma_bucket_plan_congruent(nc@, nc_old, k as int);
                        assert(bucket_plan(nc@, k + 1) =~= bucket_plan(nc_old, k as int) + seq![
                            (number, en),
                        ]);
                        assert(plan@ =~= plan_old.push((number, en)));
                        assert(plan@ =~= plan_spec(new_map@, b2 as int) + bucket_plan(nc@, k + 1));
                    }
                    j = j + 1;
                }
                k = k + 1;
            }
            let ghost new_map_old = new_map@;
            let ghost ncg = nc@;
            let bucket_id = self.core_map[b2].core_id;
            let nb = CoreBucket { core_id: bucket_id, cores: nc };
            let ghost nbg = nb;
            new_map.push(nb);
            proof {
                assert(new_map@ =~= new_map_old.push(nbg));
                assert(j as nat == bucket_m(Measure::Cand, bs[b2 as int]));
                assert(tb as nat <= bucket_m(Measure::Cand, bs[b2 as int]));
                assert(vstd::math::min(j as int, tb as int) == tb as int);
                assert(bucket_m(Measure::Online, nbg) == bucket_m(Measure::Zero, bs[b2 as int])
                    + tb);
                assert(sum_upto(Measure::Online, new_map@, b2 + 1) == sum_upto(
                    Measure::Online,
                    new_map_old,
                    b2 as int,
                ) + bucket_m(Measure::Online, nbg)) by {
                    lemma_sum_upto_congruent(
                        Measure::Online,
                        new_map@,
                        new_map_old,
                        b2 as int,
                    );
                }
                assert forall|q: int|
                    0 <= q < bs[b2 as int].cores@.len() && (
                    #[trigger] nbg.cores@[q]).number != 0 implies nbg.cores@[q].online
                    == pos_enabled(bs, b2 as int, q, eff) by {
                    assert(nbg.cores@[q].online == (count_upto(
                        Measure::Cand,
                        bs[b2 as int].cores@,
                        q,
                    ) < t@[b2 as int]));
                    assert(bs[b2 as int].cores@[q].number == nbg.cores@[q].number);
                    lemma_flag_iff(bs, b2 as int, q, eff);
                }
                assert(plan@ =~= plan_spec(new_map@, b2 + 1)) by {
                    lemma_plan_spec_congruent(new_map@, new_map_old, b2 as int);
                    assert(bs[b2 as int].cores@.len() == nbg.cores@.len());
                    assert(plan_spec(new_map@, b2 + 1) == plan_spec(new_map_old, b2 as int)
                        + bucket_plan(nbg.cores@, nbg.cores@.len() as int));
                }
            }
            b2 = b2 + 1;
        }
        let ghost new_bs = new_map@;
        self.core_map = new_map;
        proof {
            assert(self.buckets() == new_bs);
            assert(eff == effective_target(num, cc, smt_enabled));
            assert forall|i: int, q: int|
                0 <= i < bs.len() && 0 <= q < bs[i].cores@.len() && (
                #[trigger] bs[i].cores@[q]).number != 0 implies new_bs[i].cores@[q].online
                == pos_enabled(bs, i, q, eff) by {
                assert(new_bs[i].cores@[q].number == bs[i].cores@[q].number);
            }
            assert(forall|ii: int|
                0 <= ii < n && 0 <= ii < n ==> (#[trigger] new_bs[ii]).cores@.len()
                    == bs[ii].cores@.len());
            lemma_sum_same_shape(Measure::Size, bs, new_bs, n as int);
            lemma_sum_same_shape(Measure::Zero, bs, new_bs, n as int);
            assert(sum_all(Measure::Size, new_bs) == cc);
            assert(sum_all(Measure::Zero, new_bs) == 1);
            assert(sum_all(Measure::Online, new_bs) == 1 + sum_t_upto(t@, n as int));
            assert(sum_all(Measure::Online, new_bs) == cnt);
            assert(sum_all(Measure::Cand, bs) + 1 == cc);
            assert(cnt as int == vstd::math::max(
                1,
                vstd::math::min(eff as int, cc as int),
            ));
        }
        Ok(plan)
    }
}

/// A sysfs boolean reads as on exactly when its trimmed, lower-cased
/// contents are `1` or `on`.
pub open spec fn status_on_spec(s: Seq<u8>) -> bool {
    let t = crate::text::lower_spec(crate::text::trim_spec(s));
    t == seq![49u8] || t == seq![111u8, 110u8]
}

/// Parses a sysfs boolean file.
pub fn parse_status_on(content: &[u8]) -> (r: bool)
    ensures
        r == status_on_spec(content@),
{
    let t0 = crate::text::trim(content);
    let t = crate::text::to_lower(t0.as_slice());
    let is_one = t.len() == 1 && t[0] == 49;
    let is_on = t.len() == 2 && t[0] == 111 && t[1] == 110;
    proof {
        if is_one {
            assert(t@ =~= seq![49u8]);
        }
        if is_on {
            assert(t@ =~= seq![111u8, 110u8]);
        }
    }
    is_one || is_on
}

/// The bytes written for a boolean in `1`/`0` form.
pub open spec fn render_bool01_spec(x: bool) -> Seq<u8> {
    if x {
        seq![49u8]
    } else {
        seq![48u8]
    }
}

/// Renders a boolean as `1`/`0`, as the boost file wants it.
pub fn render_bool01(x: bool) -> (r: Vec<u8>)
    ensures
        r@ == render_bool01_spec(x),
{
    let mut r: Vec<u8> = Vec::new();
    if x {
        r.push(49);
    } else {
        r.push(48);
    }
    proof {
        assert(r@ =~= render_bool01_spec(x));
    }
    r
}

/// The bytes written for a boolean in `on`/`off` form.
pub open spec fn render_on_off_spec(x: bool) -> Seq<u8> {
    if x {
        seq![111u8, 110u8]
    } else {
        seq![111u8, 102u8, 102u8]
    }
}

/// Renders a boolean as `on`/`off`, as the SMT control file wants it.
pub fn render_on_off(x: bool) -> (r: Vec<u8>)
    ensures
        r@ == render_on_off_spec(x),
{
    let mut r: Vec<u8> = Vec::new();
    r.push(111);
    if x {
        r.push(110);
    } else {
        r.push(102);
        r.push(102);
    }
    proof {
        assert(r@ =~= render_on_off_spec(x));
    }
    r
}

/// A boolean written in `1`/`0` form reads back as itself.
pub proof fn lemma_bool01_round_trip(x: bool)
    ensures
        status_on_spec(render_bool01_spec(x)) == x,
{
    let w = render_bool01_spec(x);
    assert(crate::text::trim_start_spec(w) == w);
    assert(crate::text::trim_end_spec(w) == w);
    assert(crate::text::lower_spec(w) =~= w);
    if x {
        assert(w =~= seq![49u8]);
    } else {
        assert(w[0] == 48);
        assert(w != seq![49u8]);
        assert(w.len() != 2);
    }
}

/// A boolean written in `on`/`off` form reads back as itself.
pub proof fn lemma_on_off_round_trip(x: bool)
    ensures
        status_on_spec(render_on_off_spec(x)) == x,
{
    let w = render_on_off_spec(x);
    assert(crate::text::trim_start_spec(w) == w);
    assert(crate::text::trim_end_spec(w) == w);
    assert(crate::text::lower_spec(w) =~= w);
    if x {
        assert(w =~= seq![111u8, 110u8]);
    } else {
        assert(w.len() == 3);
        assert(w != seq![49u8]);
        assert(w != seq![111u8, 110u8]);
    }
}

/// Decides the boost-enabled property: hosts without the `cpb` flag
/// report false without touching the file; otherwise the boost file's
/// contents decide, and a failed read surfaces as an I/O error.
pub fn boost_enabled_from(has_cpb: bool, read: Result<Vec<u8>, String>) -> (r: Result<
    bool,
    CpuError,
>)
    ensures
        !has_cpb ==> (r matches Ok(b) && b == false),
        has_cpb ==> match (r, read) {
            (Ok(b), Ok(c)) => b == status_on_spec(c@),
            (Err(CpuError::IOError(e)), Err(m)) => e == m,
            _ => false,
        },
{
    if !has_cpb {
        return Ok(false);
    }
    match read {
        Ok(c) => Ok(parse_status_on(c.as_slice())),
        Err(m) => Err(CpuError::IOError(m)),
    }
}

/// Decides the SMT-enabled property: hosts without the `ht` flag report
/// false; otherwise the SMT control file's contents decide.
pub fn smt_enabled_from(has_ht: bool, read: Result<Vec<u8>, String>) -> (r: Result<bool, CpuError>)
    ensures
        !has_ht ==> (r matches Ok(b) && b == false),
        has_ht ==> match (r, read) {
            (Ok(b), Ok(c)) => b == status_on_spec(c@),
            (Err(CpuError::IOError(e)), Err(m)) => e == m,
            _ => false,
        },
{
    if !has_ht {
        return Ok(false);
    }
    match read {
        Ok(c) => Ok(parse_status_on(c.as_slice())),
        Err(m) => Err(CpuError::IOError(m)),
    }
}

/// The `flags` line prefix of `/proc/cpuinfo`.
pub open spec fn flags_prefix() -> Seq<u8> {
    seq![102u8, 108u8, 97u8, 103u8, 115u8]
}

/// The first line of the file that starts with `flags`.
pub open spec fn first_flags_line(lines: Seq<Seq<u8>>) -> Option<Seq<u8>>
    decreases lines.len(),
{
    if lines.len() == 0 {
        None
    } else if crate::text::is_prefix_of(flags_prefix(), lines[0]) {
        Some(lines[0])
    } else {
        first_flags_line(lines.drop_first())
    }
}

/// The CPU feature flags: the whitespace-separated tokens after the
/// colon of the first `flags` line.
pub open spec fn features_spec(content: Seq<u8>) -> Seq<Seq<u8>> {
    match first_flags_line(crate::text::lines_spec(content)) {
        Option::None => Seq::<Seq<u8>>::empty(),
        Option::Some(l) => crate::text::tokens_spec(crate::text::after_colon_spec(l)),
    }
}

/// Extracts the CPU feature flags from the contents of `/proc/cpuinfo`.
pub fn get_features(content: &[u8]) -> (r: Vec<String>)
    ensures
        ({
            let ts = features_spec(content@);
            &&& r@.len() == ts.len()
            &&& forall|i: int|
                0 <= i < ts.len() && crate::text::all_ascii(#[trigger] ts[i]) ==> crate::text::ascii_rep(
                    r@[i]@,
                    ts[i],
                )
        }),
{
    let lines = split_lines_helper(content);
    let ghost dv = lines.deep_view();
    let flags_line = find_flags_line(&lines);
    let mut out: Vec<String> = Vec::new();
    match flags_line {
        None => out,
        Some(f) => {
            let line = lines[f].as_slice();
            proof {
                assert(line@ =~= dv[f as int]);
            }
            let value: Vec<u8> = match crate::text::find_colon(line) {
                Some(cj) => {
                    proof {
                        crate::text::lemma_after_colon_at(line@, cj as int);
                    }
                    crate::text::sub_bytes(line, cj + 1, line.len())
                },
                None => {
                    proof {
                        crate::text::lemma_after_colon_at(line@, line@.len() as int);
                    }
                    Vec::new()
                },
            };
            proof {
                assert(value@ =~= crate::text::after_colon_spec(line@));
            }
            let toks = crate::text::split_tokens(value.as_slice());
            let mut q: usize = 0;
            let ghost ts = toks.deep_view();
            proof {
                assert(forall|w: int| 0 <= w < ts.len() ==> ts[w] =~= (#[trigger] toks@[w])@);
            }
            while q < toks.len()
                invariant
                    0 <= q <= ts.len(),
                    ts == toks.deep_view(),
                    forall|w: int| 0 <= w < ts.len() ==> ts[w] == (#[trigger] toks@[w])@,
                    out@.len() == q,
                    forall|i: int|
                        0 <= i < q && crate::text::all_ascii(#[trigger] ts[i]) ==> crate::text::ascii_rep(
                            out@[i]@,
                            ts[i],
                        ),
                decreases ts.len() - q,
            {
                let sstr = crate::text::lossy_string(toks[q].as_slice());
                proof {
                    assert(toks@[q as int]@ == ts[q as int]);
                }
                out.push(sstr);
                q = q + 1;
            }
            out
        },
    }
}

/// Finds the first line starting with `flags`, pinned to
/// [`first_flags_line`].
fn find_flags_line(lines: &Vec<Vec<u8>>) -> (r: Option<usize>)
    ensures
        match r {
            Some(f) => f < lines@.len() && first_flags_line(lines.deep_view()) == Some(
                lines.deep_view()[f as int],
            ),
            None => first_flags_line(lines.deep_view()) is None,
        },
{
    let ghost dv = lines.deep_view();
    proof {
        assert(dv.subrange(0, dv.len() as int) =~= dv);
        assert(forall|q: int| 0 <= q < dv.len() ==> dv[q] =~= (#[trigger] lines@[q])@);
    }
    let fb = flags_bytes();
    let mut li: usize = 0;
    while li < lines.len()
        invariant
            0 <= li <= dv.len(),
            dv == lines.deep_view(),
            fb@ == flags_prefix(),
            forall|q: int| 0 <= q < dv.len() ==> dv[q] == (#[trigger] lines@[q])@,
            first_flags_line(dv) == first_flags_line(dv.subrange(li as int, dv.len() as int)),
        decreases dv.len() - li,
    {
        let ghost tail = dv.subrange(li as int, dv.len() as int);
        let ghost tail2 = dv.subrange(li + 1, dv.len() as int);
        proof {
            assert(tail[0] == dv[li as int]);
            assert(tail.drop_first() =~= tail2);
        }
        if crate::text::starts_with(lines[li].as_slice(), fb.as_slice()) {
            proof {
                assert(crate::text::is_prefix_of(flags_prefix(), dv[li as int]));
                assert(first_flags_line(tail) == Option::Some(dv[li as int]));
            }
            return Some(li);
        }
        proof {
            assert(!crate::text::is_prefix_of(flags_prefix(), dv[li as int]));
            assert(first_flags_line(tail) == first_flags_line(tail2));
        }
        li = li + 1;
    }
    proof {
        assert(dv.subrange(dv.len() as int, dv.len() as int) =~= Seq::<Seq<u8>>::empty());
    }
    None
}

/// Wraps the line splitter so the spec connects through `deep_view`.
fn split_lines_helper(content: &[u8]) -> (r: Vec<Vec<u8>>)
    ensures
        r.deep_view() == crate::text::lines_spec(content@),
{
    crate::text::split_lines(content)
}

/// The literal bytes of `flags`.
fn flags_bytes() -> (r: Vec<u8>)
    ensures
        r@ == flags_prefix(),
{
    let mut r: Vec<u8> = Vec::new();
    r.push(102);
    r.push(108);
    r.push(97);
    r.push(103);
    r.push(115);
    proof {
        assert(r@ =~= flags_prefix());
    }
    r
}

/// Membership of a flag in the feature list.
pub fn has_feature(features: &Vec<String>, flag: &String) -> (r: bool)
    ensures
        r == features.deep_view().contains(flag@),
{
    let mut i: usize = 0;
    while i < features.len()
        invariant
            0 <= i <= features@.len(),
            features.deep_view().len() == features@.len(),
            forall|q: int| 0 <= q < i ==> features.deep_view()[q] != flag@,
        decreases features@.len() - i,
    {
        if features[i] == *flag {
            proof {
                assert(features.deep_view()[i as int] == flag@);
            }
            return true;
        }
        i = i + 1;
    }
    proof {
        assert(forall|q: int| 0 <= q < features.deep_view().len() ==> features.deep_view()[q] != flag@);
    }
    false
}

/// Every SMT bucket holds only cores whose `core_id` is the bucket's
/// key.
pub proof fn lemma_bucket_keys(cpu: &CPU)
    requires
        cpu.wf(),
    ensures
        forall|i: int, k: int|
            0 <= i < cpu.buckets().len() && 0 <= k < cpu.buckets()[i].cores@.len() ==> (
            #[trigger] cpu.buckets()[i].cores@[k]).core_id == cpu.buckets()[i].core_id,
{
}

/// The count reached by a successful enable request, in the form the
/// interface promises it: `min(num, effective_max)`, where
/// `effective_max` is the core count with SMT on and half of it with SMT
/// off.  Stated for hosts where that maximum is at least one.
pub proof fn lemma_enabled_count_formula(num: u32, core_count: u32, smt_enabled: bool)
    requires
        num >= 1,
        (if smt_enabled {
            core_count as int
        } else {
            core_count as int / 2
        }) >= 1,
    ensures
        enabled_after(effective_target(num, core_count, smt_enabled), core_count) == vstd::math::min(
            num as int,
            if smt_enabled {
                core_count as int
            } else {
                core_count as int / 2
            },
        ),
{
}

impl CPU {
    /// The bus object paths of all cores, one per discovered core, in
    /// core-number order.
    pub fn enumerate_cores(&self) -> (r: Vec<String>)
        ensures
            r@.len() == self.spec_cores_count(),
            forall|i: int|
                0 <= i < r@.len() ==> crate::text::ascii_rep(
                    (#[trigger] r@[i])@,
                    crate::text::chars_bytes("/org/shadowblip/Performance/CPU/Core"@)
                        + crate::text::render_spec(i as nat),
                ),
    {
        proof {
            reveal_strlit("/org/shadowblip/Performance/CPU/Core");
            assert(("/org/shadowblip/Performance/CPU/Core").is_ascii());
        }
        let prefix = crate::text::str_bytes("/org/shadowblip/Performance/CPU/Core");
        let mut out: Vec<String> = Vec::new();
        let mut i: u32 = 0;
        while i < self.core_count
            invariant
                0 <= i <= self.spec_cores_count(),
                ("/org/shadowblip/Performance/CPU/Core").is_ascii(),
                prefix@ == crate::text::chars_bytes("/org/shadowblip/Performance/CPU/Core"@),
                out@.len() == i,
                forall|q: int|
                    0 <= q < i ==> crate::text::ascii_rep(
                        (#[trigger] out@[q])@,
                        prefix@ + crate::text::render_spec(q as nat),
                    ),
            decreases self.spec_cores_count() - i,
        {
            let digits = crate::text::render_u64(i as u64);
            let mut bytes = crate::text::sub_bytes(prefix.as_slice(), 0, prefix.len());
            proof {
                assert(bytes@ =~= prefix@);
            }
            let ghost head = bytes@;
            let mut k: usize = 0;
            while k < digits.len()
                invariant
                    0 <= k <= digits@.len(),
                    bytes@ == head + digits@.subrange(0, k as int),
                decreases digits@.len() - k,
            {
                bytes.push(digits[k]);
                proof {
                    assert(bytes@ =~= head + digits@.subrange(0, k + 1));
                }
                k = k + 1;
            }
            proof {
                assert(digits@.subrange(0, digits@.len() as int) =~= digits@);
                assert(bytes@ == prefix@ + crate::text::render_spec(i as nat));
                crate::text::lemma_render_val(i as nat);
                assert(crate::text::all_ascii(bytes@)) by {
                    assert(forall|q: int|
                        0 <= q < prefix@.len() ==> #[trigger] prefix@[q] < 128);
                    assert(forall|q: int|
                        0 <= q < digits@.len() ==> crate::text::is_digit(#[trigger] digits@[q]));
                }
            }
            let path = crate::text::lossy_string(bytes.as_slice());
            out.push(path);
            i = i + 1;
        }
        out
    }
}

} // verus!
