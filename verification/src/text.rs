//! Verified byte-string utilities.
//!
//! The kernel pseudo-files and the PCI identity database are byte streams.
//! Every parsing and rendering step the daemon needs is defined here as an
//! executable function whose result is pinned to a spec-level function over
//! byte sequences.

use vstd::prelude::*;
use vstd::string::StrSliceExecFns;
use vstd::string::StringSliceAdditionalSpecFns;

verus! {

/// ASCII whitespace, as `str::trim` treats it for ASCII input.
pub open spec fn is_ws(b: u8) -> bool {
    b == 32 || b == 9 || b == 10 || b == 13 || b == 11 || b == 12
}

/// Executable mirror of [`is_ws`].
pub fn is_ws_byte(b: u8) -> (r: bool)
    ensures
        r == is_ws(b),
{
    b == 32 || b == 9 || b == 10 || b == 13 || b == 11 || b == 12
}

/// `s` with its leading whitespace removed.
pub open spec fn trim_start_spec(s: Seq<u8>) -> Seq<u8>
    decreases s.len(),
{
    if s.len() > 0 && is_ws(s[0]) {
        trim_start_spec(s.drop_first())
    } else {
        s
    }
}

/// `s` with its trailing whitespace removed.
pub open spec fn trim_end_spec(s: Seq<u8>) -> Seq<u8>
    decreases s.len(),
{
    if s.len() > 0 && is_ws(s.last()) {
        trim_end_spec(s.drop_last())
    } else {
        s
    }
}

/// `s` with leading and trailing whitespace removed.
pub open spec fn trim_spec(s: Seq<u8>) -> Seq<u8> {
    trim_end_spec(trim_start_spec(s))
}

proof fn lemma_trim_start_at(s: Seq<u8>, i: int)
    requires
        0 <= i <= s.len(),
        forall|k: int| 0 <= k < i ==> is_ws(s[k]),
        i < s.len() ==> !is_ws(s[i]),
    ensures
        trim_start_spec(s) == s.subrange(i, s.len() as int),
    decreases i,
{
    if i == 0 {
        if s.len() > 0 && is_ws(s[0]) {
            assert(!is_ws(s[0]));
        }
        assert(s.subrange(0, s.len() as int) =~= s);
    } else {
        assert(is_ws(s[0]));
        let t = s.drop_first();
        assert(forall|k: int| 0 <= k < i - 1 ==> is_ws(#[trigger] t[k]));
        lemma_trim_start_at(t, i - 1);
        assert(t.subrange(i - 1, t.len() as int) =~= s.subrange(i, s.len() as int));
    }
}

proof fn lemma_trim_end_at(s: Seq<u8>, j: int)
    requires
        0 <= j <= s.len(),
        forall|k: int| j <= k < s.len() ==> is_ws(s[k]),
        j > 0 ==> !is_ws(s[j - 1]),
    ensures
        trim_end_spec(s) == s.subrange(0, j),
    decreases s.len() - j,
{
    if j == s.len() {
        if s.len() > 0 && is_ws(s.last()) {
            assert(!is_ws(s[j - 1]));
        }
        assert(s.subrange(0, s.len() as int) =~= s);
    } else {
        assert(is_ws(s.last()));
        let t = s.drop_last();
        lemma_trim_end_at(t, j);
        assert(t.subrange(0, j) =~= s.subrange(0, j));
    }
}

/// Copies `s` with leading and trailing whitespace removed.
pub fn trim(s: &[u8]) -> (r: Vec<u8>)
    ensures
        r@ == trim_spec(s@),
{
    let len = s.len();
    let mut i: usize = 0;
    while i < len && is_ws_byte(s[i])
        invariant
            0 <= i <= len,
            len == s@.len(),
            forall|k: int| 0 <= k < i ==> is_ws(s@[k]),
        decreases len - i,
    {
        i = i + 1;
    }
    let mut j: usize = len;
    while j > i && is_ws_byte(s[j - 1])
        invariant
            i <= j <= len,
            len == s@.len(),
            forall|k: int| 0 <= k < i ==> is_ws(s@[k]),
            i < len ==> !is_ws(s@[i as int]),
            forall|k: int| j <= k < len ==> is_ws(s@[k]),
        decreases j,
    {
        j = j - 1;
    }
    let mut r: Vec<u8> = Vec::new();
    let mut k: usize = i;
    while k < j
        invariant
            i <= k <= j <= len,
            len == s@.len(),
            r@ == s@.subrange(i as int, k as int),
        decreases j - k,
    {
        r.push(s[k]);
        assert(r@ =~= s@.subrange(i as int, k + 1));
        k = k + 1;
    }
    proof {
        lemma_trim_start_at(s@, i as int);
        let t = s@.subrange(i as int, len as int);
        if j == i {
            lemma_trim_end_at(t, 0);
        } else {
            assert(!is_ws(t[j - i - 1]));
            lemma_trim_end_at(t, j - i);
        }
        assert(t.subrange(0, j - i) =~= s@.subrange(i as int, j as int));
        assert(r@ =~= s@.subrange(i as int, j as int));
    }
    r
}

/// ASCII decimal digit.
pub open spec fn is_digit(b: u8) -> bool {
    48 <= b <= 57
}

/// Every byte of `s` is an ASCII decimal digit.
pub open spec fn all_digits(s: Seq<u8>) -> bool {
    forall|i: int| 0 <= i < s.len() ==> is_digit(s[i])
}

/// The number denoted by the digit string `s`.
pub open spec fn digits_val(s: Seq<u8>) -> nat
    decreases s.len(),
{
    if s.len() == 0 {
        0
    } else {
        digits_val(s.drop_last()) * 10 + (s.last() - 48) as nat
    }
}

proof fn lemma_digits_val_push(s: Seq<u8>, b: u8)
    ensures
        digits_val(s.push(b)) == digits_val(s) * 10 + (b - 48) as nat,
{
    assert(s.push(b).drop_last() =~= s);
}

proof fn lemma_digits_val_grows(s: Seq<u8>, i: int)
    requires
        0 <= i <= s.len(),
    ensures
        digits_val(s) >= digits_val(s.subrange(0, i)),
    decreases s.len() - i,
{
    if i == s.len() {
        assert(s.subrange(0, i) =~= s);
    } else {
        let p = s.subrange(0, i);
        let q = s.subrange(0, i + 1);
        assert(q.drop_last() =~= p);
        assert(digits_val(q) == digits_val(p) * 10 + (q.last() - 48) as nat);
        lemma_digits_val_grows(s, i + 1);
    }
}

/// Parses an unsigned decimal integer.  Returns `Some` exactly when `s` is a
/// non-empty string of digits whose value fits in `u64`.
pub fn parse_u64(s: &[u8]) -> (r: Option<u64>)
    ensures
        match r {
            Some(v) => s@.len() > 0 && all_digits(s@) && digits_val(s@) == v as nat,
            None => s@.len() == 0 || !all_digits(s@) || digits_val(s@) > u64::MAX as nat,
        },
{
    if s.len() == 0 {
        return None;
    }
    let mut acc: u64 = 0;
    let mut i: usize = 0;
    while i < s.len()
        invariant
            0 <= i <= s@.len(),
            all_digits(s@.subrange(0, i as int)),
            acc as nat == digits_val(s@.subrange(0, i as int)),
        decreases s@.len() - i,
    {
        let b = s[i];
        if b < 48 || b > 57 {
            return None;
        }
        let d = (b - 48) as u64;
        if acc > (u64::MAX - d) / 10 {
            proof {
                let p = s@.subrange(0, i as int);
                let q = s@.subrange(0, i + 1);
                assert(q.drop_last() =~= p);
                assert(digits_val(q) == digits_val(p) * 10 + d as nat);
                assert(acc * 10 + d > u64::MAX) by (nonlinear_arith)
                    requires
                        acc > (u64::MAX - d) / 10,
                        0 <= d <= 9,
                {}
                lemma_digits_val_grows(s@, i + 1);
            }
            return None;
        }
        proof {
            assert(acc * 10 + d <= u64::MAX) by (nonlinear_arith)
                requires
                    acc <= (u64::MAX - d) / 10,
                    0 <= d <= 9,
            {}
            let p = s@.subrange(0, i as int);
            let q = s@.subrange(0, i + 1);
            assert(q.drop_last() =~= p);
            assert(digits_val(q) == digits_val(p) * 10 + d as nat);
        }
        acc = acc * 10 + d;
        i = i + 1;
    }
    proof {
        assert(s@.subrange(0, s@.len() as int) =~= s@);
    }
    Some(acc)
}

/// Parses a `u32`, accepting exactly the digit strings whose value fits.
pub fn parse_u32(s: &[u8]) -> (r: Option<u32>)
    ensures
        match r {
            Some(v) => s@.len() > 0 && all_digits(s@) && digits_val(s@) == v as nat,
            None => s@.len() == 0 || !all_digits(s@) || digits_val(s@) > u32::MAX as nat,
        },
{
    match parse_u64(s) {
        Some(v) => {
            if v <= u32::MAX as u64 {
                Some(v as u32)
            } else {
                None
            }
        },
        None => None,
    }
}

/// Parses a `u8`, accepting exactly the digit strings whose value fits.
pub fn parse_u8(s: &[u8]) -> (r: Option<u8>)
    ensures
        match r {
            Some(v) => s@.len() > 0 && all_digits(s@) && digits_val(s@) == v as nat,
            None => s@.len() == 0 || !all_digits(s@) || digits_val(s@) > u8::MAX as nat,
        },
{
    match parse_u64(s) {
        Some(v) => {
            if v <= u8::MAX as u64 {
                Some(v as u8)
            } else {
                None
            }
        },
        None => None,
    }
}

/// The shortest digit string denoting `v`.
pub open spec fn render_spec(v: nat) -> Seq<u8>
    decreases v,
{
    if v < 10 {
        seq![(48 + v) as u8]
    } else {
        render_spec(v / 10).push((48 + v % 10) as u8)
    }
}

pub proof fn lemma_render_val(v: nat)
    ensures
        all_digits(render_spec(v)),
        digits_val(render_spec(v)) == v,
        render_spec(v).len() > 0,
    decreases v,
{
    if v < 10 {
        let s = render_spec(v);
        assert(s =~= seq![(48 + v) as u8]);
        assert(s.drop_last() =~= Seq::<u8>::empty());
        assert(digits_val(s) == digits_val(s.drop_last()) * 10 + (s.last() - 48) as nat);
        assert(digits_val(s.drop_last()) == 0);
        assert(s.last() == (48 + v) as u8);
        assert(digits_val(s) == v);
    } else {
        lemma_render_val(v / 10);
        let d = (48 + v % 10) as u8;
        lemma_digits_val_push(render_spec(v / 10), d);
        assert(render_spec(v) == render_spec(v / 10).push(d));
        assert(digits_val(render_spec(v)) == (v / 10) * 10 + (d - 48) as nat);
        assert((d - 48) as nat == v % 10);
        vstd::arithmetic::div_mod::lemma_fundamental_div_mod(v as int, 10);
        assert(digits_val(render_spec(v)) == v);
    }
}

/// Renders `v` in decimal.
pub fn render_u64(v: u64) -> (r: Vec<u8>)
    ensures
        r@ == render_spec(v as nat),
{
    let mut digits: Vec<u8> = Vec::new();
    let mut x: u64 = v;
    while x >= 10
        invariant
            render_spec(v as nat) == render_spec(x as nat) + digits@.reverse(),
        decreases x,
    {
        let d = (48 + (x % 10)) as u8;
        proof {
            assert(render_spec(x as nat) == render_spec((x as nat) / 10).push(d));
            assert(render_spec((x as nat) / 10).push(d) + digits@.reverse() =~= render_spec(
                (x as nat) / 10,
            ) + digits@.push(d).reverse());
        }
        digits.push(d);
        x = x / 10;
    }
    let mut r: Vec<u8> = Vec::new();
    r.push((48 + (x % 10)) as u8);
    proof {
        assert(render_spec(x as nat) =~= seq![(48 + (x as nat) % 10) as u8]);
        assert(r@ =~= render_spec(x as nat));
    }
    let mut k: usize = digits.len();
    while k > 0
        invariant
            0 <= k <= digits@.len(),
            r@ == render_spec(x as nat) + digits@.subrange(k as int, digits@.len() as int).reverse(),
            render_spec(v as nat) == render_spec(x as nat) + digits@.reverse(),
        decreases k,
    {
        k = k - 1;
        r.push(digits[k]);
        proof {
            assert(digits@.subrange(k as int, digits@.len() as int).reverse() =~= digits@.subrange(
                k + 1,
                digits@.len() as int,
            ).reverse().push(digits@[k as int]));
            assert(r@ =~= render_spec(x as nat) + digits@.subrange(
                k as int,
                digits@.len() as int,
            ).reverse());
        }
    }
    proof {
        assert(digits@.subrange(0, digits@.len() as int) =~= digits@);
    }
    r
}

/// `p` is a prefix of `s`.
pub open spec fn is_prefix_of(p: Seq<u8>, s: Seq<u8>) -> bool {
    p.len() <= s.len() && s.subrange(0, p.len() as int) == p
}

/// `p` is a suffix of `s`.
pub open spec fn is_suffix_of(p: Seq<u8>, s: Seq<u8>) -> bool {
    p.len() <= s.len() && s.subrange(s.len() - p.len(), s.len() as int) == p
}

/// Byte-slice equality.
pub fn bytes_eq(a: &[u8], b: &[u8]) -> (r: bool)
    ensures
        r == (a@ == b@),
{
    if a.len() != b.len() {
        assert(a@ != b@);
        return false;
    }
    let mut i: usize = 0;
    while i < a.len()
        invariant
            0 <= i <= a@.len(),
            a@.len() == b@.len(),
            forall|k: int| 0 <= k < i ==> a@[k] == b@[k],
        decreases a@.len() - i,
    {
        if a[i] != b[i] {
            return false;
        }
        i = i + 1;
    }
    proof {
        assert(a@ =~= b@);
    }
    true
}

/// Does `s` start with `p`?
pub fn starts_with(s: &[u8], p: &[u8]) -> (r: bool)
    ensures
        r == is_prefix_of(p@, s@),
{
    if p.len() > s.len() {
        return false;
    }
    let mut i: usize = 0;
    while i < p.len()
        invariant
            0 <= i <= p@.len() <= s@.len(),
            forall|k: int| 0 <= k < i ==> s@[k] == p@[k],
        decreases p@.len() - i,
    {
        if s[i] != p[i] {
            assert(s@.subrange(0, p@.len() as int)[i as int] != p@[i as int]);
            return false;
        }
        i = i + 1;
    }
    proof {
        assert(s@.subrange(0, p@.len() as int) =~= p@);
    }
    true
}

/// Does `s` end with `p`?
pub fn ends_with(s: &[u8], p: &[u8]) -> (r: bool)
    ensures
        r == is_suffix_of(p@, s@),
{
    if p.len() > s.len() {
        return false;
    }
    let n = s.len();
    let off = n - p.len();
    let mut i: usize = 0;
    while i < p.len()
        invariant
            0 <= i <= p@.len() <= s@.len(),
            n == s@.len(),
            off == s@.len() - p@.len(),
            forall|k: int| 0 <= k < i ==> s@[off + k] == p@[k],
        decreases p@.len() - i,
    {
        assert(off + i < n);
        if s[off + i] != p[i] {
            assert(s@.subrange(s@.len() - p@.len(), s@.len() as int)[i as int] != p@[i as int]);
            return false;
        }
        i = i + 1;
    }
    proof {
        assert(s@.subrange(s@.len() - p@.len(), s@.len() as int) =~= p@);
    }
    true
}

/// Copies the subrange `[from, to)` of `s`.
pub fn sub_bytes(s: &[u8], from: usize, to: usize) -> (r: Vec<u8>)
    requires
        from <= to <= s@.len(),
    ensures
        r@ == s@.subrange(from as int, to as int),
{
    let mut r: Vec<u8> = Vec::new();
    let mut k: usize = from;
    while k < to
        invariant
            from <= k <= to <= s@.len(),
            r@ == s@.subrange(from as int, k as int),
        decreases to - k,
    {
        r.push(s[k]);
        assert(r@ =~= s@.subrange(from as int, k + 1));
        k = k + 1;
    }
    r
}

/// ASCII lower-casing, byte for byte.
pub open spec fn lower_byte(b: u8) -> u8 {
    if 65 <= b <= 90 {
        (b + 32) as u8
    } else {
        b
    }
}

/// `s` lower-cased byte for byte.
pub open spec fn lower_spec(s: Seq<u8>) -> Seq<u8> {
    s.map_values(|b: u8| lower_byte(b))
}

/// Copies `s` with ASCII letters lower-cased.
pub fn to_lower(s: &[u8]) -> (r: Vec<u8>)
    ensures
        r@ == lower_spec(s@),
{
    let mut r: Vec<u8> = Vec::new();
    let mut i: usize = 0;
    while i < s.len()
        invariant
            0 <= i <= s@.len(),
            r@ == lower_spec(s@.subrange(0, i as int)),
        decreases s@.len() - i,
    {
        let b = s[i];
        if 65 <= b && b <= 90 {
            r.push(b + 32);
        } else {
            r.push(b);
        }
        assert(r@ =~= lower_spec(s@.subrange(0, i + 1)));
        i = i + 1;
    }
    proof {
        assert(s@.subrange(0, s@.len() as int) =~= s@);
    }
    r
}

/// The lines of `s`, split at `\n` exactly as `str::split('\n')` does:
/// an empty input yields one empty line, and a trailing `\n` yields a
/// trailing empty line.
pub open spec fn lines_spec(s: Seq<u8>) -> Seq<Seq<u8>>
    decreases s.len(),
{
    if s.len() == 0 {
        seq![Seq::<u8>::empty()]
    } else if s[0] == 10 {
        seq![Seq::<u8>::empty()] + lines_spec(s.drop_first())
    } else {
        let rest = lines_spec(s.drop_first());
        seq![seq![s[0]] + rest[0]] + rest.drop_first()
    }
}

proof fn lemma_lines_nonempty(s: Seq<u8>)
    ensures
        lines_spec(s).len() >= 1,
    decreases s.len(),
{
    if s.len() > 0 && s[0] != 10 {
        lemma_lines_nonempty(s.drop_first());
    }
}

/// Splits `s` into its lines.
pub fn split_lines(s: &[u8]) -> (r: Vec<Vec<u8>>)
    ensures
        r.deep_view() == lines_spec(s@),
{
    let mut done: Vec<Vec<u8>> = Vec::new();
    let mut cur: Vec<u8> = Vec::new();
    let mut i: usize = 0;
    proof {
        assert(s@.subrange(0, s@.len() as int) =~= s@);
        lemma_lines_nonempty(s@);
        assert(done.deep_view() + prepend_line(cur@, lines_spec(s@)) =~~= lines_spec(s@));
    }
    while i < s.len()
        invariant
            0 <= i <= s@.len(),
            lines_spec(s@) == done.deep_view() + prepend_line(
                cur@,
                lines_spec(s@.subrange(i as int, s@.len() as int)),
            ),
        decreases s@.len() - i,
    {
        let ghost tail = s@.subrange(i as int, s@.len() as int);
        let ghost tail2 = s@.subrange(i + 1, s@.len() as int);
        proof {
            assert(tail.drop_first() =~= tail2);
            lemma_lines_nonempty(tail2);
        }
        if s[i] == 10 {
            proof {
                assert(done.deep_view() + prepend_line(cur@, lines_spec(tail)) =~~= done.deep_view()
                    .push(cur@) + prepend_line(Seq::<u8>::empty(), lines_spec(tail2)));
            }
            let ghost old_done = done.deep_view();
            let ghost cv = cur@;
            done.push(cur);
            cur = Vec::new();
            proof {
                assert(done.deep_view() =~~= old_done.push(cv));
            }
        } else {
            let ghost rest = lines_spec(tail2);
            proof {
                assert(lines_spec(tail) == seq![seq![tail[0]] + rest[0]] + rest.drop_first());
                assert(prepend_line(cur@, lines_spec(tail)) =~~= prepend_line(
                    cur@.push(s@[i as int]),
                    rest,
                ));
            }
            cur.push(s[i]);
        }
        i = i + 1;
    }
    proof {
        assert(s@.subrange(s@.len() as int, s@.len() as int) =~= Seq::<u8>::empty());
        assert(done.deep_view() + prepend_line(cur@, lines_spec(Seq::<u8>::empty()))
            =~~= done.deep_view().push(cur@));
    }
    let ghost old_done = done.deep_view();
    let ghost cv = cur@;
    done.push(cur);
    proof {
        assert(done.deep_view() =~~= old_done.push(cv));
    }
    done
}

/// `cur` prepended onto the first line of `rest`.
pub open spec fn prepend_line(cur: Seq<u8>, rest: Seq<Seq<u8>>) -> Seq<Seq<u8>>
    recommends
        rest.len() >= 1,
{
    seq![cur + rest[0]] + rest.drop_first()
}

/// The whitespace-separated tokens of `s`, in order, with no empty tokens.
pub open spec fn tokens_spec(s: Seq<u8>) -> Seq<Seq<u8>>
    decreases s.len(),
{
    if s.len() == 0 {
        Seq::<Seq<u8>>::empty()
    } else if is_ws(s[0]) {
        tokens_spec(s.drop_first())
    } else {
        let rest = tokens_spec(s.drop_first());
        if s.len() > 1 && !is_ws(s[1]) {
            seq![seq![s[0]] + rest[0]] + rest.drop_first()
        } else {
            seq![seq![s[0]]] + rest
        }
    }
}

proof fn lemma_tokens_head(s: Seq<u8>)
    requires
        s.len() > 0,
        !is_ws(s[0]),
    ensures
        tokens_spec(s).len() >= 1,
    decreases s.len(),
{
    if s.len() > 1 && !is_ws(s[1]) {
        lemma_tokens_head(s.drop_first());
    }
}

/// `cur` (a partial token, possibly empty) joined with the tokens of `s`.
pub open spec fn join_tokens(cur: Seq<u8>, s: Seq<u8>) -> Seq<Seq<u8>> {
    if cur.len() == 0 {
        tokens_spec(s)
    } else if s.len() > 0 && !is_ws(s[0]) {
        seq![cur + tokens_spec(s)[0]] + tokens_spec(s).drop_first()
    } else {
        seq![cur] + tokens_spec(s)
    }
}

/// Splits `s` into whitespace-separated tokens.
pub fn split_tokens(s: &[u8]) -> (r: Vec<Vec<u8>>)
    ensures
        r.deep_view() == tokens_spec(s@),
{
    let mut done: Vec<Vec<u8>> = Vec::new();
    let mut cur: Vec<u8> = Vec::new();
    let mut i: usize = 0;
    proof {
        assert(s@.subrange(0, s@.len() as int) =~= s@);
        assert(done.deep_view() + join_tokens(cur@, s@) =~~= tokens_spec(s@));
    }
    while i < s.len()
        invariant
            0 <= i <= s@.len(),
            tokens_spec(s@) == done.deep_view() + join_tokens(
                cur@,
                s@.subrange(i as int, s@.len() as int),
            ),
        decreases s@.len() - i,
    {
        let ghost tail = s@.subrange(i as int, s@.len() as int);
        let ghost tail2 = s@.subrange(i + 1, s@.len() as int);
        proof {
            assert(tail.drop_first() =~= tail2);
        }
        if is_ws_byte(s[i]) {
            if cur.len() > 0 {
                proof {
                    assert(done.deep_view() + join_tokens(cur@, tail) =~~= done.deep_view().push(
                        cur@,
                    ) + join_tokens(Seq::<u8>::empty(), tail2));
                }
                let ghost old_done = done.deep_view();
                let ghost cv = cur@;
                done.push(cur);
                cur = Vec::new();
                proof {
                    assert(done.deep_view() =~~= old_done.push(cv));
                }
            } else {
                proof {
                    assert(join_tokens(cur@, tail) =~~= join_tokens(cur@, tail2));
                }
            }
        } else {
            proof {
                if tail2.len() > 0 && !is_ws(tail2[0]) {
                    lemma_tokens_head(tail2);
                    assert(tokens_spec(tail) == seq![seq![tail[0]] + tokens_spec(tail2)[0]]
                        + tokens_spec(tail2).drop_first());
                } else {
                    assert(tokens_spec(tail) == seq![seq![tail[0]]] + tokens_spec(tail2));
                }
                assert(join_tokens(cur@, tail) =~~= join_tokens(cur@.push(s@[i as int]), tail2));
            }
            cur.push(s[i]);
        }
        i = i + 1;
    }
    proof {
        assert(s@.subrange(s@.len() as int, s@.len() as int) =~= Seq::<u8>::empty());
    }
    if cur.len() > 0 {
        proof {
            assert(done.deep_view() + join_tokens(cur@, Seq::<u8>::empty()) =~~= done.deep_view()
                .push(cur@));
        }
        let ghost old_done = done.deep_view();
        let ghost cv = cur@;
        done.push(cur);
        proof {
            assert(done.deep_view() =~~= old_done.push(cv));
        }
    } else {
        proof {
            assert(done.deep_view() + join_tokens(cur@, Seq::<u8>::empty()) =~~= done.deep_view());
        }
    }
    done
}

/// `s` with every occurrence of `0x` removed, scanning left to right, as
/// `str::replace("0x", "")` does.
pub open spec fn remove_0x_spec(s: Seq<u8>) -> Seq<u8>
    decreases s.len(),
{
    if s.len() < 2 {
        s
    } else if s[0] == 48 && s[1] == 120 {
        remove_0x_spec(s.subrange(2, s.len() as int))
    } else {
        seq![s[0]] + remove_0x_spec(s.drop_first())
    }
}

/// Copies `s` with every `0x` removed.
pub fn remove_0x(s: &[u8]) -> (r: Vec<u8>)
    ensures
        r@ == remove_0x_spec(s@),
{
    let mut r: Vec<u8> = Vec::new();
    let mut i: usize = 0;
    proof {
        assert(s@.subrange(0, s@.len() as int) =~= s@);
        assert(r@ + remove_0x_spec(s@) =~= remove_0x_spec(s@));
    }
    while i < s.len()
        invariant
            0 <= i <= s@.len(),
            remove_0x_spec(s@) == r@ + remove_0x_spec(s@.subrange(i as int, s@.len() as int)),
        decreases s@.len() - i,
    {
        let ghost tail = s@.subrange(i as int, s@.len() as int);
        if i + 1 < s.len() && s[i] == 48 && s[i + 1] == 120 {
            proof {
                assert(tail.subrange(2, tail.len() as int) =~= s@.subrange(i + 2, s@.len() as int));
            }
            i = i + 2;
        } else {
            proof {
                assert(tail.drop_first() =~= s@.subrange(i + 1, s@.len() as int));
                if tail.len() >= 2 {
                    assert(remove_0x_spec(tail) =~= seq![tail[0]] + remove_0x_spec(
                        tail.drop_first(),
                    ));
                } else {
                    assert(remove_0x_spec(s@.subrange(i + 1, s@.len() as int))
                        =~= Seq::<u8>::empty());
                    assert(remove_0x_spec(tail) =~= seq![tail[0]]);
                }
                assert(r@ + remove_0x_spec(tail) =~= r@.push(s@[i as int]) + remove_0x_spec(
                    s@.subrange(i + 1, s@.len() as int),
                ));
            }
            r.push(s[i]);
            i = i + 1;
        }
    }
    proof {
        assert(s@.subrange(s@.len() as int, s@.len() as int) =~= Seq::<u8>::empty());
        assert(r@ + remove_0x_spec(Seq::<u8>::empty()) =~= r@);
    }
    r
}

/// `s` with every trailing copy of `suf` removed, as
/// `str::trim_end_matches` does.
pub open spec fn strip_suffix_all_spec(s: Seq<u8>, suf: Seq<u8>) -> Seq<u8>
    decreases s.len(),
{
    if suf.len() > 0 && is_suffix_of(suf, s) {
        strip_suffix_all_spec(s.subrange(0, s.len() - suf.len()), suf)
    } else {
        s
    }
}

/// Copies `s` with every trailing copy of `suf` removed.
pub fn strip_suffix_all(s: &[u8], suf: &[u8]) -> (r: Vec<u8>)
    ensures
        r@ == strip_suffix_all_spec(s@, suf@),
{
    let mut cur: Vec<u8> = sub_bytes(s, 0, s.len());
    proof {
        assert(s@.subrange(0, s@.len() as int) =~= s@);
    }
    loop
        invariant
            strip_suffix_all_spec(s@, suf@) == strip_suffix_all_spec(cur@, suf@),
        decreases cur@.len(),
    {
        if suf.len() == 0 || !ends_with(cur.as_slice(), suf) {
            proof {
                assert(strip_suffix_all_spec(cur@, suf@) == cur@);
            }
            return cur;
        }
        let ghost before = cur@;
        let new_len = cur.len() - suf.len();
        cur.truncate(new_len);
        proof {
            assert(strip_suffix_all_spec(before, suf@) == strip_suffix_all_spec(
                before.subrange(0, before.len() - suf@.len()),
                suf@,
            ));
        }
    }
}

/// The ASCII bytes of a character sequence; meaningful when every
/// character is ASCII.
pub open spec fn chars_bytes(cs: Seq<char>) -> Seq<u8> {
    cs.map_values(|c: char| c as u8)
}

/// Every byte is ASCII.
pub open spec fn all_ascii(bs: Seq<u8>) -> bool {
    forall|i: int| 0 <= i < bs.len() ==> bs[i] < 128
}

/// `cs` is an ASCII character sequence whose bytes are `bs`.
pub open spec fn ascii_rep(cs: Seq<char>, bs: Seq<u8>) -> bool {
    vstd::utf8::is_ascii_chars(cs) && chars_bytes(cs) == bs
}

/// Compares a byte string against an ASCII string slice.
pub fn eq_str(s: &[u8], lit: &str) -> (r: bool)
    requires
        lit.is_ascii(),
    ensures
        r == (s@ == chars_bytes(lit@)),
{
    proof {
        broadcast use vstd::string::is_ascii_spec_bytes;

        assert(lit.spec_bytes() =~= chars_bytes(lit@));
    }
    bytes_eq(s, lit.as_bytes())
}

/// Copies the bytes of an ASCII string slice.
pub fn str_bytes(lit: &str) -> (r: Vec<u8>)
    requires
        lit.is_ascii(),
    ensures
        r@ == chars_bytes(lit@),
{
    proof {
        broadcast use vstd::string::is_ascii_spec_bytes;

        assert(lit.spec_bytes() =~= chars_bytes(lit@));
    }
    lit.as_bytes_vec()
}

/// `s` with every leading copy of `pre` removed, as
/// `str::trim_start_matches` does.
pub open spec fn strip_prefix_all_spec(s: Seq<u8>, pre: Seq<u8>) -> Seq<u8>
    decreases s.len(),
{
    if pre.len() > 0 && is_prefix_of(pre, s) {
        strip_prefix_all_spec(s.subrange(pre.len() as int, s.len() as int), pre)
    } else {
        s
    }
}

/// Copies `s` with every leading copy of `pre` removed.
pub fn strip_prefix_all(s: &[u8], pre: &[u8]) -> (r: Vec<u8>)
    ensures
        r@ == strip_prefix_all_spec(s@, pre@),
{
    let mut cur: Vec<u8> = sub_bytes(s, 0, s.len());
    proof {
        assert(s@.subrange(0, s@.len() as int) =~= s@);
    }
    loop
        invariant
            strip_prefix_all_spec(s@, pre@) == strip_prefix_all_spec(cur@, pre@),
        decreases cur@.len(),
    {
        if pre.len() == 0 || !starts_with(cur.as_slice(), pre) {
            proof {
                assert(strip_prefix_all_spec(cur@, pre@) == cur@);
            }
            return cur;
        }
        let ghost before = cur@;
        let next = sub_bytes(cur.as_slice(), pre.len(), cur.len());
        cur = next;
        proof {
            assert(strip_prefix_all_spec(before, pre@) == strip_prefix_all_spec(
                before.subrange(pre@.len() as int, before.len() as int),
                pre@,
            ));
        }
    }
}

/// Stripping a prefix keeps the bytes ASCII.
pub proof fn lemma_strip_prefix_all_ascii(s: Seq<u8>, pre: Seq<u8>)
    requires
        all_ascii(s),
    ensures
        all_ascii(strip_prefix_all_spec(s, pre)),
    decreases s.len(),
{
    if pre.len() > 0 && is_prefix_of(pre, s) {
        let t = s.subrange(pre.len() as int, s.len() as int);
        assert(all_ascii(t));
        lemma_strip_prefix_all_ascii(t, pre);
    }
}

/// A string of digits has no surrounding whitespace to trim.
pub proof fn lemma_trim_digits(s: Seq<u8>)
    requires
        all_digits(s),
        s.len() > 0,
    ensures
        trim_spec(s) == s,
{
    assert(!is_ws(s[0]));
    assert(!is_ws(s.last()));
    assert(trim_start_spec(s) == s);
    assert(trim_end_spec(s) == s);
}

/// Everything after the first colon of a line, or nothing when it has
/// no colon.
pub open spec fn after_colon_spec(line: Seq<u8>) -> Seq<u8>
    decreases line.len(),
{
    if line.len() == 0 {
        Seq::<u8>::empty()
    } else if line[0] == 58 {
        line.drop_first()
    } else {
        after_colon_spec(line.drop_first())
    }
}

/// Finds the first colon of a line.
pub fn find_colon(line: &[u8]) -> (r: Option<usize>)
    ensures
        match r {
            Some(j) => j < line@.len() && line@[j as int] == 58 && forall|q: int|
                0 <= q < j ==> line@[q] != 58,
            None => forall|q: int| 0 <= q < line@.len() ==> line@[q] != 58,
        },
{
    let mut j: usize = 0;
    while j < line.len()
        invariant
            0 <= j <= line@.len(),
            forall|q: int| 0 <= q < j ==> line@[q] != 58,
        decreases line@.len() - j,
    {
        if line[j] == 58 {
            return Some(j);
        }
        j = j + 1;
    }
    None
}

pub proof fn lemma_after_colon_at(line: Seq<u8>, j: int)
    requires
        0 <= j <= line.len(),
        forall|q: int| 0 <= q < j ==> line[q] != 58,
    ensures
        j < line.len() && line[j] == 58 ==> after_colon_spec(line) == line.subrange(
            j + 1,
            line.len() as int,
        ),
        j == line.len() ==> after_colon_spec(line) == Seq::<u8>::empty(),
    decreases j + 1,
{
    if j == 0 {
        if 0 < line.len() && line[0] == 58 {
            assert(line.drop_first() =~= line.subrange(1, line.len() as int));
        } else if line.len() == 0 {
        }
    } else {
        let t = line.drop_first();
        assert(forall|q: int| 0 <= q < j - 1 ==> t[q] != 58);
        lemma_after_colon_at(t, j - 1);
        if j < line.len() && line[j] == 58 {
            assert(t.subrange(j, t.len() as int) =~= line.subrange(j + 1, line.len() as int));
        }
    }
}

/// Everything before the first occurrence of `b`, or the whole string
/// without one.
pub open spec fn before_byte_spec(line: Seq<u8>, b: u8) -> Seq<u8>
    decreases line.len(),
{
    if line.len() == 0 {
        line
    } else if line[0] == b {
        Seq::<u8>::empty()
    } else {
        seq![line[0]] + before_byte_spec(line.drop_first(), b)
    }
}

/// Everything after the first occurrence of `b`, or nothing without
/// one.
pub open spec fn after_byte_spec(line: Seq<u8>, b: u8) -> Seq<u8>
    decreases line.len(),
{
    if line.len() == 0 {
        Seq::<u8>::empty()
    } else if line[0] == b {
        line.drop_first()
    } else {
        after_byte_spec(line.drop_first(), b)
    }
}

/// Finds the first occurrence of `b`.
pub fn find_byte(line: &[u8], b: u8) -> (r: Option<usize>)
    ensures
        match r {
            Some(j) => j < line@.len() && line@[j as int] == b && forall|q: int|
                0 <= q < j ==> line@[q] != b,
            None => forall|q: int| 0 <= q < line@.len() ==> line@[q] != b,
        },
{
    let mut j: usize = 0;
    while j < line.len()
        invariant
            0 <= j <= line@.len(),
            forall|q: int| 0 <= q < j ==> line@[q] != b,
        decreases line@.len() - j,
    {
        if line[j] == b {
            return Some(j);
        }
        j = j + 1;
    }
    None
}

/// Where the first occurrence of `b` sits, the before and after parts
/// are the surrounding subranges; without one, the whole string and
/// nothing.
pub proof fn lemma_split_byte_at(line: Seq<u8>, b: u8, j: int)
    requires
        0 <= j <= line.len(),
        forall|q: int| 0 <= q < j ==> line[q] != b,
    ensures
        j < line.len() && line[j] == b ==> before_byte_spec(line, b) == line.subrange(0, j)
            && after_byte_spec(line, b) == line.subrange(j + 1, line.len() as int),
        j == line.len() ==> before_byte_spec(line, b) == line && after_byte_spec(line, b)
            == Seq::<u8>::empty(),
    decreases j + 1,
{
    if j == 0 {
        if 0 < line.len() && line[0] == b {
            assert(line.subrange(0, 0) =~= Seq::<u8>::empty());
            assert(line.drop_first() =~= line.subrange(1, line.len() as int));
        } else if line.len() == 0 {
        }
    } else {
        let t = line.drop_first();
        assert(forall|q: int| 0 <= q < j - 1 ==> t[q] != b);
        lemma_split_byte_at(t, b, j - 1);
        if j < line.len() && line[j] == b {
            assert(seq![line[0]] + t.subrange(0, j - 1) =~= line.subrange(0, j));
            assert(t.subrange(j, t.len() as int) =~= line.subrange(j + 1, line.len() as int));
        } else if j == line.len() {
            assert(seq![line[0]] + t =~= line);
        }
    }
}

/// Copies the parts before and after the first occurrence of `b`: the
/// whole string and nothing when `b` does not occur.
pub fn split_at_byte(line: &[u8], b: u8) -> (r: (Vec<u8>, Vec<u8>, bool))
    ensures
        r.0@ == before_byte_spec(line@, b),
        r.1@ == after_byte_spec(line@, b),
        r.2 == (exists|q: int| 0 <= q < line@.len() && line@[q] == b),
{
    match find_byte(line, b) {
        Some(j) => {
            proof {
                lemma_split_byte_at(line@, b, j as int);
            }
            assert(j < line.len());
            (sub_bytes(line, 0, j), sub_bytes(line, j + 1, line.len()), true)
        },
        None => {
            proof {
                lemma_split_byte_at(line@, b, line@.len() as int);
                assert(line@.subrange(0, line@.len() as int) =~= line@);
            }
            (sub_bytes(line, 0, line.len()), Vec::new(), false)
        },
    }
}

/// Tests whether every byte is a decimal digit.
pub fn check_all_digits(s: &[u8]) -> (r: bool)
    ensures
        r == all_digits(s@),
{
    let mut i: usize = 0;
    while i < s.len()
        invariant
            0 <= i <= s@.len(),
            forall|q: int| 0 <= q < i ==> is_digit(s@[q]),
        decreases s@.len() - i,
    {
        if s[i] < 48 || s[i] > 57 {
            return false;
        }
        i = i + 1;
    }
    true
}

/// Compares a string against an ASCII literal, by value.
pub fn str_eq_lit(s: &str, lit: &str) -> (r: bool)
    requires
        lit.is_ascii(),
    ensures
        r == (s@ == lit@),
{
    if !s.is_ascii() {
        proof {
            if s@ == lit@ {
                assert(vstd::utf8::is_ascii_chars(s@));
            }
        }
        return false;
    }
    proof {
        broadcast use vstd::string::is_ascii_spec_bytes;

    }
    let r = bytes_eq(s.as_bytes(), lit.as_bytes());
    proof {
        if s.spec_bytes() == lit.spec_bytes() {
            assert(s@.len() == lit@.len());
            assert forall|i: int| 0 <= i < s@.len() implies s@[i] == lit@[i] by {
                assert(s@[i] as u8 == s.spec_bytes()[i]);
                assert(lit@[i] as u8 == lit.spec_bytes()[i]);
                assert(s@[i] <= '\u{7f}' && lit@[i] <= '\u{7f}');
            }
            assert(s@ =~= lit@);
        } else {
            if s@ == lit@ {
                assert(s.spec_bytes() =~= lit.spec_bytes());
            }
        }
    }
    r
}

/// Builds a `String` from bytes.
///
/// Relies on `String::from_utf8_lossy`: ASCII bytes are valid UTF-8 and
/// decode to themselves, character for character.
#[verifier::external_body]
pub fn lossy_string(bs: &[u8]) -> (r: String)
    ensures
        all_ascii(bs@) ==> ascii_rep(r@, bs@),
{
    String::from(String::from_utf8_lossy(bs))
}

} // verus!
