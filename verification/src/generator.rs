//! The candidate generator: a mixed-radix counter over the masked positions
//! of a key template.
//!
//! A template is a byte string in which every occurrence of a designated mask
//! byte marks an unknown position.  The generator assigns one base-`N` digit
//! to each unknown position (`N` being the alphabet size), materializes the
//! candidate denoted by the current digit vector, and advances the vector as
//! a counter with left-to-right carry, so that every assignment is produced
//! exactly once before the counter wraps back to zero.

use vstd::pervasive::VecAdditionalExecFns;
use vstd::prelude::*;

verus! {

/// A fault detected while setting a search up, before any oracle call.
#[derive(Debug, Clone, Copy, PartialEq, Eq, Structural)]
pub enum SetupError {
    /// The alphabet holds no symbols, so nothing could fill a masked position.
    EmptyAlphabet,
    /// The alphabet repeats a symbol, which would make candidates repeat.
    DuplicateSymbol,
    /// The candidate space has more than `u64::MAX` elements.
    SpaceTooLarge,
}

/// `base` raised to `exp`, over naturals.
pub open spec fn pow_n(base: nat, exp: nat) -> nat
    decreases exp,
{
    if exp == 0 {
        1
    } else {
        base * pow_n(base, (exp - 1) as nat)
    }
}

/// The number a digit vector denotes in base `n`, least significant digit
/// first: digit 0 belongs to the first masked position found in the template.
pub open spec fn digits_val(ds: Seq<usize>, n: nat) -> nat
    decreases ds.len(),
{
    if ds.len() == 0 {
        0
    } else {
        ds[0] as nat + n * digits_val(ds.drop_first(), n)
    }
}

/// Every element of `ds` is a digit in base `n`.
pub open spec fn digits_in_base(ds: Seq<usize>, n: nat) -> bool {
    forall|i: int| 0 <= i < ds.len() ==> (ds[i] as nat) < n
}

/// No two positions of `s` hold the same byte.
pub open spec fn distinct_seq(s: Seq<u8>) -> bool {
    forall|i: int, j: int| 0 <= i < s.len() && 0 <= j < s.len() && i != j ==> s[i] != s[j]
}

/// The elements of `ps` are strictly increasing.
pub open spec fn strictly_increasing(ps: Seq<usize>) -> bool {
    forall|i: int, j: int| 0 <= i < j < ps.len() ==> ps[i] < ps[j]
}

/// The indices of `t` that hold `mask`, in left-to-right order.
pub open spec fn mask_positions(t: Seq<u8>, mask: u8) -> Seq<usize>
    decreases t.len(),
{
    if t.len() == 0 {
        Seq::<usize>::empty()
    } else if t.last() == mask {
        mask_positions(t.drop_last(), mask).push((t.len() - 1) as usize)
    } else {
        mask_positions(t.drop_last(), mask)
    }
}

/// `t` with, at each position `ps[i]`, the alphabet symbol `a[ds[i]]`.
pub open spec fn fill(t: Seq<u8>, ps: Seq<usize>, a: Seq<u8>, ds: Seq<usize>) -> Seq<u8>
    decreases ps.len(),
{
    if ps.len() == 0 {
        t
    } else {
        fill(t, ps.drop_last(), a, ds.drop_last()).update(
            ps.last() as int,
            a[ds.last() as int],
        )
    }
}

/// A positive base raised to any power is positive.
pub proof fn lemma_pow_positive(base: nat, exp: nat)
    requires
        base >= 1,
    ensures
        pow_n(base, exp) >= 1,
    decreases exp,
{
    if exp > 0 {
        lemma_pow_positive(base, (exp - 1) as nat);
        assert(base * pow_n(base, (exp - 1) as nat) >= 1) by (nonlinear_arith)
            requires
                base >= 1,
                pow_n(base, (exp - 1) as nat) >= 1,
        ;
    }
}

/// Powers of a positive base do not shrink as the exponent grows.
pub proof fn lemma_pow_monotone(base: nat, e1: nat, e2: nat)
    requires
        base >= 1,
        e1 <= e2,
    ensures
        pow_n(base, e1) <= pow_n(base, e2),
    decreases e2,
{
    if e1 < e2 {
        lemma_pow_monotone(base, e1, (e2 - 1) as nat);
        assert(base * pow_n(base, (e2 - 1) as nat) >= pow_n(base, (e2 - 1) as nat))
            by (nonlinear_arith)
            requires
                base >= 1,
                pow_n(base, (e2 - 1) as nat) >= 0,
        ;
    }
}

/// A vector of base-`n` digits denotes a number below `n^len`.
pub proof fn lemma_digits_val_bound(ds: Seq<usize>, n: nat)
    requires
        n >= 1,
        digits_in_base(ds, n),
    ensures
        digits_val(ds, n) < pow_n(n, ds.len()),
    decreases ds.len(),
{
    if ds.len() > 0 {
        let tail = ds.drop_first();
        assert(digits_in_base(tail, n));
        lemma_digits_val_bound(tail, n);
        let p = pow_n(n, (ds.len() - 1) as nat);
        assert((ds[0] as nat) + n * digits_val(tail, n) < n * p) by (nonlinear_arith)
            requires
                (ds[0] as nat) < n,
                digits_val(tail, n) < p,
                n >= 1,
        ;
    }
}

/// The all-zero digit vector denotes zero.
pub proof fn lemma_digits_val_zeros(ds: Seq<usize>, n: nat)
    requires
        forall|i: int| 0 <= i < ds.len() ==> ds[i] == 0,
    ensures
        digits_val(ds, n) == 0,
    decreases ds.len(),
{
    if ds.len() > 0 {
        let tail = ds.drop_first();
        assert(forall|i: int| 0 <= i < tail.len() ==> tail[i] == ds[i + 1] && ds[i + 1] == 0);
        lemma_digits_val_zeros(tail, n);
        assert(ds[0] == 0);
        assert(digits_val(ds, n) == ds[0] as nat + n * digits_val(ds.drop_first(), n));
        assert(n * digits_val(tail, n) == 0) by (nonlinear_arith)
            requires
                digits_val(tail, n) == 0,
        ;
    }
}

/// The all-maximal digit vector denotes `n^len - 1`.
pub proof fn lemma_digits_val_allmax(ds: Seq<usize>, n: nat)
    requires
        n >= 1,
        forall|i: int| 0 <= i < ds.len() ==> (ds[i] as nat) + 1 == n,
    ensures
        digits_val(ds, n) + 1 == pow_n(n, ds.len()),
    decreases ds.len(),
{
    if ds.len() > 0 {
        let tail = ds.drop_first();
        lemma_digits_val_allmax(tail, n);
        let p = pow_n(n, (ds.len() - 1) as nat);
        assert((ds[0] as nat) + n * digits_val(tail, n) + 1 == n * p) by (nonlinear_arith)
            requires
                (ds[0] as nat) + 1 == n,
                digits_val(tail, n) + 1 == p,
        ;
    }
}

/// Incrementing with carry adds one: if the digits below the pivot wrapped
/// from maximal to zero, the pivot digit grew by one, and the rest kept
/// their value, then the denoted number grew by one.
pub proof fn lemma_digits_val_pivot(s1: Seq<usize>, s2: Seq<usize>, n: nat, p: int)
    requires
        s1.len() == s2.len(),
        0 <= p < s1.len(),
        forall|j: int| #![all_triggers] 0 <= j < p ==> (s1[j] as nat) + 1 == n && s2[j] == 0,
        s2[p] == s1[p] + 1,
        forall|j: int| #![all_triggers] p < j < s1.len() ==> s2[j] == s1[j],
    ensures
        digits_val(s2, n) == digits_val(s1, n) + 1,
    decreases p,
{
    let t1 = s1.drop_first();
    let t2 = s2.drop_first();
    assert(digits_val(s1, n) == s1[0] as nat + n * digits_val(t1, n));
    assert(digits_val(s2, n) == s2[0] as nat + n * digits_val(t2, n));
    if p == 0 {
        assert(t1 =~= t2);
    } else {
        assert(t2[p - 1] == t1[p - 1] + 1);
        assert forall|j: int| #![all_triggers] 0 <= j < p - 1 implies (t1[j] as nat) + 1 == n
            && t2[j] == 0 by {
            assert(t1[j] == s1[j + 1]);
            assert(t2[j] == s2[j + 1]);
            assert((s1[j + 1] as nat) + 1 == n && s2[j + 1] == 0);
        }
        assert forall|j: int| #![all_triggers] p - 1 < j < t1.len() implies t2[j] == t1[j] by {
            assert(t1[j] == s1[j + 1]);
            assert(t2[j] == s2[j + 1]);
        }
        lemma_digits_val_pivot(t1, t2, n, p - 1);
        assert((s1[0] as nat) + 1 == n && s2[0] == 0);
        assert(n * digits_val(t2, n) == n * digits_val(t1, n) + n) by (nonlinear_arith)
            requires
                digits_val(t2, n) == digits_val(t1, n) + 1,
        ;
    }
}

/// Two digit vectors of the same length that denote the same number are
/// equal: the counter value determines the digits.
pub proof fn lemma_digits_val_injective(s1: Seq<usize>, s2: Seq<usize>, n: nat)
    requires
        s1.len() == s2.len(),
        n >= 1,
        digits_in_base(s1, n),
        digits_in_base(s2, n),
        digits_val(s1, n) == digits_val(s2, n),
    ensures
        s1 == s2,
    decreases s1.len(),
{
    if s1.len() == 0 {
        assert(s1 =~= s2);
    } else {
        let v = digits_val(s1, n) as int;
        let t1 = s1.drop_first();
        let t2 = s2.drop_first();
        assert((s1[0] as nat) < n);
        assert((s2[0] as nat) < n);
        assert(digits_val(s1, n) == s1[0] as nat + n * digits_val(t1, n));
        assert(digits_val(s2, n) == s2[0] as nat + n * digits_val(t2, n));
        let q1 = digits_val(t1, n) as int;
        let q2 = digits_val(t2, n) as int;
        assert(v == q1 * (n as int) + s1[0]) by (nonlinear_arith)
            requires
                v == s1[0] as int + (n as int) * q1,
        ;
        assert(v == q2 * (n as int) + s2[0]) by (nonlinear_arith)
            requires
                v == s2[0] as int + (n as int) * q2,
        ;
        vstd::arithmetic::div_mod::lemma_fundamental_div_mod_converse(
            v,
            n as int,
            digits_val(t1, n) as int,
            s1[0] as int,
        );
        vstd::arithmetic::div_mod::lemma_fundamental_div_mod_converse(
            v,
            n as int,
            digits_val(t2, n) as int,
            s2[0] as int,
        );
        assert(digits_in_base(t1, n));
        assert(digits_in_base(t2, n));
        lemma_digits_val_injective(t1, t2, n);
        assert forall|i: int| 0 <= i < s1.len() implies s1[i] == s2[i] by {
            if i > 0 {
                assert(s1[i] == t1[i - 1]);
                assert(s2[i] == t2[i - 1]);
            }
        }
        assert(s1 =~= s2);
    }
}

/// The masked positions of a template are strictly increasing, in bounds,
/// and hold the mask byte.
pub proof fn lemma_mask_positions_props(t: Seq<u8>, mask: u8)
    requires
        t.len() <= usize::MAX,
    ensures
        strictly_increasing(mask_positions(t, mask)),
        forall|i: int|
            0 <= i < mask_positions(t, mask).len() ==> (#[trigger] mask_positions(t, mask)[i]
                as int) < t.len() && t[mask_positions(t, mask)[i] as int] == mask,
    decreases t.len(),
{
    if t.len() > 0 {
        let pre = t.drop_last();
        lemma_mask_positions_props(pre, mask);
        let ps0 = mask_positions(pre, mask);
        assert(forall|i: int|
            0 <= i < ps0.len() ==> (#[trigger] ps0[i] as int) < pre.len() && t[ps0[i] as int]
                == mask);
    }
}

/// Filling does not change the length of the template.
pub proof fn lemma_fill_len(t: Seq<u8>, ps: Seq<usize>, a: Seq<u8>, ds: Seq<usize>)
    requires
        forall|i: int| 0 <= i < ps.len() ==> (ps[i] as int) < t.len(),
    ensures
        fill(t, ps, a, ds).len() == t.len(),
    decreases ps.len(),
{
    if ps.len() > 0 {
        assert(forall|i: int|
            0 <= i < ps.drop_last().len() ==> (#[trigger] ps.drop_last()[i] as int) < t.len());
        lemma_fill_len(t, ps.drop_last(), a, ds.drop_last());
    }
}

/// At a masked position, the filled candidate shows the symbol the digit
/// there selects.
pub proof fn lemma_fill_index(t: Seq<u8>, ps: Seq<usize>, a: Seq<u8>, ds: Seq<usize>, i: int)
    requires
        ps.len() == ds.len(),
        strictly_increasing(ps),
        forall|j: int| 0 <= j < ps.len() ==> (ps[j] as int) < t.len(),
        0 <= i < ps.len(),
    ensures
        fill(t, ps, a, ds)[ps[i] as int] == a[ds[i] as int],
    decreases ps.len(),
{
    let pp = ps.drop_last();
    let dd = ds.drop_last();
    assert(forall|j: int| 0 <= j < pp.len() ==> (#[trigger] pp[j] as int) < t.len());
    lemma_fill_len(t, pp, a, dd);
    if i == ps.len() - 1 {
    } else {
        assert(strictly_increasing(pp));
        lemma_fill_index(t, pp, a, dd, i);
        assert(ps[i] < ps.last());
    }
}

/// Away from the masked positions, the filled candidate shows the template.
pub proof fn lemma_fill_untouched(t: Seq<u8>, ps: Seq<usize>, a: Seq<u8>, ds: Seq<usize>, j: int)
    requires
        forall|i: int| 0 <= i < ps.len() ==> (ps[i] as int) < t.len(),
        0 <= j < t.len(),
        forall|i: int| 0 <= i < ps.len() ==> (ps[i] as int) != j,
    ensures
        fill(t, ps, a, ds)[j] == t[j],
    decreases ps.len(),
{
    if ps.len() > 0 {
        let pp = ps.drop_last();
        assert(forall|i: int|
            0 <= i < pp.len() ==> (#[trigger] pp[i] as int) < t.len() && (pp[i] as int) != j);
        lemma_fill_untouched(t, pp, a, ds.drop_last(), j);
        lemma_fill_len(t, pp, a, ds.drop_last());
    }
}

/// Different digit vectors fill the template to different candidates, as
/// long as the masked positions are distinct and the alphabet repeats no
/// symbol.
pub proof fn lemma_fill_injective(t: Seq<u8>, ps: Seq<usize>, a: Seq<u8>, d1: Seq<usize>, d2: Seq<
    usize,
>)
    requires
        ps.len() == d1.len(),
        ps.len() == d2.len(),
        strictly_increasing(ps),
        forall|j: int| 0 <= j < ps.len() ==> (ps[j] as int) < t.len(),
        distinct_seq(a),
        digits_in_base(d1, a.len()),
        digits_in_base(d2, a.len()),
        d1 != d2,
    ensures
        fill(t, ps, a, d1) != fill(t, ps, a, d2),
{
    if forall|i: int| 0 <= i < d1.len() ==> d1[i] == d2[i] {
        assert(d1 =~= d2);
    }
    let i = choose|i: int| 0 <= i < d1.len() && d1[i] != d2[i];
    lemma_fill_index(t, ps, a, d1, i);
    lemma_fill_index(t, ps, a, d2, i);
    assert(a[d1[i] as int] != a[d2[i] as int]);
    assert(fill(t, ps, a, d1)[ps[i] as int] != fill(t, ps, a, d2)[ps[i] as int]);
}

/// Enumerates, one per digit-vector value, every candidate key the template
/// and alphabet allow.
pub struct CandidateGenerator {
    template: Vec<u8>,
    positions: Vec<usize>,
    alphabet: Vec<u8>,
    digits: Vec<usize>,
    total: u64,
}

impl CandidateGenerator {
    /// The template the generator was built from.
    pub closed spec fn template_view(self) -> Seq<u8> {
        self.template@
    }

    /// The masked positions, in the order they were found.
    pub closed spec fn positions_view(self) -> Seq<usize> {
        self.positions@
    }

    /// The symbols that can fill a masked position, in counting order.
    pub closed spec fn alphabet_view(self) -> Seq<u8> {
        self.alphabet@
    }

    /// The current digit vector, least significant digit first.
    pub closed spec fn digits_view(self) -> Seq<usize> {
        self.digits@
    }

    /// How many candidates the whole space holds: `N^k`.
    pub open spec fn space_size(self) -> nat {
        pow_n(self.alphabet_view().len(), self.positions_view().len())
    }

    /// The number the digit vector denotes: how many times the generator has
    /// advanced since construction (or since it last wrapped).
    pub open spec fn counter_value(self) -> nat {
        digits_val(self.digits_view(), self.alphabet_view().len())
    }

    /// The candidate the current digit vector denotes.
    pub open spec fn candidate(self) -> Seq<u8> {
        fill(self.template_view(), self.positions_view(), self.alphabet_view(), self.digits_view())
    }

    /// Two generators enumerate the same space: same template, same masked
    /// positions, same alphabet.
    pub open spec fn same_space(self, other: CandidateGenerator) -> bool {
        &&& self.template_view() == other.template_view()
        &&& self.positions_view() == other.positions_view()
        &&& self.alphabet_view() == other.alphabet_view()
    }

    /// Structural invariant, established by `new` and kept by every method.
    pub closed spec fn wf(self) -> bool {
        &&& self.alphabet@.len() >= 1
        &&& distinct_seq(self.alphabet@)
        &&& strictly_increasing(self.positions@)
        &&& forall|i: int|
            0 <= i < self.positions@.len() ==> (#[trigger] self.positions@[i] as int)
                < self.template@.len()
        &&& self.digits@.len() == self.positions@.len()
        &&& digits_in_base(self.digits@, self.alphabet@.len())
        &&& self.total as nat == self.space_size()
    }

    /// Facts every well-formed generator satisfies, for use outside this
    /// module, where `wf` is opaque.
    pub proof fn lemma_wf_facts(self)
        requires
            self.wf(),
        ensures
            self.alphabet_view().len() >= 1,
            distinct_seq(self.alphabet_view()),
            self.digits_view().len() == self.positions_view().len(),
            self.space_size() <= u64::MAX,
            1 <= self.space_size(),
            self.counter_value() < self.space_size(),
    {
        lemma_pow_positive(self.alphabet@.len(), self.positions@.len());
        lemma_digits_val_bound(self.digits@, self.alphabet@.len());
    }

    /// Builds a generator over `template`, whose masked positions are those
    /// holding `mask`, and over the symbols of `alphabet`.  Every setup
    /// fault is reported here, before any candidate is produced.
    #[verifier::loop_isolation(false)]
    pub fn new(template: Vec<u8>, mask: u8, alphabet: Vec<u8>) -> (r: Result<
        CandidateGenerator,
        SetupError,
    >)
        ensures
            match r {
                Ok(g) => {
                    &&& g.wf()
                    &&& alphabet@.len() >= 1
                    &&& distinct_seq(alphabet@)
                    &&& pow_n(alphabet@.len(), mask_positions(template@, mask).len())
                        <= u64::MAX
                    &&& g.template_view() == template@
                    &&& g.alphabet_view() == alphabet@
                    &&& g.positions_view() == mask_positions(template@, mask)
                    &&& g.counter_value() == 0
                },
                Err(e) => match e {
                    SetupError::EmptyAlphabet => alphabet@.len() == 0,
                    SetupError::DuplicateSymbol => alphabet@.len() >= 1 && !distinct_seq(
                        alphabet@,
                    ),
                    SetupError::SpaceTooLarge => alphabet@.len() >= 1 && distinct_seq(alphabet@)
                        && pow_n(alphabet@.len(), mask_positions(template@, mask).len())
                        > u64::MAX,
                },
            },
    {
        let n = alphabet.len();
        if n == 0 {
            return Err(SetupError::EmptyAlphabet);
        }
        let mut i: usize = 0;
        while i < n
            invariant
                n == alphabet@.len(),
                i <= n,
                forall|x: int, y: int|
                    #![trigger alphabet@[x], alphabet@[y]]
                    0 <= x < i && x < y < n ==> alphabet@[x] != alphabet@[y],
            decreases n - i,
        {
            let mut j: usize = i + 1;
            while j < n
                invariant
                    n == alphabet@.len(),
                    i < n,
                    i + 1 <= j <= n,
                    forall|x: int, y: int|
                        #![trigger alphabet@[x], alphabet@[y]]
                        0 <= x < i && x < y < n ==> alphabet@[x] != alphabet@[y],
                    forall|y: int| i < y < j ==> alphabet@[i as int] != #[trigger] alphabet@[y],
                decreases n - j,
            {
                if alphabet[i] == alphabet[j] {
                    proof {
                        assert(!distinct_seq(alphabet@));
                    }
                    return Err(SetupError::DuplicateSymbol);
                }
                j += 1;
            }
            i += 1;
        }
        proof {
            assert forall|x: int, y: int|
                0 <= x < alphabet@.len() && 0 <= y < alphabet@.len() && x != y implies alphabet@[x]
                != alphabet@[y] by {
                if x < y {
                    assert(alphabet@[x] != alphabet@[y]);
                } else {
                    assert(alphabet@[y] != alphabet@[x]);
                }
            }
        }
        let tlen = template.len();
        let mut positions: Vec<usize> = Vec::new();
        let mut idx: usize = 0;
        while idx < tlen
            invariant
                tlen == template@.len(),
                idx <= tlen,
                positions@ == mask_positions(template@.take(idx as int), mask),
            decreases tlen - idx,
        {
            proof {
                assert(template@.take(idx as int + 1).drop_last() =~= template@.take(idx as int));
                assert(template@.take(idx as int + 1).last() == template@[idx as int]);
            }
            if template[idx] == mask {
                positions.push(idx);
            }
            idx += 1;
        }
        proof {
            assert(template@.take(tlen as int) =~= template@);
            lemma_mask_positions_props(template@, mask);
        }
        let k = positions.len();
        let mut total: u64 = 1;
        let mut c: usize = 0;
        while c < k
            invariant
                n == alphabet@.len(),
                1 <= n,
                k == positions@.len(),
                c <= k,
                total as nat == pow_n(n as nat, c as nat),
            decreases k - c,
        {
            let nb = n as u64;
            proof {
                vstd::arithmetic::div_mod::lemma_fundamental_div_mod(
                    u64::MAX as int,
                    nb as int,
                );
                vstd::arithmetic::div_mod::lemma_mod_bound(u64::MAX as int, nb as int);
            }
            if total > u64::MAX / nb {
                proof {
                    let m = u64::MAX as int;
                    let q = m / (nb as int);
                    assert((nb as int) * (total as int) > m) by (nonlinear_arith)
                        requires
                            total as int >= q + 1,
                            m == (nb as int) * q + m % (nb as int),
                            m % (nb as int) < nb as int,
                            nb as int >= 1,
                    ;
                    assert(pow_n(n as nat, (c + 1) as nat) == (n as nat) * pow_n(
                        n as nat,
                        c as nat,
                    ));
                    lemma_pow_monotone(n as nat, (c + 1) as nat, k as nat);
                }
                return Err(SetupError::SpaceTooLarge);
            }
            proof {
                let m = u64::MAX as int;
                let q = m / (nb as int);
                assert((total as int) * (nb as int) <= m && (total as int) * (nb as int) == (
                nb as int) * (total as int)) by (nonlinear_arith)
                    requires
                        total as int <= q,
                        nb as int >= 1,
                        m == (nb as int) * q + m % (nb as int),
                        m % (nb as int) >= 0,
                ;
                assert(pow_n(n as nat, (c + 1) as nat) == (n as nat) * pow_n(n as nat, c as nat));
            }
            total = total * nb;
            c += 1;
        }
        let mut digits: Vec<usize> = Vec::new();
        let mut d: usize = 0;
        while d < k
            invariant
                digits@.len() == d as int,
                d <= k,
                forall|x: int| 0 <= x < d ==> digits@[x] == 0,
            decreases k - d,
        {
            digits.push(0);
            d += 1;
        }
        proof {
            lemma_digits_val_zeros(digits@, n as nat);
        }
        Ok(CandidateGenerator { template, positions, alphabet, digits, total })
    }

    /// The total number of candidates the search space holds.
    pub fn total(&self) -> (r: u64)
        requires
            self.wf(),
        ensures
            r as nat == self.space_size(),
    {
        self.total
    }

    /// Materializes the candidate the current digit vector denotes: the
    /// template with, at each masked position, the alphabet symbol the
    /// digit there selects.  Reading it does not move the counter, so any
    /// number of calls between two `advance` calls returns the same key.
    pub fn current(&self) -> (r: Vec<u8>)
        requires
            self.wf(),
        ensures
            r@ == self.candidate(),
    {
        let mut out: Vec<u8> = Vec::new();
        let tlen = self.template.len();
        let mut i: usize = 0;
        while i < tlen
            invariant
                tlen == self.template@.len(),
                i <= tlen,
                out@ == self.template@.take(i as int),
            decreases tlen - i,
        {
            out.push(self.template[i]);
            proof {
                assert(self.template@.take(i as int + 1) =~= self.template@.take(i as int).push(
                    self.template@[i as int],
                ));
            }
            i += 1;
        }
        proof {
            assert(self.template@.take(tlen as int) =~= self.template@);
        }
        let k = self.positions.len();
        let mut j: usize = 0;
        while j < k
            invariant
                self.wf(),
                k == self.positions@.len(),
                j <= k,
                out@.len() == self.template@.len(),
                out@ == fill(
                    self.template@,
                    self.positions@.take(j as int),
                    self.alphabet@,
                    self.digits@.take(j as int),
                ),
            decreases k - j,
        {
            let p = self.positions[j];
            let dg = self.digits[j];
            let sym = self.alphabet[dg];
            out.set(p, sym);
            proof {
                assert(self.positions@.take(j as int + 1).drop_last() =~= self.positions@.take(
                    j as int,
                ));
                assert(self.digits@.take(j as int + 1).drop_last() =~= self.digits@.take(j as int));
            }
            j += 1;
        }
        proof {
            assert(self.positions@.take(k as int) =~= self.positions@);
            assert(self.digits@.take(k as int) =~= self.digits@);
        }
        out
    }

    /// Advances the digit vector by one, with carry running across the
    /// masked positions in discovery order.  Returns whether the counter
    /// wrapped: `true` exactly on the last combination, after which the
    /// vector is all zeros again.
    pub fn advance(&mut self) -> (overflow: bool)
        requires
            old(self).wf(),
        ensures
            final(self).wf(),
            final(self).same_space(*old(self)),
            overflow <==> old(self).counter_value() + 1 == old(self).space_size(),
            overflow ==> final(self).counter_value() == 0,
            !overflow ==> final(self).counter_value() == old(self).counter_value() + 1,
    {
        let n = self.alphabet.len();
        let k = self.digits.len();
        let ghost old_digits = self.digits@;
        let mut carry = true;
        let ghost mut pivot: int = 0;
        let mut i: usize = 0;
        while i < k
            invariant
                self.template@ == old(self).template@,
                self.positions@ == old(self).positions@,
                self.alphabet@ == old(self).alphabet@,
                self.total == old(self).total,
                old(self).wf(),
                n == self.alphabet@.len(),
                k == self.digits@.len(),
                i <= k,
                1 <= n,
                old_digits == old(self).digits@,
                digits_in_base(self.digits@, n as nat),
                old_digits.len() == k,
                forall|j: int| #![all_triggers] i <= j < k ==> self.digits@[j] == old_digits[j],
                carry ==> forall|j: int|
                    #![all_triggers]
                    0 <= j < i ==> (old_digits[j] as nat) + 1 == n as nat && self.digits@[j] == 0,
                !carry ==> {
                    &&& 0 <= pivot < i
                    &&& forall|j: int|
                        #![all_triggers]
                        0 <= j < pivot ==> (old_digits[j] as nat) + 1 == n as nat
                            && self.digits@[j] == 0
                    &&& self.digits@[pivot] == old_digits[pivot] + 1
                    &&& forall|j: int|
                        #![all_triggers]
                        pivot < j < k ==> self.digits@[j] == old_digits[j]
                },
            decreases k - i,
        {
            if carry {
                let dg = self.digits[i];
                if dg + 1 < n {
                    self.digits.set(i, dg + 1);
                    carry = false;
                    proof {
                        pivot = i as int;
                    }
                } else {
                    self.digits.set(i, 0);
                }
            }
            i += 1;
        }
        proof {
            if carry {
                lemma_digits_val_allmax(old_digits, n as nat);
                lemma_digits_val_zeros(self.digits@, n as nat);
            } else {
                lemma_digits_val_pivot(old_digits, self.digits@, n as nat, pivot);
                lemma_digits_val_bound(self.digits@, n as nat);
            }
        }
        carry
    }
}

/// Law: within one space, candidates at distinct counter values differ, so
/// the enumeration never repeats a candidate before it wraps: each of the
/// `N^k` counter values denotes its own candidate.
pub proof fn lemma_no_repeats(g1: CandidateGenerator, g2: CandidateGenerator)
    requires
        g1.wf(),
        g2.wf(),
        g1.same_space(g2),
        g1.counter_value() != g2.counter_value(),
    ensures
        g1.candidate() != g2.candidate(),
{
    assert(g1.digits_view() != g2.digits_view());
    lemma_fill_injective(
        g1.template_view(),
        g1.positions_view(),
        g1.alphabet_view(),
        g1.digits_view(),
        g2.digits_view(),
    );
}

/// Law: the enumeration is deterministic and reproducible: two generators
/// over the same space that have advanced the same number of times (equal
/// counter values) are at the same candidate.
pub proof fn lemma_deterministic(g1: CandidateGenerator, g2: CandidateGenerator)
    requires
        g1.wf(),
        g2.wf(),
        g1.same_space(g2),
        g1.counter_value() == g2.counter_value(),
    ensures
        g1.candidate() == g2.candidate(),
{
    lemma_digits_val_injective(g1.digits_view(), g2.digits_view(), g1.alphabet_view().len());
}

/// Law: a candidate is exactly as long as the template.
pub proof fn lemma_candidate_len(g: CandidateGenerator)
    requires
        g.wf(),
    ensures
        g.candidate().len() == g.template_view().len(),
{
    lemma_fill_len(g.template_view(), g.positions_view(), g.alphabet_view(), g.digits_view());
}

/// Law: at its `i`-th masked position, a candidate shows the alphabet
/// symbol selected by digit `i` of the counter.
pub proof fn lemma_candidate_at_mask(g: CandidateGenerator, i: int)
    requires
        g.wf(),
        0 <= i < g.positions_view().len(),
    ensures
        g.candidate()[g.positions_view()[i] as int] == g.alphabet_view()[g.digits_view()[i] as int],
{
    lemma_fill_index(g.template_view(), g.positions_view(), g.alphabet_view(), g.digits_view(), i);
}

/// Law: everywhere else, a candidate shows the template unchanged.
pub proof fn lemma_candidate_elsewhere(g: CandidateGenerator, j: int)
    requires
        g.wf(),
        0 <= j < g.template_view().len(),
        forall|i: int| 0 <= i < g.positions_view().len() ==> (#[trigger] g.positions_view()[i] as int) != j,
    ensures
        g.candidate()[j] == g.template_view()[j],
{
    lemma_fill_untouched(
        g.template_view(),
        g.positions_view(),
        g.alphabet_view(),
        g.digits_view(),
        j,
    );
}

/// Law: with no masked position the space holds exactly one candidate, the
/// template itself.
pub proof fn lemma_empty_mask(g: CandidateGenerator)
    requires
        g.wf(),
        g.positions_view().len() == 0,
    ensures
        g.candidate() == g.template_view(),
        g.space_size() == 1,
        g.counter_value() == 0,
{
}

} // verus!
