//! The chi-square goodness-of-fit statistic over the address histogram.
//!
//! With `k` distinct addresses and a target sample of `n`, the expected count
//! per address under uniformity is `n / k`, and the statistic is
//! `sum over counts c of (c - n/k)^2 / (n/k)`. Over the integers that is
//! exactly the fraction `num / den` with `num = sum of (c*k - n)^2` and
//! `den = k * n`; the statistic is computed here in that exact form, and only
//! the final division is left to floating point at the boundary.

use vstd::prelude::*;
use crate::histogram::AddressHistogram;

verus! {

/// `sum over c in counts of (c*k - n)^2`: the chi-square statistic scaled by
/// the positive constant `k * n`.
pub open spec fn chi_square_num(counts: Seq<nat>, k: nat, n: nat) -> int
    decreases counts.len(),
{
    if counts.len() == 0 {
        0
    } else {
        chi_square_num(counts.drop_last(), k, n) + (counts.last() * k - n) * (counts.last() * k
            - n)
    }
}

/// The chi-square statistic as an exact fraction `num / den`.
pub struct ChiSquare {
    pub num: u128,
    pub den: u128,
}

/// The final statistical report of a run.
pub enum StatisticalReport {
    /// Fewer than two distinct addresses were observed (degrees of freedom
    /// below one), or the scaled statistic exceeds the machine's range: no
    /// meaningful statistic can be reported.
    NotComputable,
    /// The statistic, with its degrees of freedom (one less than the number
    /// of distinct addresses observed).
    Computed { statistic: ChiSquare, degrees_of_freedom: u64 },
}

/// Every term of the scaled statistic is a square, so the sum never drops
/// below zero and only grows along the count sequence.
pub proof fn lemma_chi_square_num_nonneg(counts: Seq<nat>, k: nat, n: nat)
    ensures
        chi_square_num(counts, k, n) >= 0,
    decreases counts.len(),
{
    if counts.len() > 0 {
        lemma_chi_square_num_nonneg(counts.drop_last(), k, n);
        let x = counts.last() * k - n;
        assert(x * x >= 0) by (nonlinear_arith);
    }
}

proof fn lemma_chi_take_succ(counts: Seq<nat>, k: nat, n: nat, i: int)
    requires
        0 <= i < counts.len(),
    ensures
        chi_square_num(counts.take(i + 1), k, n) == chi_square_num(counts.take(i), k, n) + (
        counts[i] * k - n) * (counts[i] * k - n),
{
    assert(counts.take(i + 1).drop_last() =~= counts.take(i));
    assert(counts.take(i + 1).last() == counts[i]);
}

proof fn lemma_chi_take_le(counts: Seq<nat>, k: nat, n: nat, i: int)
    requires
        0 <= i <= counts.len(),
    ensures
        chi_square_num(counts.take(i), k, n) <= chi_square_num(counts, k, n),
    decreases counts.len() - i,
{
    if i == counts.len() {
        assert(counts.take(i) =~= counts);
    } else {
        lemma_chi_take_succ(counts, k, n, i);
        let x = counts[i] * k - n;
        assert(x * x >= 0) by (nonlinear_arith);
        lemma_chi_take_le(counts, k, n, i + 1);
    }
}

/// The chi-square statistic depends on nothing but the observed counts and
/// the sample size: equal inputs always yield the same statistic.
pub proof fn lemma_chi_square_deterministic(
    counts_a: Seq<nat>,
    counts_b: Seq<nat>,
    k_a: nat,
    k_b: nat,
    n_a: nat,
    n_b: nat,
)
    requires
        counts_a =~= counts_b,
        k_a == k_b,
        n_a == n_b,
    ensures
        chi_square_num(counts_a, k_a, n_a) == chi_square_num(counts_b, k_b, n_b),
{
}

/// The scaled chi-square statistic of the histogram against `sample_size`,
/// exact over the integers. `None` exactly when the scaled numerator does not
/// fit the machine's widest integer.
pub fn chi_square_test(histogram: &AddressHistogram, sample_size: u64) -> (r: Option<ChiSquare>)
    requires
        histogram.spec_len() >= 1,
        sample_size >= 1,
    ensures
        r is Some <==> chi_square_num(
            histogram.counts(),
            histogram.spec_len(),
            sample_size as nat,
        ) <= u128::MAX,
        r matches Some(c) ==> {
            &&& c.num == chi_square_num(
                histogram.counts(),
                histogram.spec_len(),
                sample_size as nat,
            )
            &&& c.den == histogram.spec_len() * sample_size
        },
{
    let ghost counts: Seq<nat> = histogram.counts();
    let ghost gk: nat = histogram.spec_len();
    let ghost gn: nat = sample_size as nat;
    let k: usize = histogram.len();
    let n128: u128 = sample_size as u128;
    let k128: u128 = k as u128;
    assert(k as nat * sample_size as nat <= u128::MAX) by (nonlinear_arith)
        requires
            k <= u64::MAX,
            sample_size <= u64::MAX,
    ;
    let den: u128 = k128 * n128;
    let mut acc: u128 = 0;
    let mut i: usize = 0;
    proof {
        assert(counts.take(0) =~= Seq::<nat>::empty());
    }
    while i < k
        invariant
            counts == histogram.counts(),
            gk == histogram.spec_len(),
            gn == sample_size as nat,
            k == gk,
            counts.len() == gk,
            i <= k,
            sample_size >= 1,
            n128 == sample_size as u128,
            acc == chi_square_num(counts.take(i as int), gk, gn),
        decreases k - i,
    {
        let c: u64 = histogram.count_at(i);
        proof {
            assert(counts[i as int] == histogram@[i as int].1);
            assert(c as nat * k as nat <= u128::MAX) by (nonlinear_arith)
                requires
                    c <= u64::MAX,
                    k <= u64::MAX,
            ;
        }
        let ck: u128 = (c as u128) * (k as u128);
        let diff: u128 = if ck >= n128 {
            ck - n128
        } else {
            n128 - ck
        };
        let ghost x: int = counts[i as int] * gk - gn;
        proof {
            assert(ck as int == (c as int) * (k as int));
            assert(c as nat == counts[i as int]);
            assert(k as nat == gk);
            assert((c as int) * (k as int) == counts[i as int] * gk) by (nonlinear_arith)
                requires
                    c as nat == counts[i as int],
                    k as nat == gk,
            ;
            assert(n128 as int == gn);
            assert(diff as int == if x >= 0 { x } else { -x });
            assert((diff as int) * (diff as int) == x * x) by (nonlinear_arith)
                requires
                    diff as int == if x >= 0 { x } else { -x },
            ;
            lemma_chi_take_succ(counts, gk, gn, i as int);
        }
        let sq: Option<u128> = diff.checked_mul(diff);
        let sq: u128 = match sq {
            Some(s) => s,
            None => {
                proof {
                    lemma_chi_take_le(counts, gk, gn, i as int + 1);
                    lemma_chi_square_num_nonneg(counts.take(i as int), gk, gn);
                }
                return None;
            },
        };
        let next: Option<u128> = acc.checked_add(sq);
        acc = match next {
            Some(a) => a,
            None => {
                proof {
                    lemma_chi_take_le(counts, gk, gn, i as int + 1);
                }
                return None;
            },
        };
        i += 1;
    }
    proof {
        assert(counts.take(k as int) =~= counts);
    }
    Some(ChiSquare { num: acc, den })
}

/// The end-of-run report: the exact statistic and its degrees of freedom, or
/// the documented refusal when fewer than two distinct addresses were seen,
/// when the run collected nothing, or when the statistic does not fit.
pub fn build_report(histogram: &AddressHistogram, sample_size: u64) -> (r: StatisticalReport)
    ensures
        r is NotComputable <==> histogram.spec_len() < 2 || sample_size == 0 || chi_square_num(
            histogram.counts(),
            histogram.spec_len(),
            sample_size as nat,
        ) > u128::MAX,
        r matches StatisticalReport::Computed { statistic, degrees_of_freedom } ==> {
            &&& statistic.num == chi_square_num(
                histogram.counts(),
                histogram.spec_len(),
                sample_size as nat,
            )
            &&& statistic.den == histogram.spec_len() * sample_size
            &&& degrees_of_freedom == histogram.spec_len() - 1
        },
{
    let k: usize = histogram.len();
    if k < 2 || sample_size == 0 {
        return StatisticalReport::NotComputable;
    }
    match chi_square_test(histogram, sample_size) {
        Some(statistic) => {
            let df: u64 = (k - 1) as u64;
            StatisticalReport::Computed { statistic, degrees_of_freedom: df }
        },
        None => StatisticalReport::NotComputable,
    }
}

} // verus!
