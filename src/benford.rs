//! Benford's-law test on the leading digits of a numeric series, in exact arithmetic.

use vstd::prelude::*;

verus! {

/// A common multiple of every expected per-mille frequency; see `weight`.
pub const COMMON_DENOM: u128 = 115_653_509_163_654_000;

/// The Benford frequency of leading digit `i + 1`, in thousandths:
/// 0.301, 0.176, 0.125, 0.097, 0.079, 0.067, 0.058, 0.051, 0.046.
pub open spec fn expected_per_mille(i: int) -> int {
    if i == 0 {
        301
    } else if i == 1 {
        176
    } else if i == 2 {
        125
    } else if i == 3 {
        97
    } else if i == 4 {
        79
    } else if i == 5 {
        67
    } else if i == 6 {
        58
    } else if i == 7 {
        51
    } else {
        46
    }
}

/// `COMMON_DENOM / expected_per_mille(i)`, an exact quotient.
pub open spec fn weight(i: int) -> int {
    COMMON_DENOM as int / expected_per_mille(i)
}

/// The squared deviation of count `c` from its expectation for digit `i + 1` among `n`
/// values, scaled by a thousand: `(1000 c - 1000 e n)^2`.
pub open spec fn deviation_sq(c: int, n: int, i: int) -> int {
    (1000 * c - expected_per_mille(i) * n) * (1000 * c - expected_per_mille(i) * n)
}

/// The first `i` terms of the chi-squared statistic times `1000 n COMMON_DENOM`:
/// each term `(c - e n)^2 / (e n)` becomes `deviation_sq * weight`.
pub open spec fn scaled_chi(counts: Seq<u32>, n: int, i: int) -> int
    decreases i,
{
    if i <= 0 {
        0
    } else {
        scaled_chi(counts, n, i - 1) + deviation_sq(counts[i - 1] as int, n, i - 1) * weight(i - 1)
    }
}

/// Whether the chi-squared statistic of `counts` (digits 1 to 9) over `n` values exceeds
/// 15.507, the 0.05 critical value for 8 degrees of freedom; never for an empty sample.
pub open spec fn exceeds_critical(counts: Seq<u32>, n: int) -> bool {
    n > 0 && scaled_chi(counts, n, 9) > 15507 * n * COMMON_DENOM
}

/// The number of entries of `ds` that are the digit `d`.
pub open spec fn count_digit(ds: Seq<Option<u8>>, d: u8) -> nat
    decreases ds.len(),
{
    if ds.len() == 0 {
        0
    } else {
        count_digit(ds.drop_last(), d) + if ds.last() == Some(d) { 1nat } else { 0nat }
    }
}

/// Whether an entry is a leading digit that counts: one of 1 to 9.
pub open spec fn valid_digit(o: Option<u8>) -> bool {
    o matches Some(d) && 1 <= d <= 9
}

/// The number of entries of `ds` that are a digit from 1 to 9.
pub open spec fn count_valid(ds: Seq<Option<u8>>) -> nat
    decreases ds.len(),
{
    if ds.len() == 0 {
        0
    } else {
        count_valid(ds.drop_last()) + if valid_digit(ds.last()) { 1nat } else { 0nat }
    }
}

/// Leading-digit counts of a series.
#[derive(Clone, Copy, Debug, PartialEq, Eq)]
pub struct BenfordTally {
    /// `digit_counts[i]` values had leading digit `i + 1`.
    pub digit_counts: [u32; 9],
    /// Values that had a leading digit from 1 to 9.
    pub sample_size: u32,
}

fn per_mille(i: usize) -> (r: u128)
    requires
        i < 9,
    ensures
        r == expected_per_mille(i as int),
        r * weight(i as int) == COMMON_DENOM,
{
    if i == 0 {
        301
    } else if i == 1 {
        176
    } else if i == 2 {
        125
    } else if i == 3 {
        97
    } else if i == 4 {
        79
    } else if i == 5 {
        67
    } else if i == 6 {
        58
    } else if i == 7 {
        51
    } else {
        46
    }
}

fn weight_of(i: usize) -> (r: u128)
    requires
        i < 9,
    ensures
        r == weight(i as int),
{
    if i == 0 {
        384_230_927_454_000
    } else if i == 1 {
        657_122_211_157_125
    } else if i == 2 {
        925_228_073_309_232
    } else if i == 3 {
        1_192_304_218_182_000
    } else if i == 4 {
        1_463_968_470_426_000
    } else if i == 5 {
        1_726_171_778_562_000
    } else if i == 6 {
        1_994_026_020_063_000
    } else if i == 7 {
        2_267_715_865_954_000
    } else {
        2_514_206_720_949_000
    }
}

/// Whether the leading-digit counts `counts` over `n` values fail the Benford test.
pub fn exceeds_critical_value(counts: &[u32; 9], n: u32) -> (r: bool)
    ensures
        r == exceeds_critical(counts@, n as int),
{
    if n == 0 {
        return false;
    }
    let mut s: u128 = 0;
    let mut rest: u128 = 0;
    let mut i: usize = 0;
    while i < 9
        invariant
            counts@.len() == 9,
            i <= 9,
            s * COMMON_DENOM + rest == scaled_chi(counts@, n as int, i as int),
            s <= i * 0x10_0000_0000_0000_0000_0000,
            rest <= i * COMMON_DENOM,
        decreases 9 - i,
    {
        let k = per_mille(i);
        let w = weight_of(i);
        let a: u128 = 1000 * (counts[i] as u128);
        let b: u128 = k * (n as u128);
        let d: u128 = if a >= b { a - b } else { b - a };
        assert(b <= 301 * 0xffff_ffff) by (nonlinear_arith)
            requires b == k * (n as u128), k <= 301, n <= 0xffff_ffff;
        assert(d < 0x400_0000_0000);
        assert(d * d < 0x10_0000_0000_0000_0000_0000) by (nonlinear_arith)
            requires d < 0x400_0000_0000, 0x400_0000_0000 * 0x400_0000_0000 == 0x10_0000_0000_0000_0000_0000;
        let dd = d * d;
        let q = dd / k;
        let m = dd % k;
        proof {
            let x = 1000 * (counts@[i as int] as int) - expected_per_mille(i as int) * (n as int);
            assert(dd == x * x) by (nonlinear_arith)
                requires d == x || d == -x, dd == d * d;
            assert(deviation_sq(counts@[i as int] as int, n as int, i as int) == x * x);
            vstd::arithmetic::div_mod::lemma_fundamental_div_mod(dd as int, k as int);
            assert(dd == k * q + m);
            assert(dd == q * k + m) by (nonlinear_arith)
                requires dd == k * q + m;
            assert(dd * w == q * COMMON_DENOM + m * w) by (nonlinear_arith)
                requires dd == q * k + m, k * w == COMMON_DENOM;
            assert(m * w <= COMMON_DENOM) by (nonlinear_arith)
                requires m < k, k * w == COMMON_DENOM, w >= 0;
            assert(q <= dd) by (nonlinear_arith)
                requires dd == q * k + m, k >= 1, m >= 0, q >= 0;
            assert((s + q) * COMMON_DENOM == s * COMMON_DENOM + q * COMMON_DENOM) by (nonlinear_arith);
        }
        s = s + q;
        rest = rest + m * w;
        i = i + 1;
    }
    let crit: u128 = 15507 * (n as u128);
    proof {
        assert(s * COMMON_DENOM + rest == scaled_chi(counts@, n as int, 9));
    }
    if s > crit {
        assert(s * COMMON_DENOM >= (crit + 1) * COMMON_DENOM) by (nonlinear_arith)
            requires s > crit;
        assert((crit + 1) * COMMON_DENOM == crit * COMMON_DENOM + COMMON_DENOM) by (nonlinear_arith);
        true
    } else {
        let g = crit - s;
        assert(g * COMMON_DENOM + s * COMMON_DENOM == crit * COMMON_DENOM) by (nonlinear_arith)
            requires g == crit - s;
        if g >= 9 {
            assert(g * COMMON_DENOM >= 9 * COMMON_DENOM) by (nonlinear_arith)
                requires g >= 9;
            false
        } else {
            assert(g * COMMON_DENOM <= 9 * COMMON_DENOM) by (nonlinear_arith)
                requires g < 9;
            rest > g * COMMON_DENOM
        }
    }
}

impl BenfordTally {
    /// Whether the tally fails the Benford test (chi-squared above 15.507).
    pub fn is_anomalous(&self) -> (r: bool)
        ensures
            r == exceeds_critical(self.digit_counts@, self.sample_size as int),
    {
        exceeds_critical_value(&self.digit_counts, self.sample_size)
    }
}

/// Counts the leading digits of a series; `digits[i]` is the leading digit of its `i`-th
/// value, `None` for a value that has none (zero or negative). Entries outside 1 to 9 are
/// left out of the sample.
pub fn tally_first_digits(digits: &Vec<Option<u8>>) -> (r: BenfordTally)
    requires
        digits@.len() <= u32::MAX,
    ensures
        r.sample_size == count_valid(digits@),
        forall|i: int| 0 <= i < 9 ==> r.digit_counts[i] == count_digit(digits@, (i + 1) as u8),
{
    let mut counts: [u32; 9] = [0, 0, 0, 0, 0, 0, 0, 0, 0];
    let mut valid: u32 = 0;
    let mut i: usize = 0;
    assert(digits@.subrange(0, 0) =~= Seq::<Option<u8>>::empty());
    while i < digits.len()
        invariant
            digits@.len() <= u32::MAX,
            i <= digits@.len(),
            valid == count_valid(digits@.subrange(0, i as int)),
            valid <= i,
            forall|k: int| 0 <= k < 9 ==> counts[k] == count_digit(digits@.subrange(0, i as int), (k + 1) as u8),
            forall|k: int| 0 <= k < 9 ==> counts[k] <= i,
        decreases digits@.len() - i,
    {
        let ghost sub = digits@.subrange(0, i + 1);
        assert(sub.drop_last() =~= digits@.subrange(0, i as int));
        match digits[i] {
            Some(d) => {
                if 1 <= d && d <= 9 {
                    let k = (d - 1) as usize;
                    counts[k] = counts[k] + 1;
                    valid = valid + 1;
                }
            },
            None => {},
        }
        i = i + 1;
    }
    assert(digits@.subrange(0, digits@.len() as int) =~= digits@);
    BenfordTally { digit_counts: counts, sample_size: valid }
}

/// On an empty series the sample size is zero and the test never fails.
pub proof fn lemma_benford_empty(digits: Seq<Option<u8>>, counts: Seq<u32>)
    requires
        digits.len() == 0,
    ensures
        count_valid(digits) == 0,
        forall|i: int| 0 <= i < 9 ==> #[trigger] count_digit(digits, (i + 1) as u8) == 0,
        !exceeds_critical(counts, count_valid(digits) as int),
{
}

} // verus!
