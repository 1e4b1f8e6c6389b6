//! Autocorrelation of a centred window, the lag search over it, octave
//! correction and sub-sample refinement of the chosen lag.
//!
//! Window values are fixed point: `ONE` stands for 1.0, and every centred
//! value lies in `[-ONE, ONE]`. Ratios and confidences are in parts per
//! million (`PPM` stands for 1.0).

use vstd::prelude::*;

verus! {

/// Fixed-point unit of a window value.
pub const ONE: i64 = 1048576;

/// `ONE * ONE`, the unit of a product of two window values.
pub const ONE_SQ: i64 = 1099511627776;

/// Parts per million: the unit of confidences, ratios and energies.
pub const PPM: u64 = 1000000;

/// The longest window the analysis accepts.
pub const MAX_WINDOW: usize = 4194304;

/// Every value of `c` lies in `[-ONE, ONE]`.
pub open spec fn unit_bounded(c: Seq<i64>) -> bool {
    forall|i: int| 0 <= i < c.len() ==> -ONE <= #[trigger] c[i] <= ONE
}

/// `sum_{i < n} c[i] * c[i + lag]`.
pub open spec fn corr_upto(c: Seq<i64>, lag: int, n: int) -> int
    decreases n,
{
    if n <= 0 {
        0
    } else {
        corr_upto(c, lag, n - 1) + c[n - 1] * c[n - 1 + lag]
    }
}

/// The autocorrelation `r(lag)` of `c`.
pub open spec fn corr(c: Seq<i64>, lag: int) -> int {
    corr_upto(c, lag, c.len() - lag)
}

/// `sum_{i < n} c[i]^2`.
pub open spec fn sq_upto(c: Seq<i64>, n: int) -> int
    decreases n,
{
    if n <= 0 {
        0
    } else {
        sq_upto(c, n - 1) + c[n - 1] * c[n - 1]
    }
}

/// The energy `sum c[i]^2` of a window.
pub open spec fn sum_sq(c: Seq<i64>) -> int {
    sq_upto(c, c.len() as int)
}

/// Scans the lags `lo..=hi` that are shorter than the window in increasing
/// order, keeping a lag when its correlation beats the best so far, which
/// starts at `(0, 0)`: the first lag of greatest positive correlation, with
/// that correlation, or `(0, 0)` when none is positive.
pub open spec fn scan_best(c: Seq<i64>, lo: int, hi: int) -> (int, int)
    decreases hi - lo + 1,
{
    if hi < lo || lo < 0 {
        (0, 0)
    } else {
        let p = scan_best(c, lo, hi - 1);
        if hi < c.len() && corr(c, hi) > p.1 {
            (hi, corr(c, hi))
        } else {
            p
        }
    }
}

/// Confidence `r / energy` in parts per million, 0 for a window without energy.
pub open spec fn confidence_of(r: int, energy: int) -> int {
    if energy > 0 {
        r * PPM / energy
    } else {
        0
    }
}

/// The lag range that a search over `len` values with bounds `min_lag`,
/// `max_lag` really scans: `max(1, min_lag) ..= min(max_lag, len - 1)`.
pub open spec fn search_start(min_lag: int) -> int {
    if min_lag < 1 {
        1
    } else {
        min_lag
    }
}

pub open spec fn search_end(max_lag: int, len: int) -> int {
    let safe = if len > 0 {
        len - 1
    } else {
        0
    };
    if max_lag < safe {
        max_lag
    } else {
        safe
    }
}

/// Why a lag search gave no estimate.
#[derive(Clone, Copy, Debug, PartialEq, Eq, Structural)]
pub enum CorrelationError {
    /// No lag in range has a positive correlation.
    NoCorrelation,
    /// The best lag's confidence is under the threshold.
    LowConfidence,
}

/// The outcome of a lag search.
#[derive(Clone, Copy, Debug, PartialEq, Eq, Structural)]
pub struct LagEstimate {
    pub lag: usize,
    /// `correlation / energy`, in parts per million.
    pub confidence: u64,
    /// The raw correlation `r(lag)`.
    pub correlation: i64,
}

proof fn lemma_unit_product(a: i64, b: i64)
    requires
        -ONE <= a <= ONE,
        -ONE <= b <= ONE,
    ensures
        -ONE_SQ <= a * b <= ONE_SQ,
{
    assert(-ONE_SQ <= a * b <= ONE_SQ) by (nonlinear_arith)
        requires
            -ONE <= a <= ONE,
            -ONE <= b <= ONE,
            ONE_SQ == ONE * ONE,
    ;
}

/// A partial correlation of a unit-bounded window is at most `n * ONE_SQ` in
/// magnitude.
pub proof fn lemma_corr_upto_bound(c: Seq<i64>, lag: int, n: int)
    requires
        unit_bounded(c),
        0 <= lag,
        0 <= n,
        n + lag <= c.len(),
    ensures
        -n * ONE_SQ <= corr_upto(c, lag, n) <= n * ONE_SQ,
    decreases n,
{
    if n > 0 {
        lemma_corr_upto_bound(c, lag, n - 1);
        lemma_unit_product(c[n - 1], c[n - 1 + lag]);
    }
}

/// Partial energies are non-negative and grow with `n`.
pub proof fn lemma_sq_upto_monotone(c: Seq<i64>, a: int, b: int)
    requires
        0 <= a <= b <= c.len(),
    ensures
        0 <= sq_upto(c, a) <= sq_upto(c, b),
    decreases b,
{
    if b > a {
        lemma_sq_upto_monotone(c, a, b - 1);
        assert(c[b - 1] * c[b - 1] >= 0) by (nonlinear_arith);
    } else {
        lemma_sq_upto_nonneg(c, a);
    }
}

proof fn lemma_sq_upto_nonneg(c: Seq<i64>, n: int)
    requires
        0 <= n <= c.len(),
    ensures
        0 <= sq_upto(c, n),
    decreases n,
{
    if n > 0 {
        lemma_sq_upto_nonneg(c, n - 1);
        assert(c[n - 1] * c[n - 1] >= 0) by (nonlinear_arith);
    }
}

proof fn lemma_corr_upto_amgm(c: Seq<i64>, lag: int, n: int)
    requires
        0 <= lag,
        0 <= n,
        n + lag <= c.len(),
    ensures
        2 * corr_upto(c, lag, n) <= sq_upto(c, n) + sq_upto(c, n + lag) - sq_upto(c, lag),
    decreases n,
{
    if n > 0 {
        lemma_corr_upto_amgm(c, lag, n - 1);
        let a = c[n - 1] as int;
        let b = c[n - 1 + lag] as int;
        assert(2 * (a * b) <= a * a + b * b) by (nonlinear_arith);
        assert(sq_upto(c, n + lag) == sq_upto(c, n - 1 + lag) + b * b);
    }
}

/// The autocorrelation at any lag is at most the window's energy.
pub proof fn lemma_corr_le_energy(c: Seq<i64>, lag: int)
    requires
        0 <= lag < c.len(),
    ensures
        corr(c, lag) <= sum_sq(c),
{
    let n = c.len() - lag;
    lemma_corr_upto_amgm(c, lag, n);
    lemma_sq_upto_monotone(c, n, c.len() as int);
    lemma_sq_upto_monotone(c, lag, c.len() as int);
}

/// What the scan keeps: a lag in range with its correlation, no lag in range
/// with a greater one, and no earlier lag with an equal one.
pub proof fn lemma_scan_best(c: Seq<i64>, lo: int, hi: int)
    requires
        0 <= lo,
    ensures
        scan_best(c, lo, hi).1 >= 0,
        scan_best(c, lo, hi).1 == 0 ==> scan_best(c, lo, hi).0 == 0,
        scan_best(c, lo, hi).1 > 0 ==> {
            let b = scan_best(c, lo, hi).0;
            &&& lo <= b <= hi
            &&& b < c.len()
            &&& corr(c, b) == scan_best(c, lo, hi).1
        },
        forall|k: int|
            lo <= k <= hi && k < c.len() ==> #[trigger] corr(c, k) <= scan_best(c, lo, hi).1,
        forall|k: int|
            lo <= k < scan_best(c, lo, hi).0 && k < c.len() ==> #[trigger] corr(c, k) < scan_best(
                c,
                lo,
                hi,
            ).1,
    decreases hi - lo + 1,
{
    if hi >= lo {
        lemma_scan_best(c, lo, hi - 1);
    }
}

/// Computes `r(lag)` of a unit-bounded window.
pub fn correlation_at(c: &Vec<i64>, lag: usize) -> (r: i64)
    requires
        c@.len() <= MAX_WINDOW,
        unit_bounded(c@),
        lag < c@.len(),
    ensures
        r == corr(c@, lag as int),
{
    let n = c.len() - lag;
    let mut acc: i64 = 0;
    let mut i: usize = 0;
    while i < n
        invariant
            n == c@.len() - lag,
            c@.len() <= MAX_WINDOW,
            unit_bounded(c@),
            i <= n,
            acc == corr_upto(c@, lag as int, i as int),
        decreases n - i,
    {
        proof {
            lemma_corr_upto_bound(c@, lag as int, i as int);
            lemma_unit_product(c@[i as int], c@[i + lag]);
            assert(i * ONE_SQ <= MAX_WINDOW * ONE_SQ) by (nonlinear_arith)
                requires
                    i <= MAX_WINDOW,
            ;
        }
        acc = acc + c[i] * c[i + lag];
        i = i + 1;
    }
    acc
}

/// Finds `scan_best(c, lo, hi)`.
pub fn best_in_range(c: &Vec<i64>, lo: usize, hi: usize) -> (r: (usize, i64))
    requires
        c@.len() <= MAX_WINDOW,
        unit_bounded(c@),
        hi < MAX_WINDOW,
    ensures
        r.0 as int == scan_best(c@, lo as int, hi as int).0,
        r.1 as int == scan_best(c@, lo as int, hi as int).1,
{
    let mut best: usize = 0;
    let mut max_c: i64 = 0;
    let mut lag: usize = lo;
    if lo > hi {
        return (0, 0);
    }
    while lag <= hi
        invariant
            c@.len() <= MAX_WINDOW,
            unit_bounded(c@),
            hi < MAX_WINDOW,
            lo <= lag <= hi + 1,
            best as int == scan_best(c@, lo as int, lag - 1).0,
            max_c as int == scan_best(c@, lo as int, lag - 1).1,
        decreases hi + 1 - lag,
    {
        if lag < c.len() {
            let r = correlation_at(c, lag);
            if r > max_c {
                max_c = r;
                best = lag;
            }
        }
        lag = lag + 1;
    }
    (best, max_c)
}

/// Searches the lags `max(1, min_lag) ..= min(max_lag, |c| - 1)` for the first
/// one of greatest positive correlation, and rates it by `r / energy`.
pub fn search_correlation(
    centered_signal: &Vec<i64>,
    energy: i64,
    min_lag: usize,
    max_lag: usize,
    min_confidence: u64,
) -> (r: Result<LagEstimate, CorrelationError>)
    requires
        centered_signal@.len() <= MAX_WINDOW,
        unit_bounded(centered_signal@),
        energy == sum_sq(centered_signal@),
    ensures
        ({
            let c = centered_signal@;
            let lo = search_start(min_lag as int);
            let hi = search_end(max_lag as int, c.len() as int);
            let best = scan_best(c, lo, hi);
            match r {
                Err(CorrelationError::NoCorrelation) => best.1 == 0,
                Err(CorrelationError::LowConfidence) => best.1 > 0 && confidence_of(
                    best.1,
                    energy as int,
                ) < min_confidence,
                Ok(e) => {
                    &&& best.1 > 0
                    &&& e.lag == best.0
                    &&& e.correlation == best.1
                    &&& e.confidence == confidence_of(best.1, energy as int)
                    &&& e.confidence >= min_confidence
                    &&& e.confidence <= PPM
                    &&& lo <= e.lag <= hi
                },
            }
        }),
{
    let ghost c = centered_signal@;
    let len = centered_signal.len();
    let safe_max_lag = if len > 0 {
        len - 1
    } else {
        0
    };
    let start_lag = if min_lag < 1 {
        1
    } else {
        min_lag
    };
    let end_lag = if max_lag < safe_max_lag {
        max_lag
    } else {
        safe_max_lag
    };
    let (best_lag, max_corr) = best_in_range(centered_signal, start_lag, end_lag);
    proof {
        lemma_scan_best(c, start_lag as int, end_lag as int);
    }
    if max_corr == 0 {
        return Err(CorrelationError::NoCorrelation);
    }
    proof {
        lemma_corr_le_energy(c, best_lag as int);
    }
    let confidence: u64 = if energy > 0 {
        let q: i128 = (max_corr as i128) * (PPM as i128) / (energy as i128);
        proof {
            let a = max_corr as int * PPM as int;
            vstd::arithmetic::mul::lemma_mul_inequality(max_corr as int, energy as int, PPM as int);
            vstd::arithmetic::mul::lemma_mul_nonnegative(max_corr as int, PPM as int);
            vstd::arithmetic::div_mod::lemma_div_is_ordered(a, energy as int * PPM as int, energy as int);
            vstd::arithmetic::div_mod::lemma_div_multiples_vanish(PPM as int, energy as int);
            vstd::arithmetic::div_mod::lemma_div_pos_is_pos(a, energy as int);
        }
        q as u64
    } else {
        0
    };
    if confidence < min_confidence {
        return Err(CorrelationError::LowConfidence);
    }
    Ok(LagEstimate { lag: best_lag, confidence, correlation: max_corr })
}


/// `x - 1`, or 0 for 0.
pub open spec fn below(x: int) -> int {
    if x > 0 {
        x - 1
    } else {
        0
    }
}

/// Octave correction of the lag `l0` of correlation `r0`: the best lag around
/// `l0 / 2` replaces it when its correlation exceeds `r0 * half_ratio`, and
/// then the best lag around `l0 / 3` replaces the result when its correlation
/// exceeds `r0 * third_ratio`; each neighbourhood is tried only when its centre
/// is at least `min_lag`. Ratios are in parts per million.
pub open spec fn harmonic_lag(
    c: Seq<i64>,
    l0: int,
    r0: int,
    min_lag: int,
    half_ratio: int,
    third_ratio: int,
) -> int {
    let half = l0 / 2;
    let third = l0 / 3;
    let h = scan_best(c, below(half), half + 1);
    let t = scan_best(c, below(third), third + 1);
    let after_half = if half >= min_lag && h.1 * PPM > r0 * half_ratio {
        h.0
    } else {
        l0
    };
    if third >= min_lag && t.1 * PPM > r0 * third_ratio {
        t.0
    } else {
        after_half
    }
}

proof fn lemma_wide_product(a: i64, b: u32)
    ensures
        -0x1000000000000000000000000 <= a * b <= 0x1000000000000000000000000,
{
    assert(-0x1000000000000000000000000 <= a * b <= 0x1000000000000000000000000) by (nonlinear_arith)
        requires
            -0x8000000000000000 <= a <= 0x8000000000000000,
            0 <= b <= 0x100000000,
    ;
}

/// Promotes the lag `initial_lag` to a faster tempo when the correlation near
/// half or a third of it is strong enough.
pub fn check_harmonics(
    initial_lag: usize,
    initial_corr: i64,
    centered_signal: &Vec<i64>,
    min_lag: usize,
    half_ratio: u32,
    third_ratio: u32,
) -> (r: usize)
    requires
        centered_signal@.len() <= MAX_WINDOW,
        unit_bounded(centered_signal@),
        initial_lag < MAX_WINDOW,
    ensures
        r == harmonic_lag(
            centered_signal@,
            initial_lag as int,
            initial_corr as int,
            min_lag as int,
            half_ratio as int,
            third_ratio as int,
        ),
        r < MAX_WINDOW,
{
    proof {
        lemma_scan_best(centered_signal@, below(initial_lag as int / 2), initial_lag as int / 2 + 1);
        lemma_scan_best(centered_signal@, below(initial_lag as int / 3), initial_lag as int / 3 + 1);
    }
    let mut best_lag = initial_lag;
    let half_lag = initial_lag / 2;
    if half_lag >= min_lag {
        let start = if half_lag > 0 {
            half_lag - 1
        } else {
            0
        };
        let (best_half_lag, max_half_corr) = best_in_range(centered_signal, start, half_lag + 1);
        proof {
            lemma_wide_product(max_half_corr, PPM as u32);
            lemma_wide_product(initial_corr, half_ratio);
        }
        if (max_half_corr as i128) * (PPM as i128) > (initial_corr as i128) * (half_ratio as i128) {
            best_lag = best_half_lag;
        }
    }
    let third_lag = initial_lag / 3;
    if third_lag >= min_lag {
        let start = if third_lag > 0 {
            third_lag - 1
        } else {
            0
        };
        let (best_third_lag, max_third_corr) = best_in_range(centered_signal, start, third_lag + 1);
        proof {
            lemma_wide_product(max_third_corr, PPM as u32);
            lemma_wide_product(initial_corr, third_ratio);
        }
        if (max_third_corr as i128) * (PPM as i128) > (initial_corr as i128) * (third_ratio as i128) {
            best_lag = best_third_lag;
        }
    }
    best_lag
}

/// The parabola through `(l - 1, r(l - 1))`, `(l, rc)`, `(l + 1, r(l + 1))` has
/// its vertex at `l + (yp - yn) / d` with `d = 2 (yp - 2 rc + yn)`. The lag is
/// refined only when `l` lies strictly inside `start..end` and `|d|` exceeds
/// `1e-4` (in units of `ONE_SQ`). The result is the fraction `(num, den)` with
/// `den > 0`.
pub open spec fn refined_lag(c: Seq<i64>, l: int, rc: int, start: int, end: int) -> (int, int) {
    let yp = corr(c, l - 1);
    let yn = corr(c, l + 1);
    let d = 2 * (yp - 2 * rc + yn);
    if start < l && l < end && (d * 10000 > ONE_SQ || d * 10000 < -ONE_SQ) {
        if d > 0 {
            (l * d + (yp - yn), d)
        } else {
            (-(l * d + (yp - yn)), -d)
        }
    } else {
        (l, 1)
    }
}

/// Refines the peak lag `best_lag` by parabolic interpolation; returns the
/// refined lag as `(num, den)`. When `best_lag` is a local maximum (its
/// neighbours correlate no more than `max_corr`) the refined lag lies within
/// half a sample of it.
pub fn parabolic_interpolation(
    best_lag: usize,
    max_corr: i64,
    centered_signal: &Vec<i64>,
    start_lag: usize,
    end_lag: usize,
) -> (r: (i128, i128))
    requires
        centered_signal@.len() <= MAX_WINDOW,
        unit_bounded(centered_signal@),
        end_lag < centered_signal@.len(),
    ensures
        (r.0 as int, r.1 as int) == refined_lag(
            centered_signal@,
            best_lag as int,
            max_corr as int,
            start_lag as int,
            end_lag as int,
        ),
        0 < r.1 <= 0x400000000000000000,
        -0x100000000000000000000000 <= r.0 <= 0x100000000000000000000000,
        (start_lag < best_lag < end_lag ==> corr(centered_signal@, best_lag - 1) <= max_corr
            && corr(centered_signal@, best_lag + 1) <= max_corr) ==> (2 * best_lag - 1) * r.1 <= 2
            * r.0 <= (2 * best_lag + 1) * r.1,
{
    let ghost c = centered_signal@;
    if best_lag > start_lag && best_lag < end_lag {
        let y_prev = correlation_at(centered_signal, best_lag - 1);
        let y_next = correlation_at(centered_signal, best_lag + 1);
        proof {
            let n = c.len() as int;
            lemma_corr_upto_bound(c, best_lag - 1, n - (best_lag - 1));
            lemma_corr_upto_bound(c, best_lag + 1, n - (best_lag + 1));
            assert((n - (best_lag - 1)) * ONE_SQ <= MAX_WINDOW * ONE_SQ) by (nonlinear_arith)
                requires
                    n - (best_lag - 1) <= MAX_WINDOW,
            ;
            assert((n - (best_lag + 1)) * ONE_SQ <= MAX_WINDOW * ONE_SQ) by (nonlinear_arith)
                requires
                    0 <= n - (best_lag + 1) <= MAX_WINDOW,
            ;
        }
        let d: i128 = 2 * ((y_prev as i128) - 2 * (max_corr as i128) + (y_next as i128));
        if d * 10000 > (ONE_SQ as i128) || d * 10000 < -(ONE_SQ as i128) {
            let l = best_lag as i128;
            proof {
                let li = best_lag as int;
                assert(-0x400000 * 0x100000000000000000 <= li * d <= 0x400000
                    * 0x100000000000000000) by (nonlinear_arith)
                    requires
                        0 <= li <= 0x400000,
                        -0x100000000000000000 <= d <= 0x100000000000000000,
                ;
                assert(li * (-d) == -(li * d)) by (nonlinear_arith);
                assert(2 * (li * (-d)) - (-d) == (2 * li - 1) * (-d)) by (nonlinear_arith);
                assert(2 * (li * (-d)) + (-d) == (2 * li + 1) * (-d)) by (nonlinear_arith);
            }
            proof {
                assert(-0x8000000000000000 <= y_prev <= 0x8000000000000000);
                assert(-0x8000000000000000 <= y_next <= 0x8000000000000000);
                let li = best_lag as int;
                assert(l as int == li);
                assert(-0x400000 * 0x100000000000000000 <= li * d <= 0x400000 * 0x100000000000000000);
                assert(-0x100000000000000000000000 <= li * d + y_prev - y_next
                    <= 0x100000000000000000000000);
                assert(-0x100000000000000000000000 <= li * (-d) - y_prev + y_next
                    <= 0x100000000000000000000000);
            }
            if d > 0 {
                return (l * d + (y_prev as i128) - (y_next as i128), d);
            } else {
                let den: i128 = -d;
                return (l * den - (y_prev as i128) + (y_next as i128), den);
            }
        }
    }
    proof {
        let l = best_lag as int;
        assert((2 * l - 1) * 1 <= 2 * l <= (2 * l + 1) * 1);
    }
    (best_lag as i128, 1)
}

/// A tempo of `60 * (input_rate / fine_step) / lag` beats per minute, in
/// tenths, rounded to the nearest tenth, halves away from zero; the lag is the
/// fraction `num / den`.
pub open spec fn tempo_tenths(input_rate: int, fine_step: int, num: int, den: int) -> int {
    let p = 600 * input_rate * den;
    let q = fine_step * num;
    (2 * p + q) / (2 * q)
}

/// Converts a refined lag at the fine rate into tenths of a beat per minute.
pub fn lag_to_tenths(input_rate: u32, fine_step: u32, num: i128, den: i128) -> (r: u64)
    requires
        1 <= fine_step <= 256,
        0 < den <= 0x400000000000000000,
        0 < num <= 0x100000000000000000000000,
        den <= 2 * num,
    ensures
        r == tempo_tenths(input_rate as int, fine_step as int, num as int, den as int),
        r <= 1200 * input_rate + 1,
        fine_step * num <= 1200 * input_rate * den ==> r >= 1,
{
    let rate = input_rate as i128;
    let step = fine_step as i128;
    proof {
        assert(600 * rate * den <= 600 * 0x100000000 * 0x400000000000000000) by (nonlinear_arith)
            requires
                0 <= rate <= 0x100000000,
                0 < den <= 0x400000000000000000,
        ;
        assert(step * num <= 256 * 0x100000000000000000000000) by (nonlinear_arith)
            requires
                1 <= step <= 256,
                0 < num <= 0x100000000000000000000000,
        ;
        assert(step * num >= 1) by (nonlinear_arith)
            requires
                1 <= step,
                1 <= num,
        ;
    }
    let p: i128 = 600 * rate * den;
    let q: i128 = step * num;
    let t: i128 = (2 * p + q) / (2 * q);
    proof {
        let b = 1200 * rate + 1;
        assert(2 * p + q <= (2 * q) * b) by (nonlinear_arith)
            requires
                p == 600 * rate * den,
                q == step * num,
                den <= 2 * num,
                1 <= step,
                0 <= rate,
                0 < num,
                b == 1200 * rate + 1,
        ;
        vstd::arithmetic::div_mod::lemma_div_is_ordered(2 * p + q, (2 * q) * b, 2 * q);
        vstd::arithmetic::div_mod::lemma_div_by_multiple(b, 2 * q);
        assert((2 * q) * b == b * (2 * q)) by (nonlinear_arith);
        vstd::arithmetic::div_mod::lemma_div_pos_is_pos(2 * p + q, 2 * q);
        if step * num <= 1200 * rate * den {
            assert(2 * q <= 2 * p + q) by (nonlinear_arith)
                requires
                    p == 600 * rate * den,
                    q == step * num,
                    step * num <= 1200 * rate * den,
            ;
            vstd::arithmetic::div_mod::lemma_div_is_ordered(2 * q, 2 * p + q, 2 * q);
            vstd::arithmetic::div_mod::lemma_div_by_multiple(1, 2 * q);
        }
    }
    t as u64
}

} // verus!
