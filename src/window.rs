//! Peak normalisation and centring of an analysis window, and the drop test
//! on its energy.

use crate::correlation::{
    lemma_sq_upto_monotone, sq_upto, sum_sq, unit_bounded, MAX_WINDOW, ONE, ONE_SQ, PPM,
};
use crate::ring::RingBuffer;
use vstd::prelude::*;

verus! {

/// The largest of the first `n` values, 0 for none.
pub open spec fn max_upto(x: Seq<u32>, n: int) -> int
    decreases n,
{
    if n <= 0 {
        0
    } else {
        let m = max_upto(x, n - 1);
        if x[n - 1] > m {
            x[n - 1] as int
        } else {
            m
        }
    }
}

/// The peak of a window, 0 for an empty one.
pub open spec fn peak(x: Seq<u32>) -> int {
    max_upto(x, x.len() as int)
}

/// A value scaled so that the peak becomes `ONE`.
pub open spec fn norm_value(v: u32, m: int) -> int {
    if m > 0 {
        v * ONE / m
    } else {
        0
    }
}

/// `sum_{i < n} s[i]`.
pub open spec fn sum_upto(s: Seq<i64>, n: int) -> int
    decreases n,
{
    if n <= 0 {
        0
    } else {
        sum_upto(s, n - 1) + s[n - 1]
    }
}

/// The mean of a window, rounded down; 0 for an empty one.
pub open spec fn mean_of(s: Seq<i64>) -> int {
    if s.len() > 0 {
        sum_upto(s, s.len() as int) / (s.len() as int)
    } else {
        0
    }
}

/// Energy per sample `energy_sum / (n * ONE_SQ)` in parts per million.
pub open spec fn energy_mean_of(energy_sum: int, n: int) -> int {
    if n > 0 {
        energy_sum * PPM / (n * ONE_SQ)
    } else {
        0
    }
}

/// The window scaled so that its peak is `ONE`.
pub open spec fn normalized(x: Seq<u32>) -> Seq<i64> {
    Seq::new(x.len(), |i: int| norm_value(x[i], peak(x)) as i64)
}

/// The scaled window less its mean.
pub open spec fn centered(x: Seq<u32>) -> Seq<i64> {
    Seq::new(x.len(), |i: int| (normalized(x)[i] - mean_of(normalized(x))) as i64)
}

/// The energy of a centred window.
#[derive(Clone, Copy, Debug, PartialEq, Eq, Structural)]
pub struct NormalizationResult {
    /// `sum c[i]^2`, in units of `ONE_SQ`.
    pub energy_sum: i64,
    /// `energy_sum / n`, in parts per million of `ONE_SQ`.
    pub energy_mean: u64,
}

proof fn lemma_max_upto(x: Seq<u32>, n: int)
    requires
        0 <= n <= x.len(),
    ensures
        max_upto(x, n) >= 0,
        forall|i: int| 0 <= i < n ==> x[i] <= max_upto(x, n),
    decreases n,
{
    if n > 0 {
        lemma_max_upto(x, n - 1);
    }
}

proof fn lemma_norm_value(v: u32, m: int)
    requires
        v <= m,
    ensures
        0 <= norm_value(v, m) <= ONE,
{
    if m > 0 {
        let a = v * ONE;
        vstd::arithmetic::mul::lemma_mul_inequality(v as int, m, ONE as int);
        vstd::arithmetic::div_mod::lemma_div_is_ordered(a, m * ONE, m);
        vstd::arithmetic::div_mod::lemma_div_multiples_vanish(ONE as int, m);
        vstd::arithmetic::div_mod::lemma_div_pos_is_pos(a, m);
    }
}

proof fn lemma_sum_upto_bound(s: Seq<i64>, n: int)
    requires
        0 <= n <= s.len(),
        forall|i: int| 0 <= i < s.len() ==> 0 <= #[trigger] s[i] <= ONE,
    ensures
        0 <= sum_upto(s, n) <= n * ONE,
    decreases n,
{
    if n > 0 {
        lemma_sum_upto_bound(s, n - 1);
    }
}

proof fn lemma_sum_shifted(v: Seq<i64>, c: Seq<i64>, mu: int, n: int)
    requires
        0 <= n <= v.len(),
        n <= c.len(),
        forall|i: int| 0 <= i < n ==> #[trigger] c[i] == v[i] - mu,
    ensures
        sum_upto(c, n) == sum_upto(v, n) - n * mu,
    decreases n,
{
    if n > 0 {
        lemma_sum_shifted(v, c, mu, n - 1);
        assert(n * mu == (n - 1) * mu + mu) by (nonlinear_arith);
        assert(sum_upto(c, n) == sum_upto(c, n - 1) + c[n - 1]);
        assert(sum_upto(v, n) == sum_upto(v, n - 1) + v[n - 1]);
    } else {
        assert(n * mu == 0) by (nonlinear_arith)
            requires
                n == 0,
        ;
    }
}

/// A unit-bounded window has energy at most `n * ONE_SQ` over its first `n` values.
pub proof fn lemma_sq_upto_bound(c: Seq<i64>, n: int)
    requires
        unit_bounded(c),
        0 <= n <= c.len(),
    ensures
        sq_upto(c, n) <= n * ONE_SQ,
    decreases n,
{
    if n > 0 {
        lemma_sq_upto_bound(c, n - 1);
        let a = c[n - 1];
        assert(a * a <= ONE_SQ) by (nonlinear_arith)
            requires
                -ONE <= a <= ONE,
                ONE_SQ == ONE * ONE,
        ;
    }
}

/// Copies the buffer into `out_vec` scaled so that its peak is `ONE`, writes the
/// same values less their mean into `out_centered`, and measures the energy of
/// the centred copy. Every value of both copies lies in `[-ONE, ONE]`, and the
/// centred copy sums to less than one unit per value, never below 0.
pub fn normalize_window(
    buffer: &RingBuffer<u32>,
    out_vec: &mut Vec<i64>,
    out_centered: &mut Vec<i64>,
) -> (r: NormalizationResult)
    requires
        buffer.wf(),
        buffer.view().len() <= MAX_WINDOW,
    ensures
        ({
            let x = buffer.view();
            let n = x.len() as int;
            let v = final(out_vec)@;
            let c = final(out_centered)@;
            &&& v.len() == n
            &&& c.len() == n
            &&& forall|i: int| 0 <= i < n ==> #[trigger] v[i] == norm_value(x[i], peak(x))
            &&& forall|i: int| 0 <= i < n ==> #[trigger] c[i] == v[i] - mean_of(v)
            &&& r.energy_sum == sum_sq(c)
            &&& r.energy_mean == energy_mean_of(r.energy_sum as int, n)
            &&& forall|i: int| 0 <= i < n ==> 0 <= #[trigger] v[i] <= ONE
            &&& unit_bounded(c)
            &&& 0 <= sum_upto(c, n)
            &&& n > 0 ==> sum_upto(c, n) < n
            &&& r.energy_mean <= PPM
            &&& v == normalized(x)
            &&& c == centered(x)
        }),
{
    let ghost x = buffer.view();
    let n = buffer.len();
    let mut raw_max: u32 = 0;
    let mut i: usize = 0;
    while i < n
        invariant
            buffer.wf(),
            x == buffer.view(),
            n == x.len(),
            i <= n,
            raw_max == max_upto(x, i as int),
        decreases n - i,
    {
        let val = buffer.get(i);
        if val > raw_max {
            raw_max = val;
        }
        i = i + 1;
    }
    proof {
        lemma_max_upto(x, n as int);
    }
    out_vec.clear();
    let mut sum: i64 = 0;
    i = 0;
    while i < n
        invariant
            buffer.wf(),
            x == buffer.view(),
            n == x.len(),
            n <= MAX_WINDOW,
            i <= n,
            raw_max == peak(x),
            forall|j: int| 0 <= j < n ==> x[j] <= peak(x),
            out_vec@.len() == i,
            forall|j: int| 0 <= j < i ==> #[trigger] out_vec@[j] == norm_value(x[j], peak(x)),
            forall|j: int| 0 <= j < i ==> 0 <= #[trigger] out_vec@[j] <= ONE,
            sum == sum_upto(out_vec@, i as int),
            0 <= sum <= i * ONE,
        decreases n - i,
    {
        let val = buffer.get(i);
        proof {
            lemma_norm_value(val, peak(x));
        }
        let scaled: i64 = if raw_max > 0 {
            ((val as u64) * (ONE as u64) / (raw_max as u64)) as i64
        } else {
            0
        };
        let ghost prev = out_vec@;
        out_vec.push(scaled);
        proof {
            assert(sum_upto(prev, i as int) == sum_upto(out_vec@, i as int)) by {
                lemma_sum_prefix_same(prev, out_vec@, i as int);
            }
            assert(i * ONE + ONE <= MAX_WINDOW * ONE) by (nonlinear_arith)
                requires
                    i < MAX_WINDOW,
            ;
            assert((i + 1) * ONE == i * ONE + ONE) by (nonlinear_arith);
        }
        sum = sum + scaled;
        i = i + 1;
    }
    let ghost v = out_vec@;
    let mean: i64 = if n > 0 {
        sum / (n as i64)
    } else {
        0
    };
    proof {
        if n > 0 {
            vstd::arithmetic::div_mod::lemma_div_is_ordered(sum as int, n * ONE, n as int);
            vstd::arithmetic::div_mod::lemma_div_multiples_vanish(ONE as int, n as int);
            vstd::arithmetic::div_mod::lemma_div_pos_is_pos(sum as int, n as int);
        }
    }
    out_centered.clear();
    let mut energy: i64 = 0;
    i = 0;
    while i < n
        invariant
            n == v.len(),
            n <= MAX_WINDOW,
            v == out_vec@,
            i <= n,
            mean == mean_of(v),
            0 <= mean <= ONE,
            forall|j: int| 0 <= j < n ==> 0 <= #[trigger] v[j] <= ONE,
            out_centered@.len() == i,
            forall|j: int| 0 <= j < i ==> #[trigger] out_centered@[j] == v[j] - mean,
            energy == sq_upto(out_centered@, i as int),
            0 <= energy <= i * ONE_SQ,
        decreases n - i,
    {
        let cv: i64 = out_vec[i] - mean;
        let ghost prev = out_centered@;
        out_centered.push(cv);
        proof {
            lemma_sq_prefix_same(prev, out_centered@, i as int);
            assert(cv * cv <= ONE_SQ && cv * cv >= 0) by (nonlinear_arith)
                requires
                    -ONE <= cv <= ONE,
                    ONE_SQ == ONE * ONE,
            ;
            assert(i * ONE_SQ + ONE_SQ <= MAX_WINDOW * ONE_SQ) by (nonlinear_arith)
                requires
                    i < MAX_WINDOW,
            ;
            assert((i + 1) * ONE_SQ == i * ONE_SQ + ONE_SQ) by (nonlinear_arith);
        }
        energy = energy + cv * cv;
        i = i + 1;
    }
    let ghost c = out_centered@;
    proof {
        assert(c.len() == n);
        lemma_sum_shifted(v, c, mean as int, n as int);
        if n > 0 {
            vstd::arithmetic::div_mod::lemma_fundamental_div_mod(sum as int, n as int);
            assert((n as int) * ((sum as int) / (n as int)) == (n as int) * (mean as int));
        }
    }
    let energy_mean: u64 = if n > 0 {
        let q: i128 = (energy as i128) * (PPM as i128) / ((n as i128) * (ONE_SQ as i128));
        proof {
            let d = n * ONE_SQ;
            let a = energy * PPM;
            assert(d > 0) by (nonlinear_arith)
                requires
                    n > 0,
                    d == n * ONE_SQ,
                    ONE_SQ > 0,
            ;
            vstd::arithmetic::mul::lemma_mul_inequality(energy as int, d, PPM as int);
            vstd::arithmetic::mul::lemma_mul_nonnegative(energy as int, PPM as int);
            vstd::arithmetic::div_mod::lemma_div_is_ordered(a, d * PPM, d);
            vstd::arithmetic::div_mod::lemma_div_multiples_vanish(PPM as int, d);
            vstd::arithmetic::div_mod::lemma_div_pos_is_pos(a, d);
        }
        q as u64
    } else {
        0
    };
    proof {
        assert(v =~= normalized(x));
        assert(c =~= centered(x));
    }
    NormalizationResult { energy_sum: energy, energy_mean }
}

proof fn lemma_sum_prefix_same(a: Seq<i64>, b: Seq<i64>, n: int)
    requires
        0 <= n <= a.len(),
        n <= b.len(),
        forall|j: int| 0 <= j < n ==> a[j] == b[j],
    ensures
        sum_upto(a, n) == sum_upto(b, n),
    decreases n,
{
    if n > 0 {
        lemma_sum_prefix_same(a, b, n - 1);
    }
}

proof fn lemma_sq_prefix_same(a: Seq<i64>, b: Seq<i64>, n: int)
    requires
        0 <= n <= a.len(),
        n <= b.len(),
        forall|j: int| 0 <= j < n ==> a[j] == b[j],
    ensures
        sq_upto(a, n) == sq_upto(b, n),
    decreases n,
{
    if n > 0 {
        lemma_sq_prefix_same(a, b, n - 1);
    }
}


/// The drop test on a peak-normalised window of `n` values split at
/// `k = 3n / 4`: the mean energy of the values from `k` on exceeds `ratio`
/// times that of the values before `k`, and exceeds `floor`; both in parts per
/// million, energies in units of `ONE_SQ`. Each mean divides by at least 1.
pub open spec fn drop_detected(v: Seq<i64>, ratio: int, floor: int) -> bool {
    let n = v.len() as int;
    let k = n * 3 / 4;
    let hist = sq_upto(v, k);
    let recent = sum_sq(v) - sq_upto(v, k);
    let hist_count = if k > 1 {
        k
    } else {
        1
    };
    let recent_count = if n - k > 1 {
        n - k
    } else {
        1
    };
    &&& recent * hist_count * PPM > ratio * hist * recent_count
    &&& recent * PPM > floor * recent_count * ONE_SQ
}

/// Compares the energy of the last quarter of the window with that of the
/// first three quarters.
pub fn check_drop(samples: &Vec<i64>, ratio: u32, floor: u32) -> (r: bool)
    requires
        samples@.len() <= MAX_WINDOW,
        unit_bounded(samples@),
    ensures
        r == drop_detected(samples@, ratio as int, floor as int),
{
    let ghost v = samples@;
    let n = samples.len();
    let split_index = n * 3 / 4;
    let mut history_sum_sq: i64 = 0;
    let mut i: usize = 0;
    while i < split_index
        invariant
            v == samples@,
            n == v.len(),
            n <= MAX_WINDOW,
            unit_bounded(v),
            split_index <= n,
            i <= split_index,
            history_sum_sq == sq_upto(v, i as int),
        decreases split_index - i,
    {
        proof {
            lemma_sq_upto_bound(v, i + 1);
            lemma_sq_upto_monotone(v, i + 1, i + 1);
            assert((i + 1) * ONE_SQ <= MAX_WINDOW * ONE_SQ) by (nonlinear_arith)
                requires
                    i < MAX_WINDOW,
            ;
        }
        let val = samples[i];
        proof {
            assert(0 <= val * val <= ONE_SQ) by (nonlinear_arith)
                requires
                    -ONE <= val <= ONE,
                    ONE_SQ == ONE * ONE,
            ;
        }
        history_sum_sq = history_sum_sq + val * val;
        i = i + 1;
    }
    let mut recent_sum_sq: i64 = 0;
    while i < n
        invariant
            v == samples@,
            n == v.len(),
            n <= MAX_WINDOW,
            unit_bounded(v),
            split_index <= i <= n,
            history_sum_sq == sq_upto(v, split_index as int),
            recent_sum_sq == sq_upto(v, i as int) - sq_upto(v, split_index as int),
        decreases n - i,
    {
        proof {
            lemma_sq_upto_bound(v, i + 1);
            lemma_sq_upto_monotone(v, split_index as int, i + 1);
            assert((i + 1) * ONE_SQ <= MAX_WINDOW * ONE_SQ) by (nonlinear_arith)
                requires
                    i < MAX_WINDOW,
            ;
        }
        let val = samples[i];
        proof {
            assert(0 <= val * val <= ONE_SQ) by (nonlinear_arith)
                requires
                    -ONE <= val <= ONE,
                    ONE_SQ == ONE * ONE,
            ;
        }
        recent_sum_sq = recent_sum_sq + val * val;
        i = i + 1;
    }
    let history_count: usize = if split_index > 1 {
        split_index
    } else {
        1
    };
    let recent_count: usize = if n - split_index > 1 {
        n - split_index
    } else {
        1
    };
    proof {
        lemma_sq_upto_bound(v, n as int);
        lemma_sq_upto_monotone(v, split_index as int, n as int);
        assert(n * ONE_SQ <= MAX_WINDOW * ONE_SQ) by (nonlinear_arith)
            requires
                n <= MAX_WINDOW,
        ;
        let r = recent_sum_sq as int;
        let h = history_sum_sq as int;
        let hc = history_count as int;
        let rc = recent_count as int;
        assert(0 <= r * hc * PPM <= 0x8000000000000000 * 0x400000 * 1000000) by (nonlinear_arith)
            requires
                0 <= r <= 0x8000000000000000,
                0 <= hc <= 0x400000,
                PPM == 1000000,
        ;
        assert(0 <= ratio * h <= 0x100000000 * 0x8000000000000000) by (nonlinear_arith)
            requires
                0 <= h <= 0x8000000000000000,
                0 <= ratio <= 0x100000000,
        ;
        assert(0 <= ratio * h * rc <= 0x100000000 * 0x8000000000000000 * 0x400000) by (nonlinear_arith)
            requires
                0 <= h <= 0x8000000000000000,
                0 <= rc <= 0x400000,
                0 <= ratio <= 0x100000000,
        ;
        assert(0 <= floor * rc * ONE_SQ <= 0x100000000 * 0x400000 * 0x10000000000) by (nonlinear_arith)
            requires
                0 <= rc <= 0x400000,
                0 <= floor <= 0x100000000,
                ONE_SQ == 0x10000000000,
        ;
        assert(0 <= r * PPM <= 0x8000000000000000 * 1000000) by (nonlinear_arith)
            requires
                0 <= r <= 0x8000000000000000,
                PPM == 1000000,
        ;
    }
    let recent = recent_sum_sq as i128;
    let hist = history_sum_sq as i128;
    (recent * (history_count as i128) * (PPM as i128) > (ratio as i128) * hist * (recent_count as i128))
        && (recent * (PPM as i128) > (floor as i128) * (recent_count as i128) * (ONE_SQ as i128))
}

/// Scans `v[start..n]` for the first value above every earlier one, starting
/// from `(start, 0)`: the first index of the greatest value when it is
/// positive, `start` otherwise; with that value.
pub open spec fn scan_peak(v: Seq<i64>, start: int, n: int) -> (int, int)
    decreases n - start,
{
    if n <= start {
        (start, 0)
    } else {
        let p = scan_peak(v, start, n - 1);
        if v[n - 1] > p.1 {
            (n - 1, v[n - 1] as int)
        } else {
            p
        }
    }
}

/// The index of the envelope peak in `v[start..]`.
pub fn peak_index(v: &Vec<i64>, start: usize) -> (r: usize)
    ensures
        r == scan_peak(v@, start as int, v@.len() as int).0,
{
    let n = v.len();
    if start >= n {
        return start;
    }
    let mut best_value: i64 = 0;
    let mut best_index: usize = start;
    let mut i: usize = start;
    while i < n
        invariant
            n == v@.len(),
            start <= i <= n,
            (best_index as int, best_value as int) == scan_peak(v@, start as int, i as int),
        decreases n - i,
    {
        if v[i] > best_value {
            best_value = v[i];
            best_index = i;
        }
        i = i + 1;
    }
    best_index
}

} // verus!
