//! Decimation by averaging, and the ring buffer of one analysis rate.

use crate::ring::{keep_last, RingBuffer};
use vstd::prelude::*;

verus! {

/// `sum_{lo <= i < hi} s[i]`.
pub open spec fn seg_sum(s: Seq<u32>, lo: int, hi: int) -> int
    decreases hi - lo,
{
    if hi <= lo {
        0
    } else {
        seg_sum(s, lo, hi - 1) + s[hi - 1]
    }
}

/// How many groups of `step` values `n` values make, the last one maybe partial.
pub open spec fn chunk_count(n: int, step: int) -> int {
    (n + step - 1) / step
}

/// The end of group `j`.
pub open spec fn chunk_end(n: int, step: int, j: int) -> int {
    if (j + 1) * step < n {
        (j + 1) * step
    } else {
        n
    }
}

/// The mean of group `j`, rounded down, over the group's actual length.
pub open spec fn chunk_mean(s: Seq<u32>, step: int, j: int) -> u32 {
    let lo = j * step;
    let hi = chunk_end(s.len() as int, step, j);
    (seg_sum(s, lo, hi) / (hi - lo)) as u32
}

/// The means of consecutive groups of `step` values, in order.
pub open spec fn chunk_means(s: Seq<u32>, step: int) -> Seq<u32> {
    Seq::new(chunk_count(s.len() as int, step) as nat, |j: int| chunk_mean(s, step, j))
}

/// Samples per second `num / den` times `secs`, rounded down: the capacity of
/// a buffer that holds `secs` seconds.
pub open spec fn capacity_for(num: int, den: int, secs: int) -> int {
    num * secs / den
}

/// The lag in samples of one beat at `bpm` beats per minute, at `num / den`
/// samples per second, rounded down.
pub open spec fn lag_for(num: int, den: int, bpm: int) -> int {
    num * 60 / (den * bpm)
}

pub proof fn lemma_seg_sum_bound(s: Seq<u32>, lo: int, hi: int)
    requires
        0 <= lo <= hi <= s.len(),
    ensures
        0 <= seg_sum(s, lo, hi) <= (hi - lo) * 0xffff_ffff,
    decreases hi - lo,
{
    if hi > lo {
        lemma_seg_sum_bound(s, lo, hi - 1);
    }
}

/// There are no more groups than values.
pub proof fn lemma_chunk_count_le(n: int, step: int)
    requires
        0 <= n,
        1 <= step,
    ensures
        0 <= chunk_count(n, step) <= n,
{
    if n == 0 {
        vstd::arithmetic::div_mod::lemma_fundamental_div_mod_converse(step - 1, step, 0, step - 1);
    } else {
        assert(n + step - 1 <= n * step) by (nonlinear_arith)
            requires
                n >= 1,
                step >= 1,
        ;
        vstd::arithmetic::div_mod::lemma_div_is_ordered(n + step - 1, n * step, step);
        vstd::arithmetic::div_mod::lemma_div_by_multiple(n, step);
        vstd::arithmetic::div_mod::lemma_div_pos_is_pos(n + step - 1, step);
    }
}

/// Replaces `out` with the means of consecutive groups of `step` values of
/// `samples`.
pub fn decimate(samples: &Vec<u32>, step: usize, out: &mut Vec<u32>)
    requires
        1 <= step <= 65536,
        samples@.len() <= 0x4000_0000,
    ensures
        final(out)@ == chunk_means(samples@, step as int),
{
    let ghost s = samples@;
    let n = samples.len();
    out.clear();
    let mut start: usize = 0;
    let mut j: usize = 0;
    while start < n
        invariant
            s == samples@,
            n == s.len(),
            n <= 0x4000_0000,
            1 <= step <= 65536,
            start == j * step,
            j <= start,
            j > 0 ==> (j - 1) * step < n,
            start <= n + step,
            out@.len() == j,
            forall|k: int| 0 <= k < j ==> #[trigger] out@[k] == chunk_mean(s, step as int, k),
        decreases n + step - start,
    {
        let end = if n - start > step {
            start + step
        } else {
            n
        };
        let mut sum: u64 = 0;
        let mut i: usize = start;
        while i < end
            invariant
                s == samples@,
                n == s.len(),
                start <= i <= end <= n,
                n <= 0x1_0000_0000,
                sum == seg_sum(s, start as int, i as int),
            decreases end - i,
        {
            proof {
                lemma_seg_sum_bound(s, start as int, i as int);
                assert((i - start) * 0xffff_ffff <= 0x1_0000_0000 * 0xffff_ffff) by (nonlinear_arith)
                    requires
                        0 <= i - start <= 0x1_0000_0000,
                ;
            }
            sum = sum + samples[i] as u64;
            i = i + 1;
        }
        proof {
            lemma_seg_sum_bound(s, start as int, end as int);
            let c = (end - start) as int;
            vstd::arithmetic::div_mod::lemma_div_is_ordered(sum as int, c * 0xffff_ffff, c);
            vstd::arithmetic::div_mod::lemma_div_multiples_vanish(0xffff_ffff, c);
            assert((j + 1) * step == j * step + step) by (nonlinear_arith);
            assert(end == chunk_end(n as int, step as int, j as int));
        }
        let mean = (sum / ((end - start) as u64)) as u32;
        let ghost prev = out@;
        out.push(mean);
        assert(out@[j as int] == chunk_mean(s, step as int, j as int));
        assert forall|k: int| 0 <= k < j + 1 implies #[trigger] out@[k] == chunk_mean(s, step as int, k) by {
            if k < j {
                assert(out@[k] == prev[k]);
            }
        }
        start = start + step;
        j = j + 1;
    }
    proof {
        if n == 0 {
            assert(j == 0);
            vstd::arithmetic::div_mod::lemma_fundamental_div_mod_converse(step - 1, step as int, 0, step - 1);
        } else {
            let r = n + step - 1 - j * step;
            assert(j > 0);
            assert((j - 1) * step == j * step - step) by (nonlinear_arith);
            assert(0 <= r < step);
            vstd::arithmetic::div_mod::lemma_fundamental_div_mod_converse(n + step - 1, step as int, j as int, r);
        }
    }
    assert(out@ =~= chunk_means(s, step as int));
}

/// One analysis rate: its ring buffer, its decimation step from the rate
/// before it, and its lag range.
pub struct SamplingConfig {
    pub buffer: RingBuffer<u32>,
    /// Samples per second of this rate: `rate_num / rate_den`.
    pub rate_num: u32,
    pub rate_den: u32,
    pub step: usize,
    pub min_lag: usize,
    pub max_lag: usize,
}

impl SamplingConfig {
    pub open spec fn wf(&self) -> bool {
        &&& self.buffer.wf()
        &&& 1 <= self.step <= 65536
        &&& self.rate_den > 0
    }

    /// A rate of `rate_num / rate_den` samples per second that holds
    /// `window_secs` seconds and searches the lags of `max_bpm` down to
    /// `min_bpm` beats per minute.
    pub fn new(
        rate_num: u32,
        rate_den: u32,
        window_secs: u32,
        step: usize,
        min_bpm: u32,
        max_bpm: u32,
    ) -> (r: Self)
        requires
            rate_den > 0,
            min_bpm > 0,
            max_bpm > 0,
            1 <= step <= 65536,
            capacity_for(rate_num as int, rate_den as int, window_secs as int) <= usize::MAX,
            lag_for(rate_num as int, rate_den as int, max_bpm as int) <= usize::MAX,
            lag_for(rate_num as int, rate_den as int, min_bpm as int) <= usize::MAX,
        ensures
            r.wf(),
            r.buffer.view().len() == 0,
            r.buffer.cap() == capacity_for(rate_num as int, rate_den as int, window_secs as int),
            r.rate_num == rate_num,
            r.rate_den == rate_den,
            r.step == step,
            r.min_lag == lag_for(rate_num as int, rate_den as int, max_bpm as int),
            r.max_lag == lag_for(rate_num as int, rate_den as int, min_bpm as int),
    {
        let num = rate_num as u64;
        let den = rate_den as u64;
        proof {
            assert(num * window_secs <= 0xffff_ffff * 0xffff_ffff) by (nonlinear_arith)
                requires
                    num <= 0xffff_ffff,
                    window_secs <= 0xffff_ffff,
            ;
            assert(den * max_bpm >= 1 && den * max_bpm <= 0xffff_ffff * 0xffff_ffff) by (nonlinear_arith)
                requires
                    1 <= den <= 0xffff_ffff,
                    1 <= max_bpm <= 0xffff_ffff,
            ;
            assert(den * min_bpm >= 1 && den * min_bpm <= 0xffff_ffff * 0xffff_ffff) by (nonlinear_arith)
                requires
                    1 <= den <= 0xffff_ffff,
                    1 <= min_bpm <= 0xffff_ffff,
            ;
        }
        let capacity = (num * (window_secs as u64) / den) as usize;
        let min_lag = (num * 60 / (den * (max_bpm as u64))) as usize;
        let max_lag = (num * 60 / (den * (min_bpm as u64))) as usize;
        SamplingConfig {
            buffer: RingBuffer::new(capacity),
            rate_num,
            rate_den,
            step,
            min_lag,
            max_lag,
        }
    }

    /// Decimates `samples` by `step` into `output` and appends the result to
    /// the buffer.
    pub fn update_buffer(&mut self, samples: &Vec<u32>, output: &mut Vec<u32>)
        requires
            old(self).wf(),
            samples@.len() <= 0x4000_0000,
        ensures
            final(self).wf(),
            final(output)@ == chunk_means(samples@, old(self).step as int),
            final(self).buffer.cap() == old(self).buffer.cap(),
            final(self).buffer.view() == keep_last(
                old(self).buffer.view() + final(output)@,
                old(self).buffer.cap(),
            ),
            final(self).rate_num == old(self).rate_num,
            final(self).rate_den == old(self).rate_den,
            final(self).step == old(self).step,
            final(self).min_lag == old(self).min_lag,
            final(self).max_lag == old(self).max_lag,
    {
        decimate(samples, self.step, output);
        self.buffer.push_all(output);
    }
}

} // verus!
