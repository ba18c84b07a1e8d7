//! Measurements on the captured samples: frequency, peak-to-peak amplitude,
//! RMS amplitude and duty cycle.
//!
//! Each measurement is `None` where the samples do not determine it.

use crate::waveform::WaveformData;
use vstd::prelude::*;

verus! {

/// Millihertz in one hertz.
pub const MILLIHERTZ_PER_HERTZ: u64 = 1_000;

/// Value of a duty cycle of 100 percent: the unit is a hundredth of a percent.
pub const DUTY_CYCLE_FULL: u32 = 10_000;

/// Whether the signal rises through zero at index `i`.
pub open spec fn rises_through_zero(samples: Seq<i32>, i: int) -> bool {
    1 <= i < samples.len() && samples[i - 1] < 0 && samples[i] >= 0
}

/// Whether the signal falls through zero at index `i`.
pub open spec fn falls_through_zero(samples: Seq<i32>, i: int) -> bool {
    1 <= i < samples.len() && samples[i - 1] > 0 && samples[i] <= 0
}

/// The indices below `n` at which the signal rises through zero, in
/// increasing order.
pub open spec fn rising_crossings(samples: Seq<i32>, n: int) -> Seq<int>
    decreases n,
{
    if n <= 0 {
        Seq::empty()
    } else if rises_through_zero(samples, n - 1) {
        rising_crossings(samples, n - 1).push(n - 1)
    } else {
        rising_crossings(samples, n - 1)
    }
}

/// Number of indices below `n` at which the signal crosses zero, rising or
/// falling.
pub open spec fn zero_crossing_count(samples: Seq<i32>, n: int) -> nat
    decreases n,
{
    if n <= 0 {
        0
    } else if rises_through_zero(samples, n - 1) || falls_through_zero(samples, n - 1) {
        zero_crossing_count(samples, n - 1) + 1
    } else {
        zero_crossing_count(samples, n - 1)
    }
}

/// Number of samples above zero.
pub open spec fn count_above_zero(samples: Seq<i32>) -> nat
    decreases samples.len(),
{
    if samples.len() == 0 {
        0
    } else if samples.last() > 0 {
        count_above_zero(samples.drop_last()) + 1
    } else {
        count_above_zero(samples.drop_last())
    }
}

/// Sum of the squares of the samples.
pub open spec fn sum_of_squares(samples: Seq<i32>) -> nat
    decreases samples.len(),
{
    if samples.len() == 0 {
        0
    } else {
        sum_of_squares(samples.drop_last()) + (samples.last() * samples.last()) as nat
    }
}

/// Sum of the distances between consecutive entries of `c`.
pub open spec fn gap_sum(c: Seq<int>) -> int
    decreases c.len(),
{
    if c.len() < 2 {
        0
    } else {
        gap_sum(c.drop_last()) + (c[c.len() - 1] - c[c.len() - 2])
    }
}

/// Frequency in millihertz by zero-crossing detection.
///
/// With `k` rising crossings, the first at `first` and the last at `last`,
/// the mean distance between consecutive crossings is `(last - first) / (k -
/// 1)` samples, and the frequency is the sample rate divided by it. The
/// result is rounded down. Fewer than two crossings give no frequency.
pub open spec fn frequency_millihertz(samples: Seq<i32>, sample_rate: int) -> Option<u64> {
    let c = rising_crossings(samples, samples.len() as int);
    if c.len() < 2 {
        None
    } else {
        Some(
            ((sample_rate * MILLIHERTZ_PER_HERTZ * (c.len() - 1)) / (c.last() - c.first())) as u64,
        )
    }
}

/// Whether `m` is the largest sample.
pub open spec fn is_maximum(samples: Seq<i32>, m: int) -> bool {
    &&& exists|i: int| 0 <= i < samples.len() && samples[i] == m
    &&& forall|i: int| 0 <= i < samples.len() ==> samples[i] <= m
}

/// Whether `m` is the smallest sample.
pub open spec fn is_minimum(samples: Seq<i32>, m: int) -> bool {
    &&& exists|i: int| 0 <= i < samples.len() && samples[i] == m
    &&& forall|i: int| 0 <= i < samples.len() ==> samples[i] >= m
}

/// The largest sample of a non-empty sequence.
pub open spec fn maximum(samples: Seq<i32>) -> int {
    choose|m: int| is_maximum(samples, m)
}

/// The smallest sample of a non-empty sequence.
pub open spec fn minimum(samples: Seq<i32>) -> int {
    choose|m: int| is_minimum(samples, m)
}

/// Distance from the smallest sample to the largest, in microvolts.
pub open spec fn peak_to_peak(samples: Seq<i32>) -> Option<u32> {
    if samples.len() == 0 {
        None
    } else {
        Some((maximum(samples) - minimum(samples)) as u32)
    }
}

/// Whether `r` is the square root of `v`, rounded down.
pub open spec fn is_floor_sqrt(r: int, v: int) -> bool {
    0 <= r && r * r <= v < (r + 1) * (r + 1)
}

/// The square root of `v >= 0`, rounded down.
pub open spec fn floor_sqrt(v: int) -> int {
    choose|r: int| is_floor_sqrt(r, v)
}

/// Root of the mean of the squared samples, in microvolts. The mean and the
/// root are rounded down.
pub open spec fn root_mean_square(samples: Seq<i32>) -> Option<u32> {
    if samples.len() == 0 {
        None
    } else {
        Some(floor_sqrt(sum_of_squares(samples) as int / samples.len() as int) as u32)
    }
}

/// Share of the samples that lie above zero, in hundredths of a percent and
/// rounded down. It takes two zero crossings, rising or falling, to have one.
pub open spec fn duty_cycle(samples: Seq<i32>) -> Option<u32> {
    if zero_crossing_count(samples, samples.len() as int) < 2 {
        None
    } else {
        Some(((count_above_zero(samples) * DUTY_CYCLE_FULL) / samples.len() as int) as u32)
    }
}

/// A sequence has at most one maximum.
pub proof fn lemma_maximum_unique(samples: Seq<i32>, m: int)
    requires
        is_maximum(samples, m),
    ensures
        maximum(samples) == m,
{
    let c = maximum(samples);
    assert(is_maximum(samples, c));
    let i = choose|i: int| 0 <= i < samples.len() && samples[i] == m;
    let j = choose|j: int| 0 <= j < samples.len() && samples[j] == c;
    assert(samples[i] <= c);
    assert(samples[j] <= m);
}

/// A sequence has at most one minimum.
pub proof fn lemma_minimum_unique(samples: Seq<i32>, m: int)
    requires
        is_minimum(samples, m),
    ensures
        minimum(samples) == m,
{
    let c = minimum(samples);
    assert(is_minimum(samples, c));
    let i = choose|i: int| 0 <= i < samples.len() && samples[i] == m;
    let j = choose|j: int| 0 <= j < samples.len() && samples[j] == c;
    assert(samples[i] >= c);
    assert(samples[j] >= m);
}

/// A number has at most one rounded-down square root.
pub proof fn lemma_floor_sqrt_unique(r: int, v: int)
    requires
        is_floor_sqrt(r, v),
    ensures
        floor_sqrt(v) == r,
{
    let c = floor_sqrt(v);
    assert(is_floor_sqrt(c, v));
    if c < r {
        assert((c + 1) * (c + 1) <= r * r) by (nonlinear_arith)
            requires
                0 <= c,
                c + 1 <= r,
        ;
    }
    if r < c {
        assert((r + 1) * (r + 1) <= c * c) by (nonlinear_arith)
            requires
                0 <= r,
                r + 1 <= c,
        ;
    }
}

/// The rising crossings below `n` are exactly the indices below `n` at which
/// the signal rises through zero, each once and in increasing order.
pub proof fn lemma_rising_crossings(samples: Seq<i32>, n: int)
    ensures
        forall|k: int|
            0 <= k < rising_crossings(samples, n).len() ==> {
                &&& 1 <= #[trigger] rising_crossings(samples, n)[k] < n
                &&& rises_through_zero(samples, rising_crossings(samples, n)[k])
            },
        forall|j: int, k: int|
            0 <= j < k < rising_crossings(samples, n).len() ==> rising_crossings(samples, n)[j]
                < rising_crossings(samples, n)[k],
        forall|i: int|
            0 <= i < n && rises_through_zero(samples, i) ==> rising_crossings(samples, n).contains(
                i,
            ),
        rising_crossings(samples, n).len() <= if n <= 1 {
            0
        } else {
            n - 1
        },
    decreases n,
{
    if n > 0 {
        lemma_rising_crossings(samples, n - 1);
        let prev = rising_crossings(samples, n - 1);
        let cur = rising_crossings(samples, n);
        if rises_through_zero(samples, n - 1) {
            assert(cur == prev.push(n - 1));
            assert(cur[cur.len() - 1] == n - 1);
            assert forall|i: int| 0 <= i < n && rises_through_zero(samples, i) implies cur.contains(
                i,
            ) by {
                if i == n - 1 {
                    assert(cur[cur.len() - 1] == i);
                } else {
                    let k = choose|k: int| 0 <= k < prev.len() && prev[k] == i;
                    assert(cur[k] == i);
                }
            }
        } else {
            assert(cur == prev);
        }
    }
}

/// The distances between consecutive entries add up to the distance from
/// the first entry to the last.
pub proof fn lemma_gap_sum_telescopes(c: Seq<int>)
    requires
        c.len() >= 1,
    ensures
        gap_sum(c) == c.last() - c.first(),
    decreases c.len(),
{
    if c.len() >= 2 {
        lemma_gap_sum_telescopes(c.drop_last());
    }
}

/// Two rising crossings are at least two samples apart, so `k` of them span
/// at least `2 * (k - 1)` samples.
pub proof fn lemma_rising_crossings_spread(samples: Seq<i32>, n: int)
    ensures
        rising_crossings(samples, n).len() >= 1 ==> rising_crossings(samples, n).last()
            - rising_crossings(samples, n).first() >= 2 * (rising_crossings(samples, n).len() - 1),
    decreases n,
{
    if n > 0 {
        lemma_rising_crossings_spread(samples, n - 1);
        lemma_rising_crossings(samples, n - 1);
        let prev = rising_crossings(samples, n - 1);
        let cur = rising_crossings(samples, n);
        if rises_through_zero(samples, n - 1) {
            assert(cur == prev.push(n - 1));
            if prev.len() >= 1 {
                assert(cur.first() == prev.first());
                assert(cur.last() == n - 1);
                let p = prev.last();
                assert(p == prev[prev.len() - 1]);
                assert(rises_through_zero(samples, p));
                assert(p < n - 1);
                if p == n - 2 {
                    assert(samples[p] >= 0);
                    assert(samples[n - 2] < 0);
                }
            }
        }
    }
}

/// The measured frequency never exceeds half the sample rate.
pub proof fn lemma_frequency_below_nyquist(samples: Seq<i32>, sample_rate: u32)
    ensures
        match frequency_millihertz(samples, sample_rate as int) {
            Some(f) => 2 * f <= sample_rate * MILLIHERTZ_PER_HERTZ,
            None => true,
        },
{
    let c = rising_crossings(samples, samples.len() as int);
    if c.len() >= 2 {
        lemma_rising_crossings_spread(samples, samples.len() as int);
        let span = c.last() - c.first();
        let k = c.len() - 1;
        lemma_quotient_bound(sample_rate * MILLIHERTZ_PER_HERTZ, k, span);
        assert(sample_rate * MILLIHERTZ_PER_HERTZ <= 0xffff_ffff * 1_000) by (nonlinear_arith)
            requires
                sample_rate <= 0xffff_ffff,
                MILLIHERTZ_PER_HERTZ == 1_000,
        ;
    }
}

/// Where `span >= 2 * k > 0`, twice `(a * k) / span` is at most `a`.
proof fn lemma_quotient_bound(a: int, k: int, span: int)
    requires
        0 <= a,
        1 <= k,
        2 * k <= span,
    ensures
        0 <= (a * k) / span,
        2 * ((a * k) / span) <= a,
{
    let q = (a * k) / span;
    assert(q >= 0 && q * span <= a * k) by (nonlinear_arith)
        requires
            q == (a * k) / span,
            span > 0,
            a >= 0,
            k >= 1,
    ;
    assert(2 * q <= a) by (nonlinear_arith)
        requires
            q * span <= a * k,
            2 * k <= span,
            q >= 0,
            a >= 0,
            k >= 1,
    ;
}

impl WaveformData {
    /// Frequency of the signal in millihertz, from the mean distance between
    /// its rising zero crossings.
    pub fn calculate_frequency(&self) -> (frequency: Option<u64>)
        ensures
            frequency == frequency_millihertz(self@.samples, self@.sample_rate as int),
    {
        let samples = self.samples();
        let n = samples.len();
        proof {
            lemma_rising_crossings(samples@, n as int);
            lemma_rising_crossings_spread(samples@, n as int);
        }
        if n < 3 {
            return None;
        }
        let mut crossings: Vec<usize> = Vec::new();
        let mut i: usize = 1;
        proof {
            assert(rising_crossings(samples@, 0) =~= Seq::<int>::empty());
            assert(rising_crossings(samples@, 1) =~= Seq::<int>::empty());
        }
        while i < n
            invariant
                1 <= i <= n,
                n == samples@.len(),
                crossings@.len() == rising_crossings(samples@, i as int).len(),
                forall|k: int|
                    0 <= k < crossings@.len() ==> #[trigger] crossings@[k] as int
                        == rising_crossings(samples@, i as int)[k],
            decreases n - i,
        {
            if samples[i - 1] < 0 && samples[i] >= 0 {
                crossings.push(i);
            }
            i += 1;
        }
        let ghost c = rising_crossings(samples@, n as int);
        let count = crossings.len();
        if count < 2 {
            return None;
        }
        let mut total: usize = 0;
        let mut j: usize = 1;
        while j < count
            invariant
                1 <= j <= count,
                count == crossings@.len(),
                count == c.len(),
                forall|k: int| 0 <= k < count ==> #[trigger] crossings@[k] as int == c[k],
                forall|a: int, b: int| 0 <= a < b < count ==> c[a] < c[b],
                forall|k: int| 0 <= k < count ==> 1 <= #[trigger] c[k] < n,
                total as int == c[j - 1] - c[0],
            decreases count - j,
        {
            let gap = crossings[j] - crossings[j - 1];
            total = total + gap;
            j += 1;
        }
        proof {
            assert(total as int == c.last() - c.first());
            assert(total >= 2 * (count - 1));
        }
        let rate: u128 = self.sample_rate() as u128;
        let gaps: u128 = (count - 1) as u128;
        assert(rate * 1000 * gaps <= 0xffff_ffff * 1000 * 0xffff_ffff_ffff_ffff) by (nonlinear_arith)
            requires
                0 <= rate <= 0xffff_ffff,
                0 <= gaps <= 0xffff_ffff_ffff_ffff,
        ;
        let scaled: u128 = rate * (MILLIHERTZ_PER_HERTZ as u128) * gaps;
        let q: u128 = scaled / (total as u128);
        proof {
            lemma_quotient_bound(rate * MILLIHERTZ_PER_HERTZ, gaps as int, total as int);
            assert(rate * MILLIHERTZ_PER_HERTZ * gaps == (rate * MILLIHERTZ_PER_HERTZ) * gaps)
                by (nonlinear_arith);
        }
        Some(q as u64)
    }

    /// Distance from the smallest sample to the largest, in microvolts.
    pub fn calculate_peak_to_peak(&self) -> (amplitude: Option<u32>)
        ensures
            amplitude == peak_to_peak(self@.samples),
            amplitude is None <==> self@.samples.len() == 0,
    {
        let samples = self.samples();
        let n = samples.len();
        if n == 0 {
            return None;
        }
        let mut lo: i32 = samples[0];
        let mut hi: i32 = samples[0];
        let mut i: usize = 1;
        while i < n
            invariant
                1 <= i <= n,
                n == samples@.len(),
                exists|k: int| 0 <= k < i && samples@[k] == lo,
                exists|k: int| 0 <= k < i && samples@[k] == hi,
                forall|k: int| 0 <= k < i ==> lo <= #[trigger] samples@[k] <= hi,
            decreases n - i,
        {
            let s = samples[i];
            if s < lo {
                lo = s;
            }
            if s > hi {
                hi = s;
            }
            i += 1;
        }
        proof {
            lemma_maximum_unique(samples@, hi as int);
            lemma_minimum_unique(samples@, lo as int);
        }
        Some(((hi as i64) - (lo as i64)) as u32)
    }

    /// Root of the mean of the squared samples, in microvolts.
    pub fn calculate_rms(&self) -> (rms: Option<u32>)
        ensures
            rms == root_mean_square(self@.samples),
            rms is None <==> self@.samples.len() == 0,
    {
        let samples = self.samples();
        let n = samples.len();
        if n == 0 {
            return None;
        }
        let mut sum: u128 = 0;
        let mut i: usize = 0;
        while i < n
            invariant
                i <= n,
                n == samples@.len(),
                sum as nat == sum_of_squares(samples@.take(i as int)),
                sum <= i * 0x4000_0000_0000_0000,
            decreases n - i,
        {
            let s: i64 = samples[i] as i64;
            assert(0 <= s * s <= 0x4000_0000_0000_0000) by (nonlinear_arith)
                requires
                    -0x8000_0000 <= s <= 0x7fff_ffff,
            ;
            let square: u128 = (s * s) as u128;
            proof {
                assert(samples@.take(i + 1).drop_last() =~= samples@.take(i as int));
                assert(samples@.take(i + 1).last() == samples@[i as int]);
                assert((i + 1) * 0x4000_0000_0000_0000 == i * 0x4000_0000_0000_0000
                    + 0x4000_0000_0000_0000) by (nonlinear_arith);
                assert(i * 0x4000_0000_0000_0000 <= 0xffff_ffff_ffff_ffff * 0x4000_0000_0000_0000)
                    by (nonlinear_arith)
                    requires
                        i <= 0xffff_ffff_ffff_ffff,
                ;
            }
            sum = sum + square;
            i += 1;
        }
        proof {
            assert(samples@.take(n as int) =~= samples@);
        }
        let mean: u128 = sum / (n as u128);
        assert(mean <= 0x4000_0000_0000_0000) by (nonlinear_arith)
            requires
                mean == sum / (n as u128),
                sum <= n * 0x4000_0000_0000_0000,
                n > 0,
        ;
        let root = integer_sqrt(mean as u64);
        proof {
            lemma_floor_sqrt_unique(root as int, mean as int);
        }
        Some(root)
    }

    /// Share of the samples that lie above zero, in hundredths of a percent,
    /// for a signal that crosses zero at least twice.
    pub fn calculate_duty_cycle(&self) -> (duty: Option<u32>)
        ensures
            duty == duty_cycle(self@.samples),
            duty matches Some(d) ==> d <= DUTY_CYCLE_FULL,
    {
        let samples = self.samples();
        let n = samples.len();
        if n < 2 {
            proof {
                assert(zero_crossing_count(samples@, 0) == 0);
                assert(zero_crossing_count(samples@, 1) == 0);
            }
            return None;
        }
        let mut crossings: usize = 0;
        let mut i: usize = 1;
        proof {
            assert(zero_crossing_count(samples@, 0) == 0);
            assert(zero_crossing_count(samples@, 1) == 0);
        }
        while i < n
            invariant
                1 <= i <= n,
                n == samples@.len(),
                crossings as nat == zero_crossing_count(samples@, i as int),
                crossings < i,
            decreases n - i,
        {
            let prev = samples[i - 1];
            let curr = samples[i];
            if (prev < 0 && curr >= 0) || (prev > 0 && curr <= 0) {
                crossings += 1;
            }
            i += 1;
        }
        if crossings < 2 {
            return None;
        }
        let mut above: usize = 0;
        let mut j: usize = 0;
        while j < n
            invariant
                j <= n,
                n == samples@.len(),
                above as nat == count_above_zero(samples@.take(j as int)),
                above <= j,
            decreases n - j,
        {
            proof {
                assert(samples@.take(j + 1).drop_last() =~= samples@.take(j as int));
                assert(samples@.take(j + 1).last() == samples@[j as int]);
            }
            if samples[j] > 0 {
                above += 1;
            }
            j += 1;
        }
        proof {
            assert(samples@.take(n as int) =~= samples@);
        }
        let scaled: u128 = (above as u128) * (DUTY_CYCLE_FULL as u128);
        let q: u128 = scaled / (n as u128);
        assert(q <= DUTY_CYCLE_FULL) by (nonlinear_arith)
            requires
                q == (above * DUTY_CYCLE_FULL) / (n as int),
                0 <= above <= n,
                n > 0,
                DUTY_CYCLE_FULL == 10_000,
        ;
        Some(q as u32)
    }
}

/// Square root of `v`, rounded down.
pub fn integer_sqrt(v: u64) -> (root: u32)
    ensures
        is_floor_sqrt(root as int, v as int),
{
    let mut lo: u64 = 0;
    let mut hi: u64 = 0x1_0000_0000;
    assert(0x1_0000_0000 * 0x1_0000_0000 > 0xffff_ffff_ffff_ffff) by (nonlinear_arith);
    while hi - lo > 1
        invariant
            lo < hi <= 0x1_0000_0000,
            lo * lo <= v < hi * hi,
        decreases hi - lo,
    {
        let mid: u64 = lo + (hi - lo) / 2;
        assert(mid * mid <= 0xffff_ffff * 0xffff_ffff) by (nonlinear_arith)
            requires
                0 <= mid <= 0xffff_ffff,
        ;
        if mid * mid <= v {
            lo = mid;
        } else {
            hi = mid;
        }
    }
    lo as u32
}

} // verus!
