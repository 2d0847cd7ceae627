//! Onset detection, energy-envelope strategy: smoothing, peak picking and
//! tempo from inter-peak intervals.

use vstd::prelude::*;
use vstd::arithmetic::div_mod::lemma_div_is_ordered;
use crate::note::MAX_TIME_US;
use crate::quantizer::round_div;

verus! {

/// Samples per analysis frame.
pub const FRAME_SIZE: usize = 2048;

/// Samples between the starts of consecutive frames.
pub const HOP_SIZE: u32 = 512;

/// Tempo (thousandths of a BPM) used when the onsets give no estimate.
pub const DEFAULT_BPM: u32 = 120_000;

/// Bounds of the interval-based tempo estimate, in thousandths of a BPM.
pub const MIN_BPM: u32 = 60_000;
pub const MAX_BPM: u32 = 240_000;

/// Number of leading inter-peak intervals that the tempo estimate averages.
pub const MAX_INTERVALS: usize = 20;

/// Sum of `s[lo..hi]`.
pub open spec fn sum_range(s: Seq<u64>, lo: int, hi: int) -> int
    decreases hi - lo,
{
    if hi <= lo {
        0
    } else {
        sum_range(s, lo, hi - 1) + s[hi - 1]
    }
}

/// Largest value of `s[0..hi]`, 0 when empty.
pub open spec fn max_prefix(s: Seq<u64>, hi: int) -> int
    decreases hi,
{
    if hi <= 0 {
        0
    } else if s[hi - 1] as int > max_prefix(s, hi - 1) {
        s[hi - 1] as int
    } else {
        max_prefix(s, hi - 1)
    }
}

/// Largest value of `s`, 0 when empty.
pub open spec fn max_value(s: Seq<u64>) -> int {
    max_prefix(s, s.len() as int)
}

/// Ascending indices `i < hi` for which `p(i)` holds.
pub open spec fn indices_where(hi: int, p: spec_fn(int) -> bool) -> Seq<int>
    decreases hi,
{
    if hi <= 0 {
        Seq::empty()
    } else if p(hi - 1) {
        indices_where(hi - 1, p).push(hi - 1)
    } else {
        indices_where(hi - 1, p)
    }
}

/// First index of the centred window of `window_size` around `i`.
pub open spec fn window_start(i: int, window_size: int) -> int {
    if i >= window_size / 2 {
        i - window_size / 2
    } else {
        0
    }
}

/// One past the last index of the centred window around `i`, cut at `n`.
pub open spec fn window_end(i: int, window_size: int, n: int) -> int {
    if i + window_size / 2 + 1 < n {
        i + window_size / 2 + 1
    } else {
        n
    }
}

/// Moving average of `data` around `i`, rounded down.
pub open spec fn smoothed_at(data: Seq<u64>, window_size: int, i: int) -> int {
    let lo = window_start(i, window_size);
    let hi = window_end(i, window_size, data.len() as int);
    sum_range(data, lo, hi) / (hi - lo)
}

/// `data[i]` is a strict local maximum above `threshold_percent` percent of the
/// largest value.
pub open spec fn is_peak(data: Seq<u64>, threshold_percent: int, i: int) -> bool {
    &&& 1 <= i < data.len() - 1
    &&& data[i] * 100 > max_value(data) * threshold_percent
    &&& data[i] > data[i - 1]
    &&& data[i] > data[i + 1]
}

/// Indices of the peaks of `data`, ascending.
pub open spec fn peak_indices(data: Seq<u64>, threshold_percent: int) -> Seq<int> {
    indices_where(data.len() as int, |i: int| is_peak(data, threshold_percent, i))
}

/// Time (microseconds, rounded down) at which frame `frame` starts.
pub open spec fn frame_time(frame: int, hop: int, sample_rate: int) -> int {
    frame * hop * 1_000_000 / sample_rate
}

/// Tempo estimate from ascending peak times: the mean of the first (at most
/// twenty) intervals gives `60 / mean` beats per minute, kept within
/// 60..=240 BPM; fewer than two peaks give 120 BPM.
pub open spec fn interval_bpm(peaks: Seq<u64>) -> int {
    if peaks.len() < 2 {
        DEFAULT_BPM as int
    } else {
        let count = if peaks.len() > MAX_INTERVALS + 1 {
            MAX_INTERVALS as int
        } else {
            peaks.len() - 1
        };
        let total = peaks[count] - peaks[0];
        if total == 0 {
            MAX_BPM as int
        } else {
            let raw = round_div(60_000_000_000 * count, total);
            if raw < MIN_BPM {
                MIN_BPM as int
            } else if raw > MAX_BPM {
                MAX_BPM as int
            } else {
                raw
            }
        }
    }
}

pub open spec fn non_decreasing(s: Seq<u64>) -> bool {
    forall|i: int, j: int| 0 <= i <= j < s.len() ==> s[i] <= s[j]
}

proof fn lemma_sum_range_bound(s: Seq<u64>, lo: int, hi: int)
    requires
        lo <= hi,
    ensures
        0 <= sum_range(s, lo, hi) <= (hi - lo) * 0xFFFF_FFFF_FFFF_FFFF,
    decreases hi - lo,
{
    if hi > lo {
        lemma_sum_range_bound(s, lo, hi - 1);
    }
}

pub proof fn lemma_indices_where(hi: int, p: spec_fn(int) -> bool)
    requires
        hi >= 0,
    ensures
        forall|k: int|
            0 <= k < indices_where(hi, p).len() ==> 0 <= #[trigger] indices_where(hi, p)[k] < hi
                && p(indices_where(hi, p)[k]),
        forall|k1: int, k2: int|
            0 <= k1 < k2 < indices_where(hi, p).len() ==> indices_where(hi, p)[k1]
                < indices_where(hi, p)[k2],
    decreases hi,
{
    if hi > 0 {
        lemma_indices_where(hi - 1, p);
        let prev = indices_where(hi - 1, p);
        let cur = indices_where(hi, p);
        if p(hi - 1) {
            assert(cur == prev.push(hi - 1));
            assert forall|k: int| 0 <= k < cur.len() implies 0 <= #[trigger] cur[k] < hi && p(
                cur[k],
            ) by {
                if k < prev.len() {
                    assert(cur[k] == prev[k]);
                }
            }
            assert forall|k1: int, k2: int| 0 <= k1 < k2 < cur.len() implies cur[k1]
                < cur[k2] by {
                assert(cur[k1] == prev[k1]);
                if k2 < prev.len() {
                    assert(cur[k2] == prev[k2]);
                }
            }
        } else {
            assert(cur == prev);
        }
    }
}

/// Centred moving average with `window_size` samples (cut at both ends).
pub fn smooth_curve(data: &Vec<u64>, window_size: usize) -> (r: Vec<u64>)
    ensures
        r@.len() == data@.len(),
        forall|i: int| 0 <= i < r@.len() ==> r@[i] == smoothed_at(data@, window_size as int, i),
{
    let n = data.len();
    let half = window_size / 2;
    let mut r: Vec<u64> = Vec::new();
    let mut i: usize = 0;
    while i < n
        invariant
            n == data@.len(),
            half == window_size / 2,
            i <= n,
            r@.len() == i,
            forall|k: int| 0 <= k < i ==> r@[k] == smoothed_at(data@, window_size as int, k),
        decreases n - i,
    {
        let start: usize = if i >= half {
            i - half
        } else {
            0
        };
        let end: usize = if half < n - i - 1 {
            i + half + 1
        } else {
            n
        };
        assert(end == window_end(i as int, window_size as int, n as int));
        let mut sum: u128 = 0;
        let mut j: usize = start;
        while j < end
            invariant
                start <= j <= end <= n,
                n == data@.len(),
                sum == sum_range(data@, start as int, j as int),
            decreases end - j,
        {
            proof {
                lemma_sum_range_bound(data@, start as int, j as int);
                assert((j - start) * 0xFFFF_FFFF_FFFF_FFFF + 0xFFFF_FFFF_FFFF_FFFF
                    <= 0xFFFF_FFFF_FFFF_FFFF_FFFF_FFFF_FFFF_FFFF) by (nonlinear_arith)
                    requires
                        j - start < 0xFFFF_FFFF_FFFF_FFFF,
                ;
            }
            sum = sum + data[j] as u128;
            j = j + 1;
        }
        let count: u128 = (end - start) as u128;
        proof {
            lemma_sum_range_bound(data@, start as int, end as int);
            lemma_div_is_ordered(
                sum as int,
                count * 0xFFFF_FFFF_FFFF_FFFF,
                count as int,
            );
            vstd::arithmetic::div_mod::lemma_div_multiples_vanish(
                0xFFFF_FFFF_FFFF_FFFF,
                count as int,
            );
            assert(count * 0xFFFF_FFFF_FFFF_FFFF == 0xFFFF_FFFF_FFFF_FFFF * count)
                by (nonlinear_arith);
        }
        r.push((sum / count) as u64);
        i = i + 1;
    }
    r
}

/// Largest value of `data`, 0 when empty.
pub fn max_of(data: &Vec<u64>) -> (r: u64)
    ensures
        r == max_value(data@),
{
    let mut m: u64 = 0;
    let mut i: usize = 0;
    while i < data.len()
        invariant
            i <= data@.len(),
            m == max_prefix(data@, i as int),
        decreases data@.len() - i,
    {
        if data[i] > m {
            m = data[i];
        }
        i = i + 1;
    }
    m
}

/// Indices of the strict local maxima of `data` that exceed
/// `threshold_percent` percent of its largest value.
pub fn find_peaks(data: &Vec<u64>, threshold_percent: u64) -> (r: Vec<usize>)
    ensures
        r@.len() == peak_indices(data@, threshold_percent as int).len(),
        forall|k: int|
            0 <= k < r@.len() ==> r@[k] as int == peak_indices(data@, threshold_percent as int)[k],
{
    let ghost p = |i: int| is_peak(data@, threshold_percent as int, i);
    let mut r: Vec<usize> = Vec::new();
    let n = data.len();
    if n < 3 {
        proof {
            assert forall|hi: int| 0 <= hi <= n implies indices_where(hi, p).len() == 0 by {
                lemma_indices_where(hi, p);
                if indices_where(hi, p).len() > 0 {
                    assert(p(indices_where(hi, p)[0]));
                }
            }
            assert(indices_where(n as int, p).len() == 0);
        }
        return r;
    }
    let m = max_of(data);
    let mut i: usize = 0;
    while i < n
        invariant
            n == data@.len(),
            n >= 3,
            m == max_value(data@),
            i <= n,
            p == (|i: int| is_peak(data@, threshold_percent as int, i)),
            r@.len() == indices_where(i as int, p).len(),
            forall|k: int| 0 <= k < r@.len() ==> r@[k] as int == indices_where(i as int, p)[k],
        decreases n - i,
    {
        assert(m as u128 * threshold_percent as u128 <= 0xFFFF_FFFF_FFFF_FFFF
            * 0xFFFF_FFFF_FFFF_FFFF) by (nonlinear_arith)
            requires
                m <= 0xFFFF_FFFF_FFFF_FFFF,
                threshold_percent <= 0xFFFF_FFFF_FFFF_FFFF,
        ;
        if i >= 1 && i < n - 1 && data[i] as u128 * 100 > m as u128 * threshold_percent as u128
            && data[i] > data[i - 1] && data[i] > data[i + 1] {
            r.push(i);
        }
        i = i + 1;
    }
    r
}

/// Start time (microseconds) of each frame in `frames`.
pub fn frames_to_times(frames: &Vec<usize>, hop: u32, sample_rate: u32) -> (r: Vec<u64>)
    requires
        sample_rate > 0,
        forall|k: int|
            0 <= k < frames@.len() ==> frame_time(frames@[k] as int, hop as int, sample_rate as int)
                <= MAX_TIME_US,
    ensures
        r@.len() == frames@.len(),
        forall|k: int|
            0 <= k < r@.len() ==> r@[k] == frame_time(frames@[k] as int, hop as int, sample_rate as int),
{
    let mut r: Vec<u64> = Vec::new();
    let mut k: usize = 0;
    while k < frames.len()
        invariant
            sample_rate > 0,
            k <= frames@.len(),
            r@.len() == k,
            forall|k: int|
                0 <= k < frames@.len() ==> frame_time(frames@[k] as int, hop as int, sample_rate as int)
                    <= MAX_TIME_US,
            forall|j: int|
                0 <= j < k ==> r@[j] == frame_time(frames@[j] as int, hop as int, sample_rate as int),
        decreases frames@.len() - k,
    {
        let f = frames[k] as u128;
        assert(f * (hop as u128) <= 0xFFFF_FFFF_FFFF_FFFF * 0xFFFF_FFFF) by (nonlinear_arith)
            requires
                f <= 0xFFFF_FFFF_FFFF_FFFF,
                hop <= 0xFFFF_FFFF,
        ;
        let t = f * (hop as u128) * 1_000_000 / (sample_rate as u128);
        r.push(t as u64);
        k = k + 1;
    }
    r
}

/// Tempo (thousandths of a BPM) from ascending peak times in microseconds:
/// see `interval_bpm`.
pub fn estimate_bpm(peaks: &Vec<u64>) -> (r: u32)
    requires
        non_decreasing(peaks@),
    ensures
        r == interval_bpm(peaks@),
        MIN_BPM <= r <= MAX_BPM || r == DEFAULT_BPM,
{
    let n = peaks.len();
    if n < 2 {
        return DEFAULT_BPM;
    }
    let count: usize = if n > MAX_INTERVALS + 1 {
        MAX_INTERVALS
    } else {
        n - 1
    };
    let total: u64 = peaks[count] - peaks[0];
    if total == 0 {
        return MAX_BPM;
    }
    let num: u128 = 60_000_000_000u128 * count as u128;
    let raw: u128 = (2 * num + total as u128) / (2 * total as u128);
    if raw < MIN_BPM as u128 {
        MIN_BPM
    } else if raw > MAX_BPM as u128 {
        MAX_BPM
    } else {
        raw as u32
    }
}

/// Result of onset detection: onset times (microseconds, ascending), the
/// tempo estimate (thousandths of a BPM) and the smoothed onset envelope.
#[derive(Clone, Debug)]
pub struct BeatDetection {
    pub peaks: Vec<u64>,
    pub bpm: u32,
    pub onset_strengths: Vec<u64>,
}

impl BeatDetection {
    /// Energy-envelope strategy, from one energy value per frame (the root of
    /// the frame's summed squared magnitudes): smooth with a 3-frame moving
    /// average, keep local maxima above half of the largest value, convert
    /// frame indices to times and estimate the tempo from their spacing.
    pub fn from_energies(energies: &Vec<u64>, sample_rate: u32) -> (r: BeatDetection)
        requires
            sample_rate > 0,
            frame_time(energies@.len() as int, HOP_SIZE as int, sample_rate as int)
                <= MAX_TIME_US,
        ensures
            r.onset_strengths@.len() == energies@.len(),
            forall|i: int|
                0 <= i < energies@.len() ==> r.onset_strengths@[i] == smoothed_at(
                    energies@,
                    3,
                    i,
                ),
            r.peaks@.len() == peak_indices(r.onset_strengths@, 50).len(),
            forall|k: int|
                0 <= k < r.peaks@.len() ==> r.peaks@[k] == frame_time(
                    peak_indices(r.onset_strengths@, 50)[k],
                    HOP_SIZE as int,
                    sample_rate as int,
                ),
            non_decreasing(r.peaks@),
            r.bpm == interval_bpm(r.peaks@),
    {
        let smoothed = smooth_curve(energies, 3);
        let idx = find_peaks(&smoothed, 50);
        let ghost pi = peak_indices(smoothed@, 50);
        proof {
            lemma_indices_where(smoothed@.len() as int, |i: int| is_peak(smoothed@, 50, i));
            assert forall|k: int| 0 <= k < idx@.len() implies frame_time(
                idx@[k] as int,
                HOP_SIZE as int,
                sample_rate as int,
            ) <= MAX_TIME_US by {
                lemma_frame_time_monotone(
                    idx@[k] as int,
                    energies@.len() as int,
                    HOP_SIZE as int,
                    sample_rate as int,
                );
            }
        }
        let peaks = frames_to_times(&idx, HOP_SIZE, sample_rate);
        proof {
            assert forall|i: int, j: int| 0 <= i <= j < peaks@.len() implies peaks@[i]
                <= peaks@[j] by {
                if i < j {
                    assert(pi[i] < pi[j]);
                }
                lemma_frame_time_monotone(
                    idx@[i] as int,
                    idx@[j] as int,
                    HOP_SIZE as int,
                    sample_rate as int,
                );
            }
        }
        let bpm = estimate_bpm(&peaks);
        BeatDetection { peaks, bpm, onset_strengths: smoothed }
    }
}

pub proof fn lemma_frame_time_monotone(a: int, b: int, hop: int, sample_rate: int)
    requires
        0 <= a <= b,
        hop >= 0,
        sample_rate > 0,
    ensures
        frame_time(a, hop, sample_rate) <= frame_time(b, hop, sample_rate),
{
    assert(a * hop * 1_000_000 <= b * hop * 1_000_000) by (nonlinear_arith)
        requires
            0 <= a <= b,
            hop >= 0,
    ;
    lemma_div_is_ordered(a * hop * 1_000_000, b * hop * 1_000_000, sample_rate);
}

/// A silent signal has no onsets: when every frame energy is 0, the smoothed
/// envelope is 0 throughout and has no peak.
pub proof fn lemma_silence_has_no_onsets(energies: Seq<u64>)
    requires
        forall|i: int| 0 <= i < energies.len() ==> energies[i] == 0,
    ensures
        forall|i: int| 0 <= i < energies.len() ==> smoothed_at(energies, 3, i) == 0,
        peak_indices(Seq::new(energies.len(), |i: int| smoothed_at(energies, 3, i) as u64), 50).len()
            == 0,
{
    assert forall|i: int| 0 <= i < energies.len() implies smoothed_at(energies, 3, i) == 0 by {
        let lo = window_start(i, 3);
        let hi = window_end(i, 3, energies.len() as int);
        lemma_sum_range_zero(energies, lo, hi);
    }
    let sm = Seq::new(energies.len(), |i: int| smoothed_at(energies, 3, i) as u64);
    let p = |i: int| is_peak(sm, 50, i);
    lemma_indices_where(sm.len() as int, p);
    if indices_where(sm.len() as int, p).len() > 0 {
        let i = indices_where(sm.len() as int, p)[0];
        assert(p(i));
        assert(sm[i] == 0 && sm[i - 1] == 0);
    }
}

proof fn lemma_sum_range_zero(s: Seq<u64>, lo: int, hi: int)
    requires
        0 <= lo,
        hi <= s.len(),
        forall|i: int| 0 <= i < s.len() ==> s[i] == 0,
    ensures
        sum_range(s, lo, hi) == 0,
    decreases hi - lo,
{
    if hi > lo {
        lemma_sum_range_zero(s, lo, hi - 1);
    }
}

} // verus!
