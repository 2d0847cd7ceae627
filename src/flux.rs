//! Onset detection, spectral-flux strategy: flux envelope, windowed peak
//! picking, tempo by autocorrelation, and the multi-band pass.

use vstd::prelude::*;
use vstd::arithmetic::div_mod::{lemma_div_is_ordered, lemma_fundamental_div_mod_converse};
use crate::note::MAX_TIME_US;
use crate::onset::{
    BeatDetection, DEFAULT_BPM, frame_time, frames_to_times, indices_where, max_of, max_value,
};
use crate::quantizer::round_div;
use crate::spectrogram::Spectrogram;

verus! {

/// Frames before and after a candidate that it must exceed.
pub const PEAK_WINDOW: usize = 3;

/// A candidate must exceed this many thousandths of the envelope's maximum.
pub const PEAK_DELTA_PERMILLE: u64 = 150;

/// Most bins a spectrogram frame may have, so that a frame's summed
/// magnitudes fit in 32 bits.
pub const MAX_BINS: usize = 0x1_0000;

/// Tempo range searched by the autocorrelation, in whole BPM.
pub const AC_MIN_BPM: u64 = 40;
pub const AC_MAX_BPM: u64 = 200;

/// Sum over bins `k < hi` of the rise of bin `k` from frame `t - 1` to
/// frame `t`, counting falls as zero.
pub open spec fn positive_rise(s: Spectrogram, t: int, hi: int) -> int
    decreases hi,
{
    if hi <= 0 {
        0
    } else {
        positive_rise(s, t, hi - 1) + if s.at(hi - 1, t) > s.at(hi - 1, t - 1) {
            s.at(hi - 1, t) - s.at(hi - 1, t - 1)
        } else {
            0
        }
    }
}

/// Spectral flux of frame `t` (0 for the first frame).
pub open spec fn flux_at(s: Spectrogram, t: int) -> int {
    if t == 0 {
        0
    } else {
        positive_rise(s, t, s.bins_spec() as int)
    }
}

/// `v` exceeds every `env[j]` with `lo <= j < hi`.
pub open spec fn exceeds_all(env: Seq<u64>, v: u64, lo: int, hi: int) -> bool {
    forall|j: int| lo <= j < hi ==> v > #[trigger] env[j]
}

/// Frame `i` is an onset: it exceeds the `pre` frames before it and the `post`
/// frames after it (the last frame has nothing after it to beat), and lies above
/// `delta_permille` thousandths of the envelope's maximum.
pub open spec fn is_onset(env: Seq<u64>, pre: int, post: int, delta_permille: int, i: int) -> bool {
    let n = env.len() as int;
    &&& 0 < i < n
    &&& pre > 0
    &&& exceeds_all(env, env[i], if i >= pre { i - pre } else { 0 }, i)
    &&& (i == n - 1 || (post > 0 && exceeds_all(
        env,
        env[i],
        i + 1,
        if i + 1 + post < n {
            i + 1 + post
        } else {
            n
        },
    )))
    &&& env[i] * 1000 > delta_permille * max_value(env)
}

pub open spec fn onset_indices(env: Seq<u64>, pre: int, post: int, delta_permille: int) -> Seq<int> {
    indices_where(env.len() as int, |i: int| is_onset(env, pre, post, delta_permille, i))
}

/// Sum of `env[i] * env[i + lag]` for `i < hi`.
pub open spec fn autocorr_prefix(env: Seq<u64>, lag: int, hi: int) -> int
    decreases hi,
{
    if hi <= 0 {
        0
    } else {
        autocorr_prefix(env, lag, hi - 1) + env[hi - 1] * env[hi - 1 + lag]
    }
}

/// Autocorrelation of the envelope at `lag`.
pub open spec fn autocorr(env: Seq<u64>, lag: int) -> int {
    autocorr_prefix(env, lag, env.len() - lag)
}

/// `60 * frames_per_second / lag` lies within 40..=200 BPM, where a second
/// holds `sample_rate / hop` frames.
pub open spec fn lag_in_range(sample_rate: int, hop: int, lag: int) -> bool {
    AC_MIN_BPM * hop * lag <= 60 * sample_rate <= AC_MAX_BPM * hop * lag
}

/// Among lags `1 <= lag < hi` in range, the first with the largest positive
/// autocorrelation, and that autocorrelation; `(0, 0)` if none is positive.
pub open spec fn best_lag(env: Seq<u64>, sample_rate: int, hop: int, hi: int) -> (int, int)
    decreases hi,
{
    if hi <= 1 {
        (0, 0)
    } else {
        let prev = best_lag(env, sample_rate, hop, hi - 1);
        let lag = hi - 1;
        if lag_in_range(sample_rate, hop, lag) && autocorr(env, lag) > prev.1 {
            (lag, autocorr(env, lag))
        } else {
            prev
        }
    }
}

/// Tempo (thousandths of a BPM) from the autocorrelation of an onset envelope.
pub open spec fn autocorr_bpm(env: Seq<u64>, sample_rate: int, hop: int) -> int {
    if env.len() < 4 {
        DEFAULT_BPM as int
    } else {
        let lag = best_lag(env, sample_rate, hop, (env.len() / 2) as int).0;
        if lag == 0 {
            DEFAULT_BPM as int
        } else {
            round_div(60_000 * sample_rate, hop * lag)
        }
    }
}

/// Bin `k` of an `n_fft`-point transform at `sample_rate` has its centre
/// frequency within `lo_hz..=hi_hz`.
pub open spec fn bin_in_band(k: int, sample_rate: int, n_fft: int, lo_hz: int, hi_hz: int) -> bool {
    lo_hz * n_fft <= k * sample_rate <= hi_hz * n_fft
}

/// Sum of the bins `k < hi` of frame `t` that lie within `lo_hz..=hi_hz`.
pub open spec fn band_sum(
    s: Spectrogram,
    t: int,
    sample_rate: int,
    n_fft: int,
    lo_hz: int,
    hi_hz: int,
    hi: int,
) -> int
    decreases hi,
{
    if hi <= 0 {
        0
    } else {
        band_sum(s, t, sample_rate, n_fft, lo_hz, hi_hz, hi - 1) + if bin_in_band(
            hi - 1,
            sample_rate,
            n_fft,
            lo_hz,
            hi_hz,
        ) {
            s.at(hi - 1, t) as int
        } else {
            0
        }
    }
}

proof fn lemma_positive_rise_bound(s: Spectrogram, t: int, hi: int)
    requires
        hi >= 0,
    ensures
        0 <= positive_rise(s, t, hi) <= hi * 0xFFFF,
    decreases hi,
{
    if hi > 0 {
        lemma_positive_rise_bound(s, t, hi - 1);
    }
}

proof fn lemma_band_sum_bound(s: Spectrogram, t: int, sr: int, n_fft: int, lo: int, hi_hz: int, hi: int)
    requires
        hi >= 0,
    ensures
        0 <= band_sum(s, t, sr, n_fft, lo, hi_hz, hi) <= hi * 0xFFFF,
    decreases hi,
{
    if hi > 0 {
        lemma_band_sum_bound(s, t, sr, n_fft, lo, hi_hz, hi - 1);
    }
}

proof fn lemma_autocorr_bound(env: Seq<u64>, lag: int, hi: int)
    requires
        hi >= 0,
        lag >= 0,
        hi + lag <= env.len(),
        forall|i: int| 0 <= i < env.len() ==> env[i] <= 0xFFFF_FFFF,
    ensures
        0 <= autocorr_prefix(env, lag, hi) <= hi * 0xFFFF_FFFF_FFFF_FFFF,
    decreases hi,
{
    if hi > 0 {
        lemma_autocorr_bound(env, lag, hi - 1);
        let x = env[hi - 1];
        let y = env[hi - 1 + lag];
        assert(0 <= x * y <= 0xFFFF_FFFF_FFFF_FFFF) by (nonlinear_arith)
            requires
                0 <= x <= 0xFFFF_FFFF,
                0 <= y <= 0xFFFF_FFFF,
        ;
    }
}

/// Spectral flux per frame: the summed rise of each bin's magnitude since the
/// previous frame (0 for the first frame).
pub fn spectral_flux(s: &Spectrogram) -> (r: Vec<u64>)
    requires
        s.bins_spec() <= MAX_BINS,
    ensures
        r@.len() == s.frames_spec(),
        forall|t: int| 0 <= t < r@.len() ==> r@[t] == flux_at(*s, t),
{
    let (bins, n) = s.shape();
    let mut r: Vec<u64> = Vec::new();
    if n == 0 {
        return r;
    }
    r.push(0);
    let mut t: usize = 1;
    while t < n
        invariant
            n == s.frames_spec(),
            bins == s.bins_spec(),
            bins <= MAX_BINS,
            1 <= t <= n,
            r@.len() == t,
            forall|k: int| 0 <= k < t ==> r@[k] == flux_at(*s, k),
        decreases n - t,
    {
        let mut sum: u64 = 0;
        let mut k: usize = 0;
        while k < bins
            invariant
                n == s.frames_spec(),
                bins == s.bins_spec(),
                bins <= MAX_BINS,
                1 <= t < n,
                k <= bins,
                sum == positive_rise(*s, t as int, k as int),
            decreases bins - k,
        {
            proof {
                lemma_positive_rise_bound(*s, t as int, k as int);
                assert(k * 0xFFFF + 0xFFFF <= 0xFFFF_FFFF) by (nonlinear_arith)
                    requires
                        k < MAX_BINS,
                ;
            }
            let cur = s.get(k, t);
            let prev = s.get(k, t - 1);
            if cur > prev {
                sum = sum + (cur - prev) as u64;
            }
            k = k + 1;
        }
        r.push(sum);
        t = t + 1;
    }
    r
}

/// Whether `v` exceeds every `env[j]` with `lo <= j < hi`.
fn exceeds_window(env: &Vec<u64>, v: u64, lo: usize, hi: usize) -> (r: bool)
    requires
        hi <= env@.len(),
    ensures
        r == exceeds_all(env@, v, lo as int, hi as int),
{
    if hi <= lo {
        return true;
    }
    let mut j: usize = lo;
    while j < hi
        invariant
            lo <= j <= hi,
            hi <= env@.len(),
            exceeds_all(env@, v, lo as int, j as int),
        decreases hi - j,
    {
        if v <= env[j] {
            assert(!(v > env@[j as int]));
            return false;
        }
        j = j + 1;
    }
    true
}

/// Onset frames of `env`: see `is_onset`.
pub fn peak_pick(env: &Vec<u64>, pre: usize, post: usize, delta_permille: u64) -> (r: Vec<usize>)
    ensures
        r@.len() == onset_indices(env@, pre as int, post as int, delta_permille as int).len(),
        forall|k: int|
            0 <= k < r@.len() ==> r@[k] as int == onset_indices(
                env@,
                pre as int,
                post as int,
                delta_permille as int,
            )[k],
{
    let ghost p = |i: int| is_onset(env@, pre as int, post as int, delta_permille as int, i);
    let n = env.len();
    let m = max_of(env);
    let mut r: Vec<usize> = Vec::new();
    let mut i: usize = 0;
    while i < n
        invariant
            n == env@.len(),
            m == max_value(env@),
            i <= n,
            p == (|i: int| is_onset(env@, pre as int, post as int, delta_permille as int, i)),
            r@.len() == indices_where(i as int, p).len(),
            forall|k: int| 0 <= k < r@.len() ==> r@[k] as int == indices_where(i as int, p)[k],
        decreases n - i,
    {
        let v = env[i];
        assert(m as u128 * delta_permille as u128 <= 0xFFFF_FFFF_FFFF_FFFF
            * 0xFFFF_FFFF_FFFF_FFFF) by (nonlinear_arith)
            requires
                m <= 0xFFFF_FFFF_FFFF_FFFF,
                delta_permille <= 0xFFFF_FFFF_FFFF_FFFF,
        ;
        let above = v as u128 * 1000 > m as u128 * delta_permille as u128;
        let mut onset = false;
        if i > 0 && pre > 0 && above {
            let lo = if i >= pre {
                i - pre
            } else {
                0
            };
            if exceeds_window(env, v, lo, i) {
                if i == n - 1 {
                    onset = true;
                } else if post > 0 {
                    let hi = if post < n - (i + 1) {
                        i + 1 + post
                    } else {
                        n
                    };
                    onset = exceeds_window(env, v, i + 1, hi);
                }
            }
        }
        assert(onset == p(i as int));
        if onset {
            r.push(i);
        }
        i = i + 1;
    }
    r
}

/// Tempo (thousandths of a BPM) from the autocorrelation of an onset envelope:
/// see `autocorr_bpm`. `hop` is the frame advance in samples.
pub fn estimate_bpm_from_env(env: &Vec<u64>, sample_rate: u32, hop: u32) -> (r: u32)
    requires
        hop > 0,
        forall|i: int| 0 <= i < env@.len() ==> env@[i] <= 0xFFFF_FFFF,
    ensures
        r == autocorr_bpm(env@, sample_rate as int, hop as int),
{
    let n = env.len();
    if n < 4 {
        return DEFAULT_BPM;
    }
    let mut best: usize = 0;
    let mut best_val: u128 = 0;
    let mut lag: usize = 1;
    while lag < n / 2
        invariant
            n == env@.len(),
            n >= 4,
            hop > 0,
            forall|i: int| 0 <= i < env@.len() ==> env@[i] <= 0xFFFF_FFFF,
            1 <= lag <= n / 2,
            (best as int, best_val as int) == best_lag(
                env@,
                sample_rate as int,
                hop as int,
                lag as int,
            ),
            best < lag,
        decreases n / 2 - lag,
    {
        let mut sum: u128 = 0;
        let mut i: usize = 0;
        while i < n - lag
            invariant
                n == env@.len(),
                1 <= lag < n,
                forall|i: int| 0 <= i < env@.len() ==> env@[i] <= 0xFFFF_FFFF,
                i <= n - lag,
                sum == autocorr_prefix(env@, lag as int, i as int),
            decreases n - lag - i,
        {
            proof {
                lemma_autocorr_bound(env@, lag as int, i as int);
                assert(i * 0xFFFF_FFFF_FFFF_FFFF + 0xFFFF_FFFF_FFFF_FFFF
                    <= 0xFFFF_FFFF_FFFF_FFFF_FFFF_FFFF_FFFF_FFFF) by (nonlinear_arith)
                    requires
                        i < 0xFFFF_FFFF_FFFF_FFFF,
                ;
                let x = env@[i as int];
                let y = env@[i + lag];
                assert(x * y <= 0xFFFF_FFFF_FFFF_FFFF) by (nonlinear_arith)
                    requires
                        0 <= x <= 0xFFFF_FFFF,
                        0 <= y <= 0xFFFF_FFFF,
                ;
            }
            sum = sum + env[i] as u128 * env[i + lag] as u128;
            i = i + 1;
        }
        assert(lag as u128 * hop as u128 <= 0xFFFF_FFFF_FFFF_FFFF * 0xFFFF_FFFF)
            by (nonlinear_arith)
            requires
                lag <= 0xFFFF_FFFF_FFFF_FFFF,
                hop <= 0xFFFF_FFFF,
        ;
        let span: u128 = lag as u128 * hop as u128;
        assert(span <= 0xFFFF_FFFF_FFFF_FFFF * 0xFFFF_FFFF);
        let in_range = 40 * span <= 60 * sample_rate as u128 && 60 * sample_rate as u128 <= 200
            * span;
        assert(in_range == lag_in_range(sample_rate as int, hop as int, lag as int)) by {
            assert(span == hop * lag) by (nonlinear_arith)
                requires
                    span == lag * hop,
            ;
            assert(AC_MIN_BPM * hop * lag == AC_MIN_BPM * (hop * lag)) by (nonlinear_arith);
            assert(AC_MAX_BPM * hop * lag == AC_MAX_BPM * (hop * lag)) by (nonlinear_arith);
        }
        if in_range && sum > best_val {
            best = lag;
            best_val = sum;
        }
        lag = lag + 1;
    }
    if best == 0 {
        return DEFAULT_BPM;
    }
    let a: u128 = 60_000 * sample_rate as u128;
    proof {
        lemma_best_lag_in_range(env@, sample_rate as int, hop as int, (n / 2) as int);
    }
    assert(hop as u128 * best as u128 <= 0xFFFF_FFFF * 0xFFFF_FFFF_FFFF_FFFF) by (nonlinear_arith)
        requires
            best <= 0xFFFF_FFFF_FFFF_FFFF,
            hop <= 0xFFFF_FFFF,
    ;
    let b: u128 = hop as u128 * best as u128;
    proof {
        assert(b > 0) by (nonlinear_arith)
            requires
                b == hop * best,
                hop > 0,
                best >= 1,
        ;
        assert(a <= 200_000 * b) by (nonlinear_arith)
            requires
                a == 60_000 * sample_rate,
                b == hop * best,
                60 * sample_rate <= AC_MAX_BPM * hop * best,
                AC_MAX_BPM == 200,
        ;
        lemma_round_div_at_most(a as int, b as int, 200_000);
    }
    ((2 * a + b) / (2 * b)) as u32
}

proof fn lemma_best_lag_in_range(env: Seq<u64>, sample_rate: int, hop: int, hi: int)
    requires
        hop > 0,
    ensures
        best_lag(env, sample_rate, hop, hi).0 == 0 || (lag_in_range(
            sample_rate,
            hop,
            best_lag(env, sample_rate, hop, hi).0,
        ) && best_lag(env, sample_rate, hop, hi).0 >= 1),
    decreases hi,
{
    if hi > 1 {
        lemma_best_lag_in_range(env, sample_rate, hop, hi - 1);
    }
}

/// `a / b` rounded is at most `c` when `a <= c * b`.
proof fn lemma_round_div_at_most(a: int, b: int, c: int)
    requires
        0 <= a,
        0 < b,
        0 <= c,
        a <= c * b,
    ensures
        round_div(a, b) <= c,
{
    assert(2 * a + b <= 2 * c * b + b) by (nonlinear_arith)
        requires
            a <= c * b,
    ;
    lemma_div_is_ordered(2 * a + b, 2 * c * b + b, 2 * b);
    assert(2 * c * b + b == c * (2 * b) + b) by (nonlinear_arith);
    lemma_fundamental_div_mod_converse(2 * c * b + b, 2 * b, c, b);
}

/// Per-frame energy of the bins within `lo_hz..=hi_hz` of an `n_fft`-point
/// transform at `sample_rate`.
pub fn band_envelope(s: &Spectrogram, sample_rate: u32, n_fft: u32, lo_hz: u32, hi_hz: u32) -> (r: Vec<u64>)
    requires
        s.bins_spec() <= MAX_BINS,
    ensures
        r@ == band_seq(*s, sample_rate as int, n_fft as int, lo_hz as int, hi_hz as int),
{
    let (bins, n) = s.shape();
    let mut r: Vec<u64> = Vec::new();
    let mut t: usize = 0;
    while t < n
        invariant
            n == s.frames_spec(),
            bins == s.bins_spec(),
            bins <= MAX_BINS,
            t <= n,
            r@.len() == t,
            forall|j: int|
                0 <= j < t ==> r@[j] == band_sum(
                    *s,
                    j,
                    sample_rate as int,
                    n_fft as int,
                    lo_hz as int,
                    hi_hz as int,
                    bins as int,
                ),
        decreases n - t,
    {
        let mut sum: u64 = 0;
        let mut k: usize = 0;
        while k < bins
            invariant
                n == s.frames_spec(),
                bins == s.bins_spec(),
                bins <= MAX_BINS,
                t < n,
                k <= bins,
                sum == band_sum(
                    *s,
                    t as int,
                    sample_rate as int,
                    n_fft as int,
                    lo_hz as int,
                    hi_hz as int,
                    k as int,
                ),
            decreases bins - k,
        {
            proof {
                lemma_band_sum_bound(
                    *s,
                    t as int,
                    sample_rate as int,
                    n_fft as int,
                    lo_hz as int,
                    hi_hz as int,
                    k as int,
                );
                assert(k * 0xFFFF + 0xFFFF <= 0xFFFF_FFFF) by (nonlinear_arith)
                    requires
                        k < MAX_BINS,
                ;
            }
            assert(k as u128 * sample_rate as u128 <= 0xFFFF_FFFF * 0xFFFF_FFFF) by (nonlinear_arith)
                requires
                    k <= MAX_BINS,
                    sample_rate <= 0xFFFF_FFFF,
            ;
            assert(lo_hz as u128 * n_fft as u128 <= 0xFFFF_FFFF * 0xFFFF_FFFF) by (nonlinear_arith)
                requires
                    lo_hz <= 0xFFFF_FFFF,
                    n_fft <= 0xFFFF_FFFF,
            ;
            assert(hi_hz as u128 * n_fft as u128 <= 0xFFFF_FFFF * 0xFFFF_FFFF) by (nonlinear_arith)
                requires
                    hi_hz <= 0xFFFF_FFFF,
                    n_fft <= 0xFFFF_FFFF,
            ;
            let f: u128 = k as u128 * sample_rate as u128;
            if lo_hz as u128 * n_fft as u128 <= f && f <= hi_hz as u128 * n_fft as u128 {
                sum = sum + s.get(k, t) as u64;
            }
            k = k + 1;
        }
        r.push(sum);
        t = t + 1;
    }
    assert(r@ =~= band_seq(*s, sample_rate as int, n_fft as int, lo_hz as int, hi_hz as int));
    r
}

/// Flux of every frame, as a sequence.
pub open spec fn flux_seq(s: Spectrogram) -> Seq<u64> {
    Seq::new(s.frames_spec(), |t: int| flux_at(s, t) as u64)
}

/// Band energy of every frame, as a sequence.
pub open spec fn band_seq(s: Spectrogram, sample_rate: int, n_fft: int, lo_hz: int, hi_hz: int) -> Seq<u64> {
    Seq::new(
        s.frames_spec(),
        |t: int| band_sum(s, t, sample_rate, n_fft, lo_hz, hi_hz, s.bins_spec() as int) as u64,
    )
}

/// Start times (microseconds) of the onset frames of `env`, picked with a
/// three-frame window on each side and a threshold of 15% of the maximum.
pub open spec fn onset_times(env: Seq<u64>, hop: int, sample_rate: int) -> Seq<u64> {
    let idx = onset_indices(env, PEAK_WINDOW as int, PEAK_WINDOW as int, PEAK_DELTA_PERMILLE as int);
    Seq::new(idx.len(), |k: int| frame_time(idx[k], hop, sample_rate) as u64)
}

/// A spectrogram that a multi-band pass accepts: at most `MAX_BINS` bins and
/// a duration that fits the time representation.
pub open spec fn spectrogram_ok(s: Spectrogram, sample_rate: int, hop: int) -> bool {
    &&& s.bins_spec() <= MAX_BINS
    &&& sample_rate > 0
    &&& hop > 0
    &&& frame_time(s.frames_spec() as int, hop, sample_rate) <= MAX_TIME_US
}

/// Onset times per instrument band from one spectrogram pass, and the tempo
/// estimated from the full-spectrum flux.
#[derive(Clone, Debug)]
pub struct BandOnsets {
    pub bpm: u32,
    pub bass: Vec<u64>,
    pub vocals: Vec<u64>,
    pub lead: Vec<u64>,
    pub drums: Vec<u64>,
}

/// The flux of a bounded spectrogram fits in 32 bits.
proof fn lemma_flux_fits(s: Spectrogram)
    requires
        s.bins_spec() <= MAX_BINS,
    ensures
        forall|t: int| 0 <= t < s.frames_spec() ==> flux_at(s, t) <= 0xFFFF_FFFF,
{
    assert forall|t: int| 0 <= t < s.frames_spec() implies flux_at(s, t) <= 0xFFFF_FFFF by {
        if t > 0 {
            lemma_positive_rise_bound(s, t, s.bins_spec() as int);
            assert(s.bins_spec() * 0xFFFF <= 0x1_0000 * 0xFFFF) by (nonlinear_arith)
                requires
                    s.bins_spec() <= 0x1_0000,
            ;
        }
    }
}

/// Onset times of `env`: see `onset_times`.
pub fn pick_onset_times(env: &Vec<u64>, hop: u32, sample_rate: u32) -> (r: Vec<u64>)
    requires
        sample_rate > 0,
        frame_time(env@.len() as int, hop as int, sample_rate as int) <= MAX_TIME_US,
    ensures
        r@ == onset_times(env@, hop as int, sample_rate as int),
{
    let idx = peak_pick(env, PEAK_WINDOW, PEAK_WINDOW, PEAK_DELTA_PERMILLE);
    let ghost oi = onset_indices(env@, PEAK_WINDOW as int, PEAK_WINDOW as int, PEAK_DELTA_PERMILLE as int);
    proof {
        crate::onset::lemma_indices_where(
            env@.len() as int,
            |i: int| is_onset(env@, PEAK_WINDOW as int, PEAK_WINDOW as int, PEAK_DELTA_PERMILLE as int, i),
        );
        assert forall|k: int| 0 <= k < idx@.len() implies frame_time(
            idx@[k] as int,
            hop as int,
            sample_rate as int,
        ) <= MAX_TIME_US by {
            assert(idx@[k] as int == oi[k]);
            crate::onset::lemma_frame_time_monotone(idx@[k] as int, env@.len() as int, hop as int, sample_rate as int);
        }
    }
    let r = frames_to_times(&idx, hop, sample_rate);
    assert(r@ =~= onset_times(env@, hop as int, sample_rate as int));
    r
}

/// Multi-band analysis in one spectrogram pass. Bins of an `n_fft`-point
/// transform are grouped into bass (up to 200 Hz), vocals (200..=3000 Hz) and
/// lead (500..=5000 Hz) energies per frame; drums use the full-spectrum flux.
/// Each band is peak-picked on its own, and the tempo comes from the
/// autocorrelation of the flux.
pub fn multi_band_onsets(s: &Spectrogram, sample_rate: u32, n_fft: u32, hop: u32) -> (r: BandOnsets)
    requires
        spectrogram_ok(*s, sample_rate as int, hop as int),
    ensures
        r.bpm == autocorr_bpm(flux_seq(*s), sample_rate as int, hop as int),
        r.bass@ == onset_times(band_seq(*s, sample_rate as int, n_fft as int, 0, 200), hop as int, sample_rate as int),
        r.vocals@ == onset_times(band_seq(*s, sample_rate as int, n_fft as int, 200, 3000), hop as int, sample_rate as int),
        r.lead@ == onset_times(band_seq(*s, sample_rate as int, n_fft as int, 500, 5000), hop as int, sample_rate as int),
        r.drums@ == onset_times(flux_seq(*s), hop as int, sample_rate as int),
{
    let flux = spectral_flux(s);
    proof {
        lemma_flux_fits(*s);
        assert(flux@ =~= flux_seq(*s));
    }
    let bpm = estimate_bpm_from_env(&flux, sample_rate, hop);
    let bass_env = band_envelope(s, sample_rate, n_fft, 0, 200);
    let vocal_env = band_envelope(s, sample_rate, n_fft, 200, 3000);
    let lead_env = band_envelope(s, sample_rate, n_fft, 500, 5000);
    let bass = pick_onset_times(&bass_env, hop, sample_rate);
    let vocals = pick_onset_times(&vocal_env, hop, sample_rate);
    let lead = pick_onset_times(&lead_env, hop, sample_rate);
    let drums = pick_onset_times(&flux, hop, sample_rate);
    BandOnsets { bpm, bass, vocals, lead, drums }
}

/// Whether a multi-band pass accepts the spectrogram: see `spectrogram_ok`.
pub fn spectrogram_fits(s: &Spectrogram, sample_rate: u32, hop: u32) -> (r: bool)
    ensures
        r == spectrogram_ok(*s, sample_rate as int, hop as int),
{
    if sample_rate == 0 || hop == 0 {
        return false;
    }
    let (bins, n) = s.shape();
    if bins > MAX_BINS {
        return false;
    }
    assert(n as u128 * hop as u128 * 1_000_000 <= 0xFFFF_FFFF_FFFF_FFFF * 0xFFFF_FFFF * 1_000_000)
        by (nonlinear_arith)
        requires
            n <= 0xFFFF_FFFF_FFFF_FFFF,
            hop <= 0xFFFF_FFFF,
    ;
    let span: u128 = n as u128 * hop as u128 * 1_000_000;
    span / sample_rate as u128 <= MAX_TIME_US as u128
}

impl BeatDetection {
    /// Spectral-flux strategy on a magnitude spectrogram: the flux envelope,
    /// its onsets (three frames each side, above 15% of the maximum) and the
    /// tempo from its autocorrelation.
    pub fn from_spectral_flux(s: &Spectrogram, sample_rate: u32, hop: u32) -> (r: BeatDetection)
        requires
            spectrogram_ok(*s, sample_rate as int, hop as int),
        ensures
            r.onset_strengths@ == flux_seq(*s),
            r.peaks@ == onset_times(flux_seq(*s), hop as int, sample_rate as int),
            r.bpm == autocorr_bpm(flux_seq(*s), sample_rate as int, hop as int),
    {
        let flux = spectral_flux(s);
        proof {
            lemma_flux_fits(*s);
            assert(flux@ =~= flux_seq(*s));
        }
        let bpm = estimate_bpm_from_env(&flux, sample_rate, hop);
        let peaks = pick_onset_times(&flux, hop, sample_rate);
        BeatDetection { peaks, bpm, onset_strengths: flux }
    }
}

} // verus!
