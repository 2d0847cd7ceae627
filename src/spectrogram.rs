//! Magnitude spectrograms held in an `ndarray` array.

use vstd::prelude::*;
use crate::flux::MAX_BINS;
use crate::holds::{MAX_TIME_MS, SpectrumSample};

verus! {

/// Magnitude spectrogram: one row per frequency bin, one column per frame,
/// held in an `ndarray::Array2`.
#[verifier::external_body]
pub struct Spectrogram {
    cells: ndarray::Array2<u16>,
}

/// The magnitudes by bin, then frame: `spectrogram_cells(s)[k][t]` is bin `k`
/// of frame `t`.
pub uninterp spec fn spectrogram_cells(s: Spectrogram) -> Seq<Seq<u16>>;

/// Number of frames (columns), also when there are no bins.
pub uninterp spec fn spectrogram_frames(s: Spectrogram) -> nat;

impl Spectrogram {
    pub open spec fn bins_spec(&self) -> nat {
        spectrogram_cells(*self).len()
    }

    pub open spec fn frames_spec(&self) -> nat {
        spectrogram_frames(*self)
    }

    /// Magnitude of bin `k` in frame `t`.
    pub open spec fn at(&self, k: int, t: int) -> u16 {
        spectrogram_cells(*self)[k][t]
    }

    /// Relies on `ndarray::Array2::zeros`: a `bins` by `frames` array of zeros;
    /// it panics when an axis length or the element count overflows `isize`,
    /// and its buffer of two bytes per element must fit in `isize` too.
    #[verifier::external_body]
    fn zeros(bins: usize, frames: usize) -> (r: Spectrogram)
        requires
            bins <= isize::MAX,
            frames <= isize::MAX,
            bins * frames * 2 <= isize::MAX,
        ensures
            spectrogram_cells(r).len() == bins,
            spectrogram_frames(r) == frames,
            forall|k: int, t: int| 0 <= k < bins && 0 <= t < frames ==> spectrogram_cells(r)[k][t] == 0,
            forall|k: int| 0 <= k < bins ==> (#[trigger] spectrogram_cells(r)[k]).len() == frames,
    {
        Spectrogram { cells: ndarray::Array2::zeros((bins, frames)) }
    }

    /// Relies on `ArrayBase::dim`: the number of rows (bins) and columns
    /// (frames); every row has one entry per column.
    #[verifier::external_body]
    pub fn shape(&self) -> (r: (usize, usize))
        ensures
            r.0 == spectrogram_cells(*self).len(),
            r.1 == spectrogram_frames(*self),
            forall|k: int| 0 <= k < r.0 ==> (#[trigger] spectrogram_cells(*self)[k]).len() == r.1,
    {
        self.cells.dim()
    }

    /// Relies on indexing an `ndarray::Array2` by `[bin, frame]`, which panics
    /// out of bounds.
    #[verifier::external_body]
    pub fn get(&self, bin: usize, frame: usize) -> (r: u16)
        requires
            bin < self.bins_spec(),
            frame < self.frames_spec(),
        ensures
            r == spectrogram_cells(*self)[bin as int][frame as int],
    {
        self.cells[[bin, frame]]
    }

    /// Relies on assigning through an `ndarray::Array2` index `[bin, frame]`:
    /// only that cell changes.
    #[verifier::external_body]
    fn set(&mut self, bin: usize, frame: usize, value: u16)
        requires
            bin < old(self).bins_spec(),
            frame < old(self).frames_spec(),
        ensures
            spectrogram_frames(*final(self)) == spectrogram_frames(*old(self)),
            spectrogram_cells(*final(self)) == spectrogram_cells(*old(self)).update(
                bin as int,
                spectrogram_cells(*old(self))[bin as int].update(frame as int, value),
            ),
    {
        self.cells[[bin, frame]] = value;
    }

    /// Frames that `from_frames` accepts: all as long as the first, both
    /// dimensions and a buffer size (two bytes a cell) that `isize` counts.
    pub open spec fn frames_ok(frames: Seq<Vec<u16>>) -> bool {
        &&& forall|t: int| 0 <= t < frames.len() ==> (#[trigger] frames[t])@.len() == frames[0]@.len()
        &&& frames.len() <= isize::MAX
        &&& frames.len() > 0 ==> frames[0]@.len() <= isize::MAX && frames[0]@.len() * frames.len() * 2
            <= isize::MAX
    }

    /// Whether `from_frames` accepts `frames`: see `frames_ok`.
    pub fn frames_fit(frames: &Vec<Vec<u16>>) -> (r: bool)
        ensures
            r == Spectrogram::frames_ok(frames@),
    {
        let n = frames.len();
        if n > isize::MAX as usize {
            return false;
        }
        if n == 0 {
            return true;
        }
        let bins = frames[0].len();
        if bins > isize::MAX as usize {
            return false;
        }
        assert(bins as u128 * n as u128 <= 0xFFFF_FFFF_FFFF_FFFF * 0xFFFF_FFFF_FFFF_FFFF) by (nonlinear_arith)
            requires
                bins <= 0xFFFF_FFFF_FFFF_FFFF,
                n <= 0xFFFF_FFFF_FFFF_FFFF,
        ;
        if bins as u128 * n as u128 > isize::MAX as u128 / 2 {
            return false;
        }
        let mut t: usize = 0;
        while t < n
            invariant
                n == frames@.len(),
                n > 0,
                bins == frames@[0]@.len(),
                t <= n,
                forall|j: int| 0 <= j < t ==> (#[trigger] frames@[j])@.len() == bins,
            decreases n - t,
        {
            if frames[t].len() != bins {
                return false;
            }
            t = t + 1;
        }
        true
    }

    /// A spectrogram from frames of equal length (the first frame's length
    /// sets the number of bins).
    pub fn from_frames(frames: &Vec<Vec<u16>>) -> (r: Spectrogram)
        requires
            Spectrogram::frames_ok(frames@),
        ensures
            r.frames_spec() == frames@.len(),
            r.bins_spec() == (if frames@.len() > 0 {
                frames@[0]@.len()
            } else {
                0
            }),
            forall|k: int, t: int|
                0 <= k < r.bins_spec() && 0 <= t < r.frames_spec() ==> r.at(k, t) == frames@[t]@[k],
    {
        let n = frames.len();
        let bins = if n > 0 {
            frames[0].len()
        } else {
            0
        };
        let mut s = Spectrogram::zeros(bins, n);
        let mut t: usize = 0;
        while t < n
            invariant
                n == frames@.len(),
                bins == (if n > 0 {
                    frames@[0]@.len()
                } else {
                    0
                }),
                forall|t: int| 0 <= t < frames@.len() ==> (#[trigger] frames@[t])@.len() == frames@[0]@.len(),
                t <= n,
                s.bins_spec() == bins,
                s.frames_spec() == n,
                forall|k: int| 0 <= k < bins ==> (#[trigger] spectrogram_cells(s)[k]).len() == n,
                forall|k: int, j: int| 0 <= k < bins && 0 <= j < t ==> s.at(k, j) == frames@[j]@[k],
            decreases n - t,
        {
            assert(frames@[t as int]@.len() == bins);
            let mut k: usize = 0;
            while k < bins
                invariant
                    n == frames@.len(),
                    t < n,
                    frames@[t as int]@.len() == bins,
                    k <= bins,
                    s.bins_spec() == bins,
                    s.frames_spec() == n,
                    forall|k: int| 0 <= k < bins ==> (#[trigger] spectrogram_cells(s)[k]).len() == n,
                    forall|i: int, j: int| 0 <= i < bins && 0 <= j < t ==> s.at(i, j) == frames@[j]@[i],
                    forall|i: int| 0 <= i < k ==> s.at(i, t as int) == frames@[t as int]@[i],
                decreases bins - k,
            {
                let v = frames[t][k];
                let ghost old_s = s;
                let ghost before = spectrogram_cells(s);
                s.set(k, t, v);
                proof {
                    assert forall|i: int| 0 <= i < bins implies (#[trigger] spectrogram_cells(s)[i]).len() == n by {
                        if i == k {
                            assert(spectrogram_cells(s)[i] == before[i].update(t as int, v));
                        } else {
                            assert(spectrogram_cells(s)[i] == before[i]);
                        }
                    }
                    assert forall|i: int, j: int| 0 <= i < bins && 0 <= j < t implies s.at(i, j) == frames@[j]@[i] by {
                        assert(old_s.at(i, j) == frames@[j]@[i]);
                        if i == k {
                            assert(spectrogram_cells(s)[i] == before[i].update(t as int, v));
                        } else {
                            assert(spectrogram_cells(s)[i] == before[i]);
                        }
                    }
                    assert forall|i: int| 0 <= i <= k implies s.at(i, t as int) == frames@[t as int]@[i] by {
                        if i < k {
                            assert(old_s.at(i, t as int) == frames@[t as int]@[i]);
                        }
                        if i == k {
                            assert(spectrogram_cells(s)[i] == before[i].update(t as int, v));
                        } else {
                            assert(spectrogram_cells(s)[i] == before[i]);
                        }
                    }
                }
                k = k + 1;
            }
            t = t + 1;
        }
        s
    }
}

/// Sum of the bins `k < hi` of frame `t` whose centre frequency
/// `k * sample_rate / n_fft` lies in the 100 Hz bucket `b`.
pub open spec fn bucket_sum(s: Spectrogram, t: int, sample_rate: int, n_fft: int, b: int, hi: int) -> int
    decreases hi,
{
    if hi <= 0 {
        0
    } else {
        bucket_sum(s, t, sample_rate, n_fft, b, hi - 1) + if (hi - 1) * sample_rate / (n_fft * 100) == b {
            s.at(hi - 1, t) as int
        } else {
            0
        }
    }
}

/// Millisecond at which frame `t` starts.
pub open spec fn sample_time_ms(t: int, hop: int, sample_rate: int) -> int {
    t * hop * 1000 / sample_rate
}

/// `x` held to the 16-bit range.
pub open spec fn capped(x: int) -> u16 {
    if x > 0xFFFF {
        0xFFFF
    } else {
        x as u16
    }
}

proof fn lemma_bucket_sum_bound(s: Spectrogram, t: int, sample_rate: int, n_fft: int, b: int, hi: int)
    requires
        hi >= 0,
    ensures
        0 <= bucket_sum(s, t, sample_rate, n_fft, b, hi) <= hi * 0xFFFF,
    decreases hi,
{
    if hi > 0 {
        lemma_bucket_sum_bound(s, t, sample_rate, n_fft, b, hi - 1);
    }
}

impl Spectrogram {
    /// Time-indexed spectra for lane assignment and hold detection: frame `t`
    /// at `t * hop * 1000 / sample_rate` ms, with one 100 Hz bucket per entry
    /// (the first `buckets` of them), each the capped sum of its bins.
    pub fn to_samples(&self, sample_rate: u32, n_fft: u32, hop: u32, buckets: usize) -> (r: Vec<SpectrumSample>)
        requires
            sample_rate > 0,
            n_fft > 0,
            self.bins_spec() <= MAX_BINS,
            sample_time_ms(self.frames_spec() as int, hop as int, sample_rate as int) <= MAX_TIME_MS,
        ensures
            r@.len() == self.frames_spec(),
            forall|t: int|
                0 <= t < r@.len() ==> (#[trigger] r@[t]).time_ms == sample_time_ms(t, hop as int, sample_rate as int)
                    && r@[t].bins@ == Seq::new(
                    buckets as nat,
                    |b: int|
                        capped(
                            bucket_sum(*self, t, sample_rate as int, n_fft as int, b, self.bins_spec() as int),
                        ),
                ),
    {
        let (bins, n) = self.shape();
        let mut r: Vec<SpectrumSample> = Vec::new();
        let mut t: usize = 0;
        while t < n
            invariant
                n == self.frames_spec(),
                bins == self.bins_spec(),
                bins <= MAX_BINS,
                sample_rate > 0,
                n_fft > 0,
                sample_time_ms(n as int, hop as int, sample_rate as int) <= MAX_TIME_MS,
                t <= n,
                r@.len() == t,
                forall|j: int|
                    0 <= j < t ==> (#[trigger] r@[j]).time_ms == sample_time_ms(j, hop as int, sample_rate as int)
                        && r@[j].bins@ == Seq::new(
                        buckets as nat,
                        |b: int| capped(bucket_sum(*self, j, sample_rate as int, n_fft as int, b, bins as int)),
                    ),
            decreases n - t,
        {
            let mut acc: Vec<u64> = vec![0u64; buckets];
            assert forall|b: int| 0 <= b < buckets implies acc@[b] == bucket_sum(
                *self,
                t as int,
                sample_rate as int,
                n_fft as int,
                b,
                0,
            ) by {}
            let mut k: usize = 0;
            while k < bins
                invariant
                    n == self.frames_spec(),
                    bins == self.bins_spec(),
                    bins <= MAX_BINS,
                    sample_rate > 0,
                    n_fft > 0,
                    t < n,
                    k <= bins,
                    acc@.len() == buckets,
                    forall|b: int|
                        0 <= b < buckets ==> #[trigger] acc@[b] == bucket_sum(
                            *self,
                            t as int,
                            sample_rate as int,
                            n_fft as int,
                            b,
                            k as int,
                        ),
                decreases bins - k,
            {
                assert(k as u64 * sample_rate as u64 <= 0x1_0000 * 0xFFFF_FFFF) by (nonlinear_arith)
                    requires
                        k <= 0x1_0000,
                        sample_rate <= 0xFFFF_FFFF,
                ;
                assert(n_fft as u64 * 100 <= 0xFFFF_FFFF * 100);
                let num: u64 = k as u64 * sample_rate as u64;
                let den: u64 = n_fft as u64 * 100;
                let q: u64 = num / den;
                assert(q <= num) by {
                    vstd::arithmetic::div_mod::lemma_div_is_ordered_by_denominator(num as int, 1, den as int);
                }
                assert(num as int == (k as int) * (sample_rate as int));
                assert(den as int == (n_fft as int) * 100);
                let ghost before = acc@;
                if q < buckets as u64 {
                    let b = q as usize;
                    proof {
                        lemma_bucket_sum_bound(*self, t as int, sample_rate as int, n_fft as int, b as int, k as int);
                        assert(k * 0xFFFF + 0xFFFF <= 0x1_0000 * 0xFFFF) by (nonlinear_arith)
                            requires
                                k < 0x1_0000,
                        ;
                    }
                    let v = acc[b] + self.get(k, t) as u64;
                    acc.set(b, v);
                    assert(acc@[b as int] == before[b as int] + self.at(k as int, t as int));
                }
                proof {
                    assert forall|c: int| 0 <= c < buckets implies #[trigger] acc@[c] == bucket_sum(
                        *self,
                        t as int,
                        sample_rate as int,
                        n_fft as int,
                        c,
                        k + 1,
                    ) by {
                        assert(before[c] == bucket_sum(
                            *self,
                            t as int,
                            sample_rate as int,
                            n_fft as int,
                            c,
                            k as int,
                        ));
                        if c != q {
                            assert(acc@[c] == before[c]);
                        }
                    }
                }
                k = k + 1;
            }
            let mut out: Vec<u16> = Vec::new();
            let mut b: usize = 0;
            while b < buckets
                invariant
                    acc@.len() == buckets,
                    b <= buckets,
                    out@.len() == b,
                    forall|c: int|
                        0 <= c < buckets ==> #[trigger] acc@[c] == bucket_sum(
                            *self,
                            t as int,
                            sample_rate as int,
                            n_fft as int,
                            c,
                            bins as int,
                        ),
                    forall|c: int|
                        0 <= c < b ==> #[trigger] out@[c] == capped(
                            bucket_sum(*self, t as int, sample_rate as int, n_fft as int, c, bins as int),
                        ),
                decreases buckets - b,
            {
                let v = acc[b];
                out.push(if v > 0xFFFF {
                    0xFFFF
                } else {
                    v as u16
                });
                b = b + 1;
            }
            proof {
                assert(t * hop * 1000 <= n * hop * 1000) by (nonlinear_arith)
                    requires
                        t <= n,
                ;
                vstd::arithmetic::div_mod::lemma_div_is_ordered(
                    t * hop * 1000,
                    n * hop * 1000,
                    sample_rate as int,
                );
            }
            assert(t as u128 * hop as u128 * 1000 <= 0xFFFF_FFFF_FFFF_FFFF * 0xFFFF_FFFF * 1000) by (nonlinear_arith)
                requires
                    t <= 0xFFFF_FFFF_FFFF_FFFF,
                    hop <= 0xFFFF_FFFF,
            ;
            let ms = (t as u128 * hop as u128 * 1000 / sample_rate as u128) as u64;
            let ghost ob = out@;
            r.push(SpectrumSample { time_ms: ms, bins: out });
            assert(r@[t as int].bins@ =~= Seq::new(
                buckets as nat,
                |c: int| capped(bucket_sum(*self, t as int, sample_rate as int, n_fft as int, c, bins as int)),
            ));
            t = t + 1;
        }
        r
    }
}

} // verus!
