//! Instrument frequency bands and the band filter's bin selection.

use vstd::prelude::*;
use crate::flux::bin_in_band;
use crate::text::{eq_ignore_case, matches_ignoring_case};

verus! {

/// Frequency range (Hz) that isolates an instrument.
#[derive(Clone, Copy, Debug)]
pub struct FrequencyBand {
    pub name: &'static str,
    pub low_hz: u32,
    pub high_hz: u32,
}

/// Band limits for an instrument name (ignoring ASCII case): vocals
/// 200..4000, bass 40..250, drums 30..5000, lead 400..8000, anything else
/// 40..8000.
pub open spec fn band_limits(instrument: Seq<char>) -> (u32, u32) {
    if matches_ignoring_case(instrument, "vocals"@) {
        (200, 4000)
    } else if matches_ignoring_case(instrument, "bass"@) {
        (40, 250)
    } else if matches_ignoring_case(instrument, "drums"@) {
        (30, 5000)
    } else if matches_ignoring_case(instrument, "lead"@) {
        (400, 8000)
    } else {
        (40, 8000)
    }
}

/// Name of the band used for an instrument name.
pub open spec fn band_name(instrument: Seq<char>) -> Seq<char> {
    if matches_ignoring_case(instrument, "vocals"@) {
        "vocals"@
    } else if matches_ignoring_case(instrument, "bass"@) {
        "bass"@
    } else if matches_ignoring_case(instrument, "drums"@) {
        "drums"@
    } else if matches_ignoring_case(instrument, "lead"@) {
        "lead"@
    } else {
        "default"@
    }
}

impl FrequencyBand {
    /// The band for an instrument: see `band_limits`.
    pub fn for_instrument(instrument: &str) -> (r: FrequencyBand)
        ensures
            (r.low_hz, r.high_hz) == band_limits(instrument@),
            r.name@ == band_name(instrument@),
    {
        if eq_ignore_case(instrument, "vocals") {
            FrequencyBand { name: "vocals", low_hz: 200, high_hz: 4000 }
        } else if eq_ignore_case(instrument, "bass") {
            FrequencyBand { name: "bass", low_hz: 40, high_hz: 250 }
        } else if eq_ignore_case(instrument, "drums") {
            FrequencyBand { name: "drums", low_hz: 30, high_hz: 5000 }
        } else if eq_ignore_case(instrument, "lead") {
            FrequencyBand { name: "lead", low_hz: 400, high_hz: 8000 }
        } else {
            FrequencyBand { name: "default", low_hz: 40, high_hz: 8000 }
        }
    }
}

/// Number of full frames of `fft_size` samples, `hop` apart, in `n` samples.
pub open spec fn full_frames(n: int, fft_size: int, hop: int) -> int {
    if n < fft_size {
        0
    } else {
        (n - fft_size) / hop + 1
    }
}

/// Which bins of an `fft_size`-point transform a band filter keeps: see
/// `bin_in_band`. All other bins are zeroed before the inverse transform.
pub fn band_bin_mask(sample_rate: u32, fft_size: u32, band: &FrequencyBand) -> (r: Vec<bool>)
    ensures
        r@.len() == fft_size,
        forall|k: int|
            0 <= k < fft_size ==> r@[k] == bin_in_band(
                k,
                sample_rate as int,
                fft_size as int,
                band.low_hz as int,
                band.high_hz as int,
            ),
{
    let mut r: Vec<bool> = Vec::new();
    let mut k: u32 = 0;
    assert(band.low_hz as u64 * fft_size as u64 <= 0xFFFF_FFFF * 0xFFFF_FFFF) by (nonlinear_arith)
        requires
            band.low_hz <= 0xFFFF_FFFF,
            fft_size <= 0xFFFF_FFFF,
    ;
    assert(band.high_hz as u64 * fft_size as u64 <= 0xFFFF_FFFF * 0xFFFF_FFFF) by (nonlinear_arith)
        requires
            band.high_hz <= 0xFFFF_FFFF,
            fft_size <= 0xFFFF_FFFF,
    ;
    let lo: u64 = band.low_hz as u64 * fft_size as u64;
    let hi: u64 = band.high_hz as u64 * fft_size as u64;
    while k < fft_size
        invariant
            k <= fft_size,
            r@.len() == k,
            lo == band.low_hz * fft_size,
            hi == band.high_hz * fft_size,
            forall|j: int|
                0 <= j < k ==> r@[j] == bin_in_band(
                    j,
                    sample_rate as int,
                    fft_size as int,
                    band.low_hz as int,
                    band.high_hz as int,
                ),
        decreases fft_size - k,
    {
        assert(k as u64 * sample_rate as u64 <= 0xFFFF_FFFF * 0xFFFF_FFFF) by (nonlinear_arith)
            requires
                k <= 0xFFFF_FFFF,
                sample_rate <= 0xFFFF_FFFF,
        ;
        let f: u64 = k as u64 * sample_rate as u64;
        r.push(lo <= f && f <= hi);
        k = k + 1;
    }
    r
}

/// How many full analysis frames a band filter processes in `n` samples.
pub fn frame_count(n: usize, fft_size: usize, hop: usize) -> (r: usize)
    requires
        hop > 0,
        fft_size > 0,
    ensures
        r == full_frames(n as int, fft_size as int, hop as int),
{
    if n < fft_size {
        0
    } else {
        assert((n - fft_size) / (hop as int) <= n - fft_size) by (nonlinear_arith)
            requires
                n >= fft_size,
                hop >= 1,
        {
            vstd::arithmetic::div_mod::lemma_div_is_ordered_by_denominator(
                (n - fft_size) as int,
                1,
                hop as int,
            );
        }
        (n - fft_size) / hop + 1
    }
}

} // verus!
