//! Hold detection: sustained band energy and same-lane merging.

use vstd::prelude::*;
use crate::flux::MAX_BINS;
use crate::note::{MAX_TIME_US, Note};

verus! {

/// Largest spectrum time (milliseconds) accepted, so that durations in
/// microseconds fit the time representation.
pub const MAX_TIME_MS: u64 = 281_474_976_710;

/// Magnitude spectrum observed at `time_ms`; bin `k` covers `k * 100` Hz.
#[derive(Clone, Debug)]
pub struct SpectrumSample {
    pub time_ms: u64,
    pub bins: Vec<u16>,
}

/// Samples strictly ascending in time, each with a bounded number of bins and a
/// time within range.
pub open spec fn spectra_ok(samples: Seq<SpectrumSample>) -> bool {
    &&& forall|i: int, j: int| 0 <= i < j < samples.len() ==> samples[i].time_ms < samples[j].time_ms
    &&& forall|i: int|
        0 <= i < samples.len() ==> (#[trigger] samples[i]).bins@.len() <= MAX_BINS
            && samples[i].time_ms <= MAX_TIME_MS
}

/// Sum of `s[lo..hi]`.
pub open spec fn sum_bins(s: Seq<u16>, lo: int, hi: int) -> int
    decreases hi - lo,
{
    if hi <= lo {
        0
    } else {
        sum_bins(s, lo, hi - 1) + s[hi - 1]
    }
}

/// Energy between `low_hz` and `high_hz`: the bins from `round(low_hz / 100)`
/// to `round(high_hz / 100)` inclusive, cut at the last bin.
pub open spec fn band_energy(bins: Seq<u16>, low_hz: int, high_hz: int) -> int {
    let lo = (low_hz + 50) / 100;
    let hi = if (high_hz + 50) / 100 < bins.len() - 1 {
        (high_hz + 50) / 100
    } else {
        bins.len() - 1
    };
    if bins.len() == 0 || lo > hi {
        0
    } else {
        sum_bins(bins, lo, hi + 1)
    }
}

/// Index of the first sample at or after `t` (the length if none).
pub open spec fn first_from(samples: Seq<SpectrumSample>, t: int, i: int) -> int
    decreases samples.len() - i,
{
    if i >= samples.len() || samples[i].time_ms >= t {
        i
    } else {
        first_from(samples, t, i + 1)
    }
}

/// Number of consecutive samples from `i` whose band energy reaches `threshold`.
pub open spec fn run_length(samples: Seq<SpectrumSample>, i: int, low_hz: int, high_hz: int, threshold: int) -> int
    decreases samples.len() - i,
{
    if i < 0 || i >= samples.len() || band_energy(samples[i].bins@, low_hz, high_hz) < threshold {
        0
    } else {
        1 + run_length(samples, i + 1, low_hz, high_hz, threshold)
    }
}

/// How long (microseconds) the band energy stays at or above `threshold`
/// from `start_ms` on: up to the last sample of the unbroken run that begins
/// with the first sample at or after `start_ms`.
pub open spec fn sustained_us(samples: Seq<SpectrumSample>, start_ms: int, low_hz: int, high_hz: int, threshold: int) -> int {
    let s = first_from(samples, start_ms, 0);
    let run = run_length(samples, s, low_hz, high_hz, threshold);
    if run == 0 {
        0
    } else {
        (samples[s + run - 1].time_ms - start_ms) * 1000
    }
}

/// First entry of `ranges` for `lane`, if any.
pub open spec fn range_index(ranges: Seq<(u8, u32, u32)>, lane: u8, i: int) -> int
    decreases ranges.len() - i,
{
    if i >= ranges.len() || ranges[i].0 == lane {
        i
    } else {
        range_index(ranges, lane, i + 1)
    }
}

/// End (microseconds) of the later-ending of `a` and `b`.
pub open spec fn later_end(a: Note, b: Note) -> int {
    if a.time + a.duration >= b.time + b.duration {
        a.time + a.duration
    } else {
        b.time + b.duration
    }
}

/// `cur` absorbs the following same-lane notes that start within `gap` of
/// its end, stretching to cover each of them; the result lists the notes that
/// remain, in order.
pub open spec fn merge_from(cur: Note, rest: Seq<Note>, gap: int) -> Seq<Note>
    decreases rest.len(),
{
    if rest.len() == 0 {
        seq![cur]
    } else {
        let n = rest[0];
        if n.time <= cur.time + cur.duration + gap && n.col == cur.col {
            merge_from(
                Note { time: cur.time, col: cur.col, duration: (later_end(cur, n) - cur.time) as u64 },
                rest.drop_first(),
                gap,
            )
        } else {
            seq![cur] + merge_from(n, rest.drop_first(), gap)
        }
    }
}

pub open spec fn merged(notes: Seq<Note>, gap: int) -> Seq<Note> {
    if notes.len() < 2 {
        notes
    } else {
        merge_from(notes[0], notes.drop_first(), gap)
    }
}

/// `r` covers `n`: same lane, starting no later and ending no earlier.
pub open spec fn covers(r: Note, n: Note) -> bool {
    r.col == n.col && r.time <= n.time && n.time + n.duration <= r.time + r.duration
}

/// Some note of `s` covers `n`.
pub open spec fn covered_in(s: Seq<Note>, n: Note) -> bool {
    exists|j: int| 0 <= j < s.len() && covers(#[trigger] s[j], n)
}

proof fn lemma_merge_from_covers(cur: Note, rest: Seq<Note>, gap: int)
    requires
        gap >= 0,
        cur.time + cur.duration <= MAX_TIME_US,
        forall|i: int| 0 <= i < rest.len() ==> cur.time <= #[trigger] rest[i].time,
        forall|i: int, j: int| 0 <= i <= j < rest.len() ==> rest[i].time <= rest[j].time,
        forall|i: int| 0 <= i < rest.len() ==> #[trigger] rest[i].time + rest[i].duration <= MAX_TIME_US,
    ensures
        covered_in(merge_from(cur, rest, gap), cur),
        forall|i: int| 0 <= i < rest.len() ==> covered_in(merge_from(cur, rest, gap), #[trigger] rest[i]),
    decreases rest.len(),
{
    let out = merge_from(cur, rest, gap);
    if rest.len() == 0 {
        assert(covers(out[0], cur));
    } else {
        let n = rest[0];
        let tail = rest.drop_first();
        assert forall|i: int| 0 <= i < tail.len() implies tail[i] == rest[i + 1] by {}
        if n.time <= cur.time + cur.duration + gap && n.col == cur.col {
            let merged_note = Note { time: cur.time, col: cur.col, duration: (later_end(cur, n) - cur.time) as u64 };
            lemma_merge_from_covers(merged_note, tail, gap);
            let j = choose|j: int| 0 <= j < out.len() && covers(#[trigger] out[j], merged_note);
            assert(covers(out[j], cur));
            assert(covers(out[j], n));
            assert forall|i: int| 0 <= i < rest.len() implies covered_in(out, #[trigger] rest[i]) by {
                if i == 0 {
                    assert(covers(out[j], rest[0]));
                } else {
                    assert(rest[i] == tail[i - 1]);
                    assert(covered_in(out, tail[i - 1]));
                }
            }
        } else {
            lemma_merge_from_covers(n, tail, gap);
            let inner = merge_from(n, tail, gap);
            assert(out == seq![cur] + inner);
            assert(covers(out[0], cur));
            assert forall|i: int| 0 <= i < rest.len() implies covered_in(out, #[trigger] rest[i]) by {
                let x = rest[i];
                if i == 0 {
                    assert(covered_in(inner, n));
                } else {
                    assert(rest[i] == tail[i - 1]);
                    assert(covered_in(inner, tail[i - 1]));
                }
                let j = choose|j: int| 0 <= j < inner.len() && covers(#[trigger] inner[j], x);
                assert(out[j + 1] == inner[j]);
            }
        }
    }
}

/// Merging loses no note: every input note lies within a merged note of its
/// lane that starts no later and ends no earlier.
pub proof fn lemma_merge_covers(notes: Seq<Note>, gap: u64)
    requires
        forall|i: int, j: int| 0 <= i <= j < notes.len() ==> notes[i].time <= notes[j].time,
        forall|i: int| 0 <= i < notes.len() ==> #[trigger] notes[i].time + notes[i].duration <= MAX_TIME_US,
    ensures
        forall|i: int| 0 <= i < notes.len() ==> covered_in(merged(notes, gap as int), #[trigger] notes[i]),
{
    if notes.len() < 2 {
        assert forall|i: int| 0 <= i < notes.len() implies covered_in(merged(notes, gap as int), #[trigger] notes[i]) by {
            assert(covers(notes[i], notes[i]));
        }
    } else {
        let tail = notes.drop_first();
        assert forall|i: int| 0 <= i < tail.len() implies tail[i] == notes[i + 1] by {}
        lemma_merge_from_covers(notes[0], tail, gap as int);
        assert forall|i: int| 0 <= i < notes.len() implies covered_in(merged(notes, gap as int), #[trigger] notes[i]) by {
            if i > 0 {
                assert(notes[i] == tail[i - 1]);
            }
        }
    }
}

pub proof fn lemma_sum_bins_bound(s: Seq<u16>, lo: int, hi: int)
    requires
        lo <= hi,
    ensures
        0 <= sum_bins(s, lo, hi) <= (hi - lo) * 0xFFFF,
    decreases hi - lo,
{
    if hi > lo {
        lemma_sum_bins_bound(s, lo, hi - 1);
    }
}

proof fn lemma_first_from(samples: Seq<SpectrumSample>, t: int, i: int)
    requires
        0 <= i <= samples.len(),
    ensures
        i <= first_from(samples, t, i) <= samples.len(),
        first_from(samples, t, i) < samples.len() ==> samples[first_from(samples, t, i)].time_ms >= t,
    decreases samples.len() - i,
{
    if i < samples.len() && samples[i].time_ms < t {
        lemma_first_from(samples, t, i + 1);
    }
}

proof fn lemma_run_length(samples: Seq<SpectrumSample>, i: int, lo: int, hi: int, thr: int)
    requires
        0 <= i <= samples.len(),
    ensures
        0 <= run_length(samples, i, lo, hi, thr) <= samples.len() - i,
    decreases samples.len() - i,
{
    if i < samples.len() && band_energy(samples[i].bins@, lo, hi) >= thr {
        lemma_run_length(samples, i + 1, lo, hi, thr);
    }
}

/// Turns taps into holds where the energy in the lane's frequency range is
/// sustained. `sustain_threshold` is in spectrum magnitude units,
/// `min_hold_duration` in microseconds.
#[derive(Clone, Copy, Debug)]
pub struct HoldDetector {
    pub sustain_threshold: u64,
    pub min_hold_duration: u64,
}

impl HoldDetector {
    pub fn new(sustain_threshold: u64, min_hold_duration: u64) -> (r: HoldDetector)
        ensures
            r.sustain_threshold == sustain_threshold,
            r.min_hold_duration == min_hold_duration,
    {
        HoldDetector { sustain_threshold, min_hold_duration }
    }

    /// `n` after hold detection: its lane's first range decides the band; a
    /// sustained duration of at least `min_hold_duration` becomes its duration.
    pub open spec fn with_hold(&self, n: Note, samples: Seq<SpectrumSample>, ranges: Seq<(u8, u32, u32)>) -> Note {
        let ri = range_index(ranges, n.col, 0);
        if ri >= ranges.len() {
            n
        } else {
            let d = sustained_us(
                samples,
                (n.time / 1000) as int,
                ranges[ri].1 as int,
                ranges[ri].2 as int,
                self.sustain_threshold as int,
            );
            if d >= self.min_hold_duration {
                Note { time: n.time, col: n.col, duration: d as u64 }
            } else {
                n
            }
        }
    }

    /// Energy of `spectrum` between `freq_low` and `freq_high`: see `band_energy`.
    pub fn get_band_energy(&self, spectrum: &Vec<u16>, freq_low: u32, freq_high: u32) -> (r: u64)
        requires
            spectrum@.len() <= MAX_BINS,
        ensures
            r == band_energy(spectrum@, freq_low as int, freq_high as int),
    {
        let n = spectrum.len();
        if n == 0 {
            return 0;
        }
        let lo: u64 = (freq_low as u64 + 50) / 100;
        let top: u64 = (freq_high as u64 + 50) / 100;
        let hi: usize = if top < (n - 1) as u64 {
            top as usize
        } else {
            n - 1
        };
        if lo > hi as u64 {
            return 0;
        }
        let lo = lo as usize;
        let mut sum: u64 = 0;
        let mut k: usize = lo;
        while k <= hi
            invariant
                lo <= k <= hi + 1,
                hi < n,
                n == spectrum@.len(),
                n <= MAX_BINS,
                sum == sum_bins(spectrum@, lo as int, k as int),
            decreases hi + 1 - k,
        {
            proof {
                lemma_sum_bins_bound(spectrum@, lo as int, k as int);
                assert((k - lo) * 0xFFFF + 0xFFFF <= 0x1_0000 * 0xFFFF) by (nonlinear_arith)
                    requires
                        k - lo < 0x1_0000,
                ;
            }
            sum = sum + spectrum[k] as u64;
            k = k + 1;
        }
        sum
    }

    /// Duration (microseconds) that energy in `freq_low..freq_high` is
    /// sustained from `start_time_ms`: see `sustained_us`.
    pub fn find_sustained_energy(
        &self,
        samples: &Vec<SpectrumSample>,
        start_time_ms: u64,
        freq_low: u32,
        freq_high: u32,
    ) -> (r: u64)
        requires
            spectra_ok(samples@),
        ensures
            r == sustained_us(
                samples@,
                start_time_ms as int,
                freq_low as int,
                freq_high as int,
                self.sustain_threshold as int,
            ),
    {
        let n = samples.len();
        let mut s: usize = 0;
        while s < n && samples[s].time_ms < start_time_ms
            invariant
                s <= n,
                n == samples@.len(),
                first_from(samples@, start_time_ms as int, s as int) == first_from(
                    samples@,
                    start_time_ms as int,
                    0,
                ),
            decreases n - s,
        {
            s = s + 1;
        }
        proof {
            lemma_first_from(samples@, start_time_ms as int, 0);
        }
        let ghost thr = self.sustain_threshold as int;
        let mut i: usize = s;
        let mut duration: u64 = 0;
        while i < n
            invariant
                s <= i <= n,
                n == samples@.len(),
                thr == self.sustain_threshold as int,
                spectra_ok(samples@),
                s == first_from(samples@, start_time_ms as int, 0),
                s < n ==> samples@[s as int].time_ms >= start_time_ms,
                run_length(samples@, s as int, freq_low as int, freq_high as int, thr) == (i - s)
                    + run_length(samples@, i as int, freq_low as int, freq_high as int, thr),
                i == s ==> duration == 0,
                i > s ==> duration == (samples@[i - 1].time_ms - start_time_ms) * 1000,
            ensures
                i < n ==> run_length(samples@, i as int, freq_low as int, freq_high as int, thr) == 0,
                run_length(samples@, s as int, freq_low as int, freq_high as int, thr) == (i - s)
                    + run_length(samples@, i as int, freq_low as int, freq_high as int, thr),
                i == s ==> duration == 0,
                i > s ==> duration == (samples@[i - 1].time_ms - start_time_ms) * 1000,
            decreases n - i,
        {
            assert(samples@[i as int].bins@.len() <= MAX_BINS);
            let energy = self.get_band_energy(&samples[i].bins, freq_low, freq_high);
            assert(energy == band_energy(samples@[i as int].bins@, freq_low as int, freq_high as int));
            if energy < self.sustain_threshold {
                assert(run_length(samples@, i as int, freq_low as int, freq_high as int, thr) == 0);
                break ;
            }
            assert(run_length(samples@, i as int, freq_low as int, freq_high as int, thr) == 1
                + run_length(samples@, i + 1, freq_low as int, freq_high as int, thr));
            if i > s {
                assert(samples@[s as int].time_ms < samples@[i as int].time_ms);
            }
            assert(samples@[i as int].time_ms <= MAX_TIME_MS);
            duration = (samples[i].time_ms - start_time_ms) * 1000;
            i = i + 1;
        }
        proof {
            lemma_run_length(samples@, s as int, freq_low as int, freq_high as int, thr);
        }
        duration
    }

    /// Extends each note into a hold where its lane's band stays loud: see
    /// `with_hold`. Notes keep their order and count.
    pub fn detect_holds(
        &self,
        notes: Vec<Note>,
        frequency_data: &Vec<SpectrumSample>,
        lane_to_freq_range: &Vec<(u8, u32, u32)>,
    ) -> (r: Vec<Note>)
        requires
            spectra_ok(frequency_data@),
        ensures
            r@.len() == notes@.len(),
            forall|i: int|
                0 <= i < r@.len() ==> r@[i] == self.with_hold(
                    notes@[i],
                    frequency_data@,
                    lane_to_freq_range@,
                ),
    {
        let mut r: Vec<Note> = Vec::new();
        let mut i: usize = 0;
        while i < notes.len()
            invariant
                i <= notes@.len(),
                r@.len() == i,
                spectra_ok(frequency_data@),
                forall|k: int|
                    0 <= k < i ==> r@[k] == self.with_hold(
                        notes@[k],
                        frequency_data@,
                        lane_to_freq_range@,
                    ),
            decreases notes@.len() - i,
        {
            let note = notes[i];
            let mut j: usize = 0;
            while j < lane_to_freq_range.len() && lane_to_freq_range[j].0 != note.col
                invariant
                    j <= lane_to_freq_range@.len(),
                    range_index(lane_to_freq_range@, note.col, j as int) == range_index(
                        lane_to_freq_range@,
                        note.col,
                        0,
                    ),
                decreases lane_to_freq_range@.len() - j,
            {
                j = j + 1;
            }
            let mut out = note;
            if j < lane_to_freq_range.len() {
                let (_, low, high) = lane_to_freq_range[j];
                let d = self.find_sustained_energy(frequency_data, note.time / 1000, low, high);
                if d >= self.min_hold_duration {
                    out = Note { time: note.time, col: note.col, duration: d };
                }
            }
            r.push(out);
            i = i + 1;
        }
        r
    }

    /// Merges runs of same-lane notes: a note that starts within
    /// `gap_threshold` microseconds of the end of the note before it (same lane)
    /// is absorbed, the earlier note stretching to cover it (its end becomes the
    /// later of the two ends). Notes
    /// must already be in time order.
    pub fn merge_nearby_notes(&self, notes: Vec<Note>, gap_threshold: u64) -> (r: Vec<Note>)
        requires
            forall|i: int, j: int| 0 <= i <= j < notes@.len() ==> notes@[i].time <= notes@[j].time,
            forall|i: int|
                0 <= i < notes@.len() ==> notes@[i].time + notes@[i].duration <= MAX_TIME_US,
        ensures
            r@ == merged(notes@, gap_threshold as int),
    {
        let n = notes.len();
        if n < 2 {
            return notes;
        }
        let mut out: Vec<Note> = Vec::new();
        let mut cur = notes[0];
        let mut i: usize = 1;
        while i < n
            invariant
                1 <= i <= n,
                n == notes@.len(),
                forall|a: int, b: int| 0 <= a <= b < notes@.len() ==> notes@[a].time <= notes@[b].time,
                forall|a: int|
                    0 <= a < notes@.len() ==> notes@[a].time + notes@[a].duration <= MAX_TIME_US,
                cur.time <= notes@[i - 1].time,
                cur.time + cur.duration <= MAX_TIME_US,
                out@ + merge_from(cur, notes@.subrange(i as int, n as int), gap_threshold as int)
                    == merged(notes@, gap_threshold as int),
            decreases n - i,
        {
            let note = notes[i];
            let ghost rest = notes@.subrange(i as int, n as int);
            assert(rest[0] == note);
            assert(rest.drop_first() =~= notes@.subrange(i + 1, n as int));
            if note.time as u128 <= cur.time as u128 + cur.duration as u128 + gap_threshold as u128
                && note.col == cur.col {
                let end = if cur.time + cur.duration >= note.time + note.duration {
                    cur.time + cur.duration
                } else {
                    note.time + note.duration
                };
                cur = Note { time: cur.time, col: cur.col, duration: end - cur.time };
            } else {
                let ghost old_out = out@;
                let ghost prev = cur;
                out.push(cur);
                assert(out@ + merge_from(note, rest.drop_first(), gap_threshold as int) =~= old_out + (
                seq![prev] + merge_from(note, rest.drop_first(), gap_threshold as int)));
                cur = note;
            }
            i = i + 1;
        }
        let ghost old_out = out@;
        out.push(cur);
        assert(notes@.subrange(n as int, n as int).len() == 0);
        assert(out@ =~= old_out + seq![cur]);
        out
    }
}

/// Whether hold detection and chart generation accept `samples`: see
/// `spectra_ok`.
pub fn spectra_fit(samples: &Vec<SpectrumSample>) -> (r: bool)
    ensures
        r == spectra_ok(samples@),
{
    let n = samples.len();
    let mut i: usize = 0;
    while i < n
        invariant
            n == samples@.len(),
            i <= n,
            forall|a: int, b: int| 0 <= a < b < i ==> samples@[a].time_ms < samples@[b].time_ms,
            forall|a: int|
                0 <= a < i ==> (#[trigger] samples@[a]).bins@.len() <= MAX_BINS && samples@[a].time_ms
                    <= MAX_TIME_MS,
        decreases n - i,
    {
        if samples[i].bins.len() > MAX_BINS || samples[i].time_ms > MAX_TIME_MS {
            assert(!spectra_ok(samples@));
            return false;
        }
        if i > 0 && samples[i - 1].time_ms >= samples[i].time_ms {
            assert(!spectra_ok(samples@));
            return false;
        }
        i = i + 1;
    }
    true
}

} // verus!
