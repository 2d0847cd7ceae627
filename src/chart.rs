//! Chart assembly and export, configuration, and the per-difficulty pipeline.

use vstd::prelude::*;
use vstd::string::StringExecFns;
use crate::difficulty::{Difficulty, EXPERT_MERGE_US, drop_close, shape, shaped, with_midpoints};
use crate::holds::{HoldDetector, SpectrumSample, spectra_ok};
use crate::lanes::{LaneAssigner, LaneAssignmentStrategy, bins_bounded, last_max_index};
use crate::note::{MAX_TIME_US, Note, spaced_apart};
use crate::onset::{BeatDetection, non_decreasing};
use crate::quantizer::{DUPLICATE_WINDOW_US, Quantizer};
use crate::text::{
    decimal, decimal_string, eq_ignore_case, matches_ignoring_case, milli_text, push_milli,
    push_seconds, seconds_text,
};

verus! {

/// A duration below this (microseconds) counts as a tap in exported charts.
pub const HOLD_MIN_EXPORT_US: u64 = 1_000;

/// Why a chart could not be generated.
#[derive(Clone, Copy, Debug, PartialEq, Eq, Structural)]
pub enum ChartError {
    /// The audio container is not one the decoder knows.
    UnsupportedFormat,
    /// The audio payload could not be decoded.
    DecodeFailure,
    /// A tempo of 0, a grid division of 0 or an unknown lane strategy.
    InvalidConfiguration,
}

/// One note of an exported chart (microseconds).
#[derive(Clone, Copy, Debug, PartialEq, Eq, Structural)]
pub struct NoteExport {
    pub time: u64,
    pub col: u8,
    pub duration: u64,
}

/// The duration as written to JSON: absent below a millisecond.
pub open spec fn exported_duration(d: u64) -> Option<u64> {
    if d < HOLD_MIN_EXPORT_US {
        None
    } else {
        Some(d)
    }
}

/// The duration read back from JSON: an absent one is a tap.
pub open spec fn imported_duration(d: Option<u64>) -> u64 {
    match d {
        Some(x) => x,
        None => 0,
    }
}

impl NoteExport {
    /// The duration as written to JSON: see `exported_duration`.
    pub fn serialized_duration(&self) -> (r: Option<u64>)
        ensures
            r == exported_duration(self.duration),
    {
        if self.duration < HOLD_MIN_EXPORT_US {
            None
        } else {
            Some(self.duration)
        }
    }

    /// A note read back from JSON: see `imported_duration`.
    pub fn from_serialized(time: u64, col: u8, duration: Option<u64>) -> (r: NoteExport)
        ensures
            r.time == time,
            r.col == col,
            r.duration == imported_duration(duration),
    {
        let d = match duration {
            Some(d) => d,
            None => 0,
        };
        NoteExport { time, col, duration: d }
    }
}

/// Writing a note's duration out and reading it back gives the same duration,
/// except that one below a millisecond (absent from the JSON) comes back as 0.
pub proof fn lemma_duration_round_trip(d: u64)
    ensures
        imported_duration(exported_duration(d)) == (if d < HOLD_MIN_EXPORT_US {
            0
        } else {
            d
        }),
        exported_duration(d) is None <==> d < HOLD_MIN_EXPORT_US,
{
}

/// A finished chart for one instrument and difficulty. `bpm` is in thousandths
/// of a beat per minute, `generated_at` in Unix seconds.
#[derive(Clone, Debug)]
pub struct ChartExport {
    pub song_id: String,
    pub instrument: String,
    pub difficulty: String,
    pub columns: u8,
    pub bpm: u32,
    pub generated_at: i64,
    pub notes: Vec<NoteExport>,
}

/// One `type|lane|time` line (type 2 for a hold, which gets a second
/// `2|lane|duration` line).
pub open spec fn note_text(n: NoteExport) -> Seq<char> {
    let hold = n.duration > HOLD_MIN_EXPORT_US;
    "  "@ + (if hold {
        "2"@
    } else {
        "1"@
    }) + "|"@ + decimal(n.col as nat) + "|"@ + seconds_text(n.time as nat) + "\n"@ + if hold {
        "  2|"@ + decimal(n.col as nat) + "|"@ + seconds_text(n.duration as nat) + "\n"@
    } else {
        Seq::empty()
    }
}

/// Lines of the first `hi` notes.
pub open spec fn notes_text(notes: Seq<NoteExport>, hi: int) -> Seq<char>
    decreases hi,
{
    if hi <= 0 {
        Seq::empty()
    } else {
        notes_text(notes, hi - 1) + note_text(notes[hi - 1])
    }
}

/// The text chart: a `[SONG]` block and a `[NOTES]` block.
pub open spec fn chart_text(c: ChartExport) -> Seq<char> {
    "[SONG]\n  Title = \""@ + c.song_id@ + "\"\n  Artist = \"\"\n  BPM = "@ + milli_text(c.bpm as nat)
        + "\n  Gap = 0\n\n[NOTES]\n  Instrument = "@ + c.instrument@ + "\n  Difficulty = "@
        + c.difficulty@ + "\n  Columns = "@ + decimal(c.columns as nat) + "\n  Notes = "@ + decimal(
        c.notes@.len(),
    ) + "\n:\n"@ + notes_text(c.notes@, c.notes@.len() as int) + ";\n"@
}

impl ChartExport {
    pub fn new(
        song_id: String,
        instrument: String,
        difficulty: String,
        columns: u8,
        bpm: u32,
        notes: Vec<Note>,
        generated_at: i64,
    ) -> (r: ChartExport)
        ensures
            r.song_id@ == song_id@,
            r.instrument@ == instrument@,
            r.difficulty@ == difficulty@,
            r.columns == columns,
            r.bpm == bpm,
            r.generated_at == generated_at,
            r.notes@.len() == notes@.len(),
            forall|i: int|
                0 <= i < notes@.len() ==> r.notes@[i] == (NoteExport {
                    time: notes@[i].time,
                    col: notes@[i].col,
                    duration: notes@[i].duration,
                }),
    {
        let mut out: Vec<NoteExport> = Vec::new();
        let mut i: usize = 0;
        while i < notes.len()
            invariant
                i <= notes@.len(),
                out@.len() == i,
                forall|k: int|
                    0 <= k < i ==> out@[k] == (NoteExport {
                        time: notes@[k].time,
                        col: notes@[k].col,
                        duration: notes@[k].duration,
                    }),
            decreases notes@.len() - i,
        {
            let n = notes[i];
            out.push(NoteExport { time: n.time, col: n.col, duration: n.duration });
            i = i + 1;
        }
        ChartExport { song_id, instrument, difficulty, columns, bpm, generated_at, notes: out }
    }

    /// The chart in the text format: see `chart_text`.
    pub fn to_chart(&self) -> (r: String)
        ensures
            r@ == chart_text(*self),
    {
        let mut out = String::new();
        out.append("[SONG]\n  Title = \"");
        out.append(self.song_id.as_str());
        out.append("\"\n  Artist = \"\"\n  BPM = ");
        push_milli(&mut out, self.bpm as u64);
        out.append("\n  Gap = 0\n\n[NOTES]\n  Instrument = ");
        out.append(self.instrument.as_str());
        out.append("\n  Difficulty = ");
        out.append(self.difficulty.as_str());
        out.append("\n  Columns = ");
        let c = decimal_string(self.columns as u64);
        out.append(c.as_str());
        out.append("\n  Notes = ");
        let count = decimal_string(self.notes.len() as u64);
        out.append(count.as_str());
        out.append("\n:\n");
        let ghost head = out@;
        let mut i: usize = 0;
        while i < self.notes.len()
            invariant
                i <= self.notes@.len(),
                out@ == head + notes_text(self.notes@, i as int),
            decreases self.notes@.len() - i,
        {
            let ghost before = out@;
            push_note(&mut out, self.notes[i]);
            assert(out@ =~= head + notes_text(self.notes@, i + 1));
            i = i + 1;
        }
        out.append(";\n");
        assert(out@ =~= chart_text(*self));
        out
    }
}

/// Appends the line (or, for a hold, the two lines) of `n`.
fn push_note(out: &mut String, n: NoteExport)
    ensures
        final(out)@ == old(out)@ + note_text(n),
{
    let hold = n.duration > HOLD_MIN_EXPORT_US;
    out.append("  ");
    if hold {
        out.append("2");
    } else {
        out.append("1");
    }
    out.append("|");
    let col = decimal_string(n.col as u64);
    out.append(col.as_str());
    out.append("|");
    push_seconds(out, n.time);
    out.append("\n");
    if hold {
        out.append("  2|");
        out.append(col.as_str());
        out.append("|");
        push_seconds(out, n.duration);
        out.append("\n");
    }
    assert(final(out)@ =~= old(out)@ + note_text(n));
}

/// Output format of a saved chart.
#[derive(Clone, Copy, Debug, PartialEq, Eq, Structural)]
pub enum ChartFormat {
    Json,
    Chart,
}

impl ChartFormat {
    /// `json` or `chart`, in any ASCII case.
    pub fn from_str(s: &str) -> (r: Option<ChartFormat>)
        ensures
            r == (if matches_ignoring_case(s@, "json"@) {
                Some(ChartFormat::Json)
            } else if matches_ignoring_case(s@, "chart"@) {
                Some(ChartFormat::Chart)
            } else {
                None
            }),
    {
        if eq_ignore_case(s, "json") {
            Some(ChartFormat::Json)
        } else if eq_ignore_case(s, "chart") {
            Some(ChartFormat::Chart)
        } else {
            None
        }
    }

    /// File extension for the format.
    pub fn extension(&self) -> (r: &'static str)
        ensures
            r@ == (match self {
                ChartFormat::Json => "json"@,
                ChartFormat::Chart => "chart"@,
            }),
    {
        match self {
            ChartFormat::Json => "json",
            ChartFormat::Chart => "chart",
        }
    }
}

impl LaneAssignmentStrategy {
    /// Strategy by name, in any ASCII case: `sequential`, `frequency` (bands
    /// split at 100, 500 and 2000 Hz) or `random` (with `seed`).
    pub fn from_name(name: &str, seed: u64) -> (r: Result<LaneAssignmentStrategy, ChartError>)
        ensures
            r == (if matches_ignoring_case(name@, "sequential"@) {
                Ok(LaneAssignmentStrategy::Sequential)
            } else if matches_ignoring_case(name@, "frequency"@) {
                Ok(LaneAssignmentStrategy::FrequencyBased { low_hz: 100, mid_hz: 500, high_hz: 2000 })
            } else if matches_ignoring_case(name@, "random"@) {
                Ok(LaneAssignmentStrategy::Random { seed })
            } else {
                Err(ChartError::InvalidConfiguration)
            }),
    {
        if eq_ignore_case(name, "sequential") {
            Ok(LaneAssignmentStrategy::Sequential)
        } else if eq_ignore_case(name, "frequency") {
            Ok(LaneAssignmentStrategy::FrequencyBased { low_hz: 100, mid_hz: 500, high_hz: 2000 })
        } else if eq_ignore_case(name, "random") {
            Ok(LaneAssignmentStrategy::Random { seed })
        } else {
            Err(ChartError::InvalidConfiguration)
        }
    }
}

/// Settings of a generation run. `bpm` (thousandths of a BPM) overrides the
/// detected tempo; `sustain_threshold` is in spectrum magnitude units and
/// `min_hold_duration` in microseconds.
#[derive(Clone, Copy, Debug)]
pub struct CharterConfig {
    pub bpm: Option<u32>,
    pub grid_division: u8,
    pub sustain_threshold: u64,
    pub min_hold_duration: u64,
    pub lane_strategy: LaneAssignmentStrategy,
}

impl Default for CharterConfig {
    /// Detected tempo, sixteenth-note grid, threshold 50, holds from 250 ms,
    /// sequential lanes.
    fn default() -> (r: CharterConfig)
        ensures
            r.bpm == None::<u32>,
            r.grid_division == 4,
            r.sustain_threshold == 50,
            r.min_hold_duration == 250_000,
            r.lane_strategy == LaneAssignmentStrategy::Sequential,
    {
        CharterConfig {
            bpm: None,
            grid_division: 4,
            sustain_threshold: 50,
            min_hold_duration: 250_000,
            lane_strategy: LaneAssignmentStrategy::Sequential,
        }
    }
}

impl CharterConfig {
    pub open spec fn valid(&self) -> bool {
        self.grid_division > 0 && self.bpm != Some(0u32)
    }

    /// Rejects a tempo override of 0 and a grid division of 0.
    pub fn validate(&self) -> (r: Result<(), ChartError>)
        ensures
            r is Ok <==> self.valid(),
            r is Err ==> r == Err::<(), ChartError>(ChartError::InvalidConfiguration),
    {
        if self.grid_division == 0 {
            return Err(ChartError::InvalidConfiguration);
        }
        match self.bpm {
            Some(b) => {
                if b == 0 {
                    return Err(ChartError::InvalidConfiguration);
                }
            },
            None => {},
        }
        Ok(())
    }
}

/// Frequency range (Hz) whose sustained energy turns a note of each lane into a
/// hold.
pub open spec fn lane_ranges_spec() -> Seq<(u8, u32, u32)> {
    seq![(0u8, 50u32, 150u32), (1, 150, 300), (2, 300, 600), (3, 600, 2000), (4, 2000, 8000)]
}

fn lane_ranges() -> (r: Vec<(u8, u32, u32)>)
    ensures
        r@ == lane_ranges_spec(),
{
    let r = vec![(0u8, 50u32, 150u32), (1, 150, 300), (2, 300, 600), (3, 600, 2000), (4, 2000, 8000)];
    assert(r@ =~= lane_ranges_spec());
    r
}

/// Onsets that a chart can be built from: ascending and within range.
pub open spec fn onsets_ok(peaks: Seq<u64>) -> bool {
    non_decreasing(peaks) && forall|i: int| 0 <= i < peaks.len() ==> #[trigger] peaks[i] <= MAX_TIME_US
}

/// Whether `peaks` is ascending and within range: see `onsets_ok`.
pub fn onsets_ok_for(peaks: &Vec<u64>) -> (r: bool)
    ensures
        r == onsets_ok(peaks@),
{
    let n = peaks.len();
    let mut i: usize = 0;
    while i < n
        invariant
            n == peaks@.len(),
            i <= n,
            forall|a: int, b: int| 0 <= a <= b < i ==> peaks@[a] <= peaks@[b],
            forall|a: int| 0 <= a < i ==> #[trigger] peaks@[a] <= MAX_TIME_US,
        decreases n - i,
    {
        if peaks[i] > MAX_TIME_US {
            return false;
        }
        if i > 0 && peaks[i - 1] > peaks[i] {
            assert(!non_decreasing(peaks@));
            return false;
        }
        i = i + 1;
    }
    true
}

proof fn lemma_last_max_index(s: Seq<int>, hi: int)
    requires
        hi >= 1,
    ensures
        0 <= last_max_index(s, hi) < hi,
    decreases hi,
{
    if hi > 1 {
        lemma_last_max_index(s, hi - 1);
    }
}

proof fn lemma_midpoints_bounded(p: Seq<u64>, hi: int, bound: int)
    requires
        0 <= hi <= p.len(),
        forall|i: int| 0 <= i < p.len() ==> #[trigger] p[i] <= bound,
    ensures
        forall|k: int|
            0 <= k < with_midpoints(p, hi).len() ==> #[trigger] with_midpoints(p, hi)[k] <= bound,
    decreases hi,
{
    if hi == 1 {
        assert(p[0] <= bound);
    } else if hi > 1 {
        lemma_midpoints_bounded(p, hi - 1, bound);
        let a = p[hi - 2];
        let b = p[hi - 1];
        assert(a <= bound && b <= bound);
        let front = with_midpoints(p, hi - 1);
        let cur = with_midpoints(p, hi);
        assert forall|k: int| 0 <= k < cur.len() implies #[trigger] cur[k] <= bound by {
            if k < front.len() {
                assert(cur[k] == front[k]);
            }
        }
    }
}

proof fn lemma_drop_close_bounded(s: Seq<u64>, gap: int, hi: int, bound: int)
    requires
        0 <= hi <= s.len(),
        forall|k: int| 0 <= k < s.len() ==> #[trigger] s[k] <= bound,
    ensures
        forall|k: int|
            0 <= k < drop_close(s, gap, hi).len() ==> #[trigger] drop_close(s, gap, hi)[k] <= bound,
    decreases hi,
{
    if hi > 0 {
        lemma_drop_close_bounded(s, gap, hi - 1, bound);
        let front = drop_close(s, gap, hi - 1);
        let cur = drop_close(s, gap, hi);
        assert forall|k: int| 0 <= k < cur.len() implies #[trigger] cur[k] <= bound by {
            if k < front.len() {
                assert(cur[k] == front[k]);
            } else {
                assert(cur[k] == s[hi - 1]);
            }
        }
    }
}

/// `t` is the grid time of one of `onsets`.
pub open spec fn snapped_onset(onsets: Seq<u64>, q: Quantizer, t: u64) -> bool {
    exists|i: int| 0 <= i < onsets.len() && t == q.quantize_spec(#[trigger] onsets[i] as int)
}

/// Some exported note starts at most 10 ms before `t`, and not after it.
pub open spec fn exported_near(notes: Seq<NoteExport>, t: int) -> bool {
    exists|j: int|
        0 <= j < notes.len() && #[trigger] notes[j].time <= t <= notes[j].time + DUPLICATE_WINDOW_US
}

/// Notes in time order, more than 10 ms apart, each in one of the chart's
/// lanes.
pub open spec fn chart_well_formed(c: ChartExport) -> bool {
    &&& forall|j: int|
        0 < j < c.notes@.len() ==> c.notes@[j - 1].time + DUPLICATE_WINDOW_US
            < #[trigger] c.notes@[j].time
    &&& forall|j: int| 0 <= j < c.notes@.len() ==> #[trigger] c.notes@[j].col < c.columns
}

/// The `k`-th difficulty: Easy, Normal, Hard, then Expert.
pub open spec fn difficulty_at(k: int) -> Difficulty {
    if k == 0 {
        Difficulty::Easy
    } else if k == 1 {
        Difficulty::Normal
    } else if k == 2 {
        Difficulty::Hard
    } else {
        Difficulty::Expert
    }
}

/// Taps at the times of `notes`, in lane 0: the notes as they stand before
/// lane assignment.
pub open spec fn time_taps(notes: Seq<NoteExport>) -> Seq<Note> {
    Seq::new(notes.len(), |j: int| Note { time: notes[j].time, col: 0, duration: 0 })
}

/// Spectrum data as lane assignment sees it: none when empty.
pub open spec fn spectra_option(spectra: Seq<SpectrumSample>) -> Option<Seq<SpectrumSample>> {
    if spectra.len() == 0 {
        None
    } else {
        Some(spectra)
    }
}

/// Lane of the `j`-th of `taps` under `a` (lane 0 where the strategy leaves it).
pub open spec fn lane_for(a: LaneAssigner, taps: Seq<Note>, data: Option<Seq<SpectrumSample>>, j: int) -> int {
    match a.lane_of(taps, data, j) {
        Some(l) => l as u8 as int,
        None => 0,
    }
}

/// Runs the chart pipeline for one instrument at every difficulty.
#[derive(Clone, Copy, Debug)]
pub struct Charter {
    pub config: CharterConfig,
}

impl Charter {
    pub fn new(config: CharterConfig) -> (r: Charter)
        ensures
            r.config == config,
    {
        Charter { config }
    }

    /// What the pipeline owes for one difficulty at `bpm`: `c` is well formed;
    /// its notes are the shaped onsets snapped to the grid, more than 10 ms
    /// apart, every shaped onset within 10 ms after one of them; each note's
    /// lane is the configured strategy's lane for it (sequential when
    /// `spectra` is empty), and its duration the hold detected on that lane.
    pub open spec fn chart_matches(
        &self,
        peaks: Seq<u64>,
        bpm: u32,
        sample_rate: u32,
        spectra: Seq<SpectrumSample>,
        difficulty: Difficulty,
        c: ChartExport,
    ) -> bool {
        let q = Quantizer::new_spec(bpm, sample_rate, self.config.grid_division);
        let onsets = shaped(peaks, difficulty);
        let assigner = LaneAssigner { strategy: self.config.lane_strategy, num_lanes: difficulty.lanes_spec() };
        let detector = HoldDetector {
            sustain_threshold: self.config.sustain_threshold,
            min_hold_duration: self.config.min_hold_duration,
        };
        &&& c.difficulty@ == difficulty.name_spec()
        &&& c.columns == difficulty.lanes_spec()
        &&& c.bpm == bpm
        &&& chart_well_formed(c)
        &&& forall|j: int|
            0 <= j < c.notes@.len() ==> snapped_onset(onsets, q, #[trigger] c.notes@[j].time)
        &&& forall|i: int|
            0 <= i < onsets.len() ==> exported_near(c.notes@, q.quantize_spec(#[trigger] onsets[i] as int))
        &&& forall|j: int|
            0 <= j < c.notes@.len() ==> #[trigger] c.notes@[j].col as int == lane_for(
                assigner,
                time_taps(c.notes@),
                spectra_option(spectra),
                j,
            )
        &&& forall|j: int|
            0 <= j < c.notes@.len() ==> #[trigger] c.notes@[j].duration == detector.with_hold(
                Note { time: c.notes@[j].time, col: c.notes@[j].col, duration: 0 },
                spectra,
                lane_ranges_spec(),
            ).duration
        &&& (peaks.len() == 0 ==> c.notes@.len() == 0)
    }

    /// One difficulty: shape the onsets, make taps, snap them to the grid at
    /// `bpm`, assign lanes with the configured strategy (sequential when
    /// `spectra` is empty) and detect holds against `spectra`.
    #[verifier::rlimit(60)]
    pub fn generate_chart(
        &self,
        detection: &BeatDetection,
        bpm: u32,
        sample_rate: u32,
        song_id: &str,
        instrument: &str,
        difficulty: Difficulty,
        spectra: &Vec<SpectrumSample>,
        generated_at: i64,
    ) -> (r: ChartExport)
        requires
            self.config.grid_division > 0,
            bpm > 0,
            onsets_ok(detection.peaks@),
            spectra_ok(spectra@),
        ensures
            r.song_id@ == song_id@,
            r.instrument@ == instrument@,
            r.generated_at == generated_at,
            self.chart_matches(detection.peaks@, bpm, sample_rate, spectra@, difficulty, r),
    {
        let onsets = shape(&detection.peaks, difficulty);
        proof {
            if difficulty == Difficulty::Expert {
                let p = detection.peaks@;
                lemma_midpoints_bounded(p, p.len() as int, MAX_TIME_US as int);
                lemma_drop_close_bounded(
                    with_midpoints(p, p.len() as int),
                    EXPERT_MERGE_US as int,
                    with_midpoints(p, p.len() as int).len() as int,
                    MAX_TIME_US as int,
                );
            } else {
                assert forall|j: int| 0 <= j < onsets@.len() implies onsets@[j] <= MAX_TIME_US by {
                    assert(detection.peaks@.contains(onsets@[j]));
                }
            }
        }
        let mut taps: Vec<Note> = Vec::new();
        let mut i: usize = 0;
        while i < onsets.len()
            invariant
                i <= onsets@.len(),
                taps@.len() == i,
                forall|j: int| 0 <= j < onsets@.len() ==> onsets@[j] <= MAX_TIME_US,
                forall|j: int| 0 <= j < i ==> #[trigger] taps@[j] == Note::tap_spec(onsets@[j]),
            decreases onsets@.len() - i,
        {
            taps.push(Note::tap(onsets[i]));
            i = i + 1;
        }
        let quantizer = Quantizer::new(bpm, sample_rate, self.config.grid_division);
        assert forall|j: int| 0 <= j < taps@.len() implies taps@[j].time
            <= crate::quantizer::QUANTIZE_LIMIT_US by {
            assert(taps@[j] == Note::tap_spec(onsets@[j]));
        }
        let snapped = quantizer.quantize_notes(taps);
        proof {
            assert forall|j: int| 0 <= j < snapped@.len() implies (#[trigger] snapped@[j]).col
                == 0 && snapped@[j].duration == 0 by {
                assert(quantizer.kept_from(taps@, snapped@[j]));
                let k = choose|k: int|
                    0 <= k < taps@.len() && snapped@[j] == quantizer.snap(taps@[k])
                        && #[trigger] quantizer.first_at_time(taps@, k);
                assert(taps@[k] == Note::tap_spec(onsets@[k]));
            }
            if detection.peaks@.len() == 0 && snapped@.len() > 0 {
                assert(quantizer.kept_from(taps@, snapped@[0]));
            }
        }
        let lanes = difficulty.lanes();
        let assigner = LaneAssigner::new(self.config.lane_strategy, lanes);
        let data: Option<&Vec<SpectrumSample>> = if spectra.len() == 0 {
            None
        } else {
            Some(spectra)
        };
        assert(bins_bounded(spectra@)) by {
            assert forall|i: int| 0 <= i < spectra@.len() implies (#[trigger] spectra@[i]).bins@.len()
                <= crate::flux::MAX_BINS by {
                assert(spectra@[i].bins@.len() <= crate::flux::MAX_BINS);
            }
        }
        let laned = assigner.assign_lanes(snapped, data);
        let ghost dv = match data {
            Some(d) => Some(d@),
            None => None,
        };
        proof {
            assert forall|j: int| 0 <= j < laned@.len() implies (#[trigger] laned@[j]).col < lanes
                && laned@[j].time == snapped@[j].time by {
                assert(laned@[j] == assigner.assigned(snapped@, dv)[j]);
                match assigner.lane_of(snapped@, dv, j) {
                    Some(l) => {
                        match assigner.strategy {
                            LaneAssignmentStrategy::FrequencyBased { low_hz, mid_hz, high_hz } => {
                                match dv {
                                    Some(samples) => {
                                        let k = crate::lanes::nearest_index(
                                            samples,
                                            (snapped@[j].time / 1000) as int,
                                            samples.len() as int,
                                        );
                                        let sp = samples[k].bins@;
                                        let n = sp.len() as int;
                                        let a = crate::lanes::cap((low_hz / 100) as int, n);
                                        let b = crate::lanes::cap((mid_hz / 100) as int, n);
                                        let c = crate::lanes::cap((high_hz / 100) as int, n);
                                        let lo = crate::holds::sum_bins(sp, 0, a);
                                        let mi = crate::holds::sum_bins(sp, a, b);
                                        let hi = crate::holds::sum_bins(sp, b, c);
                                        lemma_last_max_index(seq![lo, mi, hi], 3);
                                        lemma_last_max_index(seq![lo, 2 * lo, 2 * mi, 2 * hi, hi], 5);
                                    },
                                    None => {},
                                }
                            },
                            _ => {},
                        }
                    },
                    None => {},
                }
            }
        }
        let detector = HoldDetector::new(self.config.sustain_threshold, self.config.min_hold_duration);
        let ranges = lane_ranges();
        let held = detector.detect_holds(laned, spectra, &ranges);
        let song = String::from_str(song_id);
        let instr = String::from_str(instrument);
        let diff = String::from_str(difficulty.name());
        let r = ChartExport::new(song, instr, diff, lanes, bpm, held, generated_at);
        proof {
            assert forall|j: int| 0 <= j < r.notes@.len() implies #[trigger] r.notes@[j].col
                < r.columns && r.notes@[j].time == snapped@[j].time by {
                assert(held@[j] == detector.with_hold(laned@[j], spectra@, ranges@));
                assert(laned@[j].col < lanes);
            }
            assert(snapped@ =~= time_taps(r.notes@));
            assert(dv == spectra_option(spectra@));
            assert forall|j: int| 0 <= j < r.notes@.len() implies #[trigger] r.notes@[j].col as int
                == lane_for(assigner, time_taps(r.notes@), spectra_option(spectra@), j)
                && laned@[j] == (Note { time: r.notes@[j].time, col: r.notes@[j].col, duration: 0 })
                by {
                assert(held@[j] == detector.with_hold(laned@[j], spectra@, ranges@));
                assert(laned@[j] == assigner.assigned(snapped@, dv)[j]);
            }
            assert forall|j: int| 0 <= j < r.notes@.len() implies #[trigger] r.notes@[j].duration
                == detector.with_hold(
                Note { time: r.notes@[j].time, col: r.notes@[j].col, duration: 0 },
                spectra@,
                lane_ranges_spec(),
            ).duration by {
                assert(held@[j] == detector.with_hold(laned@[j], spectra@, ranges@));
                assert(laned@[j] == (Note { time: r.notes@[j].time, col: r.notes@[j].col, duration: 0 }));
            }
            let sh = crate::difficulty::shaped(detection.peaks@, difficulty);
            assert(onsets@ == sh);
            assert forall|j: int| 0 <= j < r.notes@.len() implies snapped_onset(
                sh,
                quantizer,
                #[trigger] r.notes@[j].time,
            ) by {
                assert(r.notes@[j].time == snapped@[j].time);
                assert(quantizer.kept_from(taps@, snapped@[j]));
                let k = choose|k: int|
                    0 <= k < taps@.len() && snapped@[j] == quantizer.snap(taps@[k])
                        && #[trigger] quantizer.first_at_time(taps@, k);
                assert(taps@[k] == Note::tap_spec(onsets@[k]));
                crate::quantizer::lemma_quantize_fits(quantizer, sh[k] as int);
                assert(r.notes@[j].time == quantizer.quantize_spec(sh[k] as int));
            }
            assert forall|i: int| 0 <= i < sh.len() implies exported_near(
                r.notes@,
                quantizer.quantize_spec(#[trigger] sh[i] as int),
            ) by {
                assert(taps@[i] == Note::tap_spec(onsets@[i]));
                crate::quantizer::lemma_quantize_fits(quantizer, sh[i] as int);
                assert(crate::note::covered(
                    snapped@,
                    quantizer.snap(taps@[i]).time as int,
                    DUPLICATE_WINDOW_US as int,
                ));
                let j = choose|j: int|
                    0 <= j < snapped@.len() && #[trigger] snapped@[j].time <= quantizer.snap(
                        taps@[i],
                    ).time <= snapped@[j].time + DUPLICATE_WINDOW_US;
                assert(r.notes@[j].time == snapped@[j].time);
            }
            assert forall|j: int| 0 < j < r.notes@.len() implies r.notes@[j - 1].time
                + DUPLICATE_WINDOW_US < #[trigger] r.notes@[j].time by {
                assert(r.notes@[j - 1].time == snapped@[j - 1].time);
                assert(r.notes@[j].time == snapped@[j].time);
                assert(spaced_apart(snapped@, DUPLICATE_WINDOW_US as int));
                assert(snapped@[j - 1].time + DUPLICATE_WINDOW_US < snapped@[j].time);
            }
        }
        r
    }

    /// Charts at Easy, Normal, Hard and Expert, in that order, at the
    /// configured tempo or else the detected one. Fails when the
    /// configuration is invalid or the resulting tempo is 0.
    pub fn generate_all_difficulties(
        &self,
        detection: &BeatDetection,
        sample_rate: u32,
        song_id: &str,
        instrument: &str,
        spectra: &Vec<SpectrumSample>,
        generated_at: i64,
    ) -> (r: Result<Vec<ChartExport>, ChartError>)
        requires
            onsets_ok(detection.peaks@),
            spectra_ok(spectra@),
        ensures
            r is Ok <==> self.config.valid() && (self.config.bpm is Some || detection.bpm > 0),
            r is Err ==> r == Err::<Vec<ChartExport>, ChartError>(ChartError::InvalidConfiguration),
            r matches Ok(charts) ==> {
                &&& charts@.len() == 4
                &&& charts@[0].difficulty@ == "Easy"@ && charts@[0].columns == 4
                &&& charts@[1].difficulty@ == "Normal"@ && charts@[1].columns == 4
                &&& charts@[2].difficulty@ == "Hard"@ && charts@[2].columns == 4
                &&& charts@[3].difficulty@ == "Expert"@ && charts@[3].columns == 5
                &&& forall|k: int|
                    0 <= k < 4 ==> {
                        &&& (#[trigger] charts@[k]).song_id@ == song_id@
                        &&& charts@[k].instrument@ == instrument@
                        &&& charts@[k].bpm == (match self.config.bpm {
                            Some(b) => b,
                            None => detection.bpm,
                        })
                        &&& charts@[k].generated_at == generated_at
                        &&& self.chart_matches(
                            detection.peaks@,
                            charts@[k].bpm,
                            sample_rate,
                            spectra@,
                            difficulty_at(k),
                            charts@[k],
                        )
                    }
            },
    {
        match self.config.validate() {
            Err(e) => {
                return Err(e);
            },
            Ok(()) => {},
        }
        let bpm = match self.config.bpm {
            Some(b) => b,
            None => detection.bpm,
        };
        if bpm == 0 {
            return Err(ChartError::InvalidConfiguration);
        }
        let easy = self.generate_chart(
            detection,
            bpm,
            sample_rate,
            song_id,
            instrument,
            Difficulty::Easy,
            spectra,
            generated_at,
        );
        let normal = self.generate_chart(
            detection,
            bpm,
            sample_rate,
            song_id,
            instrument,
            Difficulty::Normal,
            spectra,
            generated_at,
        );
        let hard = self.generate_chart(
            detection,
            bpm,
            sample_rate,
            song_id,
            instrument,
            Difficulty::Hard,
            spectra,
            generated_at,
        );
        let expert = self.generate_chart(
            detection,
            bpm,
            sample_rate,
            song_id,
            instrument,
            Difficulty::Expert,
            spectra,
            generated_at,
        );
        let charts = vec![easy, normal, hard, expert];
        Ok(charts)
    }
}

} // verus!
