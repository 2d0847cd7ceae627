//! Lane assignment strategies.

use vstd::prelude::*;
use crate::flux::MAX_BINS;
use crate::holds::{SpectrumSample, lemma_sum_bins_bound, sum_bins};
use crate::note::Note;

verus! {

/// How notes are spread over lanes. Frequencies are in Hz.
#[derive(Clone, Copy, Debug, PartialEq, Eq, Structural)]
pub enum LaneAssignmentStrategy {
    /// Pick the lane from the note's spectrum: low, mid and high energy.
    FrequencyBased { low_hz: u32, mid_hz: u32, high_hz: u32 },
    /// Lane `i mod lanes` for the `i`-th note.
    Sequential,
    /// Pseudo-random lanes from a linear congruential generator with `seed`.
    Random { seed: u64 },
}

/// One step of the generator: `state * 1103515245 + 12345 mod 2^64`.
pub open spec fn lcg_step(state: u64) -> u64 {
    ((state * 1103515245 + 12345) % 0x1_0000_0000_0000_0000) as u64
}

/// Generator state after `k` steps from `seed`.
pub open spec fn lcg_state(seed: u64, k: nat) -> u64
    decreases k,
{
    if k == 0 {
        seed
    } else {
        lcg_step(lcg_state(seed, (k - 1) as nat))
    }
}

/// Deterministic pseudo-random generator.
#[derive(Clone, Copy, Debug)]
pub struct SimpleLcg {
    pub state: u64,
}

impl SimpleLcg {
    pub fn new(seed: u64) -> (r: SimpleLcg)
        ensures
            r.state == seed,
    {
        SimpleLcg { state: seed }
    }

    /// Advances the state and returns its upper 48 bits.
    pub fn next(&mut self) -> (r: u64)
        ensures
            final(self).state == lcg_step(old(self).state),
            r == final(self).state / 65536,
    {
        let s: u128 = (self.state as u128 * 1103515245 + 12345) % 0x1_0000_0000_0000_0000;
        self.state = s as u64;
        self.state / 65536
    }
}

/// Index of the largest value, the last one among equals.
pub open spec fn last_max_index(s: Seq<int>, hi: int) -> int
    decreases hi,
{
    if hi <= 1 {
        0
    } else {
        let prev = last_max_index(s, hi - 1);
        if s[hi - 1] >= s[prev] {
            hi - 1
        } else {
            prev
        }
    }
}

/// `x` capped at `n`.
pub open spec fn cap(x: int, n: int) -> int {
    if x < n {
        x
    } else {
        n
    }
}

/// Lane for one spectrum (bin `k` covering `k * 100` Hz): its energy below
/// `low_hz`, from `low_hz` to `mid_hz` and from `mid_hz` to `high_hz` decide.
/// With 4 lanes the loudest of the three bands wins; with 5 lanes the outer
/// lanes hear half the low and half the high energy. Ties go to the higher
/// lane; other lane counts give lane 0.
pub open spec fn frequency_lane(spectrum: Seq<u16>, low_hz: int, mid_hz: int, high_hz: int, num_lanes: int) -> int {
    let n = spectrum.len() as int;
    let a = cap(low_hz / 100, n);
    let b = cap(mid_hz / 100, n);
    let c = cap(high_hz / 100, n);
    let low = sum_bins(spectrum, 0, a);
    let mid = sum_bins(spectrum, a, b);
    let high = sum_bins(spectrum, b, c);
    if num_lanes == 4 {
        last_max_index(seq![low, mid, high], 3)
    } else if num_lanes == 5 {
        last_max_index(seq![low, 2 * low, 2 * mid, 2 * high, high], 5)
    } else {
        0
    }
}

/// Distance in milliseconds between `a` and `b`.
pub open spec fn dist(a: int, b: int) -> int {
    if a > b {
        a - b
    } else {
        b - a
    }
}

/// Index among `samples[0..hi]` of the sample nearest in time to `t_ms`, the
/// first among equals; -1 if there is none.
pub open spec fn nearest_index(samples: Seq<SpectrumSample>, t_ms: int, hi: int) -> int
    decreases hi,
{
    if hi <= 0 {
        -1
    } else {
        let prev = nearest_index(samples, t_ms, hi - 1);
        if prev < 0 || dist(samples[hi - 1].time_ms as int, t_ms) < dist(
            samples[prev].time_ms as int,
            t_ms,
        ) {
            hi - 1
        } else {
            prev
        }
    }
}

proof fn lemma_nearest_index(samples: Seq<SpectrumSample>, t_ms: int, hi: int)
    requires
        0 <= hi <= samples.len(),
    ensures
        -1 <= nearest_index(samples, t_ms, hi) < hi,
        hi > 0 ==> nearest_index(samples, t_ms, hi) >= 0,
    decreases hi,
{
    if hi > 0 {
        lemma_nearest_index(samples, t_ms, hi - 1);
    }
}

/// Sum of `s[lo..hi]` for `lo <= hi <= len`.
fn sum_slice(s: &Vec<u16>, lo: usize, hi: usize) -> (r: u64)
    requires
        lo <= hi <= s@.len(),
        s@.len() <= MAX_BINS,
    ensures
        r == sum_bins(s@, lo as int, hi as int),
{
    let mut sum: u64 = 0;
    let mut k: usize = lo;
    while k < hi
        invariant
            lo <= k <= hi <= s@.len(),
            s@.len() <= MAX_BINS,
            sum == sum_bins(s@, lo as int, k as int),
        decreases hi - k,
    {
        proof {
            lemma_sum_bins_bound(s@, lo as int, k as int);
            assert((k - lo) * 0xFFFF + 0xFFFF <= 0x1_0000 * 0xFFFF) by (nonlinear_arith)
                requires
                    k - lo < 0x1_0000,
            ;
        }
        sum = sum + s[k] as u64;
        k = k + 1;
    }
    sum
}

/// Spectra that lane assignment accepts: each with at most `MAX_BINS` bins.
pub open spec fn bins_bounded(samples: Seq<SpectrumSample>) -> bool {
    forall|i: int| 0 <= i < samples.len() ==> (#[trigger] samples[i]).bins@.len() <= MAX_BINS
}

/// Maps notes to playable lanes with a chosen strategy.
#[derive(Clone, Copy, Debug)]
pub struct LaneAssigner {
    pub strategy: LaneAssignmentStrategy,
    pub num_lanes: u8,
}

impl LaneAssigner {
    pub fn new(strategy: LaneAssignmentStrategy, num_lanes: u8) -> (r: LaneAssigner)
        ensures
            r.strategy == strategy,
            r.num_lanes == num_lanes,
    {
        LaneAssigner { strategy, num_lanes }
    }

    /// Lane of the `i`-th note, or `None` where the note keeps its lane.
    pub open spec fn lane_of(&self, notes: Seq<Note>, data: Option<Seq<SpectrumSample>>, i: int) -> Option<int> {
        match self.strategy {
            LaneAssignmentStrategy::Sequential => Some(i % (self.num_lanes as int)),
            LaneAssignmentStrategy::Random { seed } => Some(
                (lcg_state(seed, (i + 1) as nat) / 65536) as int % (self.num_lanes as int),
            ),
            LaneAssignmentStrategy::FrequencyBased { low_hz, mid_hz, high_hz } => match data {
                None => Some(i % (self.num_lanes as int)),
                Some(samples) => {
                    let k = nearest_index(samples, (notes[i].time / 1000) as int, samples.len() as int);
                    if k < 0 {
                        None
                    } else {
                        Some(
                            frequency_lane(
                                samples[k].bins@,
                                low_hz as int,
                                mid_hz as int,
                                high_hz as int,
                                self.num_lanes as int,
                            ),
                        )
                    }
                },
            },
        }
    }

    /// The notes after assignment: only lanes change.
    pub open spec fn assigned(&self, notes: Seq<Note>, data: Option<Seq<SpectrumSample>>) -> Seq<Note> {
        Seq::new(
            notes.len(),
            |i: int|
                match self.lane_of(notes, data, i) {
                    Some(l) => Note { time: notes[i].time, col: l as u8, duration: notes[i].duration },
                    None => notes[i],
                },
        )
    }

    /// Assigns a lane to every note with the configured strategy. The
    /// frequency strategy uses the sample nearest in time to each note and
    /// falls back to sequential lanes without spectrum data.
    pub fn assign_lanes(&self, notes: Vec<Note>, frequency_data: Option<&Vec<SpectrumSample>>) -> (r: Vec<Note>)
        requires
            self.num_lanes > 0,
            frequency_data matches Some(d) ==> bins_bounded(d@),
        ensures
            r@ == self.assigned(
                notes@,
                match frequency_data {
                    Some(d) => Some(d@),
                    None => None,
                },
            ),
    {
        match self.strategy {
            LaneAssignmentStrategy::FrequencyBased { low_hz, mid_hz, high_hz } => {
                match frequency_data {
                    None => self.assign_sequential(notes),
                    Some(d) => self.assign_by_frequency(notes, low_hz, mid_hz, high_hz, d),
                }
            },
            LaneAssignmentStrategy::Sequential => self.assign_sequential(notes),
            LaneAssignmentStrategy::Random { seed } => self.assign_random(notes, seed),
        }
    }

    fn assign_sequential(&self, notes: Vec<Note>) -> (r: Vec<Note>)
        requires
            self.num_lanes > 0,
        ensures
            r@.len() == notes@.len(),
            forall|i: int|
                0 <= i < r@.len() ==> r@[i] == (Note {
                    time: notes@[i].time,
                    col: (i % (self.num_lanes as int)) as u8,
                    duration: notes@[i].duration,
                }),
    {
        let mut r: Vec<Note> = Vec::new();
        let mut i: usize = 0;
        while i < notes.len()
            invariant
                self.num_lanes > 0,
                i <= notes@.len(),
                r@.len() == i,
                forall|k: int|
                    0 <= k < i ==> r@[k] == (Note {
                        time: notes@[k].time,
                        col: (k % (self.num_lanes as int)) as u8,
                        duration: notes@[k].duration,
                    }),
            decreases notes@.len() - i,
        {
            let n = notes[i];
            r.push(Note { time: n.time, col: (i % self.num_lanes as usize) as u8, duration: n.duration });
            i = i + 1;
        }
        r
    }

    fn assign_random(&self, notes: Vec<Note>, seed: u64) -> (r: Vec<Note>)
        requires
            self.num_lanes > 0,
        ensures
            r@.len() == notes@.len(),
            forall|i: int|
                0 <= i < r@.len() ==> r@[i] == (Note {
                    time: notes@[i].time,
                    col: ((lcg_state(seed, (i + 1) as nat) / 65536) as int % (
                    self.num_lanes as int)) as u8,
                    duration: notes@[i].duration,
                }),
    {
        let mut rng = SimpleLcg::new(seed);
        let mut r: Vec<Note> = Vec::new();
        let mut i: usize = 0;
        while i < notes.len()
            invariant
                self.num_lanes > 0,
                i <= notes@.len(),
                r@.len() == i,
                rng.state == lcg_state(seed, i as nat),
                forall|k: int|
                    0 <= k < i ==> r@[k] == (Note {
                        time: notes@[k].time,
                        col: ((lcg_state(seed, (k + 1) as nat) / 65536) as int % (
                        self.num_lanes as int)) as u8,
                        duration: notes@[k].duration,
                    }),
            decreases notes@.len() - i,
        {
            let n = notes[i];
            let v = rng.next();
            assert(rng.state == lcg_state(seed, (i + 1) as nat));
            r.push(Note { time: n.time, col: (v % self.num_lanes as u64) as u8, duration: n.duration });
            i = i + 1;
        }
        r
    }

    fn assign_by_frequency(
        &self,
        notes: Vec<Note>,
        low_hz: u32,
        mid_hz: u32,
        high_hz: u32,
        samples: &Vec<SpectrumSample>,
    ) -> (r: Vec<Note>)
        requires
            bins_bounded(samples@),
            self.strategy == (LaneAssignmentStrategy::FrequencyBased { low_hz, mid_hz, high_hz }),
        ensures
            r@ == self.assigned(notes@, Some(samples@)),
    {
        let mut r: Vec<Note> = Vec::new();
        let mut i: usize = 0;
        while i < notes.len()
            invariant
                bins_bounded(samples@),
                self.strategy == (LaneAssignmentStrategy::FrequencyBased { low_hz, mid_hz, high_hz }),
                i <= notes@.len(),
                r@.len() == i,
                forall|k: int|
                    0 <= k < i ==> r@[k] == self.assigned(notes@, Some(samples@))[k],
            decreases notes@.len() - i,
        {
            let n = notes[i];
            let t = n.time / 1000;
            let mut best: usize = 0;
            let mut found = false;
            let mut j: usize = 0;
            while j < samples.len()
                invariant
                    j <= samples@.len(),
                    found == (j > 0),
                    found ==> best < j,
                    !found ==> best == 0,
                    found ==> best as int == nearest_index(samples@, t as int, j as int),
                decreases samples@.len() - j,
            {
                let tj = samples[j].time_ms;
                let dj = if tj > t {
                    tj - t
                } else {
                    t - tj
                };
                let tb = samples[best].time_ms;
                let db = if tb > t {
                    tb - t
                } else {
                    t - tb
                };
                assert(dj == dist(samples@[j as int].time_ms as int, t as int));
                assert(db == dist(samples@[best as int].time_ms as int, t as int));
                assert(!found ==> nearest_index(samples@, t as int, j as int) == -1);
                if !found || dj < db {
                    best = j;
                }
                found = true;
                j = j + 1;
            }
            proof {
                lemma_nearest_index(samples@, t as int, samples@.len() as int);
            }
            if found {
                let spectrum = &samples[best].bins;
                assert(spectrum@.len() <= MAX_BINS);
                let lane = self.frequency_to_lane(spectrum, low_hz, mid_hz, high_hz);
                r.push(Note { time: n.time, col: lane, duration: n.duration });
            } else {
                r.push(n);
            }
            i = i + 1;
        }
        assert(r@ =~= self.assigned(notes@, Some(samples@)));
        r
    }

    /// Lane for one spectrum: see `frequency_lane`.
    pub fn frequency_to_lane(&self, spectrum: &Vec<u16>, low_hz: u32, mid_hz: u32, high_hz: u32) -> (r: u8)
        requires
            spectrum@.len() <= MAX_BINS,
        ensures
            r as int == frequency_lane(
                spectrum@,
                low_hz as int,
                mid_hz as int,
                high_hz as int,
                self.num_lanes as int,
            ),
    {
        let n = spectrum.len();
        let a: usize = if ((low_hz / 100) as usize) < n {
            (low_hz / 100) as usize
        } else {
            n
        };
        let b: usize = if ((mid_hz / 100) as usize) < n {
            (mid_hz / 100) as usize
        } else {
            n
        };
        let c: usize = if ((high_hz / 100) as usize) < n {
            (high_hz / 100) as usize
        } else {
            n
        };
        let low = sum_slice(spectrum, 0, a);
        let mid = if a <= b {
            sum_slice(spectrum, a, b)
        } else {
            0
        };
        let high = if b <= c {
            sum_slice(spectrum, b, c)
        } else {
            0
        };
        proof {
            lemma_sum_bins_bound(spectrum@, 0, a as int);
            if a <= b {
                lemma_sum_bins_bound(spectrum@, a as int, b as int);
            }
            if b <= c {
                lemma_sum_bins_bound(spectrum@, b as int, c as int);
            }
            assert(a * 0xFFFF <= 0x1_0000 * 0xFFFF) by (nonlinear_arith)
                requires
                    a <= 0x1_0000,
            ;
        }
        if self.num_lanes == 4 {
            let ghost s = seq![low as int, mid as int, high as int];
            let mut best: u8 = 0;
            if mid >= low {
                best = 1;
            }
            let top = if best == 1 {
                mid
            } else {
                low
            };
            if high >= top {
                best = 2;
            }
            proof {
                reveal_with_fuel(last_max_index, 3);
                assert(s[0] == low && s[1] == mid && s[2] == high);
            }
            best
        } else if self.num_lanes == 5 {
            let low2: u64 = 2 * low;
            let mid2: u64 = 2 * mid;
            let high2: u64 = 2 * high;
            let e: [u64; 5] = [low, low2, mid2, high2, high];
            let ghost s = seq![low as int, 2 * low, 2 * mid, 2 * high, high as int];
            assert(forall|j: int| 0 <= j < 5 ==> e@[j] as int == #[trigger] s[j]);
            let mut best: usize = 0;
            let mut k: usize = 1;
            while k < 5
                invariant
                    1 <= k <= 5,
                    best < k,
                    e@.len() == 5,
                    s.len() == 5,
                    forall|j: int| 0 <= j < 5 ==> e@[j] as int == #[trigger] s[j],
                    best as int == last_max_index(s, k as int),
                decreases 5 - k,
            {
                if e[k] >= e[best] {
                    best = k;
                }
                k = k + 1;
            }
            best as u8
        } else {
            0
        }
    }
}

} // verus!
