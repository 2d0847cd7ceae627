//! Beat quantizer: snapping onset times to a tempo grid.

use vstd::prelude::*;
use vstd::arithmetic::div_mod::{lemma_fundamental_div_mod, lemma_fundamental_div_mod_converse};
use crate::note::{Note, covered, spaced_apart};

verus! {

/// Microseconds per minute, times a thousand. With a tempo in thousandths of a
/// beat per minute, one beat lasts `MINUTE_SCALE / bpm` microseconds.
pub const MINUTE_SCALE: u64 = 60_000_000_000;

/// Largest time (microseconds) that `Quantizer::quantize` accepts.
pub const QUANTIZE_LIMIT_US: u64 = 0x3FFF_FFFF_FFFF_FFFF;

/// Two kept notes closer than this (microseconds) count as one onset.
pub const DUPLICATE_WINDOW_US: u64 = 10_000;

/// `a / b` rounded to the nearest integer, ties upwards.
pub open spec fn round_div(a: int, b: int) -> int {
    (2 * a + b) / (2 * b)
}

/// Index of the grid point nearest to `t`, where grid points are
/// `MINUTE_SCALE / (bpm * grid)` microseconds apart.
pub open spec fn grid_index(t: int, bpm: int, grid: int) -> int {
    round_div(t * (bpm * grid), MINUTE_SCALE as int)
}

/// Time of grid point `k`, rounded to the microsecond.
pub open spec fn grid_point(k: int, bpm: int, grid: int) -> int {
    round_div(k * MINUTE_SCALE, bpm * grid)
}

/// `t` snapped to the nearest grid point.
pub open spec fn quantized_time(t: int, bpm: int, grid: int) -> int {
    grid_point(grid_index(t, bpm, grid), bpm, grid)
}

proof fn lemma_round_div(a: int, b: int)
    requires
        a >= 0,
        b > 0,
    ensures
        round_div(a, b) >= 0,
        2 * b * round_div(a, b) <= 2 * a + b,
        2 * a + b < 2 * b * round_div(a, b) + 2 * b,
{
    lemma_fundamental_div_mod(2 * a + b, 2 * b);
    let q = (2 * a + b) / (2 * b);
    assert(q >= 0) by (nonlinear_arith)
        requires
            q == (2 * a + b) / (2 * b),
            a >= 0,
            b > 0,
    {
        vstd::arithmetic::div_mod::lemma_div_pos_is_pos(2 * a + b, 2 * b);
    }
}

/// Snapping a grid point again gives the same grid index back, as long as grid
/// points are at least a microsecond apart.
proof fn lemma_grid_point_index(k: int, bpm: int, grid: int)
    requires
        k >= 0,
        bpm > 0,
        grid > 0,
        bpm * grid < MINUTE_SCALE,
    ensures
        grid_index(grid_point(k, bpm, grid), bpm, grid) == k,
{
    let n = MINUTE_SCALE as int;
    let d = bpm * grid;
    assert(d > 0) by (nonlinear_arith)
        requires
            bpm > 0,
            grid > 0,
            d == bpm * grid,
    ;
    assert(k * n >= 0) by (nonlinear_arith)
        requires
            k >= 0,
            n > 0,
    ;
    lemma_round_div(k * n, d);
    let q = grid_point(k, bpm, grid);
    assert(q * d >= 0) by (nonlinear_arith)
        requires
            q >= 0,
            d > 0,
    ;
    let x = 2 * (q * d) + n;
    assert(2 * d * q == 2 * (q * d)) by (nonlinear_arith);
    assert(2 * (k * n) == k * (2 * n)) by (nonlinear_arith);
    let r = x - k * (2 * n);
    assert(0 <= r < 2 * n);
    lemma_fundamental_div_mod_converse(x, 2 * n, k, r);
}

/// Bounds on the grid index and snapped time of `t`.
proof fn lemma_quantize_bounds(t: int, d: int)
    requires
        0 <= t,
        0 < d,
    ensures
        round_div(t * d, MINUTE_SCALE as int) >= 0,
        2 * (round_div(t * d, MINUTE_SCALE as int) * MINUTE_SCALE) <= 2 * (t * d) + MINUTE_SCALE,
        round_div(round_div(t * d, MINUTE_SCALE as int) * MINUTE_SCALE, d) <= t + MINUTE_SCALE,
{
    let n = MINUTE_SCALE as int;
    assert(t * d >= 0) by (nonlinear_arith)
        requires
            t >= 0,
            d > 0,
    ;
    lemma_round_div(t * d, n);
    let k = round_div(t * d, n);
    assert(2 * (k * n) <= 2 * (t * d) + n) by (nonlinear_arith)
        requires
            2 * n * k <= 2 * (t * d) + n,
    ;
    assert(k * n >= 0) by (nonlinear_arith)
        requires
            k >= 0,
            n > 0,
    ;
    lemma_round_div(k * n, d);
    let q = round_div(k * n, d);
    assert(q <= t + n) by (nonlinear_arith)
        requires
            2 * d * q <= 2 * (k * n) + d,
            2 * (k * n) <= 2 * (t * d) + n,
            d >= 1,
            n >= 1,
            t >= 0,
    ;
}

/// Snaps times to a beat grid. `bpm` is in thousandths of a beat per minute;
/// `grid_division` is the number of grid points per beat (4 gives sixteenths).
#[derive(Clone, Copy, Debug)]
pub struct Quantizer {
    pub bpm: u32,
    pub sample_rate: u32,
    pub grid_division: u8,
}

impl Quantizer {
    pub fn new(bpm: u32, sample_rate: u32, grid_division: u8) -> (r: Quantizer)
        ensures
            r == Quantizer::new_spec(bpm, sample_rate, grid_division),
    {
        Quantizer { bpm, sample_rate, grid_division }
    }

    pub open spec fn new_spec(bpm: u32, sample_rate: u32, grid_division: u8) -> Quantizer {
        Quantizer { bpm, sample_rate, grid_division }
    }

    /// A usable grid: positive tempo and at least one grid point per beat.
    pub open spec fn wf(&self) -> bool {
        self.bpm > 0 && self.grid_division > 0
    }

    pub open spec fn grid_time_spec(&self, beat: int, subdivision: int) -> int {
        grid_point(beat * self.grid_division + subdivision, self.bpm as int, self.grid_division as int)
    }

    pub open spec fn quantize_spec(&self, t: int) -> int {
        quantized_time(t, self.bpm as int, self.grid_division as int)
    }

    /// `n` with its time snapped to the grid.
    pub open spec fn snap(&self, n: Note) -> Note {
        Note { time: self.quantize_spec(n.time as int) as u64, col: n.col, duration: n.duration }
    }

    /// No note before index `i` snaps to the same time as note `i`.
    pub open spec fn first_at_time(&self, notes: Seq<Note>, i: int) -> bool {
        forall|h: int| 0 <= h < i ==> self.snap(notes[h]).time != self.snap(notes[i]).time
    }

    /// `n` is a snapped input note, and the first input note to snap to its time.
    pub open spec fn kept_from(&self, notes: Seq<Note>, n: Note) -> bool {
        exists|i: int|
            0 <= i < notes.len() && n == self.snap(notes[i]) && #[trigger] self.first_at_time(
                notes,
                i,
            )
    }

    /// Time (microseconds, rounded) of grid point `subdivision` within beat `beat`.
    pub fn grid_time(&self, beat: u64, subdivision: u8) -> (r: u64)
        requires
            self.wf(),
            self.grid_time_spec(beat as int, subdivision as int) <= u64::MAX,
        ensures
            r == self.grid_time_spec(beat as int, subdivision as int),
    {
        let n: u128 = MINUTE_SCALE as u128;
        assert((self.bpm as int) * (self.grid_division as int) <= 0xFFFF_FFFF * 255)
            by (nonlinear_arith)
            requires
                self.bpm <= 0xFFFF_FFFF,
                self.grid_division <= 255,
        ;
        let d: u128 = self.bpm as u128 * self.grid_division as u128;
        assert(d <= 0xFFFF_FFFF * 255) by (nonlinear_arith)
            requires
                d == self.bpm as int * self.grid_division as int,
                self.bpm <= 0xFFFF_FFFF,
                self.grid_division <= 255,
        ;
        assert(d > 0) by (nonlinear_arith)
            requires
                d == self.bpm as int * self.grid_division as int,
                self.bpm > 0,
                self.grid_division > 0,
        ;
        assert((beat as int) * (self.grid_division as int) <= 0xFFFF_FFFF_FFFF_FFFF * 255)
            by (nonlinear_arith)
            requires
                beat <= 0xFFFF_FFFF_FFFF_FFFF,
                self.grid_division <= 255,
        ;
        let k: u128 = beat as u128 * self.grid_division as u128 + subdivision as u128;
        assert(k <= 0xFFFF_FFFF_FFFF_FFFF * 256) by (nonlinear_arith)
            requires
                k == beat as int * self.grid_division as int + subdivision as int,
                beat <= 0xFFFF_FFFF_FFFF_FFFF,
                self.grid_division <= 255,
                subdivision <= 255,
        ;
        assert(2 * k * n + d <= 0xFFFF_FFFF_FFFF_FFFF_FFFF_FFFF_FFFF_FFFF) by (nonlinear_arith)
            requires
                k <= 0xFFFF_FFFF_FFFF_FFFF * 256,
                n == 60_000_000_000,
                d <= 0xFFFF_FFFF * 255,
        ;
        let q: u128 = (2 * k * n + d) / (2 * d);
        assert(2 * (k as int * 60_000_000_000) + d == 2 * k * n + d) by (nonlinear_arith)
            requires
                n == 60_000_000_000,
        ;
        q as u64
    }

    /// Snaps `time` to the nearest grid point. Returns the snapped time and the
    /// position of that point within its beat.
    pub fn quantize(&self, time: u64) -> (r: (u64, u8))
        requires
            self.wf(),
            time <= QUANTIZE_LIMIT_US,
        ensures
            r.0 == self.quantize_spec(time as int),
            r.0 <= time + MINUTE_SCALE,
            r.1 == grid_index(time as int, self.bpm as int, self.grid_division as int)
                % (self.grid_division as int),
            (self.bpm as int) * (self.grid_division as int) < MINUTE_SCALE ==> self.quantize_spec(
                r.0 as int,
            ) == r.0,
    {
        proof {
            if (self.bpm as int) * (self.grid_division as int) < MINUTE_SCALE {
                lemma_quantize_idempotent(*self, time);
            }
        }
        let n: u128 = MINUTE_SCALE as u128;
        assert((self.bpm as int) * (self.grid_division as int) <= 0xFFFF_FFFF * 255)
            by (nonlinear_arith)
            requires
                self.bpm <= 0xFFFF_FFFF,
                self.grid_division <= 255,
        ;
        let d: u128 = self.bpm as u128 * self.grid_division as u128;
        assert(0 < d <= 0xFFFF_FFFF * 255) by (nonlinear_arith)
            requires
                d == self.bpm as int * self.grid_division as int,
                0 < self.bpm <= 0xFFFF_FFFF,
                0 < self.grid_division <= 255,
        ;
        let t: u128 = time as u128;
        proof {
            lemma_quantize_bounds(t as int, d as int);
        }
        let k = self.nearest_index(time);
        assert(2 * k * n == 2 * (k * MINUTE_SCALE)) by (nonlinear_arith)
            requires
                n == MINUTE_SCALE,
        ;
        assert(2 * k * n + d <= 0xFFFF_FFFF_FFFF_FFFF_FFFF_FFFF_FFFF_FFFF) by (nonlinear_arith)
            requires
                2 * k * n <= 2 * (t * d) + n,
                t <= 0x3FFF_FFFF_FFFF_FFFF,
                d <= 0xFFFF_FFFF * 255,
                n == 60_000_000_000,
        ;
        let q: u128 = (2 * k * n + d) / (2 * d);
        assert(q == round_div(k * MINUTE_SCALE, d as int));
        let g: u128 = self.grid_division as u128;
        let sub: u128 = k % g;
        (q as u64, sub as u8)
    }

    /// Index of the grid point nearest to `time`, counted from 0 at time 0.
    pub fn nearest_index(&self, time: u64) -> (r: u128)
        requires
            self.wf(),
            time <= QUANTIZE_LIMIT_US,
        ensures
            r == grid_index(time as int, self.bpm as int, self.grid_division as int),
    {
        let n: u128 = MINUTE_SCALE as u128;
        assert((self.bpm as int) * (self.grid_division as int) <= 0xFFFF_FFFF * 255)
            by (nonlinear_arith)
            requires
                self.bpm <= 0xFFFF_FFFF,
                self.grid_division <= 255,
        ;
        let d: u128 = self.bpm as u128 * self.grid_division as u128;
        let t: u128 = time as u128;
        assert(2 * t * d + n <= 0xFFFF_FFFF_FFFF_FFFF_FFFF_FFFF_FFFF_FFFF) by (nonlinear_arith)
            requires
                t <= 0x3FFF_FFFF_FFFF_FFFF,
                d <= 0xFFFF_FFFF * 255,
                n == 60_000_000_000,
        ;
        assert(2 * t * d == 2 * (t * d)) by (nonlinear_arith);
        (2 * t * d + n) / (2 * n)
    }

    /// Snaps every note to the grid, orders them by time and keeps a note only
    /// when it lies more than 10 ms after the previously kept one. Among notes
    /// that snap to the same time the earliest in the input is kept.
    pub fn quantize_notes(&self, notes: Vec<Note>) -> (r: Vec<Note>)
        requires
            self.wf(),
            forall|i: int| 0 <= i < notes@.len() ==> notes@[i].time <= QUANTIZE_LIMIT_US,
        ensures
            spaced_apart(r@, DUPLICATE_WINDOW_US as int),
            forall|j: int| 0 <= j < r@.len() ==> #[trigger] self.kept_from(notes@, r@[j]),
            forall|i: int|
                0 <= i < notes@.len() ==> covered(
                    r@,
                    #[trigger] self.snap(notes@[i]).time as int,
                    DUPLICATE_WINDOW_US as int,
                ),
    {
        let len = notes.len();
        let mut snapped: Vec<Note> = Vec::new();
        let mut i: usize = 0;
        while i < len
            invariant
                self.wf(),
                len == notes@.len(),
                i <= len,
                snapped@.len() == i,
                forall|i: int| 0 <= i < notes@.len() ==> notes@[i].time <= QUANTIZE_LIMIT_US,
                forall|h: int|
                    0 <= h < i ==> snapped@[h] == self.snap(notes@[h]) && snapped@[h].time
                        <= QUANTIZE_LIMIT_US + MINUTE_SCALE,
            decreases len - i,
        {
            let n = notes[i];
            let (t, _) = self.quantize(n.time);
            snapped.push(Note { time: t, col: n.col, duration: n.duration });
            i = i + 1;
        }
        let mut kept: Vec<Note> = Vec::new();
        let mut last: u64 = 0;
        let mut started = false;
        let ghost mut finished = false;
        loop
            invariant
                finished ==> len == 0 || started,
                finished ==> forall|h: int|
                    0 <= h < len ==> snapped@[h].time <= last + DUPLICATE_WINDOW_US,
                len == notes@.len(),
                snapped@.len() == len,
                forall|h: int|
                    0 <= h < len ==> snapped@[h] == self.snap(notes@[h]) && snapped@[h].time
                        <= QUANTIZE_LIMIT_US + MINUTE_SCALE,
                started == (kept@.len() > 0),
                started ==> last == kept@[kept@.len() - 1].time,
                last <= QUANTIZE_LIMIT_US + MINUTE_SCALE,
                spaced_apart(kept@, DUPLICATE_WINDOW_US as int),
                forall|j: int| 0 <= j < kept@.len() ==> #[trigger] self.kept_from(notes@, kept@[j]),
                forall|i: int|
                    0 <= i < len && started && #[trigger] snapped@[i].time <= last
                        + DUPLICATE_WINDOW_US ==> covered(
                        kept@,
                        snapped@[i].time as int,
                        DUPLICATE_WINDOW_US as int,
                    ),
            ensures
                finished,
            decreases
                if started {
                    u64::MAX - last
                } else {
                    u64::MAX + 1
                },
        {
            let mut best: usize = len;
            let mut i: usize = 0;
            while i < len
                invariant
                    len == snapped@.len(),
                    i <= len,
                    best == len || best < i,
                    best < len ==> (!started || snapped@[best as int].time > last
                        + DUPLICATE_WINDOW_US),
                    best == len && i > 0 ==> started,
                    best == len ==> forall|h: int|
                        0 <= h < i ==> snapped@[h].time <= last + DUPLICATE_WINDOW_US,
                    best < len ==> forall|h: int|
                        0 <= h < i && (!started || snapped@[h].time > last
                            + DUPLICATE_WINDOW_US) ==> snapped@[best as int].time
                            <= snapped@[h].time,
                    best < len ==> forall|h: int|
                        0 <= h < best && (!started || snapped@[h].time > last
                            + DUPLICATE_WINDOW_US) ==> snapped@[best as int].time
                            < snapped@[h].time,
                    last <= QUANTIZE_LIMIT_US + MINUTE_SCALE,
                decreases len - i,
            {
                let t = snapped[i].time;
                if (!started || t > last + DUPLICATE_WINDOW_US) && (best == len || t
                    < snapped[best].time) {
                    best = i;
                }
                i = i + 1;
            }
            if best == len {
                proof {
                    finished = true;
                }
                break ;
            }
            let chosen = snapped[best];
            let ghost old_kept = kept@;
            let ghost old_last = last;
            let ghost old_started = started;
            kept.push(chosen);
            last = chosen.time;
            started = true;
            proof {
                assert(kept@[kept@.len() - 1] == self.snap(notes@[best as int]));
                assert forall|h: int| 0 <= h < best implies self.snap(notes@[h]).time
                    != chosen.time by {
                    assert(snapped@[h] == self.snap(notes@[h]));
                }
                assert forall|j: int| 0 <= j < kept@.len() implies #[trigger] self.kept_from(
                    notes@,
                    kept@[j],
                ) by {
                    if j < old_kept.len() {
                        assert(kept@[j] == old_kept[j]);
                    } else {
                        assert(kept@[j] == self.snap(notes@[best as int]));
                        assert(self.first_at_time(notes@, best as int));
                    }
                }
                assert forall|i: int|
                    0 <= i < len && started && #[trigger] snapped@[i].time <= last
                        + DUPLICATE_WINDOW_US implies covered(
                    kept@,
                    snapped@[i].time as int,
                    DUPLICATE_WINDOW_US as int,
                ) by {
                    if old_started && snapped@[i].time <= old_last + DUPLICATE_WINDOW_US {
                        assert(covered(
                            old_kept,
                            snapped@[i].time as int,
                            DUPLICATE_WINDOW_US as int,
                        ));
                        let j = choose|j: int|
                            0 <= j < old_kept.len() && #[trigger] old_kept[j].time
                                <= snapped@[i].time <= old_kept[j].time + DUPLICATE_WINDOW_US;
                        assert(kept@[j] == old_kept[j]);
                    } else {
                        assert(kept@[kept@.len() - 1].time <= snapped@[i].time);
                        let j = kept@.len() - 1;
                        assert(kept@[j].time <= snapped@[i].time <= kept@[j].time
                            + DUPLICATE_WINDOW_US);
                    }
                }
            }
        }
        proof {
            assert forall|i: int| 0 <= i < notes@.len() implies covered(
                kept@,
                #[trigger] self.snap(notes@[i]).time as int,
                DUPLICATE_WINDOW_US as int,
            ) by {
                assert(snapped@[i] == self.snap(notes@[i]));
                assert(started);
                assert(snapped@[i].time <= last + DUPLICATE_WINDOW_US);
            }
        }
        kept
    }
}

/// A snapped time is at most `MINUTE_SCALE` microseconds after the time.
pub proof fn lemma_quantize_fits(q: Quantizer, t: int)
    requires
        q.wf(),
        0 <= t,
    ensures
        0 <= q.quantize_spec(t) <= t + MINUTE_SCALE,
{
    let d = (q.bpm as int) * (q.grid_division as int);
    assert(d > 0) by (nonlinear_arith)
        requires
            d == (q.bpm as int) * (q.grid_division as int),
            q.bpm > 0,
            q.grid_division > 0,
    ;
    lemma_quantize_bounds(t, d);
    assert(t * d >= 0) by (nonlinear_arith)
        requires
            t >= 0,
            d > 0,
    ;
    lemma_round_div(t * d, MINUTE_SCALE as int);
    let k = round_div(t * d, MINUTE_SCALE as int);
    assert(k * MINUTE_SCALE >= 0) by (nonlinear_arith)
        requires
            k >= 0,
    ;
    lemma_round_div(k * MINUTE_SCALE, d);
}

/// A time exactly on the grid (grid point `k`, rounded to the microsecond) is
/// snapped to itself, as long as grid points are more than a microsecond apart.
pub proof fn lemma_grid_time_is_fixed(q: Quantizer, k: nat)
    requires
        q.wf(),
        (q.bpm as int) * (q.grid_division as int) < MINUTE_SCALE,
    ensures
        q.quantize_spec(grid_point(k as int, q.bpm as int, q.grid_division as int)) == grid_point(
            k as int,
            q.bpm as int,
            q.grid_division as int,
        ),
{
    lemma_grid_point_index(k as int, q.bpm as int, q.grid_division as int);
}

/// Snapping is idempotent: a time that already lies on the grid stays where it
/// is, as long as grid points are more than a microsecond apart.
pub proof fn lemma_quantize_idempotent(q: Quantizer, t: u64)
    requires
        q.wf(),
        (q.bpm as int) * (q.grid_division as int) < MINUTE_SCALE,
        t <= QUANTIZE_LIMIT_US,
    ensures
        q.quantize_spec(q.quantize_spec(t as int)) == q.quantize_spec(t as int),
{
    let d = (q.bpm as int) * (q.grid_division as int);
    assert(d > 0) by (nonlinear_arith)
        requires
            d == (q.bpm as int) * (q.grid_division as int),
            q.bpm > 0,
            q.grid_division > 0,
    ;
    assert(t as int * d >= 0) by (nonlinear_arith)
        requires
            d > 0,
    ;
    lemma_round_div(t as int * d, MINUTE_SCALE as int);
    let k = grid_index(t as int, q.bpm as int, q.grid_division as int);
    lemma_grid_point_index(k, q.bpm as int, q.grid_division as int);
}

} // verus!
