//! Note placement of the multi-band chart generator.

use vstd::prelude::*;
use crate::note::Note;
use vstd::arithmetic::div_mod::lemma_fundamental_div_mod;
use crate::quantizer::{MINUTE_SCALE, QUANTIZE_LIMIT_US, Quantizer, grid_index};

verus! {

/// One difficulty of the multi-band generator.
#[derive(Clone, Copy, Debug)]
pub struct HqLevel {
    pub name: &'static str,
    pub grid_division: u8,
    pub columns: u8,
}

/// Easy (4 grid points per beat, 4 lanes), Normal (8, 4) and Hard (16, 5).
pub fn hq_levels() -> (r: Vec<HqLevel>)
    ensures
        r@.len() == 3,
        r@[0].name@ == "Easy"@ && r@[0].grid_division == 4 && r@[0].columns == 4,
        r@[1].name@ == "Normal"@ && r@[1].grid_division == 8 && r@[1].columns == 4,
        r@[2].name@ == "Hard"@ && r@[2].grid_division == 16 && r@[2].columns == 5,
{
    vec![
        HqLevel { name: "Easy", grid_division: 4, columns: 4 },
        HqLevel { name: "Normal", grid_division: 8, columns: 4 },
        HqLevel { name: "Hard", grid_division: 16, columns: 5 },
    ]
}

/// The grid of the multi-band generator.
pub open spec fn hq_grid(bpm: u32, grid_division: u8) -> Quantizer {
    Quantizer { bpm, sample_rate: 0, grid_division }
}

/// Note for one onset: snapped to the grid, in the lane given by its grid
/// index modulo the lane count.
pub open spec fn hq_note(q: Quantizer, t: u64, columns: u8) -> Note {
    Note {
        time: q.quantize_spec(t as int) as u64,
        col: (grid_index(t as int, q.bpm as int, q.grid_division as int) % (columns as int)) as u8,
        duration: 0,
    }
}

/// Beat `i` as a tap in lane `i mod columns`.
pub open spec fn beat_note(q: Quantizer, i: int, columns: u8) -> Note {
    Note { time: q.grid_time_spec(i, 0) as u64, col: (i % (columns as int)) as u8, duration: 0 }
}

/// Notes of one instrument at one difficulty of the multi-band generator.
/// Each onset becomes a tap on the nearest of `grid_division` points per beat
/// at `bpm`, in lane `grid index mod columns`. Without onsets, every beat that
/// starts before `duration_us` becomes a tap instead, lanes cycling, so that
/// the chart stays playable.
pub fn hq_notes(onsets: &Vec<u64>, bpm: u32, grid_division: u8, columns: u8, duration_us: u64) -> (r: Vec<Note>)
    requires
        bpm > 0,
        grid_division > 0,
        columns > 0,
        duration_us <= QUANTIZE_LIMIT_US,
        forall|i: int| 0 <= i < onsets@.len() ==> onsets@[i] <= QUANTIZE_LIMIT_US,
    ensures
        onsets@.len() > 0 ==> r@.len() == onsets@.len() && forall|i: int|
            0 <= i < r@.len() ==> r@[i] == hq_note(
                hq_grid(bpm, grid_division),
                onsets@[i],
                columns,
            ),
        onsets@.len() == 0 ==> forall|i: int|
            0 <= i < r@.len() ==> r@[i] == beat_note(
                hq_grid(bpm, grid_division),
                i,
                columns,
            ) && r@[i].time < duration_us,
        onsets@.len() == 0 ==> hq_grid(bpm, grid_division).grid_time_spec(
            r@.len() as int,
            0,
        ) >= duration_us,
{
    let q = Quantizer::new(bpm, 0, grid_division);
    let mut r: Vec<Note> = Vec::new();
    if onsets.len() > 0 {
        let mut i: usize = 0;
        while i < onsets.len()
            invariant
                q == hq_grid(bpm, grid_division),
                q.wf(),
                columns > 0,
                i <= onsets@.len(),
                r@.len() == i,
                forall|i: int| 0 <= i < onsets@.len() ==> onsets@[i] <= QUANTIZE_LIMIT_US,
                forall|k: int| 0 <= k < i ==> r@[k] == hq_note(q, onsets@[k], columns),
            decreases onsets@.len() - i,
        {
            let (t, _) = q.quantize(onsets[i]);
            let k = q.nearest_index(onsets[i]);
            let col = (k % columns as u128) as u8;
            r.push(Note { time: t, col, duration: 0 });
            i = i + 1;
        }
        return r;
    }
    let mut beat: u64 = 0;
    loop
        invariant
            q == hq_grid(bpm, grid_division),
            q.wf(),
            columns > 0,
            duration_us <= QUANTIZE_LIMIT_US,
            r@.len() == beat,
            forall|k: int| 0 <= k < beat ==> r@[k] == beat_note(q, k, columns) && r@[k].time < duration_us,
            forall|k: int| 0 <= k < beat ==> q.grid_time_spec(k, 0) < duration_us,
            beat == 0 || q.grid_time_spec(beat - 1, 0) < duration_us,
            beat <= duration_us + 1,
        ensures
            q.grid_time_spec(beat as int, 0) >= duration_us,
            r@.len() == beat,
            forall|k: int| 0 <= k < beat ==> r@[k] == beat_note(q, k, columns) && r@[k].time < duration_us,
        decreases duration_us + 1 - beat,
    {
        proof {
            lemma_beat_times(q, beat as int);
            if beat > 0 {
                lemma_beat_times(q, beat - 1);
            }
        }
        let t = q.grid_time(beat, 0);
        if t >= duration_us {
            break;
        }
        let col = (beat % columns as u64) as u8;
        r.push(Note { time: t, col, duration: 0 });
        beat = beat + 1;
    }
    r
}

/// Beat `i` starts no earlier than microsecond `i`, beat 0 at 0, and each
/// beat at most `MINUTE_SCALE` microseconds after the one before.
proof fn lemma_beat_times(q: Quantizer, i: int)
    requires
        q.wf(),
        i >= 0,
    ensures
        q.grid_time_spec(i, 0) >= i,
        q.grid_time_spec(0, 0) == 0,
        q.grid_time_spec(i + 1, 0) <= q.grid_time_spec(i, 0) + MINUTE_SCALE,
{
    let n = MINUTE_SCALE as int;
    let g = q.grid_division as int;
    let b = q.bpm as int;
    let d = b * g;
    assert(d >= g && g >= 1 && d >= 1) by (nonlinear_arith)
        requires
            d == b * g,
            0 < b,
            0 < g,
    ;
    assert(b < n);
    let k0 = i * g;
    let k1 = (i + 1) * g;
    assert(k0 >= 0 && k1 == k0 + g) by (nonlinear_arith)
        requires
            k0 == i * g,
            k1 == (i + 1) * g,
            i >= 0,
            g >= 1,
    ;
    let a0 = k0 * n;
    let a1 = k1 * n;
    assert(a0 >= 0 && a1 == a0 + g * n) by (nonlinear_arith)
        requires
            a0 == k0 * n,
            a1 == k1 * n,
            k1 == k0 + g,
            k0 >= 0,
            n > 0,
    ;
    lemma_fundamental_div_mod(2 * a0 + d, 2 * d);
    lemma_fundamental_div_mod(2 * a1 + d, 2 * d);
    let q0 = (2 * a0 + d) / (2 * d);
    let q1 = (2 * a1 + d) / (2 * d);
    assert(q.grid_time_spec(i, 0) == q0);
    assert(q.grid_time_spec(i + 1, 0) == q1);
    assert(2 * d * q0 + 2 * d > 2 * a0 + d);
    assert(2 * d * q1 <= 2 * a1 + d);
    assert(q1 <= q0 + n) by (nonlinear_arith)
        requires
            2 * d * q0 + 2 * d > 2 * a0 + d,
            2 * d * q1 <= 2 * a1 + d,
            a1 == a0 + g * n,
            d >= g,
            d >= 1,
            n >= 1,
    ;
    assert(a0 >= i * d) by (nonlinear_arith)
        requires
            a0 == k0 * n,
            k0 == i * g,
            d == b * g,
            b < n,
            i >= 0,
            g >= 1,
    ;
    assert(q0 >= i) by (nonlinear_arith)
        requires
            2 * d * q0 + 2 * d > 2 * a0 + d,
            a0 >= i * d,
            d >= 1,
    ;
    assert(q.grid_time_spec(0, 0) == d / (2 * d));
    vstd::arithmetic::div_mod::lemma_fundamental_div_mod_converse(d, 2 * d, 0, d);
}

} // verus!
