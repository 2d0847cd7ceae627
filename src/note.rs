//! Notes: timed, laned taps and holds.

use vstd::prelude::*;

verus! {

/// Largest note time (in microseconds) the pipeline accepts: about 8.9 years.
pub const MAX_TIME_US: u64 = 0xFFFF_FFFF_FFFF;

/// Each note starts more than `gap` microseconds after the one before it.
pub open spec fn spaced_apart(s: Seq<Note>, gap: int) -> bool {
    forall|j: int| 0 < j < s.len() ==> s[j - 1].time + gap < #[trigger] s[j].time
}

/// Some note of `s` starts at most `window` microseconds before `t`, and not after it.
pub open spec fn covered(s: Seq<Note>, t: int, window: int) -> bool {
    exists|j: int| 0 <= j < s.len() && #[trigger] s[j].time <= t <= s[j].time + window
}

/// One playable event: `time` and `duration` are microseconds, `col` is the lane.
/// A duration of 0 is a tap, anything larger is a hold.
#[derive(Clone, Copy, Debug, PartialEq, Eq, Structural)]
pub struct Note {
    pub time: u64,
    pub col: u8,
    pub duration: u64,
}

impl Note {
    pub open spec fn tap_spec(time: u64) -> Note {
        Note { time, col: 0, duration: 0 }
    }

    /// A tap at `time` in lane 0, the placeholder the onset stage creates.
    pub fn tap(time: u64) -> (r: Note)
        ensures
            r == Note::tap_spec(time),
    {
        Note { time, col: 0, duration: 0 }
    }
}

} // verus!
