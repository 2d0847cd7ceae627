//! Hit judgement and scoring.

use vstd::prelude::*;

verus! {

/// How close a hit was to its note.
#[derive(Clone, Copy, Debug, PartialEq, Eq, Structural)]
pub enum HitAccuracy {
    Perfect,
    Great,
    Good,
    Okay,
    Miss,
}

impl HitAccuracy {
    pub open spec fn points_spec(&self) -> u32 {
        match self {
            HitAccuracy::Perfect => 300,
            HitAccuracy::Great => 200,
            HitAccuracy::Good => 100,
            HitAccuracy::Okay => 50,
            HitAccuracy::Miss => 0,
        }
    }

    /// Base score of a hit: 300, 200, 100, 50 or 0.
    pub fn points(&self) -> (r: u32)
        ensures
            r == self.points_spec(),
    {
        match self {
            HitAccuracy::Perfect => 300,
            HitAccuracy::Great => 200,
            HitAccuracy::Good => 100,
            HitAccuracy::Okay => 50,
            HitAccuracy::Miss => 0,
        }
    }
}

/// Number of hits of each accuracy.
#[derive(Clone, Copy, Debug, Default, PartialEq, Eq, Structural)]
pub struct AccuracyCounter {
    pub perfect: u32,
    pub great: u32,
    pub good: u32,
    pub ok: u32,
    pub miss: u32,
}

/// Accuracy of a hit `diff_us` microseconds away from its note: within
/// 50 ms Perfect, 100 ms Great, 150 ms Good, 200 ms Okay, else Miss.
pub open spec fn accuracy_for(diff_us: u64) -> HitAccuracy {
    if diff_us <= 50_000 {
        HitAccuracy::Perfect
    } else if diff_us <= 100_000 {
        HitAccuracy::Great
    } else if diff_us <= 150_000 {
        HitAccuracy::Good
    } else if diff_us <= 200_000 {
        HitAccuracy::Okay
    } else {
        HitAccuracy::Miss
    }
}

impl HitAccuracy {
    /// See `accuracy_for`.
    pub fn for_offset(diff_us: u64) -> (r: HitAccuracy)
        ensures
            r == accuracy_for(diff_us),
    {
        if diff_us <= 50_000 {
            HitAccuracy::Perfect
        } else if diff_us <= 100_000 {
            HitAccuracy::Great
        } else if diff_us <= 150_000 {
            HitAccuracy::Good
        } else if diff_us <= 200_000 {
            HitAccuracy::Okay
        } else {
            HitAccuracy::Miss
        }
    }
}

/// A note of a loaded chart (microseconds).
#[derive(Clone, Copy, Debug, PartialEq, Eq, Structural)]
pub struct ChartNote {
    pub time: u64,
    pub col: u32,
    pub duration: u64,
}

/// One judged hit (microseconds).
#[derive(Clone, Copy, Debug, PartialEq, Eq, Structural)]
pub struct HitEvent {
    pub note_time: u64,
    pub hit_time: u64,
    pub accuracy: HitAccuracy,
    pub note_lane: u32,
}

/// Largest health.
pub const MAX_HEALTH: u32 = 100;

/// Score, combo and health of a play session; times in microseconds.
#[derive(Clone, Debug)]
pub struct GameState {
    pub score: u32,
    pub combo: u32,
    pub max_combo: u32,
    pub accuracy_count: AccuracyCounter,
    pub health: u32,
    pub current_time: u64,
    pub notes_hit: Vec<HitEvent>,
    pub is_playing: bool,
    pub is_paused: bool,
}

/// Combo bonus: a tenth of the combo, at most 100 points.
pub open spec fn combo_bonus(combo: u32) -> u32 {
    if combo / 10 < 100 {
        combo / 10
    } else {
        100
    }
}

impl GameState {
    pub fn new() -> (r: GameState)
        ensures
            r.score == 0 && r.combo == 0 && r.max_combo == 0,
            r.accuracy_count == (AccuracyCounter { perfect: 0, great: 0, good: 0, ok: 0, miss: 0 }),
            r.health == MAX_HEALTH,
            r.current_time == 0,
            r.notes_hit@.len() == 0,
            !r.is_playing && !r.is_paused,
    {
        GameState {
            score: 0,
            combo: 0,
            max_combo: 0,
            accuracy_count: AccuracyCounter { perfect: 0, great: 0, good: 0, ok: 0, miss: 0 },
            health: MAX_HEALTH,
            current_time: 0,
            notes_hit: Vec::new(),
            is_playing: false,
            is_paused: false,
        }
    }

    /// Counters that one more hit can still raise.
    pub open spec fn has_room(&self) -> bool {
        &&& self.score <= u32::MAX - 400
        &&& self.combo < u32::MAX
        &&& self.accuracy_count.perfect < u32::MAX
        &&& self.accuracy_count.great < u32::MAX
        &&& self.accuracy_count.good < u32::MAX
        &&& self.accuracy_count.ok < u32::MAX
        &&& self.accuracy_count.miss < u32::MAX
        &&& self.health <= MAX_HEALTH
    }

    /// Judges a hit at `hit_time` on `note`. A miss resets the combo and costs
    /// 5 health; any other hit raises the combo and restores 2 health (up to
    /// 100). The score gains the accuracy's points plus the combo bonus
    /// (taken after a miss has reset the combo, before a hit raises it).
    pub fn record_hit(&mut self, note: &ChartNote, hit_time: u64) -> (r: HitAccuracy)
        requires
            old(self).has_room(),
        ensures
            ({
                let diff = if hit_time >= note.time {
                    (hit_time - note.time) as u64
                } else {
                    (note.time - hit_time) as u64
                };
                let s = *old(self);
                let combo_before = if r == HitAccuracy::Miss {
                    0
                } else {
                    s.combo
                };
                &&& r == accuracy_for(diff)
                &&& final(self).score == s.score + r.points_spec() + combo_bonus(combo_before)
                &&& final(self).combo == (if r == HitAccuracy::Miss {
                    0
                } else {
                    s.combo + 1
                })
                &&& final(self).max_combo == (if r != HitAccuracy::Miss && s.combo + 1
                    > s.max_combo {
                    (s.combo + 1) as u32
                } else {
                    s.max_combo
                })
                &&& final(self).health == (if r == HitAccuracy::Miss {
                    if s.health >= 5 {
                        (s.health - 5) as u32
                    } else {
                        0
                    }
                } else if s.health + 2 <= MAX_HEALTH {
                    (s.health + 2) as u32
                } else {
                    MAX_HEALTH
                })
                &&& final(self).accuracy_count.perfect == s.accuracy_count.perfect + (if r
                    == HitAccuracy::Perfect {
                    1int
                } else {
                    0
                })
                &&& final(self).accuracy_count.great == s.accuracy_count.great + (if r
                    == HitAccuracy::Great {
                    1int
                } else {
                    0
                })
                &&& final(self).accuracy_count.good == s.accuracy_count.good + (if r
                    == HitAccuracy::Good {
                    1int
                } else {
                    0
                })
                &&& final(self).accuracy_count.ok == s.accuracy_count.ok + (if r
                    == HitAccuracy::Okay {
                    1int
                } else {
                    0
                })
                &&& final(self).accuracy_count.miss == s.accuracy_count.miss + (if r
                    == HitAccuracy::Miss {
                    1int
                } else {
                    0
                })
                &&& final(self).notes_hit@ == s.notes_hit@.push(
                    HitEvent { note_time: note.time, hit_time, accuracy: r, note_lane: note.col },
                )
                &&& final(self).current_time == s.current_time
                &&& final(self).is_playing == s.is_playing
                &&& final(self).is_paused == s.is_paused
            }),
    {
        let diff = if hit_time >= note.time {
            hit_time - note.time
        } else {
            note.time - hit_time
        };
        let accuracy = HitAccuracy::for_offset(diff);
        match accuracy {
            HitAccuracy::Perfect => self.accuracy_count.perfect = self.accuracy_count.perfect + 1,
            HitAccuracy::Great => self.accuracy_count.great = self.accuracy_count.great + 1,
            HitAccuracy::Good => self.accuracy_count.good = self.accuracy_count.good + 1,
            HitAccuracy::Okay => self.accuracy_count.ok = self.accuracy_count.ok + 1,
            HitAccuracy::Miss => {
                self.accuracy_count.miss = self.accuracy_count.miss + 1;
                self.combo = 0;
                self.health = if self.health >= 5 {
                    self.health - 5
                } else {
                    0
                };
            },
        }
        let bonus = if self.combo / 10 < 100 {
            self.combo / 10
        } else {
            100
        };
        self.score = self.score + accuracy.points() + bonus;
        if accuracy != HitAccuracy::Miss {
            self.combo = self.combo + 1;
            if self.combo > self.max_combo {
                self.max_combo = self.combo;
            }
            self.health = if self.health + 2 <= MAX_HEALTH {
                self.health + 2
            } else {
                MAX_HEALTH
            };
        }
        self.notes_hit.push(HitEvent { note_time: note.time, hit_time, accuracy, note_lane: note.col });
        accuracy
    }

    /// Advances the clock by `delta_time` microseconds.
    pub fn update(&mut self, delta_time: u64)
        requires
            old(self).current_time + delta_time <= u64::MAX,
        ensures
            final(self).current_time == old(self).current_time + delta_time,
    {
        self.current_time = self.current_time + delta_time;
    }

    pub fn pause(&mut self)
        ensures
            final(self).is_paused,
            final(self).is_playing == old(self).is_playing,
            final(self).score == old(self).score,
    {
        self.is_paused = true;
    }

    pub fn resume(&mut self)
        ensures
            !final(self).is_paused,
            final(self).is_playing == old(self).is_playing,
            final(self).score == old(self).score,
    {
        self.is_paused = false;
    }
}

} // verus!
