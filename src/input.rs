//! Key bindings and held-key tracking for the four play lanes.

use vstd::prelude::*;

verus! {

/// Code of `c` with ASCII lower-case letters raised to upper case.
pub open spec fn upper_code(c: char) -> u32 {
    if 'a' <= c <= 'z' {
        (c as u32 - 32) as u32
    } else {
        c as u32
    }
}

/// Code of `c` with ASCII lower-case letters raised to upper case.
pub fn to_upper_code(c: char) -> (r: u32)
    ensures
        r == upper_code(c),
{
    let v = c as u32;
    if 'a' <= c && c <= 'z' {
        v - 32
    } else {
        v
    }
}

/// Why a key could not be bound.
#[derive(Clone, Copy, Debug, PartialEq, Eq, Structural)]
pub enum BindingError {
    /// The key (ignoring ASCII case) already drives another lane.
    KeyInUse { lane: u32 },
    /// There is no such lane.
    InvalidLane { lane: u32 },
}

/// Which key drives each of the four lanes; keys match regardless of ASCII
/// case.
#[derive(Clone, Copy, Debug, PartialEq, Eq, Structural)]
pub struct KeyBindings {
    pub lane_1: char,
    pub lane_2: char,
    pub lane_3: char,
    pub lane_4: char,
}

impl Default for KeyBindings {
    /// D, F, J, K.
    fn default() -> (r: KeyBindings)
        ensures
            r == (KeyBindings { lane_1: 'D', lane_2: 'F', lane_3: 'J', lane_4: 'K' }),
    {
        KeyBindings::new('D', 'F', 'J', 'K')
    }
}

impl KeyBindings {
    pub fn new(l1: char, l2: char, l3: char, l4: char) -> (r: KeyBindings)
        ensures
            r == (KeyBindings { lane_1: l1, lane_2: l2, lane_3: l3, lane_4: l4 }),
    {
        KeyBindings { lane_1: l1, lane_2: l2, lane_3: l3, lane_4: l4 }
    }

    /// The keys in lane order.
    pub open spec fn keys(&self) -> Seq<char> {
        seq![self.lane_1, self.lane_2, self.lane_3, self.lane_4]
    }

    /// First lane whose key matches `key` (ignoring ASCII case), from `i` on.
    pub open spec fn lane_from(&self, key: char, i: int) -> Option<u32>
        decreases 4 - i,
    {
        if i >= 4 {
            None
        } else if upper_code(self.keys()[i]) == upper_code(key) {
            Some(i as u32)
        } else {
            self.lane_from(key, i + 1)
        }
    }

    /// The lane (0..=3) that `key` drives, if any.
    pub fn key_to_lane(&self, key: char) -> (r: Option<u32>)
        ensures
            r == self.lane_from(key, 0),
    {
        let k = to_upper_code(key);
        proof {
            reveal_with_fuel(KeyBindings::lane_from, 5);
        }
        if k == to_upper_code(self.lane_1) {
            Some(0)
        } else if k == to_upper_code(self.lane_2) {
            Some(1)
        } else if k == to_upper_code(self.lane_3) {
            Some(2)
        } else if k == to_upper_code(self.lane_4) {
            Some(3)
        } else {
            None
        }
    }

    /// The key of `lane`, if it is one of the four.
    pub fn lane_to_key(&self, lane: u32) -> (r: Option<char>)
        ensures
            r == (if lane < 4 {
                Some(self.keys()[lane as int])
            } else {
                None
            }),
    {
        match lane {
            0 => Some(self.lane_1),
            1 => Some(self.lane_2),
            2 => Some(self.lane_3),
            3 => Some(self.lane_4),
            _ => None,
        }
    }

    /// First lane other than `lane` whose key matches `key`, from `i` on.
    pub open spec fn conflict_from(&self, lane: u32, key: char, i: int) -> Option<u32>
        decreases 4 - i,
    {
        if i >= 4 {
            None
        } else if upper_code(self.keys()[i]) == upper_code(key) && i != lane {
            Some(i as u32)
        } else {
            self.conflict_from(lane, key, i + 1)
        }
    }

    /// Binds `key` to `lane`. Fails, changing nothing, when another lane
    /// already uses the key (ignoring ASCII case) or when the lane does not
    /// exist.
    pub fn set_binding(&mut self, lane: u32, key: char) -> (r: Result<(), BindingError>)
        ensures
            ({
                let conflict = old(self).conflict_from(lane, key, 0);
                match conflict {
                    Some(other) => r == Err::<(), BindingError>(BindingError::KeyInUse { lane: other })
                        && *final(self) == *old(self),
                    None => if lane >= 4 {
                        r == Err::<(), BindingError>(BindingError::InvalidLane { lane })
                            && *final(self) == *old(self)
                    } else {
                        r == Ok::<(), BindingError>(()) && final(self).keys() == old(
                            self,
                        ).keys().update(lane as int, key)
                    },
                }
            }),
    {
        let k = to_upper_code(key);
        proof {
            reveal_with_fuel(KeyBindings::conflict_from, 5);
        }
        if to_upper_code(self.lane_1) == k && lane != 0 {
            return Err(BindingError::KeyInUse { lane: 0 });
        }
        if to_upper_code(self.lane_2) == k && lane != 1 {
            return Err(BindingError::KeyInUse { lane: 1 });
        }
        if to_upper_code(self.lane_3) == k && lane != 2 {
            return Err(BindingError::KeyInUse { lane: 2 });
        }
        if to_upper_code(self.lane_4) == k && lane != 3 {
            return Err(BindingError::KeyInUse { lane: 3 });
        }
        match lane {
            0 => self.lane_1 = key,
            1 => self.lane_2 = key,
            2 => self.lane_3 = key,
            3 => self.lane_4 = key,
            _ => {
                return Err(BindingError::InvalidLane { lane });
            },
        }
        assert(self.keys() =~= old(self).keys().update(lane as int, key));
        Ok(())
    }
}

/// Relies on `char::to_ascii_uppercase`: `a`..=`z` become `A`..=`Z`, every
/// other character is returned unchanged.
#[verifier::external_body]
fn ascii_upper(c: char) -> (r: char)
    ensures
        r as u32 == upper_code(c),
{
    c.to_ascii_uppercase()
}

/// A key press or release on a lane; `timestamp` in microseconds, `key` in
/// upper case.
#[derive(Clone, Copy, Debug, PartialEq, Eq, Structural)]
pub struct InputEvent {
    pub lane: u32,
    pub timestamp: u64,
    pub key: char,
}

/// Index in `active` of the entry for the key with upper-case code `code`.
pub open spec fn key_index(active: Seq<(char, u64)>, code: u32) -> int
    decreases active.len(),
{
    if active.len() == 0 {
        -1
    } else if active.last().0 as u32 == code {
        active.len() - 1
    } else {
        key_index(active.drop_last(), code)
    }
}

/// Tracks which keys are held and since when.
#[derive(Clone, Debug)]
pub struct InputHandler {
    pub bindings: KeyBindings,
    /// Held keys (upper case, each once) with their press times.
    pub active_keys: Vec<(char, u64)>,
}

proof fn lemma_key_index(active: Seq<(char, u64)>, code: u32)
    ensures
        -1 <= key_index(active, code) < active.len(),
        key_index(active, code) >= 0 ==> active[key_index(active, code)].0 as u32 == code,
        key_index(active, code) < 0 ==> forall|i: int| 0 <= i < active.len() ==> active[i].0 as u32 != code,
    decreases active.len(),
{
    if active.len() > 0 {
        lemma_key_index(active.drop_last(), code);
        if active.last().0 as u32 != code {
            assert forall|i: int| 0 <= i < active.len() - 1 implies active[i] == active.drop_last()[i] by {}
        }
    }
}

impl InputHandler {
    pub fn new(bindings: KeyBindings) -> (r: InputHandler)
        ensures
            r.bindings == bindings,
            r.active_keys@.len() == 0,
    {
        InputHandler { bindings, active_keys: Vec::new() }
    }

    pub fn with_default_bindings() -> (r: InputHandler)
        ensures
            r.bindings == (KeyBindings { lane_1: 'D', lane_2: 'F', lane_3: 'J', lane_4: 'K' }),
            r.active_keys@.len() == 0,
    {
        InputHandler::new(KeyBindings::default())
    }

    /// Index of the held entry for `key` (ignoring ASCII case), -1 if none.
    pub open spec fn held_index(&self, key: char) -> int {
        key_index(self.active_keys@, upper_code(key))
    }

    fn find(&self, code: u32) -> (r: Option<usize>)
        ensures
            match r {
                Some(i) => i as int == key_index(self.active_keys@, code),
                None => key_index(self.active_keys@, code) < 0,
            },
    {
        proof {
            lemma_key_index(self.active_keys@, code);
        }
        let mut i: usize = self.active_keys.len();
        assert(self.active_keys@.subrange(0, i as int) =~= self.active_keys@);
        while i > 0
            invariant
                i <= self.active_keys@.len(),
                key_index(self.active_keys@, code) == key_index(self.active_keys@.subrange(0, i as int), code),
            decreases i,
        {
            let ghost pre = self.active_keys@.subrange(0, i as int);
            assert(pre.drop_last() =~= self.active_keys@.subrange(0, i - 1));
            if self.active_keys[i - 1].0 as u32 == code {
                return Some(i - 1);
            }
            i = i - 1;
        }
        None
    }

    /// A press of `key` at `current_time`: an event only when the key drives a
    /// lane and was not already held; the key is then held from that time.
    pub fn handle_key_press(&mut self, key: char, current_time: u64) -> (r: Option<InputEvent>)
        ensures
            ({
                let lane = old(self).bindings.lane_from(key, 0);
                if lane is Some && old(self).held_index(key) < 0 {
                    &&& r matches Some(e) && e.lane == lane->0 && e.timestamp == current_time
                        && e.key as u32 == upper_code(key)
                    &&& final(self).active_keys@ == old(self).active_keys@.push((r->0.key, current_time))
                    &&& final(self).bindings == old(self).bindings
                } else {
                    r is None && *final(self) == *old(self)
                }
            }),
    {
        match self.bindings.key_to_lane(key) {
            Some(lane) => {
                let k = ascii_upper(key);
                if self.find(k as u32).is_some() {
                    return None;
                }
                self.active_keys.push((k, current_time));
                Some(InputEvent { lane, timestamp: current_time, key: k })
            },
            None => None,
        }
    }

    /// A release of `key`: the key stops being held. With a release time, and
    /// when the key was held and drives a lane, the release is an event.
    pub fn handle_key_release(&mut self, key: char, release_time: Option<u64>) -> (r: Option<InputEvent>)
        ensures
            ({
                let i = old(self).held_index(key);
                if i >= 0 {
                    &&& final(self).active_keys@ == old(self).active_keys@.remove(i)
                    &&& final(self).bindings == old(self).bindings
                    &&& (match (release_time, old(self).bindings.lane_from(old(self).active_keys@[i].0, 0)) {
                        (Some(t), Some(lane)) => r == Some(
                            InputEvent { lane, timestamp: t, key: old(self).active_keys@[i].0 },
                        ),
                        _ => r is None,
                    })
                } else {
                    r is None && *final(self) == *old(self)
                }
            }),
    {
        let k = ascii_upper(key);
        proof {
            lemma_key_index(self.active_keys@, k as u32);
        }
        match self.find(k as u32) {
            Some(i) => {
                let (held, _) = self.active_keys.remove(i);
                match release_time {
                    Some(t) => match self.bindings.key_to_lane(held) {
                        Some(lane) => Some(InputEvent { lane, timestamp: t, key: held }),
                        None => None,
                    },
                    None => None,
                }
            },
            None => None,
        }
    }

    /// Whether `key` (ignoring ASCII case) is held.
    pub fn is_key_pressed(&self, key: char) -> (r: bool)
        ensures
            r == (self.held_index(key) >= 0),
    {
        let k = ascii_upper(key);
        self.find(k as u32).is_some()
    }

    /// Whether the key of `lane` is held.
    pub fn is_lane_pressed(&self, lane: u32) -> (r: bool)
        ensures
            r == (lane < 4 && self.held_index(self.bindings.keys()[lane as int]) >= 0),
    {
        match self.bindings.lane_to_key(lane) {
            Some(k) => self.is_key_pressed(k),
            None => false,
        }
    }

    /// Replaces the bindings and releases every key.
    pub fn set_bindings(&mut self, bindings: KeyBindings)
        ensures
            final(self).bindings == bindings,
            final(self).active_keys@.len() == 0,
    {
        self.bindings = bindings;
        self.active_keys = Vec::new();
    }

    pub fn get_bindings(&self) -> (r: &KeyBindings)
        ensures
            *r == self.bindings,
    {
        &self.bindings
    }

    /// Lanes of the held keys, in the order they were pressed.
    pub fn pressed_lanes(&self) -> (r: Vec<u32>)
        ensures
            r@ == lanes_of(self.bindings, self.active_keys@, self.active_keys@.len() as int),
    {
        let mut r: Vec<u32> = Vec::new();
        let mut i: usize = 0;
        while i < self.active_keys.len()
            invariant
                i <= self.active_keys@.len(),
                r@ == lanes_of(self.bindings, self.active_keys@, i as int),
            decreases self.active_keys@.len() - i,
        {
            match self.bindings.key_to_lane(self.active_keys[i].0) {
                Some(l) => r.push(l),
                None => {},
            }
            i = i + 1;
        }
        r
    }
}

/// Lanes of the first `hi` held keys that drive a lane.
pub open spec fn lanes_of(b: KeyBindings, active: Seq<(char, u64)>, hi: int) -> Seq<u32>
    decreases hi,
{
    if hi <= 0 {
        Seq::empty()
    } else {
        match b.lane_from(active[hi - 1].0, 0) {
            Some(l) => lanes_of(b, active, hi - 1).push(l),
            None => lanes_of(b, active, hi - 1),
        }
    }
}

} // verus!
