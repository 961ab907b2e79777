//! Lane keys and the per-lane key state that the judgement reads.

use vstd::prelude::*;

verus! {

/// A key that a lane can be bound to.
#[derive(Debug, Clone, Copy, PartialEq, Eq, Hash, Structural)]
pub enum LaneKey {
    KeyA,
    KeyS,
    KeyD,
    KeyF,
    Space,
    KeyJ,
    KeyK,
    KeyL,
    Semicolon,
}

/// The key of each lane, lane 0 first.
#[derive(Debug, Clone, PartialEq, Eq)]
pub struct KeyBindings {
    pub keys: Vec<LaneKey>,
}

impl KeyBindings {
    /// The keys for a number of lanes: one to eight lanes have their own
    /// layout, every other number gets the four-lane layout.
    pub open spec fn spec_keys_for(key_count: u8) -> Seq<LaneKey> {
        match key_count {
            1 => seq![LaneKey::Space],
            2 => seq![LaneKey::KeyF, LaneKey::KeyJ],
            3 => seq![LaneKey::KeyF, LaneKey::Space, LaneKey::KeyJ],
            5 => seq![LaneKey::KeyD, LaneKey::KeyF, LaneKey::Space, LaneKey::KeyJ, LaneKey::KeyK],
            6 => seq![
                LaneKey::KeyS,
                LaneKey::KeyD,
                LaneKey::KeyF,
                LaneKey::KeyJ,
                LaneKey::KeyK,
                LaneKey::KeyL,
            ],
            7 => seq![
                LaneKey::KeyS,
                LaneKey::KeyD,
                LaneKey::KeyF,
                LaneKey::Space,
                LaneKey::KeyJ,
                LaneKey::KeyK,
                LaneKey::KeyL,
            ],
            8 => seq![
                LaneKey::KeyA,
                LaneKey::KeyS,
                LaneKey::KeyD,
                LaneKey::KeyF,
                LaneKey::KeyJ,
                LaneKey::KeyK,
                LaneKey::KeyL,
                LaneKey::Semicolon,
            ],
            _ => seq![LaneKey::KeyD, LaneKey::KeyF, LaneKey::KeyJ, LaneKey::KeyK],
        }
    }

    /// Bindings for a number of lanes.
    pub fn for_key_count(key_count: u8) -> (bindings: Self)
        ensures
            bindings.keys@ == Self::spec_keys_for(key_count),
            1 <= key_count <= 8 ==> bindings.keys@.len() == key_count,
    {
        let keys = match key_count {
            1 => vec![LaneKey::Space],
            2 => vec![LaneKey::KeyF, LaneKey::KeyJ],
            3 => vec![LaneKey::KeyF, LaneKey::Space, LaneKey::KeyJ],
            5 => vec![LaneKey::KeyD, LaneKey::KeyF, LaneKey::Space, LaneKey::KeyJ, LaneKey::KeyK],
            6 => vec![
                LaneKey::KeyS,
                LaneKey::KeyD,
                LaneKey::KeyF,
                LaneKey::KeyJ,
                LaneKey::KeyK,
                LaneKey::KeyL,
            ],
            7 => vec![
                LaneKey::KeyS,
                LaneKey::KeyD,
                LaneKey::KeyF,
                LaneKey::Space,
                LaneKey::KeyJ,
                LaneKey::KeyK,
                LaneKey::KeyL,
            ],
            8 => vec![
                LaneKey::KeyA,
                LaneKey::KeyS,
                LaneKey::KeyD,
                LaneKey::KeyF,
                LaneKey::KeyJ,
                LaneKey::KeyK,
                LaneKey::KeyL,
                LaneKey::Semicolon,
            ],
            _ => vec![LaneKey::KeyD, LaneKey::KeyF, LaneKey::KeyJ, LaneKey::KeyK],
        };
        KeyBindings { keys }
    }
}

impl Default for KeyBindings {
    fn default() -> (bindings: Self)
        ensures
            bindings.keys@ == KeyBindings::spec_keys_for(4),
    {
        KeyBindings::for_key_count(4)
    }
}

/// What the keys of the lanes do in one tick.
#[derive(Debug, Clone, PartialEq, Eq)]
pub struct KeyState {
    /// Lanes whose key is down.
    pub pressed: Vec<bool>,
    /// Lanes whose key went down in this tick.
    pub just_pressed: Vec<bool>,
    /// Lanes whose key came up in this tick.
    pub just_released: Vec<bool>,
}

/// The key state as three sequences of flags.
pub struct KeyStateView {
    pub pressed: Seq<bool>,
    pub just_pressed: Seq<bool>,
    pub just_released: Seq<bool>,
}

impl View for KeyState {
    type V = KeyStateView;

    open spec fn view(&self) -> KeyStateView {
        KeyStateView {
            pressed: self.pressed@,
            just_pressed: self.just_pressed@,
            just_released: self.just_released@,
        }
    }
}

/// The flag of a lane; a lane that the flags do not reach counts as unset.
pub open spec fn lane_flag(flags: Seq<bool>, column: int) -> bool {
    0 <= column < flags.len() && flags[column]
}

/// The flag of a lane; a lane that the flags do not reach counts as unset.
pub fn flag_at(flags: &Vec<bool>, column: u8) -> (b: bool)
    ensures
        b == lane_flag(flags@, column as int),
{
    let i: usize = column as usize;
    i < flags.len() && flags[i]
}

/// `n` flags, all unset.
fn unset_flags(n: u8) -> (flags: Vec<bool>)
    ensures
        flags@.len() == n,
        forall|i: int| 0 <= i < n ==> !flags@[i],
{
    let mut flags: Vec<bool> = Vec::new();
    let mut i: u8 = 0;
    while i < n
        invariant
            i <= n,
            flags@.len() == i,
            forall|j: int| 0 <= j < i ==> !flags@[j],
        decreases n - i,
    {
        flags.push(false);
        i = i + 1;
    }
    flags
}

impl KeyState {
    /// The state of `key_count` lanes with no key down.
    pub fn new(key_count: u8) -> (state: Self)
        ensures
            state.pressed@.len() == key_count,
            state.just_pressed@.len() == key_count,
            state.just_released@.len() == key_count,
            forall|c: int|
                !lane_flag(state.pressed@, c) && !lane_flag(state.just_pressed@, c) && !lane_flag(
                    state.just_released@,
                    c,
                ),
    {
        KeyState {
            pressed: unset_flags(key_count),
            just_pressed: unset_flags(key_count),
            just_released: unset_flags(key_count),
        }
    }
}

impl Default for KeyState {
    fn default() -> (state: Self)
        ensures
            state.pressed@.len() == 0,
            state.just_pressed@.len() == 0,
            state.just_released@.len() == 0,
    {
        KeyState { pressed: Vec::new(), just_pressed: Vec::new(), just_released: Vec::new() }
    }
}

} // verus!
