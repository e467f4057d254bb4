//! The state of the keyboard from frame to frame. Keys are named by their codes.
use std::collections::HashMap;
use vstd::prelude::*;

use crate::text::{chars_eq_str, str_chars};

verus! {

broadcast use {vstd::std_specs::hash::group_hash_axioms, vstd::string::group_string_axioms};

/// A struct that keeps track of the state of the keyboard at each frame.
///
/// Each key code is mapped to a pair of booleans; the first indicates whether the key was pressed
/// last frame, the second indicates whether the key is pressed this frame.
pub struct KeyboardState {
    keys: HashMap<u32, (bool, bool)>,
}

impl View for KeyboardState {
    type V = Map<u32, (bool, bool)>;

    closed spec fn view(&self) -> Map<u32, (bool, bool)> {
        self.keys@
    }
}

/// The key is pressed this frame.
pub open spec fn spec_is_pressed(keys: Map<u32, (bool, bool)>, key: u32) -> bool {
    keys.contains_key(key) && keys[key].1
}

/// The key is pressed this frame but was not last frame.
pub open spec fn spec_is_just_pressed(keys: Map<u32, (bool, bool)>, key: u32) -> bool {
    keys.contains_key(key) && !keys[key].0 && keys[key].1
}

/// The key was pressed last frame but is not this frame.
pub open spec fn spec_is_just_released(keys: Map<u32, (bool, bool)>, key: u32) -> bool {
    keys.contains_key(key) && keys[key].0 && !keys[key].1
}

impl KeyboardState {
    /// No key has been seen yet.
    pub fn new() -> (k: Self)
        ensures
            k@ == Map::<u32, (bool, bool)>::empty(),
    {
        KeyboardState { keys: HashMap::new() }
    }

    /// Records a key event: the key is now pressed or released. A key seen for the first time
    /// counts as not pressed last frame.
    pub fn handle_input(&mut self, key: u32, pressed: bool)
        ensures
            final(self)@ == old(self)@.insert(
                key,
                (old(self)@.contains_key(key) && old(self)@[key].0, pressed),
            ),
    {
        let last_frame = match self.keys.get(&key) {
            Some(state) => state.0,
            None => false,
        };
        self.keys.insert(key, (last_frame, pressed));
    }

    /// Returns whether or not the given key is pressed this frame.
    pub fn is_pressed(&self, key: u32) -> (b: bool)
        ensures
            b == spec_is_pressed(self@, key),
    {
        match self.keys.get(&key) {
            Some(state) => state.1,
            None => false,
        }
    }

    /// Returns whether or not the given key was just pressed this frame (i.e: pressed this frame
    /// but not last frame)
    pub fn is_just_pressed(&self, key: u32) -> (b: bool)
        ensures
            b == spec_is_just_pressed(self@, key),
    {
        match self.keys.get(&key) {
            Some(state) => !state.0 && state.1,
            None => false,
        }
    }

    /// Returns whether or not the given key was just released this frame (i.e: released this
    /// frame but not last frame)
    pub fn is_just_released(&self, key: u32) -> (b: bool)
        ensures
            b == spec_is_just_released(self@, key),
    {
        match self.keys.get(&key) {
            Some(state) => state.0 && !state.1,
            None => false,
        }
    }
}

/// The keys that play the drum, by the names of their key codes.
pub struct KeyMap {
    pub left_don: String,
    pub right_don: String,
    pub left_kat: String,
    pub right_kat: String,
}

impl Default for KeyMap {
    /// `F` and `J` for don, `D` and `K` for kat.
    fn default() -> (m: Self)
        ensures
            m.left_don@ == "KeyF"@,
            m.right_don@ == "KeyJ"@,
            m.left_kat@ == "KeyD"@,
            m.right_kat@ == "KeyK"@,
    {
        KeyMap {
            left_don: "KeyF".to_owned(),
            right_don: "KeyJ".to_owned(),
            left_kat: "KeyD".to_owned(),
            right_kat: "KeyK".to_owned(),
        }
    }
}

impl KeyMap {
    /// Whether the key plays don (the centre of the drum).
    pub fn key_is_don(&self, key: &str) -> (b: bool)
        ensures
            b == (key@ == self.left_don@ || key@ == self.right_don@),
    {
        let k = str_chars(key);
        chars_eq_str(&k, self.left_don.as_str()) || chars_eq_str(&k, self.right_don.as_str())
    }

    /// Whether the key plays kat (the rim of the drum).
    pub fn key_is_kat(&self, key: &str) -> (b: bool)
        ensures
            b == (key@ == self.left_kat@ || key@ == self.right_kat@),
    {
        let k = str_chars(key);
        chars_eq_str(&k, self.left_kat.as_str()) || chars_eq_str(&k, self.right_kat.as_str())
    }

    /// Whether the key plays the drum at all.
    pub fn key_is_don_or_kat(&self, key: &str) -> (b: bool)
        ensures
            b == (key@ == self.left_don@ || key@ == self.right_don@ || key@ == self.left_kat@
                || key@ == self.right_kat@),
    {
        self.key_is_don(key) || self.key_is_kat(key)
    }
}

/// A key event is seen at once: after it, the key reads as pressed exactly when the event
/// pressed it, and every other key reads as before.
pub proof fn lemma_key_event(keys: Map<u32, (bool, bool)>, key: u32, pressed: bool, other: u32)
    ensures
        ({
            let after = keys.insert(key, (keys.contains_key(key) && keys[key].0, pressed));
            &&& spec_is_pressed(after, key) == pressed
            &&& other != key ==> spec_is_pressed(after, other) == spec_is_pressed(keys, other)
                && spec_is_just_pressed(after, other) == spec_is_just_pressed(keys, other)
                && spec_is_just_released(after, other) == spec_is_just_released(keys, other)
        }),
{
}

/// A key just pressed is pressed, and no key is both just pressed and just released.
pub proof fn lemma_just_pressed_is_pressed(keys: Map<u32, (bool, bool)>, key: u32)
    ensures
        spec_is_just_pressed(keys, key) ==> spec_is_pressed(keys, key),
        !(spec_is_just_pressed(keys, key) && spec_is_just_released(keys, key)),
{
}

} // verus!
