use vstd::prelude::*;
use std::collections::HashMap;

verus! {

broadcast use vstd::std_specs::hash::group_hash_axioms;

/// Whether key `k` counts as pressed in key states `m`: it was last reported pressed.
pub open spec fn key_pressed(m: Map<u32, bool>, k: u32) -> bool {
    m.contains_key(k) && m[k]
}

/// The pressed state of the keyboard keys and of the mouse buttons, by key and button code.
pub struct InputState {
    pressed_keys: HashMap<u32, bool>,
    pressed_mouse_buttons: HashMap<u32, bool>,
}

impl View for InputState {
    type V = Map<u32, bool>;

    closed spec fn view(&self) -> Map<u32, bool> {
        self.pressed_keys@
    }
}

impl InputState {
    /// The reported states of the mouse buttons (the view holds those of the keys).
    pub closed spec fn buttons(&self) -> Map<u32, bool> {
        self.pressed_mouse_buttons@
    }

    /// No key and no mouse button reported yet.
    pub fn new() -> (s: Self)
        ensures
            s@ == Map::<u32, bool>::empty(),
            s.buttons() == Map::<u32, bool>::empty(),
    {
        Self { pressed_keys: HashMap::new(), pressed_mouse_buttons: HashMap::new() }
    }

    /// Records whether key `key` is pressed.
    pub fn set_key_press(&mut self, key: u32, is_pressed: bool)
        ensures
            final(self)@ == old(self)@.insert(key, is_pressed),
            final(self).buttons() == old(self).buttons(),
    {
        self.pressed_keys.insert(key, is_pressed);
    }

    /// Whether key `key` was last reported pressed, forgetting its report: afterwards it
    /// reads as never reported.
    pub fn take_key_pressed(&mut self, key: u32) -> (r: bool)
        ensures
            r == key_pressed(old(self)@, key),
            final(self)@ == old(self)@.remove(key),
            final(self).buttons() == old(self).buttons(),
    {
        match self.pressed_keys.remove(&key) {
            Some(p) => p,
            None => false,
        }
    }

    /// Records whether mouse button `button` is pressed.
    pub fn set_mouse_button_press(&mut self, button: u32, is_pressed: bool)
        ensures
            final(self).buttons() == old(self).buttons().insert(button, is_pressed),
            final(self)@ == old(self)@,
    {
        self.pressed_mouse_buttons.insert(button, is_pressed);
    }

    /// Whether mouse button `button` was last reported pressed (false when never reported).
    pub fn is_mouse_button_pressed(&self, button: u32) -> (r: bool)
        ensures
            r == key_pressed(self.buttons(), button),
    {
        match self.pressed_mouse_buttons.get(&button) {
            Some(p) => *p,
            None => false,
        }
    }

    /// Whether mouse button `button` was last reported pressed, forgetting its report.
    pub fn take_mouse_button_pressed(&mut self, button: u32) -> (r: bool)
        ensures
            r == key_pressed(old(self).buttons(), button),
            final(self).buttons() == old(self).buttons().remove(button),
            final(self)@ == old(self)@,
    {
        match self.pressed_mouse_buttons.remove(&button) {
            Some(p) => p,
            None => false,
        }
    }

    /// Whether key `key` was last reported pressed (false when never reported).
    pub fn is_key_pressed(&self, key: u32) -> (r: bool)
        ensures
            r == key_pressed(self@, key),
    {
        match self.pressed_keys.get(&key) {
            Some(p) => *p,
            None => false,
        }
    }
}

/// A key reads as pressed exactly when it was last reported pressed; reporting or taking one
/// key leaves every other key as it was, and a taken key reads as not pressed.
pub proof fn lemma_key_press_read_back(m: Map<u32, bool>, k: u32, pressed: bool, other: u32)
    ensures
        key_pressed(m.insert(k, pressed), k) == pressed,
        other != k ==> key_pressed(m.insert(k, pressed), other) == key_pressed(m, other),
        !key_pressed(Map::<u32, bool>::empty(), k),
        !key_pressed(m.remove(k), k),
        other != k ==> key_pressed(m.remove(k), other) == key_pressed(m, other),
{
}

} // verus!
