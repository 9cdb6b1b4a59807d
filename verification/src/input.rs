//! Keyboard state as the input systems see it in one frame.

use vstd::prelude::*;

verus! {

/// The keys that the client reacts to.
#[derive(Clone, Copy, Debug, PartialEq, Eq, Structural, Hash)]
pub enum KeyCode {
    Digit1,
    Digit2,
    Digit3,
    Digit4,
    Digit5,
    Digit6,
    Digit7,
    Digit8,
    Digit9,
    Tab,
    KeyW,
    KeyA,
    KeyS,
    KeyD,
    Space,
    ShiftLeft,
    ShiftRight,
    ControlLeft,
    ControlRight,
    KeyC,
    ArrowUp,
    ArrowDown,
    ArrowLeft,
    ArrowRight,
    Escape,
    PageUp,
    PageDown,
    Equal,
    Minus,
    KeyQ,
    KeyE,
    KeyP,
    KeyZ,
    KeyX,
    BracketLeft,
    BracketRight,
    F3,
}

/// The keys that are down, and those that went down in this frame.
#[derive(Debug)]
pub struct ButtonInput {
    pub down: Vec<KeyCode>,
    pub fresh: Vec<KeyCode>,
}

fn holds(keys: &Vec<KeyCode>, key: KeyCode) -> (r: bool)
    ensures
        r == keys@.contains(key),
{
    let mut i: usize = 0;
    while i < keys.len()
        invariant
            i <= keys@.len(),
            forall|k: int| 0 <= k < i ==> keys@[k] != key,
        decreases keys@.len() - i,
    {
        if keys[i] == key {
            return true;
        }
        i += 1;
    }
    false
}

impl ButtonInput {
    /// `key` is held down.
    pub open spec fn is_down(&self, key: KeyCode) -> bool {
        self.down@.contains(key)
    }

    /// `key` went down in this frame.
    pub open spec fn is_fresh(&self, key: KeyCode) -> bool {
        self.fresh@.contains(key)
    }

    pub fn pressed(&self, key: KeyCode) -> (r: bool)
        ensures
            r == self.is_down(key),
            r == self.down@.contains(key),
    {
        holds(&self.down, key)
    }

    pub fn just_pressed(&self, key: KeyCode) -> (r: bool)
        ensures
            r == self.is_fresh(key),
            r == self.fresh@.contains(key),
    {
        holds(&self.fresh, key)
    }
}

} // verus!
