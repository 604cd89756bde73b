//! The hotkey state machine: consumes key press/release events and decides
//! when the two-key chord (modifier held, trigger pressed) fires.

use vstd::prelude::*;

verus! {

/// The key identities the machine distinguishes. The left and right variants
/// of the logical modifier are interchangeable; every key besides the
/// modifier and the trigger letter is `Other`.
#[derive(Clone, Copy, PartialEq, Eq, Structural, Debug)]
pub enum Key {
    ModifierLeft,
    ModifierRight,
    Trigger,
    Other,
}

/// One raw input event.
#[derive(Clone, Copy, PartialEq, Eq, Structural, Debug)]
pub enum KeyEvent {
    Press(Key),
    Release(Key),
}

/// The machine's state: whether the modifier is currently held.
#[derive(Clone, Copy, PartialEq, Eq, Structural, Debug)]
pub enum HotkeyState {
    Idle,
    ModifierHeld,
}

/// Whether a key is one of the two variants of the tracked modifier.
pub open spec fn is_modifier(k: Key) -> bool {
    k == Key::ModifierLeft || k == Key::ModifierRight
}

impl HotkeyState {
    /// The transition relation: pressing the modifier holds it, releasing it
    /// returns to idle, pressing the trigger while the modifier is held
    /// fires (leaving the modifier held), and any other event changes
    /// nothing and fires nothing.
    pub open spec fn step_spec(self, event: KeyEvent) -> (HotkeyState, bool) {
        match event {
            KeyEvent::Press(k) => if is_modifier(k) {
                (HotkeyState::ModifierHeld, false)
            } else if k == Key::Trigger {
                (self, self == HotkeyState::ModifierHeld)
            } else {
                (self, false)
            },
            KeyEvent::Release(k) => if is_modifier(k) {
                (HotkeyState::Idle, false)
            } else {
                (self, false)
            },
        }
    }

    /// Consumes one event; returns the next state and whether the chord
    /// fired.
    pub fn step(&self, event: &KeyEvent) -> (r: (HotkeyState, bool))
        ensures
            r == self.step_spec(*event),
    {
        match event {
            KeyEvent::Press(k) => match k {
                Key::ModifierLeft | Key::ModifierRight => (HotkeyState::ModifierHeld, false),
                Key::Trigger => {
                    let fire = match self {
                        HotkeyState::ModifierHeld => true,
                        HotkeyState::Idle => false,
                    };
                    (*self, fire)
                },
                Key::Other => (*self, false),
            },
            KeyEvent::Release(k) => match k {
                Key::ModifierLeft | Key::ModifierRight => (HotkeyState::Idle, false),
                _ => (*self, false),
            },
        }
    }
}

} // verus!
