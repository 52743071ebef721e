//! Debounced button state, as fed by the window event loop.
//!
//! The event plumbing lives outside the library; what is kept here is the
//! state machine a button steps through and the queries made of it.

use vstd::prelude::*;

verus! {

/// Where a button is in its press cycle.
#[derive(Clone, Copy, PartialEq, Eq, Structural, Debug)]
pub enum InputState {
    Pressed,
    JustPressed,
    Released,
    JustReleased,
}

impl Default for InputState {
    /// A button starts released.
    fn default() -> (r: Self)
        ensures
            r == InputState::Released,
    {
        InputState::Released
    }
}

impl InputState {
    /// Ages a one-frame edge state into its level state; level states are
    /// left alone.
    pub fn step(&mut self)
        ensures
            *final(self) == (match *old(self) {
                InputState::JustPressed => InputState::Pressed,
                InputState::JustReleased => InputState::Released,
                other => other,
            }),
    {
        match self {
            InputState::JustPressed => {
                *self = InputState::Pressed;
            },
            InputState::JustReleased => {
                *self = InputState::Released;
            },
            _ => {},
        };
    }

    /// Whether the button is down, freshly or not.
    pub fn pressed(&self) -> (r: bool)
        ensures
            r == (*self == InputState::Pressed || *self == InputState::JustPressed),
    {
        matches!(*self, InputState::Pressed | InputState::JustPressed)
    }
}

/// A button together with whether its last state change was swallowed by
/// the UI layer.
#[derive(Clone, Copy, PartialEq, Eq, Structural, Debug)]
pub struct Button {
    pub state: InputState,
    pub consumed: bool,
}

impl Default for Button {
    /// A fresh button: released and unconsumed.
    fn default() -> (r: Self)
        ensures
            r.state == InputState::Released,
            !r.consumed,
    {
        Button { state: InputState::Released, consumed: false }
    }
}

impl Button {
    /// The button went down this frame and the UI did not swallow it.
    pub fn just_pressed(&self) -> (r: bool)
        ensures
            r == (!self.consumed && self.state == InputState::JustPressed),
    {
        !self.consumed && self.state == InputState::JustPressed
    }

    /// The button is held down and the UI did not swallow it.
    pub fn pressed(&self) -> (r: bool)
        ensures
            r == (!self.consumed && self.state == InputState::Pressed),
    {
        !self.consumed && self.state == InputState::Pressed
    }

    /// The button came up this frame and the UI did not swallow it.
    pub fn just_released(&self) -> (r: bool)
        ensures
            r == (!self.consumed && self.state == InputState::JustReleased),
    {
        !self.consumed && self.state == InputState::JustReleased
    }

    /// The button is up and the UI did not swallow it.
    pub fn released(&self) -> (r: bool)
        ensures
            r == (!self.consumed && self.state == InputState::Released),
    {
        !self.consumed && self.state == InputState::Released
    }
}

} // verus!
