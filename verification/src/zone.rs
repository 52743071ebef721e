//! Progress state of an overworld zone.

use vstd::prelude::*;

verus! {

/// Whether a zone can be entered, is still closed, or has been beaten.
#[derive(Clone, Copy, PartialEq, Eq, Structural, Debug)]
pub enum ZoneState {
    Unlocked,
    Locked,
    Solved,
}

impl ZoneState {
    /// A zone can be selected unless it is still locked.
    pub fn selectable(&self) -> (r: bool)
        ensures
            r == (*self != ZoneState::Locked),
    {
        *self != ZoneState::Locked
    }

    /// Opens the zone; a solved zone stays solved.
    pub fn unlock(&mut self)
        ensures
            *final(self) == (if *old(self) == ZoneState::Solved {
                ZoneState::Solved
            } else {
                ZoneState::Unlocked
            }),
    {
        *self = match *self {
            ZoneState::Solved => ZoneState::Solved,
            _ => ZoneState::Unlocked,
        }
    }
}

} // verus!
