//! Readings of the lamps.

use vstd::prelude::*;
use vstd::string::*;

verus! {

/// What a lamp shows.
#[derive(Debug, Clone, Copy, PartialEq, Eq, Structural)]
pub enum LedState {
    Off,
    On,
    Heating,
}

impl LedState {
    /// The state in words.
    pub open spec fn spec_text(self) -> Seq<char> {
        match self {
            LedState::Off => "off"@,
            LedState::On => "on"@,
            LedState::Heating => "heating"@,
        }
    }

    /// The state in words.
    pub fn text(self) -> (r: &'static str)
        ensures
            r@ == self.spec_text(),
    {
        match self {
            LedState::Off => "off",
            LedState::On => "on",
            LedState::Heating => "heating",
        }
    }
}

/// What a lamp shows, with its label.
#[derive(Debug, PartialEq, Eq)]
pub struct LedReading {
    pub label: String,
    pub state: LedState,
}

} // verus!
