use vstd::prelude::*;

verus! {

/// Marker component for the entity controlled by the keyboard.
#[derive(Clone, Copy, Debug, PartialEq, Eq)]
pub struct Player;

impl Player {
    /// Creates the marker.
    pub fn new() -> (p: Player)
        ensures
            p == Player,
    {
        Player {}
    }
}

} // verus!
