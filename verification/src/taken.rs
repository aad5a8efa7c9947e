//! The record that a buffer which exists once has been handed out.

use vstd::prelude::*;

verus! {

/// Records whether a buffer that exists once has been handed out.
pub struct Taken {
    taken: bool,
}

impl Taken {
    /// Whether the buffer has been handed out.
    pub closed spec fn is_taken(&self) -> bool {
        self.taken
    }

    /// A record for a buffer that nobody has taken yet.
    pub fn new() -> (guard: Self)
        ensures
            !guard.is_taken(),
    {
        Taken { taken: false }
    }

    /// Marks the buffer as handed out and tells whether it already was.
    pub fn swap_taken(&mut self) -> (was: bool)
        ensures
            was == old(self).is_taken(),
            final(self).is_taken(),
    {
        let was: bool = self.taken;
        self.taken = true;
        was
    }
}

} // verus!
