//! The state of the pet window that the shell keeps.

use vstd::prelude::*;

verus! {

/// Whether the pet window has been set up.
#[derive(Debug, Clone, Copy)]
pub struct PetWindowState {
    /// `true` once the window has been set up.
    pub initialized: bool,
}

impl PetWindowState {
    /// The state before the window is set up.
    pub fn new() -> (state: Self)
        ensures
            !state.initialized,
    {
        PetWindowState { initialized: false }
    }

    /// Marks the window as set up and tells whether this call was the
    /// first to do so: the caller who is told `true` sets the window up.
    pub fn begin_setup(&mut self) -> (first: bool)
        ensures
            final(self).initialized,
            first == !old(self).initialized,
    {
        let first = !self.initialized;
        self.initialized = true;
        first
    }
}

} // verus!
