//! Telling a release of the button from its level.

use vstd::prelude::*;

verus! {

/// Remembers the level of a button between two looks at it.
#[derive(Debug, Copy, Clone, PartialEq, Eq, Structural)]
pub struct EdgeDetector {
    pub was_pressed: bool,
}

impl EdgeDetector {
    /// A detector for a button that has not been pressed yet.
    pub fn new() -> (detector: Self)
        ensures
            !detector.was_pressed,
    {
        EdgeDetector { was_pressed: false }
    }

    /// Takes the level of the button now, and tells whether the button was
    /// released since the last look: it was pressed then and is not now.
    pub fn check_rising_edge(&mut self, is_pressed: bool) -> (released: bool)
        ensures
            released == (old(self).was_pressed && !is_pressed),
            final(self).was_pressed == is_pressed,
    {
        let rising_edge = self.was_pressed && !is_pressed;
        self.was_pressed = is_pressed;
        rising_edge
    }
}

} // verus!
