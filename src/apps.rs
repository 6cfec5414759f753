use vstd::prelude::*;
use crate::graphics::Graphics;

verus! {

/// A game driven frame by frame, with key presses in between.
pub trait App {
    /// The invariant that the game keeps between calls.
    spec fn valid(&self) -> bool;

    fn run_frame(&mut self)
        requires
            old(self).valid(),
        ensures
            final(self).valid(),
    ;

    fn handle_pressed_key(&mut self, key: char)
        requires
            old(self).valid(),
        ensures
            final(self).valid(),
    ;

    fn handle_released_key(&mut self, key: char)
        requires
            old(self).valid(),
        ensures
            final(self).valid(),
    ;

    fn graphics(&self) -> &Graphics;
}

/// How a game wants to be run.
pub struct RunConfig {
    pub frame_rate: u32,
}

} // verus!
