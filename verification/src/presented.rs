//! Which surfaces have actually reached the screen.
//!
//! A surface that has never been presented receives no input: a window that
//! is mapped but has not yet painted still occupies its place in the input
//! region, and a click landing in that gap would be answered by something
//! the person could not see. A surface is marked the first time its frame
//! callback goes out, per surface, and the mark never goes back: the question
//! is "has this ever been shown", not "is it visible right now".

use vstd::prelude::*;

verus! {

/// Set once the surface's first frame callback goes out, and never cleared.
#[derive(Debug, Clone, Copy, PartialEq, Eq, Structural)]
pub struct EverPresented {
    presented: bool,
}

impl View for EverPresented {
    type V = bool;

    closed spec fn view(&self) -> bool {
        self.presented
    }
}

impl EverPresented {
    /// The mark of a surface no frame has contained yet.
    pub fn new() -> (p: Self)
        ensures
            !p@,
    {
        EverPresented { presented: false }
    }

    /// Record that this surface was part of a frame the compositor submitted.
    pub fn mark_presented(&mut self)
        ensures
            final(self)@,
    {
        self.presented = true;
    }

    /// Whether the surface was ever part of a submitted frame.
    pub fn is_presented(&self) -> (b: bool)
        ensures
            b == self@,
    {
        self.presented
    }
}

/// Has this surface ever been on screen? `mark` is the surface's mark, if it
/// has one. A surface the compositor has never drawn answers `false`, which
/// is the whole point; so does a destroyed one, which is the safe answer for
/// input routing.
pub fn has_been_presented(surface_alive: bool, mark: Option<EverPresented>) -> (b: bool)
    ensures
        b == (surface_alive && match mark {
            Some(p) => p@,
            None => false,
        }),
{
    if !surface_alive {
        return false;
    }
    match mark {
        Some(p) => p.is_presented(),
        None => false,
    }
}

} // verus!
