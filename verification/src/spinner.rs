//! A small animated activity indicator shown while an answer is awaited.

use vstd::prelude::*;

verus! {

/// Number of animation glyphs the spinner cycles through.
pub const SPINNER_STEPS: usize = 8;

/// The glyph shown at a given step of the spinner animation.
pub open spec fn spec_spinner_char(i: int) -> char {
    if i == 0 {
        '\u{28f7}'
    } else if i == 1 {
        '\u{28ef}'
    } else if i == 2 {
        '\u{28df}'
    } else if i == 3 {
        '\u{287f}'
    } else if i == 4 {
        '\u{28bf}'
    } else if i == 5 {
        '\u{28fb}'
    } else if i == 6 {
        '\u{28fd}'
    } else {
        '\u{28fe}'
    }
}

/// Activity indicator state: whether it is animating, and which glyph is next.
#[derive(Debug, Clone)]
pub struct Spinner {
    pub active: bool,
    pub index: usize,
}

impl Spinner {
    /// A spinner starts inactive, at the first glyph.
    pub fn new() -> (r: Spinner)
        ensures
            !r.active,
            r.index == 0,
    {
        Spinner { active: false, index: 0 }
    }

    /// The glyph for the current animation step.
    pub fn draw(&self) -> (c: char)
        requires
            self.index < SPINNER_STEPS,
        ensures
            c == spec_spinner_char(self.index as int),
    {
        if self.index == 0 {
            '\u{28f7}'
        } else if self.index == 1 {
            '\u{28ef}'
        } else if self.index == 2 {
            '\u{28df}'
        } else if self.index == 3 {
            '\u{287f}'
        } else if self.index == 4 {
            '\u{28bf}'
        } else if self.index == 5 {
            '\u{28fb}'
        } else if self.index == 6 {
            '\u{28fd}'
        } else {
            '\u{28fe}'
        }
    }

    /// Advance to the next animation step, wrapping around.
    pub fn update(&mut self)
        requires
            old(self).index < SPINNER_STEPS,
        ensures
            final(self).index == (old(self).index + 1) % (SPINNER_STEPS as int),
            final(self).active == old(self).active,
    {
        self.index = (self.index + 1) % SPINNER_STEPS;
    }
}

impl Default for Spinner {
    /// Same state as `Spinner::new`: inactive, at the first glyph.
    fn default() -> (r: Spinner)
        ensures
            !r.active,
            r.index == 0,
    {
        Spinner::new()
    }
}

} // verus!
