//! The editing modes of the prompt input area. The modal editing surface
//! itself lives with the runtime host; the mode it is in is shared state.

use vstd::prelude::*;

verus! {

/// The editing mode of the prompt.
#[derive(Debug, Clone, Copy, PartialEq, Eq, Structural)]
pub enum Mode {
    Normal,
    Insert,
    Visual,
}

} // verus!
