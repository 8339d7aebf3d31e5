//! The types of the command-line surface.
//!
//! These are the plain forms; the binary around the library carries its own
//! copies with the argument-parser derives and converts to these.

use vstd::prelude::*;

verus! {

/// The subcommands the tool offers.
#[derive(Debug, Clone)]
pub enum Commands {
    /// Change focus in the given direction, skipping over tabbed and stacked
    /// siblings.
    Focus(FocusArgs),
}

/// The only argument to the focus command is the direction.
#[derive(Debug, Clone)]
pub struct FocusArgs {
    pub direction: Direction,
}

/// The direction in which to change focus.
#[derive(Debug, PartialEq, Eq, Copy, Clone, Structural)]
pub enum Direction {
    Left,
    Right,
    Up,
    Down,
}

} // verus!
