//! Player commands as the external driver hands them to the engine.

use vstd::prelude::*;

verus! {

/// A discrete command produced by the input driver.
pub enum Command {
    /// Stop the game loop.
    Quit,
    /// The viewport changed; only rendering geometry is affected.
    Resize,
    /// Move the active piece one column left or right.
    MoveMino(MinoDirection),
    /// Rotate the active piece a quarter turn.
    Rotate(Rotation),
}

/// Horizontal direction of a move command.
#[derive(Clone, Copy, PartialEq, Eq, Structural, Debug)]
pub enum MinoDirection {
    Left,
    Right,
}

/// Spin direction of a rotate command.
#[derive(Clone, Copy, PartialEq, Eq, Structural, Debug)]
pub enum Rotation {
    Clockwise,
    CounterClockwise,
}

} // verus!
