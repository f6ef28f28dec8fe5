//! A falling-block puzzle engine: a 10 x 20 playfield, a catalog of six
//! tetromino variants, and the tick/command state machine that moves an
//! active piece, locks it, and clears completed rows.

pub mod cfg;
pub mod message;
pub mod mino;
pub mod rng;
pub mod size;
pub mod tetris;

use vstd::prelude::*;

verus! {

/// Number of columns of the playfield.
pub const COLUMNS: usize = 10;

/// Number of rows of the playfield; row 0 is the top, row 19 the floor.
pub const ROWS: usize = 20;

} // verus!
