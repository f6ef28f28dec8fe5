//! The shape catalog: the six tetromino variants, their spawn layouts,
//! and the per-variant rotation-origin rule with the quarter-turn math.

use vstd::prelude::*;
use crate::message::Rotation;

verus! {

/// One of the six tetromino variants.
#[derive(Clone, Copy, PartialEq, Eq, Structural, Debug)]
pub enum ShapeVariant {
    /// o
    /// o
    /// o
    /// o
    I,

    /// oo
    /// oo
    O,

    /// o
    /// oo
    ///  o
    S,

    ///  o
    /// oo
    /// o
    Z,

    ///  o
    ///  o
    /// oo
    J,

    /// o
    /// o
    /// oo
    L,
}

impl ShapeVariant {
    /// Which of the four cells is the pivot for a turn in direction `rot`.
    pub open spec fn spec_origin(self, rot: Rotation) -> int {
        match self {
            ShapeVariant::I => if rot == Rotation::Clockwise { 1int } else { 2int },
            ShapeVariant::O => 0int,
            ShapeVariant::S => 2int,
            ShapeVariant::Z => 2int,
            ShapeVariant::L => 2int,
            ShapeVariant::J => 1int,
        }
    }

    /// Look up the pivot cell's index for this variant and spin direction.
    pub fn find_origin(&self, rot: Rotation) -> (origin: usize)
        ensures
            origin == self.spec_origin(rot),
            origin < 4,
    {
        match self {
            // o o o o
            //   ^
            ShapeVariant::I if rot == Rotation::Clockwise => 1,
            // o o o o
            //     ^
            ShapeVariant::I => 2,
            // > o o
            //   o o
            ShapeVariant::O => 0,
            // o
            // o o <
            //   o
            ShapeVariant::S => 2,
            //     o
            // > o o
            //   o
            ShapeVariant::Z => 2,
            //     o
            // o o o
            //   ^
            ShapeVariant::L => 2,
            // o
            // o o o
            //   ^
            ShapeVariant::J => 1,
        }
    }
}

/// The active piece: its variant and the absolute grid coordinates of its
/// four occupied cells, each a `[column, row]` pair.
#[derive(Clone, Copy)]
pub struct Shape {
    pub variant: ShapeVariant,
    pub mino_pos: [[usize; 2]; 4],
}

impl Shape {
    /// Column of cell `i`.
    pub open spec fn col(self, i: int) -> int {
        self.mino_pos[i][0] as int
    }

    /// Row of cell `i`.
    pub open spec fn row(self, i: int) -> int {
        self.mino_pos[i][1] as int
    }

    /// Cell `i` lies inside the 10 x 20 playfield.
    pub open spec fn cell_in_bounds(self, i: int) -> bool {
        self.col(i) < 10 && self.row(i) < 20
    }

    /// All four cells lie inside the playfield.
    pub open spec fn in_bounds(self) -> bool {
        self.cell_in_bounds(0) && self.cell_in_bounds(1) && self.cell_in_bounds(2)
            && self.cell_in_bounds(3)
    }

    /// Column of cell `i` after a quarter turn in direction `rot` around the
    /// variant's pivot cell: relative coordinates are swapped and one axis is
    /// negated, then translated back.
    pub open spec fn rot_col(self, rot: Rotation, i: int) -> int {
        let o = self.variant.spec_origin(rot);
        match rot {
            Rotation::Clockwise => self.col(o) + (self.row(i) - self.row(o)),
            Rotation::CounterClockwise => self.col(o) - (self.row(i) - self.row(o)),
        }
    }

    /// Row of cell `i` after a quarter turn in direction `rot`.
    pub open spec fn rot_row(self, rot: Rotation, i: int) -> int {
        let o = self.variant.spec_origin(rot);
        match rot {
            Rotation::Clockwise => self.row(o) - (self.col(i) - self.col(o)),
            Rotation::CounterClockwise => self.row(o) + (self.col(i) - self.col(o)),
        }
    }

    /// `target` holds exactly the four turned cells.
    pub open spec fn rotated_to(self, rot: Rotation, target: [[i32; 2]; 4]) -> bool {
        forall|i: int|
            0 <= i < 4 ==> #[trigger] target[i][0] == self.rot_col(rot, i) && target[i][1]
                == self.rot_row(rot, i)
    }

    /// Compute where the four cells would land after a quarter turn in
    /// direction `rot`; the result may lie outside the playfield and is not
    /// validated here.
    pub fn rotate(&self, rot: Rotation) -> (target: [[i32; 2]; 4])
        requires
            self.in_bounds(),
        ensures
            self.rotated_to(rot, target),
    {
        let origin = self.variant.find_origin(rot);
        let o = self.mino_pos[origin];
        let ox = o[0] as i32;
        let oy = o[1] as i32;

        let c0 = rotated_point(ox, oy, self.mino_pos[0], rot);
        let c1 = rotated_point(ox, oy, self.mino_pos[1], rot);
        let c2 = rotated_point(ox, oy, self.mino_pos[2], rot);
        let c3 = rotated_point(ox, oy, self.mino_pos[3], rot);

        [c0, c1, c2, c3]
    }
}

/// Turn one cell a quarter turn around `(ox, oy)`: relative coordinates are
/// swapped, one axis is negated by direction, and the pivot is added back.
fn rotated_point(ox: i32, oy: i32, cell: [usize; 2], rot: Rotation) -> (p: [i32; 2])
    requires
        0 <= ox < 10,
        0 <= oy < 20,
        cell[0] < 10,
        cell[1] < 20,
    ensures
        p[0] == match rot {
            Rotation::Clockwise => ox + (cell[1] - oy),
            Rotation::CounterClockwise => ox - (cell[1] - oy),
        },
        p[1] == match rot {
            Rotation::Clockwise => oy - (cell[0] - ox),
            Rotation::CounterClockwise => oy + (cell[0] - ox),
        },
{
    let dx = cell[0] as i32 - ox;
    let dy = cell[1] as i32 - oy;
    match rot {
        Rotation::Clockwise => [ox + dy, oy - dx],
        Rotation::CounterClockwise => [ox - dy, oy + dx],
    }
}

} // verus!
