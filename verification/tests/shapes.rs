use tetris::message::Rotation;
use tetris::mino::Shape;
use tetris::mino::ShapeVariant;

#[test]
fn origin_table_clockwise() {
    assert_eq!(ShapeVariant::I.find_origin(Rotation::Clockwise), 1);
    assert_eq!(ShapeVariant::O.find_origin(Rotation::Clockwise), 0);
    assert_eq!(ShapeVariant::S.find_origin(Rotation::Clockwise), 2);
    assert_eq!(ShapeVariant::Z.find_origin(Rotation::Clockwise), 2);
    assert_eq!(ShapeVariant::J.find_origin(Rotation::Clockwise), 1);
    assert_eq!(ShapeVariant::L.find_origin(Rotation::Clockwise), 2);
}

#[test]
fn origin_table_counter_clockwise() {
    assert_eq!(ShapeVariant::I.find_origin(Rotation::CounterClockwise), 2);
    assert_eq!(ShapeVariant::O.find_origin(Rotation::CounterClockwise), 0);
    assert_eq!(ShapeVariant::S.find_origin(Rotation::CounterClockwise), 2);
    assert_eq!(ShapeVariant::Z.find_origin(Rotation::CounterClockwise), 2);
    assert_eq!(ShapeVariant::J.find_origin(Rotation::CounterClockwise), 1);
    assert_eq!(ShapeVariant::L.find_origin(Rotation::CounterClockwise), 2);
}

#[test]
fn rotate_j_clockwise_exact() {
    // J at spawn: cells (4,0) (5,0) (6,0) (6,1); clockwise pivot is cell 1,
    // at (5,0). Relative cells (-1,0) (0,0) (1,0) (1,1) turn into
    // (0,1) (0,0) (0,-1) (1,-1), so the targets are as below.
    let s = Shape { variant: ShapeVariant::J, mino_pos: [[4, 0], [5, 0], [6, 0], [6, 1]] };
    let target = s.rotate(Rotation::Clockwise);
    assert_eq!(target, [[5, 1], [5, 0], [5, -1], [6, -1]]);
}

#[test]
fn rotate_i_counter_clockwise_exact() {
    // Horizontal I at row 5, columns 2..=5; counter-clockwise pivot is cell
    // 2, at (4,5). Relative cells (-2,0) (-1,0) (0,0) (1,0) turn into
    // (0,-2) (0,-1) (0,0) (0,1).
    let s = Shape { variant: ShapeVariant::I, mino_pos: [[2, 5], [3, 5], [4, 5], [5, 5]] };
    let target = s.rotate(Rotation::CounterClockwise);
    assert_eq!(target, [[4, 3], [4, 4], [4, 5], [4, 6]]);
}

#[test]
fn rotate_twice_clockwise_flips_s() {
    // Two quarter turns around the same pivot negate both relative axes.
    let s = Shape { variant: ShapeVariant::S, mino_pos: [[4, 5], [4, 6], [5, 6], [5, 7]] };
    let once = s.rotate(Rotation::Clockwise);
    let s2 = Shape {
        variant: ShapeVariant::S,
        mino_pos: [
            [once[0][0] as usize, once[0][1] as usize],
            [once[1][0] as usize, once[1][1] as usize],
            [once[2][0] as usize, once[2][1] as usize],
            [once[3][0] as usize, once[3][1] as usize],
        ],
    };
    let twice = s2.rotate(Rotation::Clockwise);
    // pivot is cell 2 at (5,6): each original relative cell (dx,dy) is now
    // (-dx,-dy).
    assert_eq!(twice, [[6, 7], [6, 6], [5, 6], [5, 5]]);
}
