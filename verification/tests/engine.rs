use tetris::message::MinoDirection;
use tetris::message::Rotation;
use tetris::mino::Shape;
use tetris::mino::ShapeVariant;
use tetris::tetris::Cell;
use tetris::tetris::Tetris;
use tetris::COLUMNS;
use tetris::ROWS;

fn empty_engine() -> Tetris {
    Tetris::new(7)
}

fn set_locked(t: &mut Tetris, column: usize, row: usize) {
    t.minos[row][column] = Cell::Locked;
}

fn with_piece(variant: ShapeVariant, mino_pos: [[usize; 2]; 4]) -> Tetris {
    let mut t = empty_engine();
    t.focused_shape = Some(Shape { variant, mino_pos });
    t
}

#[test]
fn new_engine_is_empty_and_idle() {
    let t = empty_engine();
    assert_eq!(t.minos.len(), ROWS);
    for row in &t.minos {
        assert_eq!(row.len(), COLUMNS);
        for cell in row {
            assert_eq!(*cell, Cell::Empty);
        }
    }
    assert!(t.focused_shape.is_none());
    assert!(!t.game_over);
    assert_eq!(t.cfg.window_size, (500, 700));
    assert_eq!(t.cfg.speed, 200);
}

#[test]
fn first_tick_spawns_a_piece_near_top_center() {
    let mut t = empty_engine();
    t.update();
    let s = t.focused_shape.as_ref().expect("a piece should spawn");
    for p in &s.mino_pos {
        assert!(p[0] >= 3 && p[0] <= 6, "spawn column out of range: {}", p[0]);
        assert!(p[1] <= 2, "spawn row out of range: {}", p[1]);
    }
    // spawning leaves the grid untouched
    for row in &t.minos {
        for cell in row {
            assert_eq!(*cell, Cell::Empty);
        }
    }
    assert!(!t.game_over);
}

#[test]
fn tick_moves_piece_one_row_down() {
    let mut t = with_piece(ShapeVariant::O, [[4, 0], [5, 0], [4, 1], [5, 1]]);
    t.update();
    let s = t.focused_shape.as_ref().unwrap();
    assert_eq!(s.mino_pos, [[4, 1], [5, 1], [4, 2], [5, 2]]);
}

#[test]
fn piece_on_floor_locks() {
    let mut t = with_piece(ShapeVariant::O, [[4, 18], [5, 18], [4, 19], [5, 19]]);
    t.update();
    assert!(t.focused_shape.is_none());
    assert_eq!(t.minos[18][4], Cell::Locked);
    assert_eq!(t.minos[18][5], Cell::Locked);
    assert_eq!(t.minos[19][4], Cell::Locked);
    assert_eq!(t.minos[19][5], Cell::Locked);
}

#[test]
fn piece_above_locked_stack_locks_instead_of_falling() {
    // one locked cell directly below one cell of the piece
    let mut t = with_piece(ShapeVariant::O, [[4, 5], [5, 5], [4, 6], [5, 6]]);
    set_locked(&mut t, 4, 7);
    t.update();
    assert!(t.focused_shape.is_none(), "the piece must lock, not fall");
    assert_eq!(t.minos[5][4], Cell::Locked);
    assert_eq!(t.minos[5][5], Cell::Locked);
    assert_eq!(t.minos[6][4], Cell::Locked);
    assert_eq!(t.minos[6][5], Cell::Locked);
    assert_eq!(t.minos[7][4], Cell::Locked);
}

#[test]
fn move_left_at_wall_is_rejected() {
    let start = [[0, 5], [0, 6], [1, 6], [1, 7]];
    let mut t = with_piece(ShapeVariant::S, start);
    let mut stop = false;
    t.request_turn(MinoDirection::Left, &mut stop);
    assert!(!stop);
    assert_eq!(t.focused_shape.as_ref().unwrap().mino_pos, start);
}

#[test]
fn move_right_at_wall_is_rejected() {
    let start = [[9, 5], [9, 6], [8, 6], [8, 7]];
    let mut t = with_piece(ShapeVariant::Z, start);
    let mut stop = false;
    t.request_turn(MinoDirection::Right, &mut stop);
    assert!(!stop);
    assert_eq!(t.focused_shape.as_ref().unwrap().mino_pos, start);
}

#[test]
fn move_into_locked_cell_is_rejected() {
    let start = [[4, 5], [4, 6], [5, 6], [5, 7]];
    let mut t = with_piece(ShapeVariant::S, start);
    set_locked(&mut t, 3, 6);
    let mut stop = false;
    t.request_turn(MinoDirection::Left, &mut stop);
    assert!(!stop);
    assert_eq!(t.focused_shape.as_ref().unwrap().mino_pos, start);
}

#[test]
fn accepted_move_shifts_all_four_cells() {
    let mut t = with_piece(ShapeVariant::S, [[4, 5], [4, 6], [5, 6], [5, 7]]);
    let mut stop = false;
    t.request_turn(MinoDirection::Right, &mut stop);
    assert!(stop);
    assert_eq!(t.focused_shape.as_ref().unwrap().mino_pos, [[5, 5], [5, 6], [6, 6], [6, 7]]);
}

#[test]
fn commands_with_no_piece_do_nothing() {
    let mut t = empty_engine();
    let mut stop = false;
    t.request_turn(MinoDirection::Left, &mut stop);
    t.request_rotate(Rotation::Clockwise, &mut stop);
    assert!(!stop);
    assert!(t.focused_shape.is_none());
    assert!(!t.game_over);
}

#[test]
fn o_piece_never_rotates() {
    let start = [[4, 5], [5, 5], [4, 6], [5, 6]];
    let mut t = with_piece(ShapeVariant::O, start);
    let mut stop = false;
    t.request_rotate(Rotation::Clockwise, &mut stop);
    assert!(!stop);
    assert_eq!(t.focused_shape.as_ref().unwrap().mino_pos, start);
}

#[test]
fn rotation_out_of_left_wall_is_rejected() {
    // a vertical I hugging the left wall: turning it clockwise around its
    // second cell would reach column -1
    let start = [[0, 5], [0, 6], [0, 7], [0, 8]];
    let mut t = with_piece(ShapeVariant::I, start);
    let mut stop = false;
    t.request_rotate(Rotation::Clockwise, &mut stop);
    assert!(!stop);
    assert_eq!(t.focused_shape.as_ref().unwrap().mino_pos, start);
}

#[test]
fn rotation_above_top_is_rejected() {
    // a horizontal I in the spawn row: every quarter turn needs rows above
    // the playfield
    let start = [[0, 0], [1, 0], [2, 0], [3, 0]];
    let mut t = with_piece(ShapeVariant::I, start);
    let mut stop = false;
    t.request_rotate(Rotation::Clockwise, &mut stop);
    assert!(!stop);
    assert_eq!(t.focused_shape.as_ref().unwrap().mino_pos, start);
}

#[test]
fn rotation_into_locked_cell_is_rejected() {
    let start = [[2, 5], [3, 5], [4, 5], [5, 5]];
    let mut t = with_piece(ShapeVariant::I, start);
    // clockwise pivot is cell 1 at (3,5); targets are column 3, rows 3..=6
    set_locked(&mut t, 3, 4);
    let mut stop = false;
    t.request_rotate(Rotation::Clockwise, &mut stop);
    assert!(!stop);
    assert_eq!(t.focused_shape.as_ref().unwrap().mino_pos, start);
}

#[test]
fn accepted_rotation_overwrites_all_four_cells() {
    let mut t = with_piece(ShapeVariant::I, [[2, 5], [3, 5], [4, 5], [5, 5]]);
    let mut stop = false;
    t.request_rotate(Rotation::Clockwise, &mut stop);
    assert!(stop);
    assert_eq!(t.focused_shape.as_ref().unwrap().mino_pos, [[3, 6], [3, 5], [3, 4], [3, 3]]);
}

#[test]
fn snapshot_reflects_the_state() {
    let mut t = with_piece(ShapeVariant::O, [[4, 5], [5, 5], [4, 6], [5, 6]]);
    set_locked(&mut t, 0, 19);
    let (grid, piece, over) = t.snapshot();
    assert_eq!(grid[19][0], Cell::Locked);
    assert_eq!(grid[5][4], Cell::Empty, "active cells are not written into the grid");
    assert_eq!(piece.as_ref().unwrap().mino_pos, [[4, 5], [5, 5], [4, 6], [5, 6]]);
    assert!(!over);
}

#[test]
fn is_outside_and_locked_queries() {
    let mut t = empty_engine();
    set_locked(&mut t, 3, 12);
    assert!(t.is_outside([-1, 5]));
    assert!(t.is_outside([10, 5]));
    assert!(t.is_outside([0, -1]));
    assert!(t.is_outside([0, 20]));
    assert!(!t.is_outside([0, 0]));
    assert!(t.is_occupied_and_locked([3, 12]));
    assert!(!t.is_occupied_and_locked([3, 11]));
    assert!(!t.is_occupied_and_locked([-1, 12]));
}

#[test]
fn ticks_after_game_over_change_nothing() {
    let mut t = empty_engine();
    for c in 3..=6 {
        set_locked(&mut t, c, 0);
        set_locked(&mut t, c, 1);
    }
    t.update();
    assert!(t.game_over);
    let grid_before = t.minos.clone();
    t.update();
    assert!(t.game_over);
    assert!(t.focused_shape.is_none());
    assert_eq!(t.minos, grid_before);
}
