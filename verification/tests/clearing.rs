use tetris::mino::Shape;
use tetris::mino::ShapeVariant;
use tetris::tetris::Cell;
use tetris::tetris::Tetris;

fn engine_with_piece() -> Tetris {
    let mut t = Tetris::new(11);
    // a piece near the top, clear of the rows the tests fill
    t.focused_shape = Some(Shape { variant: ShapeVariant::O, mino_pos: [[4, 0], [5, 0], [4, 1], [5, 1]] });
    t
}

fn fill_row(t: &mut Tetris, row: usize) {
    for c in 0..10 {
        t.minos[row][c] = Cell::Locked;
    }
}

fn count_locked(t: &Tetris) -> usize {
    let mut n = 0;
    for row in &t.minos {
        for cell in row {
            if *cell == Cell::Locked {
                n += 1;
            }
        }
    }
    n
}

#[test]
fn clearing_two_bottom_rows_empties_the_grid() {
    let mut t = engine_with_piece();
    fill_row(&mut t, 18);
    fill_row(&mut t, 19);
    t.update();
    assert_eq!(count_locked(&t), 0, "both full rows must vanish with no leftovers");
    // the piece rides the compaction down by two rows
    assert_eq!(t.focused_shape.as_ref().unwrap().mino_pos, [[4, 2], [5, 2], [4, 3], [5, 3]]);
}

#[test]
fn partial_row_above_cleared_row_drops_by_one() {
    let mut t = engine_with_piece();
    fill_row(&mut t, 19);
    t.minos[18][0] = Cell::Locked;
    t.update();
    assert_eq!(t.minos[19][0], Cell::Locked, "the lone cell must land on the floor row");
    assert_eq!(count_locked(&t), 1);
}

#[test]
fn cleared_middle_row_shifts_only_rows_above_it() {
    let mut t = engine_with_piece();
    fill_row(&mut t, 10);
    t.minos[7][2] = Cell::Locked;
    t.minos[13][6] = Cell::Locked;
    t.update();
    assert_eq!(t.minos[8][2], Cell::Locked, "a cell above the cleared row drops one");
    assert_eq!(t.minos[13][6], Cell::Locked, "a cell below the cleared row stays put");
    assert_eq!(count_locked(&t), 2);
}

#[test]
fn three_separated_full_rows_compact_in_one_tick() {
    let mut t = engine_with_piece();
    fill_row(&mut t, 12);
    fill_row(&mut t, 15);
    fill_row(&mut t, 19);
    t.minos[11][3] = Cell::Locked;
    t.minos[14][8] = Cell::Locked;
    t.minos[17][1] = Cell::Locked;
    t.update();
    // each survivor drops once per full row below it
    assert_eq!(t.minos[14][3], Cell::Locked);
    assert_eq!(t.minos[16][8], Cell::Locked);
    assert_eq!(t.minos[18][1], Cell::Locked);
    assert_eq!(count_locked(&t), 3);
}

#[test]
fn clearing_takes_priority_over_falling_and_locking() {
    let mut t = engine_with_piece();
    fill_row(&mut t, 19);
    t.update();
    // the tick cleared instead of applying gravity or locking; the piece
    // rides the compaction down by exactly one row, not by a gravity step
    assert!(t.focused_shape.is_some());
    assert_eq!(count_locked(&t), 0);
    assert_eq!(t.focused_shape.as_ref().unwrap().mino_pos, [[4, 1], [5, 1], [4, 2], [5, 2]]);
}

#[test]
fn full_line_made_by_locking_clears_next_tick() {
    let mut t = Tetris::new(3);
    // floor row locked except the two columns the piece will fill
    for c in 0..10 {
        if c != 4 && c != 5 {
            t.minos[19][c] = Cell::Locked;
        }
    }
    t.minos[18][0] = Cell::Locked;
    // a horizontal I cannot fill two columns; use an O on the floor
    t.focused_shape = Some(Shape {
        variant: ShapeVariant::O,
        mino_pos: [[4, 18], [5, 18], [4, 19], [5, 19]],
    });
    t.update();
    assert!(t.focused_shape.is_none(), "the piece locks on the floor");
    // row 19 is now full; rows 18 holds three locked cells (0, 4, 5)
    t.update();
    // no piece: this tick spawns instead of clearing
    assert!(t.focused_shape.is_some());
    t.update();
    // now the full row clears; the three survivors of row 18 drop to row 19
    assert_eq!(t.minos[19][0], Cell::Locked);
    assert_eq!(t.minos[19][4], Cell::Locked);
    assert_eq!(t.minos[19][5], Cell::Locked);
    assert_eq!(count_locked(&t), 3);
}

#[test]
fn spawn_blocked_region_raises_game_over() {
    let mut t = Tetris::new(5);
    for c in 3..=6 {
        t.minos[0][c] = Cell::Locked;
        t.minos[1][c] = Cell::Locked;
    }
    t.update();
    assert!(t.game_over, "a blocked spawn must end the game");
    assert!(t.focused_shape.is_none(), "no piece may appear on a blocked spawn");
}

#[test]
fn seeded_engines_replay_the_same_spawn_sequence() {
    let mut a = Tetris::new(12345);
    let mut b = Tetris::new(12345);
    let mut variants_a = Vec::new();
    let mut variants_b = Vec::new();
    for _ in 0..200 {
        a.update();
        b.update();
        if let Some(s) = &a.focused_shape {
            variants_a.push(s.variant);
        }
        if let Some(s) = &b.focused_shape {
            variants_b.push(s.variant);
        }
    }
    assert_eq!(variants_a, variants_b, "equal seeds must replay equal games");
    assert!(!variants_a.is_empty());
}
