//! The playfield engine: a 10 x 20 grid of locked cells, at most one active
//! piece, and the tick/command state machine that moves, locks and clears.
//!
//! The grid is the single source of truth for locked cells; the active piece
//! is tracked separately in `focused_shape` and is never written into the
//! grid. A renderer reads the public fields as its snapshot of the state.

use vstd::prelude::*;
use crate::cfg::Settings;
use crate::message::MinoDirection;
use crate::message::Rotation;
use crate::mino::Shape;
use crate::mino::ShapeVariant;
use crate::rng::pick_variant_index;
use crate::rng::seed_rng;

verus! {

/// One grid cell: empty, or permanently occupied by a locked piece.
#[derive(Clone, Copy, PartialEq, Eq, Structural, Debug)]
pub enum Cell {
    Empty,
    Locked,
}

/// A well-formed grid: 20 rows of 10 cells each.
pub open spec fn grid_wf(g: Seq<Seq<Cell>>) -> bool {
    &&& g.len() == 20
    &&& forall|r: int| 0 <= r < 20 ==> (#[trigger] g[r]).len() == 10
}

/// The cell at column `c`, row `r` is locked.
pub open spec fn locked_at(g: Seq<Seq<Cell>>, c: int, r: int) -> bool {
    g[r][c] is Locked
}

/// A row of ten empty cells.
pub open spec fn spec_empty_row() -> Seq<Cell> {
    Seq::new(10, |c: int| Cell::Empty)
}

/// Every column of the row is locked.
pub open spec fn row_full(row: Seq<Cell>) -> bool {
    forall|c: int| 0 <= c < 10 ==> (#[trigger] row[c]) is Locked
}

/// Some row of the grid is full.
pub open spec fn has_full_row(g: Seq<Seq<Cell>>) -> bool {
    exists|r: int| 0 <= r < 20 && row_full(#[trigger] g[r])
}

/// Cell `i` of the piece does not sit on a locked cell.
pub open spec fn shape_cell_free(g: Seq<Seq<Cell>>, s: Shape, i: int) -> bool {
    !locked_at(g, s.col(i), s.row(i))
}

/// The piece lies inside the playfield and on no locked cell.
pub open spec fn shape_on_grid(g: Seq<Seq<Cell>>, s: Shape) -> bool {
    &&& s.in_bounds()
    &&& shape_cell_free(g, s, 0)
    &&& shape_cell_free(g, s, 1)
    &&& shape_cell_free(g, s, 2)
    &&& shape_cell_free(g, s, 3)
}

/// Cell `i` cannot move one row down: the floor or a locked cell is below it.
pub open spec fn down_blocked(g: Seq<Seq<Cell>>, s: Shape, i: int) -> bool {
    s.row(i) + 1 >= 20 || locked_at(g, s.col(i), s.row(i) + 1)
}

/// The piece cannot fall: some cell is blocked from below.
pub open spec fn colliding_down(g: Seq<Seq<Cell>>, s: Shape) -> bool {
    ||| down_blocked(g, s, 0)
    ||| down_blocked(g, s, 1)
    ||| down_blocked(g, s, 2)
    ||| down_blocked(g, s, 3)
}

/// Cell `i` cannot move `offset` columns sideways: a wall or a locked cell.
pub open spec fn horiz_blocked(g: Seq<Seq<Cell>>, s: Shape, offset: int, i: int) -> bool {
    ||| !(0 <= s.col(i) + offset < 10)
    ||| locked_at(g, s.col(i) + offset, s.row(i))
}

/// The piece cannot move `offset` columns sideways.
pub open spec fn colliding_horiz(g: Seq<Seq<Cell>>, s: Shape, offset: int) -> bool {
    ||| horiz_blocked(g, s, offset, 0)
    ||| horiz_blocked(g, s, offset, 1)
    ||| horiz_blocked(g, s, offset, 2)
    ||| horiz_blocked(g, s, offset, 3)
}

/// The target of cell `i` under a quarter turn is outside the playfield or
/// on a locked cell.
pub open spec fn rot_blocked(g: Seq<Seq<Cell>>, s: Shape, rot: Rotation, i: int) -> bool {
    ||| !(0 <= s.rot_col(rot, i) < 10 && 0 <= s.rot_row(rot, i) < 20)
    ||| locked_at(g, s.rot_col(rot, i), s.rot_row(rot, i))
}

/// The quarter turn is rejected: some target cell is invalid.
pub open spec fn colliding_rot(g: Seq<Seq<Cell>>, s: Shape, rot: Rotation) -> bool {
    ||| rot_blocked(g, s, rot, 0)
    ||| rot_blocked(g, s, rot, 1)
    ||| rot_blocked(g, s, rot, 2)
    ||| rot_blocked(g, s, rot, 3)
}

/// Cell `i` of `t` is cell `i` of `s` moved by `dc` columns and `dr` rows.
pub open spec fn cell_shifted(s: Shape, t: Shape, i: int, dc: int, dr: int) -> bool {
    t.col(i) == s.col(i) + dc && t.row(i) == s.row(i) + dr
}

/// `t` is `s` moved by `dc` columns and `dr` rows, cell by cell.
pub open spec fn shape_shifted(s: Shape, t: Shape, dc: int, dr: int) -> bool {
    &&& t.variant == s.variant
    &&& cell_shifted(s, t, 0, dc, dr)
    &&& cell_shifted(s, t, 1, dc, dr)
    &&& cell_shifted(s, t, 2, dc, dr)
    &&& cell_shifted(s, t, 3, dc, dr)
}

/// Cell `i` of `t` is cell `i` of `s` turned a quarter turn in direction `rot`.
pub open spec fn cell_turned(s: Shape, t: Shape, i: int, rot: Rotation) -> bool {
    t.col(i) == s.rot_col(rot, i) && t.row(i) == s.rot_row(rot, i)
}

/// `t` is `s` turned a quarter turn in direction `rot`, cell by cell.
pub open spec fn shape_turned(s: Shape, t: Shape, rot: Rotation) -> bool {
    &&& t.variant == s.variant
    &&& cell_turned(s, t, 0, rot)
    &&& cell_turned(s, t, 1, rot)
    &&& cell_turned(s, t, 2, rot)
    &&& cell_turned(s, t, 3, rot)
}

/// Column of cell `i` of variant `v`'s spawn layout, anchored near the
/// top-center of the playfield.
pub open spec fn init_col(v: ShapeVariant, i: int) -> int {
    match v {
        ShapeVariant::S => if i == 0 { 4int } else if i == 1 { 4int } else if i == 2 { 5int } else { 5int },
        ShapeVariant::Z => if i == 0 { 5int } else if i == 1 { 5int } else if i == 2 { 4int } else { 4int },
        ShapeVariant::O => if i == 0 { 4int } else if i == 1 { 5int } else if i == 2 { 4int } else { 5int },
        ShapeVariant::I => if i == 0 { 3int } else if i == 1 { 4int } else if i == 2 { 5int } else { 6int },
        ShapeVariant::L => if i == 0 { 4int } else if i == 1 { 4int } else if i == 2 { 5int } else { 6int },
        ShapeVariant::J => if i == 0 { 4int } else if i == 1 { 5int } else if i == 2 { 6int } else { 6int },
    }
}

/// Row of cell `i` of variant `v`'s spawn layout.
pub open spec fn init_row(v: ShapeVariant, i: int) -> int {
    match v {
        ShapeVariant::S => if i == 0 { 0int } else if i == 1 { 1int } else if i == 2 { 1int } else { 2int },
        ShapeVariant::Z => if i == 0 { 0int } else if i == 1 { 1int } else if i == 2 { 1int } else { 2int },
        ShapeVariant::O => if i == 0 { 0int } else if i == 1 { 0int } else if i == 2 { 1int } else { 1int },
        ShapeVariant::I => 0int,
        ShapeVariant::L => if i == 0 { 1int } else { 0int },
        ShapeVariant::J => if i == 3 { 1int } else { 0int },
    }
}

/// Cell `i` of `s` sits at variant `v`'s spawn layout.
pub open spec fn cell_initial(s: Shape, v: ShapeVariant, i: int) -> bool {
    s.col(i) == init_col(v, i) && s.row(i) == init_row(v, i)
}

/// `s` is variant `v` in its spawn position.
pub open spec fn is_initial_shape(s: Shape, v: ShapeVariant) -> bool {
    &&& s.variant == v
    &&& cell_initial(s, v, 0)
    &&& cell_initial(s, v, 1)
    &&& cell_initial(s, v, 2)
    &&& cell_initial(s, v, 3)
}

/// Some cell of variant `v`'s spawn layout already holds a locked cell.
pub open spec fn spawn_blocked(g: Seq<Seq<Cell>>, v: ShapeVariant) -> bool {
    ||| locked_at(g, init_col(v, 0), init_row(v, 0))
    ||| locked_at(g, init_col(v, 1), init_row(v, 1))
    ||| locked_at(g, init_col(v, 2), init_row(v, 2))
    ||| locked_at(g, init_col(v, 3), init_row(v, 3))
}

/// One spawn attempt of variant `v`: the grid is untouched; if the layout is
/// blocked the game is over and no piece appears, otherwise the piece appears
/// in spawn position.
pub open spec fn spawn_step(pre: Tetris, v: ShapeVariant, post: Tetris) -> bool {
    &&& post.minos == pre.minos
    &&& post.cfg == pre.cfg
    &&& if spawn_blocked(pre.grid(), v) {
        post.game_over && post.focused_shape is None
    } else {
        !post.game_over && (post.focused_shape matches Some(s) && is_initial_shape(s, v))
    }
}

/// The predicate that keeps a row: it is not full.
pub open spec fn not_full_pred() -> spec_fn(Seq<Cell>) -> bool {
    |row: Seq<Cell>| !row_full(row)
}

/// The rows of the grid that are not full, in order.
pub open spec fn nonfull_rows(g: Seq<Seq<Cell>>) -> Seq<Seq<Cell>> {
    g.filter(not_full_pred())
}

/// `n` empty rows.
pub open spec fn empty_rows(n: int) -> Seq<Seq<Cell>> {
    Seq::new(n as nat, |i: int| spec_empty_row())
}

/// The grid after removing every full row and compacting the rest downward:
/// as many empty rows on top as rows were removed, then the surviving rows in
/// their original order.
pub open spec fn compacted(g: Seq<Seq<Cell>>) -> Seq<Seq<Cell>> {
    empty_rows(g.len() - nonfull_rows(g).len()) + nonfull_rows(g)
}

/// One row-clear: row `r` is removed, every row above it moves down one, and
/// a fresh empty row enters at the top.
pub open spec fn clear_row_spec(g: Seq<Seq<Cell>>, r: int) -> Seq<Seq<Cell>> {
    seq![spec_empty_row()] + g.take(r) + g.skip(r + 1)
}

/// The indices of the full rows among rows `0 .. n`, ascending.
pub open spec fn full_rows_upto(g: Seq<Seq<Cell>>, n: int) -> Seq<int>
    decreases n,
{
    if n <= 0 {
        Seq::empty()
    } else if row_full(g[n - 1]) {
        full_rows_upto(g, n - 1).push(n - 1)
    } else {
        full_rows_upto(g, n - 1)
    }
}

/// The indices of the full rows of the grid, ascending.
pub open spec fn full_rows(g: Seq<Seq<Cell>>) -> Seq<int> {
    full_rows_upto(g, 20)
}

/// `clear_row_spec` applied at each listed index in turn.
pub open spec fn clear_fold(g: Seq<Seq<Cell>>, rows: Seq<int>) -> Seq<Seq<Cell>>
    decreases rows.len(),
{
    if rows.len() == 0 {
        g
    } else {
        clear_fold(clear_row_spec(g, rows[0]), rows.drop_first())
    }
}

/// How many rows among `lo .. hi` are full.
pub open spec fn count_full_in(g: Seq<Seq<Cell>>, lo: int, hi: int) -> int
    decreases hi - lo,
{
    if lo >= hi {
        0
    } else {
        count_full_in(g, lo, hi - 1) + if row_full(g[hi - 1]) {
            1int
        } else {
            0int
        }
    }
}

/// Cell `i` of `t` is cell `i` of `s` moved down by one row per full row of
/// `g` strictly below it.
pub open spec fn cell_dropped(g: Seq<Seq<Cell>>, s: Shape, t: Shape, i: int) -> bool {
    t.col(i) == s.col(i) && t.row(i) == s.row(i) + count_full_in(g, s.row(i) + 1, 20)
}

/// `t` is `s` moved down with the row-clear compaction of `g`, cell by cell.
pub open spec fn shape_dropped(g: Seq<Seq<Cell>>, s: Shape, t: Shape) -> bool {
    &&& t.variant == s.variant
    &&& cell_dropped(g, s, t, 0)
    &&& cell_dropped(g, s, t, 1)
    &&& cell_dropped(g, s, t, 2)
    &&& cell_dropped(g, s, t, 3)
}

/// A sequence of machine integers as mathematical integers.
pub open spec fn usize_ints(s: Seq<usize>) -> Seq<int> {
    Seq::new(s.len(), |i: int| s[i] as int)
}

/// The grid with the cell at column `c`, row `r` locked.
pub open spec fn set_locked(g: Seq<Seq<Cell>>, c: int, r: int) -> Seq<Seq<Cell>> {
    g.update(r, g[r].update(c, Cell::Locked))
}

/// The grid with the four cells of `s` locked.
pub open spec fn grid_lock(g: Seq<Seq<Cell>>, s: Shape) -> Seq<Seq<Cell>> {
    set_locked(
        set_locked(set_locked(set_locked(g, s.col(0), s.row(0)), s.col(1), s.row(1)), s.col(2), s.row(2)),
        s.col(3),
        s.row(3),
    )
}

/// The entries of `full_rows_upto(g, n)` are exactly the indices of the full
/// rows below `n`, listed in strictly ascending order.
proof fn lemma_full_rows_upto_props(g: Seq<Seq<Cell>>, n: int)
    ensures
        forall|j: int|
            0 <= j < full_rows_upto(g, n).len() ==> 0 <= (#[trigger] full_rows_upto(g, n)[j]) < n
                && row_full(g[full_rows_upto(g, n)[j]]),
        forall|j: int, k: int|
            0 <= j < k < full_rows_upto(g, n).len() ==> full_rows_upto(g, n)[j] < full_rows_upto(
                g,
                n,
            )[k],
        forall|r: int| 0 <= r < n && row_full(#[trigger] g[r]) ==> full_rows_upto(g, n).contains(r),
    decreases n,
{
    if n > 0 {
        lemma_full_rows_upto_props(g, n - 1);
        let prev = full_rows_upto(g, n - 1);
        let cur = full_rows_upto(g, n);
        if row_full(g[n - 1]) {
            assert(cur == prev.push(n - 1));
            assert(cur[cur.len() - 1] == n - 1);
            assert forall|r: int|
                0 <= r < n && row_full(#[trigger] g[r]) implies cur.contains(r) by {
                if r < n - 1 {
                    assert(prev.contains(r));
                    let j = choose|j: int| 0 <= j < prev.len() && prev[j] == r;
                    assert(cur[j] == r);
                } else {
                    assert(cur[cur.len() - 1] == r);
                }
            }
        }
    }
}

/// Below the first full row every row is non-full.
proof fn lemma_first_full_min(g: Seq<Seq<Cell>>)
    requires
        full_rows(g).len() > 0,
    ensures
        0 <= full_rows(g)[0] < 20,
        row_full(g[full_rows(g)[0]]),
        forall|i: int| 0 <= i < full_rows(g)[0] ==> !row_full(#[trigger] g[i]),
{
    lemma_full_rows_upto_props(g, 20);
    let r1 = full_rows(g)[0];
    assert forall|i: int| 0 <= i < r1 implies !row_full(#[trigger] g[i]) by {
        if row_full(g[i]) {
            assert(full_rows(g).contains(i));
            let j = choose|j: int| 0 <= j < full_rows(g).len() && full_rows(g)[j] == i;
            assert(j > 0 ==> full_rows(g)[0] < full_rows(g)[j]);
            assert(false);
        }
    }
}

/// A prefix without full rows contributes nothing to the list.
proof fn lemma_upto_empty_prefix(g: Seq<Seq<Cell>>, m: int)
    requires
        forall|i: int| 0 <= i < m ==> !row_full(#[trigger] g[i]),
    ensures
        full_rows_upto(g, m).len() == 0,
    decreases m,
{
    if m > 0 {
        lemma_upto_empty_prefix(g, m - 1);
    }
}

/// There is a full row exactly when the list of full rows is non-empty.
proof fn lemma_full_rows_has(g: Seq<Seq<Cell>>)
    ensures
        full_rows(g).len() > 0 <==> has_full_row(g),
{
    lemma_full_rows_upto_props(g, 20);
    if full_rows(g).len() > 0 {
        assert(row_full(g[full_rows(g)[0]]));
    }
    if has_full_row(g) {
        let r = choose|r: int| 0 <= r < 20 && row_full(#[trigger] g[r]);
        assert(full_rows(g).contains(r));
    }
}

/// A row of ten empty cells is not full.
proof fn lemma_empty_row_not_full()
    ensures
        !row_full(spec_empty_row()),
        spec_empty_row().len() == 10,
{
    assert(spec_empty_row()[0] is Empty);
}

/// Filtering keeps a grid whose rows are all non-full unchanged.
proof fn lemma_filter_id(g: Seq<Seq<Cell>>)
    requires
        forall|i: int| 0 <= i < g.len() ==> !row_full(#[trigger] g[i]),
    ensures
        nonfull_rows(g) == g,
    decreases g.len(),
{
    reveal(Seq::filter);
    if g.len() > 0 {
        assert(forall|i: int|
            0 <= i < g.drop_last().len() ==> !row_full(#[trigger] g.drop_last()[i]));
        lemma_filter_id(g.drop_last());
        assert(nonfull_rows(g) =~= g);
    } else {
        assert(nonfull_rows(g) =~= g);
    }
}

/// What filtering a one-row grid yields, by fullness of that row.
proof fn lemma_filter_single(x: Seq<Cell>)
    ensures
        row_full(x) ==> nonfull_rows(seq![x]) == Seq::<Seq<Cell>>::empty(),
        !row_full(x) ==> nonfull_rows(seq![x]) == seq![x],
{
    reveal_with_fuel(Seq::filter, 2);
    assert(seq![x].drop_last() =~= Seq::<Seq<Cell>>::empty());
    if row_full(x) {
        assert(nonfull_rows(seq![x]) =~= Seq::<Seq<Cell>>::empty());
    } else {
        assert(nonfull_rows(seq![x]) =~= seq![x]);
    }
}

/// The rows that survive filtering keep their width.
proof fn lemma_nonfull_rows_len10(g: Seq<Seq<Cell>>)
    requires
        forall|i: int| 0 <= i < g.len() ==> (#[trigger] g[i]).len() == 10,
    ensures
        forall|i: int|
            0 <= i < nonfull_rows(g).len() ==> (#[trigger] nonfull_rows(g)[i]).len() == 10,
    decreases g.len(),
{
    reveal(Seq::filter);
    if g.len() > 0 {
        assert(forall|i: int|
            0 <= i < g.drop_last().len() ==> (#[trigger] g.drop_last()[i]).len() == 10);
        lemma_nonfull_rows_len10(g.drop_last());
        let sub = nonfull_rows(g.drop_last());
        if !row_full(g.last()) {
            assert(nonfull_rows(g) == sub.push(g.last()));
            assert forall|i: int|
                0 <= i < nonfull_rows(g).len() implies (#[trigger] nonfull_rows(g)[i]).len()
                == 10 by {
                if i < sub.len() {
                    assert(nonfull_rows(g)[i] == sub[i]);
                } else {
                    assert(nonfull_rows(g)[i] == g.last());
                }
            }
        }
    }
}

/// The count of full rows in a range is non-negative and at most the width
/// of the range.
proof fn lemma_count_bounds(g: Seq<Seq<Cell>>, lo: int, hi: int)
    requires
        lo <= hi,
    ensures
        0 <= count_full_in(g, lo, hi) <= hi - lo,
    decreases hi - lo,
{
    if lo < hi {
        lemma_count_bounds(g, lo, hi - 1);
    }
}

/// Counting full rows splits over adjacent ranges.
proof fn lemma_count_split(g: Seq<Seq<Cell>>, a: int, b: int, c: int)
    requires
        a <= b <= c,
    ensures
        count_full_in(g, a, c) == count_full_in(g, a, b) + count_full_in(g, b, c),
    decreases c - b,
{
    if b < c {
        lemma_count_split(g, a, b, c - 1);
    }
}

/// Filtering the first `n` rows keeps `n` minus the full rows among them.
proof fn lemma_nonfull_take_len(g: Seq<Seq<Cell>>, n: int)
    requires
        0 <= n <= g.len(),
    ensures
        nonfull_rows(g.take(n)).len() == n - count_full_in(g, 0, n),
    decreases n,
{
    reveal(Seq::filter);
    if n > 0 {
        lemma_nonfull_take_len(g, n - 1);
        assert(g.take(n).drop_last() =~= g.take(n - 1));
        assert(g.take(n).last() == g[n - 1]);
        lemma_count_bounds(g, 0, n - 1);
    }
}

/// Where a surviving row lands among the filtered rows: at the index given
/// by the non-full rows before it.
proof fn lemma_nonfull_index(g: Seq<Seq<Cell>>, r: int)
    requires
        0 <= r < g.len(),
        !row_full(g[r]),
    ensures
        nonfull_rows(g.take(r)).len() < nonfull_rows(g).len(),
        nonfull_rows(g)[nonfull_rows(g.take(r)).len() as int] == g[r],
{
    reveal(Seq::filter);
    let front = g.take(r + 1);
    let back = g.skip(r + 1);
    assert(g =~= front + back);
    Seq::filter_distributes_over_add(front, back, not_full_pred());
    assert(front.drop_last() =~= g.take(r));
    assert(front.last() == g[r]);
    assert(nonfull_rows(front) == nonfull_rows(g.take(r)).push(g[r]));
    assert(nonfull_rows(g) == nonfull_rows(front) + nonfull_rows(back));
    assert(nonfull_rows(g)[nonfull_rows(g.take(r)).len() as int] == g[r]);
}

/// A compacted grid is well-formed.
proof fn lemma_compacted_wf(g: Seq<Seq<Cell>>)
    requires
        grid_wf(g),
    ensures
        grid_wf(compacted(g)),
{
    Seq::lemma_filter_len(g, not_full_pred());
    lemma_nonfull_rows_len10(g);
    lemma_empty_row_not_full();
    assert forall|r: int| 0 <= r < 20 implies (#[trigger] compacted(g)[r]).len() == 10 by {
        let f = g.len() - nonfull_rows(g).len();
        if r < f {
            assert(compacted(g)[r] == spec_empty_row());
        } else {
            assert(compacted(g)[r] == nonfull_rows(g)[r - f]);
        }
    }
}

/// After compaction, a non-full row `r` reappears unchanged, lower by one
/// row per full row that lay below it.
proof fn lemma_compacted_row(g: Seq<Seq<Cell>>, r: int)
    requires
        grid_wf(g),
        0 <= r < 20,
        !row_full(g[r]),
    ensures
        0 <= r + count_full_in(g, r + 1, 20) < 20,
        compacted(g)[r + count_full_in(g, r + 1, 20)] == g[r],
{
    let k = count_full_in(g, r + 1, 20);
    lemma_count_bounds(g, r + 1, 20);
    assert(g.take(20) =~= g);
    lemma_nonfull_take_len(g, 20);
    assert(nonfull_rows(g).len() == 20 - count_full_in(g, 0, 20));
    lemma_count_split(g, 0, r, 20);
    lemma_count_split(g, r, r + 1, 20);
    assert(count_full_in(g, r, r) == 0);
    assert(count_full_in(g, r, r + 1) == 0);
    assert(count_full_in(g, 0, 20) == count_full_in(g, 0, r) + k);
    lemma_nonfull_take_len(g, r);
    lemma_nonfull_index(g, r);
    let f = g.len() - nonfull_rows(g).len();
    assert(f == count_full_in(g, 0, 20));
    assert(nonfull_rows(g.take(r)).len() == r - count_full_in(g, 0, r));
    assert(compacted(g)[f + (r - count_full_in(g, 0, r))] == g[r]);
    assert(f + (r - count_full_in(g, 0, r)) == r + k);
}

/// Clearing the first full row removes exactly that entry from the list of
/// full rows: the surviving full rows keep their indices.
proof fn lemma_full_rows_after_clear(g: Seq<Seq<Cell>>, n: int)
    requires
        grid_wf(g),
        full_rows(g).len() > 0,
        0 <= n <= 20,
    ensures
        n <= full_rows(g)[0] ==> full_rows_upto(clear_row_spec(g, full_rows(g)[0]), n)
            == Seq::<int>::empty(),
        n > full_rows(g)[0] ==> full_rows_upto(clear_row_spec(g, full_rows(g)[0]), n)
            == full_rows_upto(g, n).drop_first(),
    decreases n,
{
    lemma_first_full_min(g);
    let r1 = full_rows(g)[0];
    let g2 = clear_row_spec(g, r1);
    if n == 0 {
        assert(full_rows_upto(g2, 0) =~= Seq::<int>::empty());
    } else {
        lemma_full_rows_after_clear(g, n - 1);
        if n - 1 == 0 {
            lemma_empty_row_not_full();
            assert(g2[0] == spec_empty_row());
            assert(!row_full(g2[0]));
        } else if n - 1 <= r1 {
            assert(g2[n - 1] == g[n - 2]);
            assert(!row_full(g2[n - 1]));
        } else {
            assert(g2[n - 1] == g[n - 1]);
        }
        if n <= r1 {
            assert(full_rows_upto(g2, n) == full_rows_upto(g2, n - 1));
        } else if n == r1 + 1 {
            assert(full_rows_upto(g2, n) == full_rows_upto(g2, n - 1));
            lemma_upto_empty_prefix(g, r1);
            assert(full_rows_upto(g, r1).len() == 0);
            assert(row_full(g[r1]));
            assert(full_rows_upto(g, n) == full_rows_upto(g, r1).push(r1));
            assert(full_rows_upto(g, n).drop_first() =~= Seq::<int>::empty());
        } else {
            lemma_full_rows_upto_props(g, n - 1);
            assert(full_rows_upto(g, n - 1).contains(r1));
            assert(full_rows_upto(g, n - 1).len() > 0);
            if row_full(g[n - 1]) {
                assert(full_rows_upto(g2, n) == full_rows_upto(g2, n - 1).push(n - 1));
                assert(full_rows_upto(g, n) == full_rows_upto(g, n - 1).push(n - 1));
                assert(full_rows_upto(g, n - 1).drop_first().push(n - 1) =~= full_rows_upto(
                    g,
                    n - 1,
                ).push(n - 1).drop_first());
            }
        }
    }
}

/// A well-formed clear of the first full row leaves the grid well-formed.
proof fn lemma_clear_first_wf(g: Seq<Seq<Cell>>)
    requires
        grid_wf(g),
        full_rows(g).len() > 0,
    ensures
        grid_wf(clear_row_spec(g, full_rows(g)[0])),
{
    lemma_first_full_min(g);
    let r1 = full_rows(g)[0];
    let g2 = clear_row_spec(g, r1);
    lemma_empty_row_not_full();
    assert forall|r: int| 0 <= r < 20 implies (#[trigger] g2[r]).len() == 10 by {
        if r == 0 {
            assert(g2[r] == spec_empty_row());
        } else if r <= r1 {
            assert(g2[r] == g[r - 1]);
        } else {
            assert(g2[r] == g[r]);
        }
    }
    assert(g2.len() == 20);
}

/// Removing the first full row does not change what the grid compacts to.
proof fn lemma_compacted_after_clear(g: Seq<Seq<Cell>>)
    requires
        grid_wf(g),
        full_rows(g).len() > 0,
    ensures
        compacted(clear_row_spec(g, full_rows(g)[0])) == compacted(g),
{
    lemma_first_full_min(g);
    let r1 = full_rows(g)[0];
    let g2 = clear_row_spec(g, r1);
    let front = g.take(r1);
    let mid = seq![g[r1]];
    let back = g.skip(r1 + 1);
    assert(g =~= front + mid + back);
    Seq::filter_distributes_over_add(front + mid, back, not_full_pred());
    Seq::filter_distributes_over_add(front, mid, not_full_pred());
    lemma_filter_single(g[r1]);
    assert(nonfull_rows(g) =~= nonfull_rows(front) + nonfull_rows(back));
    let e1 = seq![spec_empty_row()];
    assert(g2 == e1 + front + back);
    Seq::filter_distributes_over_add(e1 + front, back, not_full_pred());
    Seq::filter_distributes_over_add(e1, front, not_full_pred());
    lemma_empty_row_not_full();
    lemma_filter_single(spec_empty_row());
    assert(nonfull_rows(g2) =~= e1 + nonfull_rows(front) + nonfull_rows(back));
    assert(nonfull_rows(g2).len() == nonfull_rows(g).len() + 1);
    assert(compacted(g2) =~= compacted(g));
}

/// Clearing the full rows in ascending index order compacts the grid: the
/// result is the non-full rows, in order, under one fresh empty row per
/// cleared row.
proof fn lemma_clear_fold_compacts(g: Seq<Seq<Cell>>)
    requires
        grid_wf(g),
    ensures
        clear_fold(g, full_rows(g)) == compacted(g),
    decreases full_rows(g).len(),
{
    if full_rows(g).len() == 0 {
        lemma_full_rows_upto_props(g, 20);
        assert forall|i: int| 0 <= i < g.len() implies !row_full(#[trigger] g[i]) by {
            if row_full(g[i]) {
                assert(full_rows(g).contains(i));
            }
        }
        lemma_filter_id(g);
        assert(compacted(g) =~= g);
    } else {
        let r1 = full_rows(g)[0];
        let g2 = clear_row_spec(g, r1);
        lemma_clear_first_wf(g);
        lemma_full_rows_after_clear(g, 20);
        lemma_first_full_min(g);
        assert(full_rows(g2) == full_rows(g).drop_first());
        assert(full_rows(g2).len() == full_rows(g).len() - 1);
        lemma_clear_fold_compacts(g2);
        assert(clear_fold(g, full_rows(g)) == clear_fold(g2, full_rows(g).drop_first()));
        lemma_compacted_after_clear(g);
    }
}

/// In every well-formed state at most one active piece exists (the single
/// `Option` field holds it), and none of its four cells coincides with a
/// locked grid cell.
pub proof fn lemma_active_piece_free(t: Tetris, i: int)
    requires
        t.wf(),
        t.focused_shape is Some,
        0 <= i < 4,
    ensures
        !locked_at(t.grid(), t.focused_shape->Some_0.col(i), t.focused_shape->Some_0.row(i)),
        0 <= t.focused_shape->Some_0.col(i) < 10,
        0 <= t.focused_shape->Some_0.row(i) < 20,
{
    if i == 0 {
    } else if i == 1 {
    } else if i == 2 {
    } else {
    }
}

/// Every grid cell is either empty or locked, and never both: the two
/// variants of `Cell` are exhaustive and exclusive.
pub proof fn lemma_cell_dichotomy(c: Cell)
    ensures
        (c is Empty) <==> !(c is Locked),
{
}

/// A move is rejected at the walls: moving left with a cell in column 0, or
/// right with a cell in column 9, collides for every grid.
pub proof fn lemma_wall_blocks_move(g: Seq<Seq<Cell>>, s: Shape)
    ensures
        (s.col(0) == 0 || s.col(1) == 0 || s.col(2) == 0 || s.col(3) == 0) ==> colliding_horiz(
            g,
            s,
            -1,
        ),
        (s.col(0) == 9 || s.col(1) == 9 || s.col(2) == 9 || s.col(3) == 9) ==> colliding_horiz(
            g,
            s,
            1,
        ),
{
}

/// A piece with the floor or a locked cell directly below one of its cells
/// cannot fall: the next tick locks it rather than letting it fall.
pub proof fn lemma_blocked_below_collides(g: Seq<Seq<Cell>>, s: Shape, i: int)
    requires
        0 <= i < 4,
        s.row(i) + 1 >= 20 || locked_at(g, s.col(i), s.row(i) + 1),
    ensures
        colliding_down(g, s),
{
    if i == 0 {
    } else if i == 1 {
    } else if i == 2 {
    } else {
    }
}

/// When the whole spawn region (columns 3 to 6 of rows 0 and 1) is locked,
/// every variant's spawn is blocked: the next spawn ends the game.
pub proof fn lemma_spawn_region_blocked(g: Seq<Seq<Cell>>, v: ShapeVariant)
    requires
        forall|c: int, r: int| 3 <= c <= 6 && 0 <= r <= 1 ==> locked_at(g, c, r),
    ensures
        spawn_blocked(g, v),
{
    assert(locked_at(g, init_col(v, 0), init_row(v, 0)));
}

/// A row clear never leaves a full row behind: after compaction every row is
/// an inserted empty row or a surviving non-full row.
pub proof fn lemma_compacted_no_full_rows(g: Seq<Seq<Cell>>)
    requires
        grid_wf(g),
    ensures
        !has_full_row(compacted(g)),
{
    Seq::lemma_filter_len(g, not_full_pred());
    lemma_empty_row_not_full();
    let f = g.len() - nonfull_rows(g).len();
    assert forall|r: int| 0 <= r < 20 implies !row_full(#[trigger] compacted(g)[r]) by {
        if r < f {
            assert(compacted(g)[r] == spec_empty_row());
        } else {
            assert(compacted(g)[r] == nonfull_rows(g)[r - f]);
            g.lemma_filter_pred(not_full_pred(), r - f);
            assert(not_full_pred()(nonfull_rows(g)[r - f]));
        }
    }
}

/// The playfield engine. `minos` holds the locked cells, row-major with row 0
/// at the top; `focused_shape` is the active piece, if any. Once `game_over`
/// is set (a spawn was blocked) the engine stops mutating state.
pub struct Tetris {
    pub minos: Vec<Vec<Cell>>,
    pub focused_shape: Option<Shape>,
    pub game_over: bool,
    pub rng: rand::rngs::StdRng,
    pub cfg: Settings,
}

impl Tetris {
    /// The grid as a sequence of rows of cells.
    pub open spec fn grid(self) -> Seq<Seq<Cell>> {
        Seq::new(self.minos@.len(), |r: int| self.minos@[r]@)
    }

    /// The engine invariant: the grid is 20 x 10, the active piece (if any)
    /// lies inside it and on no locked cell, and a lost game has no piece.
    pub open spec fn wf(self) -> bool {
        &&& grid_wf(self.grid())
        &&& match self.focused_shape {
            Some(s) => shape_on_grid(self.grid(), s),
            None => true,
        }
        &&& self.game_over ==> self.focused_shape is None
    }

    /// A fresh engine: an empty grid, no active piece, and a random source
    /// seeded from `seed` so that spawn sequences can be replayed.
    pub fn new(seed: u64) -> (t: Tetris)
        ensures
            t.wf(),
            t.grid().len() == 20,
            forall|r: int, c: int|
                0 <= r < 20 && 0 <= c < 10 ==> !locked_at(t.grid(), c, r),
            t.focused_shape is None,
            !t.game_over,
            t.cfg.window_size == (500u32, 700u32),
            t.cfg.speed == 200,
    {
        let mut minos: Vec<Vec<Cell>> = Vec::new();
        let mut r: usize = 0;
        while r < 20
            invariant
                r <= 20,
                minos@.len() == r,
                forall|k: int| 0 <= k < r ==> (#[trigger] minos@[k])@ =~= spec_empty_row(),
            decreases 20 - r,
        {
            let mut row: Vec<Cell> = Vec::new();
            let mut c: usize = 0;
            while c < 10
                invariant
                    c <= 10,
                    row@.len() == c,
                    forall|k: int| 0 <= k < c ==> (#[trigger] row@[k]) is Empty,
                decreases 10 - c,
            {
                row.push(Cell::Empty);
                c += 1;
            }
            assert(row@ =~= spec_empty_row());
            minos.push(row);
            r += 1;
        }
        let t = Tetris {
            minos,
            focused_shape: None,
            game_over: false,
            rng: seed_rng(seed),
            cfg: Settings::new(),
        };
        assert forall|rr: int, cc: int|
            0 <= rr < 20 && 0 <= cc < 10 implies !locked_at(t.grid(), cc, rr) by {
            assert(t.grid()[rr] =~= spec_empty_row());
        }
        t
    }

    /// A read-only snapshot for the rendering collaborator: the locked
    /// grid, the active piece, and whether the game is over. It reflects a
    /// fully consistent state, since every mutation runs to completion.
    pub fn snapshot(&self) -> (r: (&Vec<Vec<Cell>>, &Option<Shape>, bool))
        ensures
            *r.0 == self.minos,
            *r.1 == self.focused_shape,
            r.2 == self.game_over,
    {
        (&self.minos, &self.focused_shape, self.game_over)
    }

    /// Whether the cell at `column`, `row` is locked.
    fn is_locked(&self, column: usize, row: usize) -> (b: bool)
        requires
            grid_wf(self.grid()),
            column < 10,
            row < 20,
        ensures
            b == locked_at(self.grid(), column as int, row as int),
    {
        assert(self.grid()[row as int].len() == 10);
        self.minos[row][column] == Cell::Locked
    }

    /// Whether `position` (`[column, row]`) lies outside the playfield.
    pub fn is_outside(&self, position: [i32; 2]) -> (b: bool)
        ensures
            b == !(0 <= position[0] < 10 && 0 <= position[1] < 20),
    {
        !(0 <= position[0] && position[0] < 10 && 0 <= position[1] && position[1] < 20)
    }

    /// Whether `position` (`[column, row]`) holds a locked cell; positions
    /// outside the playfield hold none.
    pub fn is_occupied_and_locked(&self, position: [i32; 2]) -> (b: bool)
        requires
            grid_wf(self.grid()),
        ensures
            b == (0 <= position[0] < 10 && 0 <= position[1] < 20 && locked_at(
                self.grid(),
                position[0] as int,
                position[1] as int,
            )),
    {
        if self.is_outside(position) {
            false
        } else {
            self.is_locked(position[0] as usize, position[1] as usize)
        }
    }

    /// Whether the active piece is blocked from moving one row down.
    fn is_colliding_down(&self) -> (b: bool)
        requires
            self.wf(),
            self.focused_shape is Some,
        ensures
            b == colliding_down(self.grid(), self.focused_shape->Some_0),
    {
        let s = self.focused_shape.unwrap();
        let p0 = s.mino_pos[0];
        let p1 = s.mino_pos[1];
        let p2 = s.mino_pos[2];
        let p3 = s.mino_pos[3];
        (p0[1] + 1 >= 20 || self.is_locked(p0[0], p0[1] + 1)) || (p1[1] + 1 >= 20
            || self.is_locked(p1[0], p1[1] + 1)) || (p2[1] + 1 >= 20 || self.is_locked(
            p2[0],
            p2[1] + 1,
        )) || (p3[1] + 1 >= 20 || self.is_locked(p3[0], p3[1] + 1))
    }

    /// Whether one cell at `[column, row]` is blocked from moving `offset`
    /// columns sideways.
    fn is_horiz_blocked(&self, cell: [usize; 2], offset: i32) -> (b: bool)
        requires
            grid_wf(self.grid()),
            cell[0] < 10,
            cell[1] < 20,
            -1 <= offset <= 1,
        ensures
            b == (!(0 <= cell[0] + offset < 10) || locked_at(
                self.grid(),
                cell[0] + offset,
                cell[1] as int,
            )),
    {
        let target = cell[0] as i32 + offset;
        if target < 0 || target >= 10 {
            true
        } else {
            self.is_locked(target as usize, cell[1])
        }
    }

    /// Move the active piece one row down.
    fn advance(&mut self)
        requires
            old(self).wf(),
            old(self).focused_shape is Some,
            !colliding_down(old(self).grid(), old(self).focused_shape->Some_0),
        ensures
            final(self).wf(),
            final(self).minos == old(self).minos,
            final(self).game_over == old(self).game_over,
            final(self).rng == old(self).rng,
            final(self).cfg == old(self).cfg,
            final(self).focused_shape matches Some(t) && shape_shifted(
                old(self).focused_shape->Some_0,
                t,
                0,
                1,
            ),
    {
        let s = self.focused_shape.unwrap();
        let p = s.mino_pos;
        let np: [[usize; 2]; 4] = [
            [p[0][0], p[0][1] + 1],
            [p[1][0], p[1][1] + 1],
            [p[2][0], p[2][1] + 1],
            [p[3][0], p[3][1] + 1],
        ];
        self.focused_shape = Some(Shape { variant: s.variant, mino_pos: np });
    }

    /// Move the active piece `offset` columns sideways.
    fn turn(&mut self, offset: i32)
        requires
            old(self).wf(),
            old(self).focused_shape is Some,
            -1 <= offset <= 1,
            !colliding_horiz(old(self).grid(), old(self).focused_shape->Some_0, offset as int),
        ensures
            final(self).wf(),
            final(self).minos == old(self).minos,
            final(self).game_over == old(self).game_over,
            final(self).rng == old(self).rng,
            final(self).cfg == old(self).cfg,
            final(self).focused_shape matches Some(t) && shape_shifted(
                old(self).focused_shape->Some_0,
                t,
                offset as int,
                0,
            ),
    {
        let s = self.focused_shape.unwrap();
        let p = s.mino_pos;
        let np: [[usize; 2]; 4] = [
            [(p[0][0] as i32 + offset) as usize, p[0][1]],
            [(p[1][0] as i32 + offset) as usize, p[1][1]],
            [(p[2][0] as i32 + offset) as usize, p[2][1]],
            [(p[3][0] as i32 + offset) as usize, p[3][1]],
        ];
        self.focused_shape = Some(Shape { variant: s.variant, mino_pos: np });
    }

    /// Overwrite the active piece's cells with the validated turn targets.
    fn rotate(&mut self, new_pos: [[i32; 2]; 4])
        requires
            old(self).wf(),
            old(self).focused_shape is Some,
            forall|i: int|
                0 <= i < 4 ==> 0 <= #[trigger] new_pos[i][0] < 10 && 0 <= new_pos[i][1] < 20
                    && !locked_at(old(self).grid(), new_pos[i][0] as int, new_pos[i][1] as int),
        ensures
            final(self).wf(),
            final(self).minos == old(self).minos,
            final(self).game_over == old(self).game_over,
            final(self).rng == old(self).rng,
            final(self).cfg == old(self).cfg,
            final(self).focused_shape matches Some(t) && t.variant == old(
                self,
            ).focused_shape->Some_0.variant && forall|i: int|
                0 <= i < 4 ==> #[trigger] t.col(i) == new_pos[i][0] && t.row(i) == new_pos[i][1],
    {
        let s = self.focused_shape.unwrap();
        let np: [[usize; 2]; 4] = [
            [new_pos[0][0] as usize, new_pos[0][1] as usize],
            [new_pos[1][0] as usize, new_pos[1][1] as usize],
            [new_pos[2][0] as usize, new_pos[2][1] as usize],
            [new_pos[3][0] as usize, new_pos[3][1] as usize],
        ];
        let t = Shape { variant: s.variant, mino_pos: np };
        proof {
            assert(new_pos[0][0] == np[0][0] && new_pos[0][1] == np[0][1]);
            assert(new_pos[1][0] == np[1][0] && new_pos[1][1] == np[1][1]);
            assert(new_pos[2][0] == np[2][0] && new_pos[2][1] == np[2][1]);
            assert(new_pos[3][0] == np[3][0] && new_pos[3][1] == np[3][1]);
        }
        self.focused_shape = Some(t);
        assert forall|i: int|
            0 <= i < 4 implies #[trigger] t.col(i) == new_pos[i][0] && t.row(i)
            == new_pos[i][1] by {
            if i == 0 {
            } else if i == 1 {
            } else if i == 2 {
            } else {
            }
        }
    }

    /// One tick of the state machine, in this fixed priority order: a lost
    /// game changes nothing; with no active piece, one is spawned (and the
    /// game ends if the spawn is blocked); otherwise, if any row is full, all
    /// full rows are cleared and the stack compacts down, carrying the piece
    /// with it; otherwise the piece locks if it cannot fall, and falls one
    /// row if it can.
    pub fn update(&mut self)
        requires
            old(self).wf(),
        ensures
            final(self).wf(),
            final(self).cfg == old(self).cfg,
            old(self).game_over ==> *final(self) == *old(self),
            (!old(self).game_over && old(self).focused_shape is None) ==> (final(self).minos
                == old(self).minos && exists|v: ShapeVariant|
                spawn_step(*old(self), v, *final(self))),
            old(self).focused_shape is Some ==> final(self).rng == old(self).rng,
            old(self).focused_shape matches Some(s) ==> {
                let g = old(self).grid();
                if has_full_row(g) {
                    &&& final(self).grid() == compacted(g)
                    &&& (final(self).focused_shape matches Some(t) && shape_dropped(g, s, t))
                    &&& final(self).game_over == old(self).game_over
                } else if colliding_down(g, s) {
                    &&& final(self).grid() == grid_lock(g, s)
                    &&& final(self).focused_shape is None
                    &&& final(self).game_over == old(self).game_over
                } else {
                    &&& final(self).minos == old(self).minos
                    &&& (final(self).focused_shape matches Some(t) && shape_shifted(s, t, 0, 1))
                    &&& final(self).game_over == old(self).game_over
                }
            },
    {
        if self.game_over {
            return ;
        }
        if self.focused_shape.is_none() {
            self.generate();
            return ;
        }
        if self.has_any_full_row() {
            self.clear_filled_rows();
        } else if self.is_colliding_down() {
            self.lock();
        } else {
            self.advance();
        }
    }

    /// Place a piece of the given variant in its spawn position, or set
    /// `game_over` when a locked cell blocks the layout. Verified for every
    /// variant the random source may hand back.
    pub fn spawn_with(&mut self, variant: ShapeVariant)
        requires
            old(self).wf(),
            old(self).focused_shape is None,
            !old(self).game_over,
        ensures
            final(self).wf(),
            spawn_step(*old(self), variant, *final(self)),
            final(self).rng == old(self).rng,
    {
        let mino_pos: [[usize; 2]; 4] = match variant {
            ShapeVariant::S => [[4, 0], [4, 1], [5, 1], [5, 2]],
            ShapeVariant::Z => [[5, 0], [5, 1], [4, 1], [4, 2]],
            ShapeVariant::O => [[4, 0], [5, 0], [4, 1], [5, 1]],
            ShapeVariant::I => [[3, 0], [4, 0], [5, 0], [6, 0]],
            ShapeVariant::L => [[4, 1], [4, 0], [5, 0], [6, 0]],
            ShapeVariant::J => [[4, 0], [5, 0], [6, 0], [6, 1]],
        };
        let blocked = self.is_locked(mino_pos[0][0], mino_pos[0][1]) || self.is_locked(
            mino_pos[1][0],
            mino_pos[1][1],
        ) || self.is_locked(mino_pos[2][0], mino_pos[2][1]) || self.is_locked(
            mino_pos[3][0],
            mino_pos[3][1],
        );
        if blocked {
            self.game_over = true;
        } else {
            self.focused_shape = Some(Shape { variant, mino_pos });
        }
    }

    /// Draw a variant from the random source and attempt to spawn it.
    fn generate(&mut self)
        requires
            old(self).wf(),
            old(self).focused_shape is None,
            !old(self).game_over,
        ensures
            final(self).wf(),
            final(self).minos == old(self).minos,
            final(self).cfg == old(self).cfg,
            exists|v: ShapeVariant| spawn_step(*old(self), v, *final(self)),
    {
        let i = pick_variant_index(&mut self.rng);
        let variant = if i == 0 {
            ShapeVariant::O
        } else if i == 1 {
            ShapeVariant::I
        } else if i == 2 {
            ShapeVariant::Z
        } else if i == 3 {
            ShapeVariant::S
        } else if i == 4 {
            ShapeVariant::J
        } else {
            ShapeVariant::L
        };
        self.spawn_with(variant);
        assert(spawn_step(*old(self), variant, *self));
    }

    /// Apply a move-left or move-right command: the piece shifts one column
    /// if no cell would leave the playfield or land on a locked cell, and is
    /// left unchanged otherwise. `stop` is set exactly when the move is
    /// accepted, telling the driver to skip the gravity step of this tick.
    pub fn request_turn(&mut self, dir: MinoDirection, stop: &mut bool)
        requires
            old(self).wf(),
        ensures
            final(self).wf(),
            final(self).minos == old(self).minos,
            final(self).game_over == old(self).game_over,
            final(self).rng == old(self).rng,
            final(self).cfg == old(self).cfg,
            old(self).focused_shape is None ==> *final(self) == *old(self) && *final(stop) == *old(
                stop,
            ),
            old(self).focused_shape matches Some(s) ==> {
                let off = if dir == MinoDirection::Left { -1int } else { 1int };
                if colliding_horiz(old(self).grid(), s, off) {
                    *final(self) == *old(self) && *final(stop) == *old(stop)
                } else {
                    *final(stop) && (final(self).focused_shape matches Some(t) && shape_shifted(
                        s,
                        t,
                        off,
                        0,
                    ))
                }
            },
    {
        if self.focused_shape.is_none() {
            return ;
        }
        let offset: i32 = match dir {
            MinoDirection::Left => -1,
            MinoDirection::Right => 1,
        };
        let s = self.focused_shape.unwrap();
        let blocked = self.is_horiz_blocked(s.mino_pos[0], offset) || self.is_horiz_blocked(
            s.mino_pos[1],
            offset,
        ) || self.is_horiz_blocked(s.mino_pos[2], offset) || self.is_horiz_blocked(
            s.mino_pos[3],
            offset,
        );
        if !blocked {
            *stop = true;
            self.turn(offset);
        }
    }

    /// Apply a rotate command: the `O` variant never rotates; otherwise the
    /// four cells are turned around the variant's pivot and the whole target
    /// set is accepted or rejected atomically. `stop` is set exactly when the
    /// rotation is accepted.
    pub fn request_rotate(&mut self, rot: Rotation, stop: &mut bool)
        requires
            old(self).wf(),
        ensures
            final(self).wf(),
            final(self).minos == old(self).minos,
            final(self).game_over == old(self).game_over,
            final(self).rng == old(self).rng,
            final(self).cfg == old(self).cfg,
            old(self).focused_shape is None ==> *final(self) == *old(self) && *final(stop) == *old(
                stop,
            ),
            old(self).focused_shape matches Some(s) ==> {
                if s.variant == ShapeVariant::O || colliding_rot(old(self).grid(), s, rot) {
                    *final(self) == *old(self) && *final(stop) == *old(stop)
                } else {
                    *final(stop) && (final(self).focused_shape matches Some(t) && shape_turned(
                        s,
                        t,
                        rot,
                    ))
                }
            },
    {
        if self.focused_shape.is_none() {
            return ;
        }
        let s = self.focused_shape.unwrap();
        if s.variant == ShapeVariant::O {
            return ;
        }
        let new_pos = s.rotate(rot);
        let invalid = (self.is_outside(new_pos[0]) || self.is_occupied_and_locked(new_pos[0])) || (
        self.is_outside(new_pos[1]) || self.is_occupied_and_locked(new_pos[1])) || (self.is_outside(
            new_pos[2],
        ) || self.is_occupied_and_locked(new_pos[2])) || (self.is_outside(new_pos[3])
            || self.is_occupied_and_locked(new_pos[3]));
        if !invalid {
            *stop = true;
            proof {
                assert(!rot_blocked(self.grid(), s, rot, 0));
                assert(!rot_blocked(self.grid(), s, rot, 1));
                assert(!rot_blocked(self.grid(), s, rot, 2));
                assert(!rot_blocked(self.grid(), s, rot, 3));
            }
            assert forall|i: int|
                0 <= i < 4 implies 0 <= #[trigger] new_pos[i][0] < 10 && 0 <= new_pos[i][1] < 20
                && !locked_at(self.grid(), new_pos[i][0] as int, new_pos[i][1] as int) by {
                if i == 0 {
                } else if i == 1 {
                } else if i == 2 {
                } else {
                }
            }
            self.rotate(new_pos);
            assert(shape_turned(s, self.focused_shape->Some_0, rot));
        }
    }

    /// Whether every column of row `row` is locked.
    fn is_row_full(&self, row: usize) -> (b: bool)
        requires
            grid_wf(self.grid()),
            row < 20,
        ensures
            b == row_full(self.grid()[row as int]),
    {
        let mut full = true;
        let mut c: usize = 0;
        while c < 10
            invariant
                grid_wf(self.grid()),
                row < 20,
                c <= 10,
                full == (forall|j: int|
                    0 <= j < c ==> (#[trigger] self.grid()[row as int][j]) is Locked),
            decreases 10 - c,
        {
            if !self.is_locked(c, row) {
                full = false;
            }
            c += 1;
        }
        full
    }

    /// How many rows strictly below `row` are full.
    fn count_full_below(&self, row: usize) -> (k: usize)
        requires
            grid_wf(self.grid()),
            row < 20,
        ensures
            k == count_full_in(self.grid(), row + 1, 20),
            row + k < 20,
    {
        let mut k: usize = 0;
        let mut r: usize = row + 1;
        while r < 20
            invariant
                grid_wf(self.grid()),
                row < 20,
                row + 1 <= r <= 20,
                k == count_full_in(self.grid(), row + 1, r as int),
                row + 1 + k <= r,
            decreases 20 - r,
        {
            if self.is_row_full(r) {
                k += 1;
            }
            r += 1;
        }
        k
    }

    /// The indices of the full rows, in ascending order.
    fn find_full_rows(&self) -> (rows: Vec<usize>)
        requires
            grid_wf(self.grid()),
        ensures
            usize_ints(rows@) == full_rows(self.grid()),
            forall|j: int| 0 <= j < rows@.len() ==> (#[trigger] rows@[j]) < 20,
    {
        let mut rows: Vec<usize> = Vec::new();
        let mut r: usize = 0;
        while r < 20
            invariant
                grid_wf(self.grid()),
                r <= 20,
                usize_ints(rows@) == full_rows_upto(self.grid(), r as int),
                forall|j: int| 0 <= j < rows@.len() ==> (#[trigger] rows@[j]) < r,
            decreases 20 - r,
        {
            if self.is_row_full(r) {
                rows.push(r);
                assert(usize_ints(rows@) =~= full_rows_upto(self.grid(), r + 1));
            }
            r += 1;
        }
        rows
    }

    /// Overwrite row `row` with empty cells.
    fn empty_row_at(&mut self, row: usize)
        requires
            grid_wf(old(self).grid()),
            row < 20,
        ensures
            grid_wf(final(self).grid()),
            final(self).grid() == old(self).grid().update(row as int, spec_empty_row()),
            final(self).focused_shape == old(self).focused_shape,
            final(self).game_over == old(self).game_over,
            final(self).rng == old(self).rng,
            final(self).cfg == old(self).cfg,
    {
        proof {
            assert(old(self).grid()[row as int].len() == 10);
        }
        let mut c: usize = 0;
        while c < 10
            invariant
                row < 20,
                c <= 10,
                self.minos@.len() == 20,
                forall|k: int| 0 <= k < 20 && k != row ==> self.minos@[k] == old(self).minos@[k],
                self.minos@[row as int]@.len() == 10,
                forall|j: int| 0 <= j < c ==> (#[trigger] self.minos@[row as int]@[j]) is Empty,
                forall|j: int|
                    c <= j < 10 ==> self.minos@[row as int]@[j] == old(self).minos@[row as int]@[j],
                self.focused_shape == old(self).focused_shape,
                self.game_over == old(self).game_over,
                self.rng == old(self).rng,
                self.cfg == old(self).cfg,
            decreases 10 - c,
        {
            self.minos[row][c] = Cell::Empty;
            c += 1;
        }
        assert(self.grid() =~~= old(self).grid().update(row as int, spec_empty_row()));
    }

    /// Copy the cells of row `src` into row `dst`.
    fn copy_row(&mut self, src: usize, dst: usize)
        requires
            grid_wf(old(self).grid()),
            src < 20,
            dst < 20,
            src != dst,
        ensures
            grid_wf(final(self).grid()),
            final(self).grid() == old(self).grid().update(
                dst as int,
                old(self).grid()[src as int],
            ),
            final(self).focused_shape == old(self).focused_shape,
            final(self).game_over == old(self).game_over,
            final(self).rng == old(self).rng,
            final(self).cfg == old(self).cfg,
    {
        proof {
            assert(old(self).grid()[src as int].len() == 10);
            assert(old(self).grid()[dst as int].len() == 10);
        }
        let mut c: usize = 0;
        while c < 10
            invariant
                src < 20,
                dst < 20,
                src != dst,
                c <= 10,
                self.minos@.len() == 20,
                forall|k: int| 0 <= k < 20 && k != dst ==> self.minos@[k] == old(self).minos@[k],
                self.minos@[dst as int]@.len() == 10,
                old(self).minos@[src as int]@.len() == 10,
                forall|j: int|
                    0 <= j < c ==> self.minos@[dst as int]@[j] == old(self).minos@[src as int]@[j],
                forall|j: int|
                    c <= j < 10 ==> self.minos@[dst as int]@[j] == old(self).minos@[dst as int]@[j],
                self.focused_shape == old(self).focused_shape,
                self.game_over == old(self).game_over,
                self.rng == old(self).rng,
                self.cfg == old(self).cfg,
            decreases 10 - c,
        {
            let v = self.minos[src][c];
            self.minos[dst][c] = v;
            c += 1;
        }
        assert(self.grid() =~~= old(self).grid().update(dst as int, old(self).grid()[src as int]));
    }

    /// Remove row `row_index`: empty it, shift every row above it down by
    /// one, and leave a fresh empty row at the top. Locked cells only; the
    /// active piece is not touched here.
    fn clear(&mut self, row_index: usize)
        requires
            grid_wf(old(self).grid()),
            row_index < 20,
        ensures
            grid_wf(final(self).grid()),
            final(self).grid() == clear_row_spec(old(self).grid(), row_index as int),
            final(self).focused_shape == old(self).focused_shape,
            final(self).game_over == old(self).game_over,
            final(self).rng == old(self).rng,
            final(self).cfg == old(self).cfg,
    {
        let ghost g0 = old(self).grid();
        self.empty_row_at(row_index);
        let ghost g1 = g0.update(row_index as int, spec_empty_row());
        let mut r: usize = row_index;
        while r > 0
            invariant
                grid_wf(self.grid()),
                r <= row_index < 20,
                g1 == g0.update(row_index as int, spec_empty_row()),
                g0.len() == 20,
                forall|k: int| 0 <= k <= r ==> self.grid()[k] == g1[k],
                forall|k: int| r < k <= row_index ==> self.grid()[k] == g0[k - 1],
                forall|k: int| row_index < k < 20 ==> self.grid()[k] == g0[k],
                self.focused_shape == old(self).focused_shape,
                self.game_over == old(self).game_over,
                self.rng == old(self).rng,
                self.cfg == old(self).cfg,
            decreases r,
        {
            let ghost cur = self.grid();
            self.copy_row(r - 1, r);
            proof {
                assert(cur[r as int - 1] == g1[r as int - 1]);
                assert(g1[r as int - 1] == g0[r as int - 1]);
                assert forall|k: int| r - 1 < k <= row_index implies self.grid()[k] == g0[k - 1] by {
                    if k == r {
                        assert(self.grid()[k] == cur[r as int - 1]);
                    } else {
                        assert(self.grid()[k] == cur[k]);
                    }
                }
            }
            r -= 1;
        }
        self.empty_row_at(0);
        assert(self.grid() =~~= clear_row_spec(g0, row_index as int));
    }

    /// Whether any row of the grid is full.
    fn has_any_full_row(&self) -> (b: bool)
        requires
            grid_wf(self.grid()),
        ensures
            b == has_full_row(self.grid()),
    {
        let mut found = false;
        let mut r: usize = 0;
        while r < 20
            invariant
                grid_wf(self.grid()),
                r <= 20,
                found == exists|k: int| 0 <= k < r && row_full(#[trigger] self.grid()[k]),
            decreases 20 - r,
        {
            if self.is_row_full(r) {
                found = true;
                assert(row_full(self.grid()[r as int]));
            }
            r += 1;
        }
        found
    }

    /// Clear every full row, in ascending index order, and move the active
    /// piece down one row per full row that lay below each of its cells, so
    /// that it keeps its place relative to the compacted stack.
    fn clear_filled_rows(&mut self)
        requires
            old(self).wf(),
            old(self).focused_shape is Some,
        ensures
            final(self).wf(),
            final(self).grid() == compacted(old(self).grid()),
            final(self).game_over == old(self).game_over,
            final(self).rng == old(self).rng,
            final(self).cfg == old(self).cfg,
            (final(self).focused_shape matches Some(t) && shape_dropped(
                old(self).grid(),
                old(self).focused_shape->Some_0,
                t,
            )),
    {
        let ghost g0 = self.grid();
        let s = self.focused_shape.unwrap();
        let p = s.mino_pos;
        let k0 = self.count_full_below(p[0][1]);
        let k1 = self.count_full_below(p[1][1]);
        let k2 = self.count_full_below(p[2][1]);
        let k3 = self.count_full_below(p[3][1]);
        let rows = self.find_full_rows();
        let ghost flist = full_rows(g0);
        proof {
            assert(flist.skip(0) =~= flist);
        }
        let mut j: usize = 0;
        while j < rows.len()
            invariant
                rows@.len() == flist.len(),
                usize_ints(rows@) == flist,
                forall|x: int| 0 <= x < rows@.len() ==> (#[trigger] rows@[x]) < 20,
                j <= rows@.len(),
                grid_wf(self.grid()),
                clear_fold(g0, flist) == clear_fold(self.grid(), flist.skip(j as int)),
                self.focused_shape == old(self).focused_shape,
                self.game_over == old(self).game_over,
                self.rng == old(self).rng,
                self.cfg == old(self).cfg,
            decreases rows@.len() - j,
        {
            let r = rows[j];
            let ghost cur = self.grid();
            self.clear(r);
            proof {
                assert(flist[j as int] == r as int);
                assert(flist.skip(j as int)[0] == flist[j as int]);
                assert(flist.skip(j as int).drop_first() =~= flist.skip(j as int + 1));
                assert(clear_fold(cur, flist.skip(j as int)) == clear_fold(
                    clear_row_spec(cur, r as int),
                    flist.skip(j as int + 1),
                ));
            }
            j += 1;
        }
        proof {
            assert(flist.skip(flist.len() as int) =~= Seq::<int>::empty());
            assert(clear_fold(self.grid(), flist.skip(flist.len() as int)) == self.grid());
            lemma_clear_fold_compacts(g0);
            assert(self.grid() == compacted(g0));
        }
        let np: [[usize; 2]; 4] = [
            [p[0][0], p[0][1] + k0],
            [p[1][0], p[1][1] + k1],
            [p[2][0], p[2][1] + k2],
            [p[3][0], p[3][1] + k3],
        ];
        self.focused_shape = Some(Shape { variant: s.variant, mino_pos: np });
        proof {
            let t = self.focused_shape->Some_0;
            assert(!row_full(g0[s.row(0)])) by {
                assert(!locked_at(g0, s.col(0), s.row(0)));
            }
            assert(!row_full(g0[s.row(1)])) by {
                assert(!locked_at(g0, s.col(1), s.row(1)));
            }
            assert(!row_full(g0[s.row(2)])) by {
                assert(!locked_at(g0, s.col(2), s.row(2)));
            }
            assert(!row_full(g0[s.row(3)])) by {
                assert(!locked_at(g0, s.col(3), s.row(3)));
            }
            lemma_compacted_row(g0, s.row(0));
            lemma_compacted_row(g0, s.row(1));
            lemma_compacted_row(g0, s.row(2));
            lemma_compacted_row(g0, s.row(3));
            lemma_compacted_wf(g0);
            assert(shape_dropped(g0, s, t));
            assert(shape_on_grid(self.grid(), t));
        }
    }

    /// Mark the active piece's four cells as locked and drop the piece.
    fn lock(&mut self)
        requires
            old(self).wf(),
            old(self).focused_shape is Some,
        ensures
            final(self).wf(),
            final(self).grid() == grid_lock(old(self).grid(), old(self).focused_shape->Some_0),
            final(self).focused_shape is None,
            final(self).game_over == old(self).game_over,
            final(self).rng == old(self).rng,
            final(self).cfg == old(self).cfg,
    {
        let s = self.focused_shape.take().unwrap();
        let p = s.mino_pos;
        let ghost g0 = self.grid();
        self.minos[p[0][1]][p[0][0]] = Cell::Locked;
        assert(self.grid() =~~= set_locked(g0, s.col(0), s.row(0)));
        let ghost g1 = self.grid();
        self.minos[p[1][1]][p[1][0]] = Cell::Locked;
        assert(self.grid() =~~= set_locked(g1, s.col(1), s.row(1)));
        let ghost g2 = self.grid();
        self.minos[p[2][1]][p[2][0]] = Cell::Locked;
        assert(self.grid() =~~= set_locked(g2, s.col(2), s.row(2)));
        let ghost g3 = self.grid();
        self.minos[p[3][1]][p[3][0]] = Cell::Locked;
        assert(self.grid() =~~= set_locked(g3, s.col(3), s.row(3)));
    }
}

} // verus!
