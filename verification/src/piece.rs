//! Pieces as sequences of cells: where a piece lies, how it falls, how it
//! moves sideways and how it turns.

use vstd::prelude::*;
use crate::cell::{Direction, Position};

verus! {

/// Whether some cell of `piece` lies in column `x` and row `y`.
pub open spec fn occupies(piece: Seq<Position>, x: int, y: int) -> bool {
    exists|i: int| 0 <= i < piece.len() && (#[trigger] piece[i]).x == x && piece[i].y == y
}

/// A piece with one more cell occupies what it occupied before and the
/// place of that cell.
pub proof fn lemma_occupies_push(piece: Seq<Position>, cell: Position, x: int, y: int)
    ensures
        occupies(piece.push(cell), x, y) == (occupies(piece, x, y) || (cell.x == x && cell.y == y)),
{
    let longer = piece.push(cell);
    if occupies(piece, x, y) {
        let i = choose|i: int| 0 <= i < piece.len() && (#[trigger] piece[i]).x == x && piece[i].y == y;
        assert(longer[i] == piece[i]);
    }
    if cell.x == x && cell.y == y {
        assert(longer[piece.len() as int] == cell);
    }
    if occupies(longer, x, y) {
        let i = choose|i: int|
            0 <= i < longer.len() && (#[trigger] longer[i]).x == x && longer[i].y == y;
        if i < piece.len() {
            assert(piece[i] == longer[i]);
        }
    }
}

/// Whether every cell of `piece` lies on the board.
pub open spec fn on_board(piece: Seq<Position>) -> bool {
    forall|i: int| 0 <= i < piece.len() ==> (#[trigger] piece[i]).on_board()
}

/// The columns of the cells of `piece`, in order.
pub open spec fn columns(piece: Seq<Position>) -> Seq<int> {
    piece.map_values(|cell: Position| cell.x as int)
}

/// The rows of the cells of `piece`, in order.
pub open spec fn rows(piece: Seq<Position>) -> Seq<int> {
    piece.map_values(|cell: Position| cell.y as int)
}

/// The lowest column that `piece` reaches.
pub open spec fn min_column(piece: Seq<Position>) -> int {
    columns(piece).min()
}

/// The highest column that `piece` reaches.
pub open spec fn max_column(piece: Seq<Position>) -> int {
    columns(piece).max()
}

/// The lowest row that `piece` reaches.
pub open spec fn min_row(piece: Seq<Position>) -> int {
    rows(piece).min()
}

/// The highest row that `piece` reaches.
pub open spec fn max_row(piece: Seq<Position>) -> int {
    rows(piece).max()
}

/// The column in which `piece` reaches furthest in `direction`.
pub open spec fn extreme_column(piece: Seq<Position>, direction: Direction) -> int {
    match direction {
        Direction::Right => min_column(piece),
        Direction::Left => max_column(piece),
    }
}

/// The extreme columns and rows of a piece bound all its cells, and each is
/// the column or row of one of them.
pub proof fn lemma_extremes(piece: Seq<Position>)
    requires
        piece.len() > 0,
    ensures
        forall|i: int|
            0 <= i < piece.len() ==> min_column(piece) <= (#[trigger] piece[i]).x <= max_column(
                piece,
            ),
        forall|i: int|
            0 <= i < piece.len() ==> min_row(piece) <= (#[trigger] piece[i]).y <= max_row(piece),
        exists|i: int| 0 <= i < piece.len() && (#[trigger] piece[i]).x == min_column(piece),
        exists|i: int| 0 <= i < piece.len() && (#[trigger] piece[i]).x == max_column(piece),
        exists|i: int| 0 <= i < piece.len() && (#[trigger] piece[i]).y == min_row(piece),
        exists|i: int| 0 <= i < piece.len() && (#[trigger] piece[i]).y == max_row(piece),
{
    let xs = columns(piece);
    let ys = rows(piece);
    xs.min_ensures();
    xs.max_ensures();
    ys.min_ensures();
    ys.max_ensures();
    assert forall|i: int| 0 <= i < piece.len() implies min_column(piece) <= (#[trigger] piece[i]).x
        <= max_column(piece) by {
        assert(xs[i] == piece[i].x);
    }
    assert forall|i: int| 0 <= i < piece.len() implies min_row(piece) <= (#[trigger] piece[i]).y
        <= max_row(piece) by {
        assert(ys[i] == piece[i].y);
    }
    let a = choose|i: int| 0 <= i < xs.len() && xs[i] == xs.min();
    assert(piece[a].x == min_column(piece));
    let b = choose|i: int| 0 <= i < xs.len() && xs[i] == xs.max();
    assert(piece[b].x == max_column(piece));
    let c = choose|i: int| 0 <= i < ys.len() && ys[i] == ys.min();
    assert(piece[c].y == min_row(piece));
    let d = choose|i: int| 0 <= i < ys.len() && ys[i] == ys.max();
    assert(piece[d].y == max_row(piece));
}

/// The cell one row below `cell`; a cell on the floor stays.
pub open spec fn lowered(cell: Position) -> Position {
    Position { x: cell.x, y: if cell.y > 0 { (cell.y - 1) as usize } else { 0 } }
}

/// The piece after it fell by one row, each cell stopping at the floor.
pub open spec fn descended(piece: Seq<Position>) -> Seq<Position> {
    piece.map_values(|cell: Position| lowered(cell))
}

/// A piece on the board is still on the board after it fell.
pub proof fn lemma_descended_on_board(piece: Seq<Position>)
    requires
        on_board(piece),
    ensures
        on_board(descended(piece)),
{
    assert forall|i: int| 0 <= i < descended(piece).len() implies (#[trigger] descended(
        piece,
    )[i]).on_board() by {
        assert(piece[i].on_board());
    }
}

/// The cell next to `cell` in `direction`.
pub open spec fn stepped(cell: Position, direction: Direction) -> Position {
    match direction {
        Direction::Right => Position { x: (cell.x - 1) as usize, y: cell.y },
        Direction::Left => Position { x: (cell.x + 1) as usize, y: cell.y },
    }
}

/// The piece moved by one column in `direction`.
pub open spec fn shifted(piece: Seq<Position>, direction: Direction) -> Seq<Position> {
    piece.map_values(|cell: Position| stepped(cell, direction))
}

/// Whether `piece` can turn: it has a cell, all its cells lie in its frame,
/// the two columns and two rows that start at its lowest column and lowest
/// row, and the frame ends within the range of coordinates.
pub open spec fn turnable(piece: Seq<Position>) -> bool {
    &&& piece.len() > 0
    &&& min_column(piece) < usize::MAX
    &&& min_row(piece) < usize::MAX
    &&& forall|i: int|
        0 <= i < piece.len() ==> (#[trigger] piece[i]).x <= min_column(piece) + 1 && piece[i].y
            <= min_row(piece) + 1
}

/// The cell at column `x` and row `y` if `present`, and nothing otherwise.
pub open spec fn cell_if(present: bool, x: int, y: int) -> Seq<Position> {
    if present {
        seq![Position { x: x as usize, y: y as usize }]
    } else {
        Seq::empty()
    }
}

/// The piece after a quarter turn inside its frame, the two columns and two
/// rows that start at its lowest column and lowest row. Writing `(c, r)` for
/// the cell `c` columns and `r` rows into the frame, the turned piece has
/// `(0, 0)` where the piece had `(0, 1)`, `(1, 0)` where it had `(0, 0)`,
/// `(0, 1)` where it had `(1, 1)` and `(1, 1)` where it had `(1, 0)`; its
/// cells come in that order.
pub open spec fn rotated(piece: Seq<Position>) -> Seq<Position> {
    let x = min_column(piece);
    let y = min_row(piece);
    cell_if(occupies(piece, x, y + 1), x, y) + cell_if(occupies(piece, x, y), x + 1, y) + cell_if(
        occupies(piece, x + 1, y + 1),
        x,
        y + 1,
    ) + cell_if(occupies(piece, x + 1, y), x + 1, y + 1)
}

/// Two runs of cells, one after the other, occupy what either occupies.
pub proof fn lemma_occupies_add(a: Seq<Position>, b: Seq<Position>, x: int, y: int)
    ensures
        occupies(a + b, x, y) == (occupies(a, x, y) || occupies(b, x, y)),
{
    let both = a + b;
    if occupies(a, x, y) {
        let i = choose|i: int| 0 <= i < a.len() && (#[trigger] a[i]).x == x && a[i].y == y;
        assert(both[i] == a[i]);
    }
    if occupies(b, x, y) {
        let i = choose|i: int| 0 <= i < b.len() && (#[trigger] b[i]).x == x && b[i].y == y;
        assert(both[a.len() + i] == b[i]);
    }
    if occupies(both, x, y) {
        let i = choose|i: int| 0 <= i < both.len() && (#[trigger] both[i]).x == x && both[i].y == y;
        if i < a.len() {
            assert(a[i] == both[i]);
        } else {
            assert(b[i - a.len()] == both[i]);
        }
    }
}

/// A cell that may be absent occupies its place if it is present, and
/// nothing else.
pub proof fn lemma_occupies_cell_if(present: bool, cx: int, cy: int, x: int, y: int)
    requires
        0 <= cx <= usize::MAX,
        0 <= cy <= usize::MAX,
    ensures
        occupies(cell_if(present, cx, cy), x, y) == (present && cx == x && cy == y),
{
    let cells = cell_if(present, cx, cy);
    if present && cx == x && cy == y {
        assert(cells[0].x == x);
    }
}

/// The turned piece occupies a cell of the frame of the piece exactly where
/// the piece occupied the cell that the quarter turn brings there: the cell
/// `c` columns and `r` rows into the frame comes from the cell `r` columns
/// and `1 - c` rows into it. Outside the frame the turned piece occupies
/// nothing.
pub proof fn lemma_rotated_occupies(piece: Seq<Position>, x: int, y: int)
    requires
        turnable(piece),
    ensures
        occupies(rotated(piece), x, y) == {
            let c = x - min_column(piece);
            let r = y - min_row(piece);
            0 <= c <= 1 && 0 <= r <= 1 && occupies(
                piece,
                min_column(piece) + r,
                min_row(piece) + 1 - c,
            )
        },
{
    lemma_extremes(piece);
    let x0 = min_column(piece);
    let y0 = min_row(piece);
    let a = cell_if(occupies(piece, x0, y0 + 1), x0, y0);
    let b = cell_if(occupies(piece, x0, y0), x0 + 1, y0);
    let c = cell_if(occupies(piece, x0 + 1, y0 + 1), x0, y0 + 1);
    let d = cell_if(occupies(piece, x0 + 1, y0), x0 + 1, y0 + 1);
    lemma_occupies_add(a + b + c, d, x, y);
    lemma_occupies_add(a + b, c, x, y);
    lemma_occupies_add(a, b, x, y);
    lemma_occupies_cell_if(occupies(piece, x0, y0 + 1), x0, y0, x, y);
    lemma_occupies_cell_if(occupies(piece, x0, y0), x0 + 1, y0, x, y);
    lemma_occupies_cell_if(occupies(piece, x0 + 1, y0 + 1), x0, y0 + 1, x, y);
    lemma_occupies_cell_if(occupies(piece, x0 + 1, y0), x0 + 1, y0 + 1, x, y);
}

/// How far a quarter turn moves the frame of `piece` along the columns: by
/// one column if the piece lies in a single row, and not at all otherwise.
pub open spec fn turn_drift(piece: Seq<Position>) -> int {
    if max_row(piece) == min_row(piece) {
        1
    } else {
        0
    }
}

/// The frame of the turned piece starts in the same row as the frame of the
/// piece, and `turn_drift(piece)` columns further up. Unless that leaves no
/// room for its second column, the turned piece can turn again.
pub proof fn lemma_rotated_frame(piece: Seq<Position>)
    requires
        turnable(piece),
    ensures
        rotated(piece).len() > 0,
        min_row(rotated(piece)) == min_row(piece),
        min_column(rotated(piece)) == min_column(piece) + turn_drift(piece),
        min_column(piece) + turn_drift(piece) < usize::MAX ==> turnable(rotated(piece)),
{
    lemma_extremes(piece);
    let turned = rotated(piece);
    let x0 = min_column(piece);
    let y0 = min_row(piece);
    let d = turn_drift(piece);
    // what the piece holds of the four cells of its frame
    let near_low = occupies(piece, x0, y0);
    let far_low = occupies(piece, x0 + 1, y0);
    let near_high = occupies(piece, x0, y0 + 1);
    let far_high = occupies(piece, x0 + 1, y0 + 1);
    assert(near_low || far_low) by {
        let i = choose|i: int| 0 <= i < piece.len() && (#[trigger] piece[i]).y == y0;
        assert(piece[i].x == x0 || piece[i].x == x0 + 1);
    }
    assert(near_low || near_high) by {
        let i = choose|i: int| 0 <= i < piece.len() && (#[trigger] piece[i]).x == x0;
        assert(piece[i].y == y0 || piece[i].y == y0 + 1);
    }
    assert((d == 1) == (!near_high && !far_high)) by {
        let i = choose|i: int| 0 <= i < piece.len() && (#[trigger] piece[i]).y == max_row(piece);
        assert(piece[i].x == x0 || piece[i].x == x0 + 1);
        if near_high {
            let j = choose|j: int|
                0 <= j < piece.len() && (#[trigger] piece[j]).x == x0 && piece[j].y == y0 + 1;
            assert(piece[j].y <= max_row(piece));
        }
        if far_high {
            let j = choose|j: int|
                0 <= j < piece.len() && (#[trigger] piece[j]).x == x0 + 1 && piece[j].y == y0 + 1;
            assert(piece[j].y <= max_row(piece));
        }
    }
    assert forall|x: int, y: int| occupies(turned, x, y) == {
        let c = x - x0;
        let r = y - y0;
        0 <= c <= 1 && 0 <= r <= 1 && occupies(piece, x0 + r, y0 + 1 - c)
    } by {
        lemma_rotated_occupies(piece, x, y);
    }
    assert(occupies(turned, x0 + d, y0) || occupies(turned, x0 + d, y0 + 1));
    assert(occupies(turned, x0, y0) || occupies(turned, x0 + 1, y0));
    assert forall|i: int| 0 <= i < turned.len() implies x0 + d <= (#[trigger] turned[i]).x <= x0
        + 1 && y0 <= turned[i].y <= y0 + 1 by {
        assert(occupies(turned, turned[i].x as int, turned[i].y as int));
    }
    lemma_extremes(turned);
}

/// How far two quarter turns move a piece along the columns: one column if
/// it lies in a single row, and one more if it lies in a single column.
pub open spec fn half_turn_drift(piece: Seq<Position>) -> int {
    turn_drift(piece) + if max_column(piece) == min_column(piece) {
        1int
    } else {
        0int
    }
}

/// Whether `piece` holds exactly three of the four cells of its frame.
pub open spec fn is_corner(piece: Seq<Position>) -> bool {
    let x = min_column(piece);
    let y = min_row(piece);
    (if occupies(piece, x, y) { 1int } else { 0int }) + (if occupies(piece, x + 1, y) { 1int } else { 0int })
        + (if occupies(piece, x, y + 1) { 1int } else { 0int }) + (if occupies(piece, x + 1, y + 1) {
        1int
    } else {
        0int
    }) == 3
}

/// Two quarter turns reflect a piece through the centre of its frame and
/// then move it by `turn_drift(piece)`, up the columns and down the rows:
/// the second turn takes place in the frame of the turned piece, which the
/// first turn has moved if the piece lay in a single row.
pub proof fn lemma_rotated_twice(piece: Seq<Position>, x: int, y: int)
    requires
        turnable(piece),
        min_column(piece) + 1 < usize::MAX,
    ensures
        occupies(rotated(rotated(piece)), x, y) == occupies(
            piece,
            2 * min_column(piece) + 1 + turn_drift(piece) - x,
            2 * min_row(piece) + 1 - turn_drift(piece) - y,
        ),
{
    lemma_extremes(piece);
    lemma_rotated_frame(piece);
    let turned = rotated(piece);
    let x0 = min_column(piece);
    let y0 = min_row(piece);
    let d = turn_drift(piece);
    lemma_rotated_occupies(turned, x, y);
    let c = x - (x0 + d);
    let r = y - y0;
    lemma_rotated_occupies(piece, x0 + d + r, y0 + 1 - c);
    let px = 2 * x0 + 1 + d - x;
    let py = 2 * y0 + 1 - d - y;
    if occupies(piece, px, py) {
        let i = choose|i: int| 0 <= i < piece.len() && (#[trigger] piece[i]).x == px && piece[i].y == py;
        assert(x0 <= piece[i].x <= x0 + 1 && y0 <= piece[i].y <= y0 + 1);
        assert(piece[i].y <= max_row(piece));
    }
}

/// Two quarter turns bring a piece back to its shape, moved up the columns
/// by `half_turn_drift(piece)`, unless the piece is a corner, which comes
/// back as the opposite corner.
pub proof fn lemma_half_turn_shifts(piece: Seq<Position>)
    requires
        turnable(piece),
        min_column(piece) + 1 < usize::MAX,
        !is_corner(piece),
    ensures
        0 <= half_turn_drift(piece) <= 2,
        forall|x: int, y: int|
            occupies(rotated(rotated(piece)), x, y) == occupies(
                piece,
                x - half_turn_drift(piece),
                y,
            ),
{
    lemma_extremes(piece);
    let x0 = min_column(piece);
    let y0 = min_row(piece);
    let d = turn_drift(piece);
    let t = half_turn_drift(piece);
    assert forall|x: int, y: int|
        occupies(rotated(rotated(piece)), x, y) == occupies(piece, x - t, y) by {
        lemma_rotated_twice(piece, x, y);
        lemma_frame_cells(piece, 2 * x0 + 1 + d - x, 2 * y0 + 1 - d - y);
        lemma_frame_cells(piece, x - t, y);
        lemma_frame_census(piece);
    }
}

/// A piece that can turn occupies no cell outside its frame.
pub proof fn lemma_frame_cells(piece: Seq<Position>, x: int, y: int)
    requires
        turnable(piece),
    ensures
        occupies(piece, x, y) ==> min_column(piece) <= x <= min_column(piece) + 1 && min_row(piece)
            <= y <= min_row(piece) + 1,
{
    lemma_extremes(piece);
    if occupies(piece, x, y) {
        let i = choose|i: int| 0 <= i < piece.len() && (#[trigger] piece[i]).x == x && piece[i].y == y;
        assert(min_column(piece) <= piece[i].x <= min_column(piece) + 1);
    }
}

/// A piece that can turn has a cell in the first column and a cell in the
/// first row of its frame. It has one in the second column unless it lies
/// in a single column, and one in the second row unless it lies in a single
/// row.
pub proof fn lemma_frame_census(piece: Seq<Position>)
    requires
        turnable(piece),
    ensures
        ({
            let x = min_column(piece);
            let y = min_row(piece);
            &&& occupies(piece, x, y) || occupies(piece, x + 1, y)
            &&& occupies(piece, x, y) || occupies(piece, x, y + 1)
            &&& (max_row(piece) == y) == (!occupies(piece, x, y + 1) && !occupies(piece, x + 1, y + 1))
            &&& (max_column(piece) == x) == (!occupies(piece, x + 1, y) && !occupies(
                piece,
                x + 1,
                y + 1,
            ))
        }),
{
    lemma_extremes(piece);
    let x0 = min_column(piece);
    let y0 = min_row(piece);
    let i = choose|i: int| 0 <= i < piece.len() && (#[trigger] piece[i]).y == y0;
    assert(piece[i].x == x0 || piece[i].x == x0 + 1);
    let j = choose|j: int| 0 <= j < piece.len() && (#[trigger] piece[j]).x == x0;
    assert(piece[j].y == y0 || piece[j].y == y0 + 1);
    let k = choose|k: int| 0 <= k < piece.len() && (#[trigger] piece[k]).y == max_row(piece);
    assert(piece[k].x == x0 || piece[k].x == x0 + 1);
    let l = choose|l: int| 0 <= l < piece.len() && (#[trigger] piece[l]).x == max_column(piece);
    assert(piece[l].y == y0 || piece[l].y == y0 + 1);
    if occupies(piece, x0, y0 + 1) {
        let m = choose|m: int|
            0 <= m < piece.len() && (#[trigger] piece[m]).x == x0 && piece[m].y == y0 + 1;
        assert(piece[m].y <= max_row(piece));
    }
    if occupies(piece, x0 + 1, y0 + 1) {
        let m = choose|m: int|
            0 <= m < piece.len() && (#[trigger] piece[m]).x == x0 + 1 && piece[m].y == y0 + 1;
        assert(piece[m].y <= max_row(piece));
        assert(piece[m].x <= max_column(piece));
    }
    if occupies(piece, x0 + 1, y0) {
        let m = choose|m: int|
            0 <= m < piece.len() && (#[trigger] piece[m]).x == x0 + 1 && piece[m].y == y0;
        assert(piece[m].x <= max_column(piece));
    }
}

} // verus!
