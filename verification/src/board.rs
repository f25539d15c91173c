//! The board as rows of occupancy flags: what it means for a piece to
//! collide with it, to be locked into it, and for its full rows to be swept.

use vstd::prelude::*;
use crate::cell::{COLUMNS, Direction, Position, ROWS};
use crate::piece::occupies;

verus! {

/// The rows of flags that `lines` holds.
pub open spec fn grid(lines: Seq<Vec<bool>>) -> Seq<Seq<bool>> {
    lines.map_values(|row: Vec<bool>| row@)
}

/// Whether `board` has the ten rows of five cells of a board.
pub open spec fn well_shaped(board: Seq<Seq<bool>>) -> bool {
    &&& board.len() == ROWS
    &&& forall|r: int| 0 <= r < board.len() ==> (#[trigger] board[r]).len() == COLUMNS
}

/// A row with no cell occupied.
pub open spec fn empty_row() -> Seq<bool> {
    Seq::new(COLUMNS as nat, |c: int| false)
}

/// The board with no cell occupied.
pub open spec fn empty_board() -> Seq<Seq<bool>> {
    Seq::new(ROWS as nat, |r: int| empty_row())
}

/// Whether the cell in column `x` and row `y` lies on `board` and is
/// occupied.
pub open spec fn occupied(board: Seq<Seq<bool>>, x: int, y: int) -> bool {
    0 <= y < board.len() && 0 <= x < board[y].len() && board[y][x]
}

/// Whether `cell` rests on something: it is on the floor, the cell below it
/// is occupied, or its own place is.
pub open spec fn cell_collides(board: Seq<Seq<bool>>, cell: Position) -> bool {
    cell.y == 0 || occupied(board, cell.x as int, cell.y - 1) || occupied(
        board,
        cell.x as int,
        cell.y as int,
    )
}

/// Whether some cell of `piece` collides.
pub open spec fn collides(board: Seq<Seq<bool>>, piece: Seq<Position>) -> bool {
    exists|i: int| 0 <= i < piece.len() && cell_collides(board, #[trigger] piece[i])
}

/// Whether `cell` is not in the last column towards `direction` and its
/// neighbour on that side is occupied.
pub open spec fn cell_blocked(board: Seq<Seq<bool>>, cell: Position, direction: Direction) -> bool {
    match direction {
        Direction::Right => cell.x > 0 && occupied(board, cell.x - 1, cell.y as int),
        Direction::Left => cell.x < COLUMNS - 1 && occupied(board, cell.x + 1, cell.y as int),
    }
}

/// Whether some cell of `piece` is blocked towards `direction`.
pub open spec fn blocked(board: Seq<Seq<bool>>, piece: Seq<Position>, direction: Direction) -> bool {
    exists|i: int| 0 <= i < piece.len() && cell_blocked(board, #[trigger] piece[i], direction)
}

/// The board with the cells of `piece` occupied as well.
pub open spec fn locked(board: Seq<Seq<bool>>, piece: Seq<Position>) -> Seq<Seq<bool>> {
    Seq::new(
        board.len(),
        |r: int| Seq::new(board[r].len(), |c: int| board[r][c] || occupies(piece, c, r)),
    )
}

/// Whether every cell of `row` is occupied.
pub open spec fn row_complete(row: Seq<bool>) -> bool {
    forall|c: int| 0 <= c < row.len() ==> row[c]
}

/// The number of complete rows of `board`.
pub open spec fn completed_rows(board: Seq<Seq<bool>>) -> nat {
    board.filter(|row: Seq<bool>| row_complete(row)).len()
}

/// Whether no row of `board` is complete.
pub open spec fn drained(board: Seq<Seq<bool>>) -> bool {
    forall|r: int| 0 <= r < board.len() ==> !row_complete(#[trigger] board[r])
}

/// The rows after the first `n` rows of `board` were looked at in turn. For
/// each of them that is complete in `board` itself, the row that is then at
/// the same index is taken out and an empty row is added after the last; rows
/// taken out earlier are not accounted for in the index.
pub open spec fn swept(board: Seq<Seq<bool>>, n: nat) -> Seq<Seq<bool>>
    decreases n,
{
    if n == 0 {
        board
    } else {
        let before = swept(board, (n - 1) as nat);
        if row_complete(board[n - 1]) {
            before.remove(n - 1).push(empty_row())
        } else {
            before
        }
    }
}

/// The board after one sweep over all its rows.
pub open spec fn cleared(board: Seq<Seq<bool>>) -> Seq<Seq<bool>> {
    swept(board, board.len())
}

/// A piece with a cell on the floor collides, whatever the board holds.
pub proof fn lemma_floor_collides(board: Seq<Seq<bool>>, piece: Seq<Position>, i: int)
    requires
        0 <= i < piece.len(),
        piece[i].y == 0,
    ensures
        collides(board, piece),
{
    assert(cell_collides(board, piece[i]));
}

/// As long as no complete row was looked at, a sweep has changed nothing
/// and counted nothing.
proof fn lemma_swept_before(board: Seq<Seq<bool>>, n: nat)
    requires
        n <= board.len(),
        forall|r: int| 0 <= r < n ==> !row_complete(#[trigger] board[r]),
    ensures
        swept(board, n) == board,
        board.take(n as int).filter(|row: Seq<bool>| row_complete(row)).len() == 0,
    decreases n,
{
    let full = |row: Seq<bool>| row_complete(row);
    if n == 0 {
        assert(board.take(0).filter(full).len() == 0) by {
            board.take(0).lemma_filter_len(full);
        }
    } else {
        lemma_swept_before(board, (n - 1) as nat);
        assert(board.take(n as int) == board.take(n - 1).push(board[n - 1]));
        board.take(n - 1).lemma_filter_push(board[n - 1], full);
    }
}

/// Once the one complete row of a board was looked at, a sweep has taken it
/// out, added an empty row and counted one.
proof fn lemma_swept_after(board: Seq<Seq<bool>>, row: int, n: nat)
    requires
        0 <= row < n <= board.len(),
        forall|r: int| 0 <= r < board.len() ==> (row_complete(#[trigger] board[r]) <==> r == row),
    ensures
        swept(board, n) == board.remove(row).push(empty_row()),
        board.take(n as int).filter(|row: Seq<bool>| row_complete(row)).len() == 1,
    decreases n,
{
    let full = |row: Seq<bool>| row_complete(row);
    assert(board.take(n as int) == board.take(n - 1).push(board[n - 1]));
    board.take(n - 1).lemma_filter_push(board[n - 1], full);
    if n == row + 1 {
        lemma_swept_before(board, (n - 1) as nat);
    } else {
        lemma_swept_after(board, row, (n - 1) as nat);
    }
}

/// A sweep over a board without a complete row leaves the board as it is
/// and counts nothing.
pub proof fn lemma_sweep_of_drained(board: Seq<Seq<bool>>)
    requires
        drained(board),
    ensures
        cleared(board) == board,
        completed_rows(board) == 0,
{
    lemma_swept_before(board, board.len());
    assert(board.take(board.len() as int) == board);
}

/// A sweep over a board whose one complete row is `row` takes that row out,
/// so that the rows after it come one index down, adds an empty row after
/// the last and counts one. No complete row is left.
pub proof fn lemma_sweep_of_one(board: Seq<Seq<bool>>, row: int)
    requires
        well_shaped(board),
        0 <= row < board.len(),
        forall|r: int| 0 <= r < board.len() ==> (row_complete(#[trigger] board[r]) <==> r == row),
    ensures
        cleared(board) == board.remove(row).push(empty_row()),
        completed_rows(board) == 1,
        well_shaped(cleared(board)),
        drained(cleared(board)),
{
    lemma_swept_after(board, row, board.len());
    assert(board.take(board.len() as int) == board);
    let after = board.remove(row).push(empty_row());
    assert(!empty_row()[0]);
    assert forall|r: int| 0 <= r < after.len() implies !row_complete(#[trigger] after[r]) by {
        if r < row {
            assert(after[r] == board[r]);
        } else if r < after.len() - 1 {
            assert(after[r] == board[r + 1]);
        }
    }
}

/// Whether at most one row of `board` is complete.
pub open spec fn at_most_one_complete(board: Seq<Seq<bool>>) -> bool {
    forall|a: int, b: int|
        0 <= a < board.len() && 0 <= b < board.len() && row_complete(#[trigger] board[a])
            && row_complete(#[trigger] board[b]) ==> a == b
}

/// A sweep over a board with at most one complete row leaves no complete
/// row.
pub proof fn lemma_sweep_drains(board: Seq<Seq<bool>>)
    requires
        well_shaped(board),
        at_most_one_complete(board),
    ensures
        drained(cleared(board)),
{
    if drained(board) {
        lemma_sweep_of_drained(board);
    } else {
        let row = choose|r: int| 0 <= r < board.len() && row_complete(#[trigger] board[r]);
        lemma_sweep_of_one(board, row);
    }
}

/// Where a sweep has left no complete row, a second sweep right after it
/// changes nothing and counts nothing.
pub proof fn lemma_sweep_twice(board: Seq<Seq<bool>>)
    requires
        drained(cleared(board)),
    ensures
        cleared(cleared(board)) == cleared(board),
        completed_rows(cleared(board)) == 0,
{
    lemma_sweep_of_drained(cleared(board));
}

/// A sweep keeps the shape of the board, however far it has come.
proof fn lemma_swept_shape(board: Seq<Seq<bool>>, n: nat)
    requires
        well_shaped(board),
        n <= board.len(),
    ensures
        well_shaped(swept(board, n)),
    decreases n,
{
    if n > 0 {
        lemma_swept_shape(board, (n - 1) as nat);
        let before = swept(board, (n - 1) as nat);
        if row_complete(board[n - 1]) {
            let after = before.remove(n - 1).push(empty_row());
            assert forall|r: int| 0 <= r < after.len() implies (#[trigger] after[r]).len()
                == COLUMNS by {
                if r < n - 1 {
                    assert(after[r] == before[r]);
                } else if r < after.len() - 1 {
                    assert(after[r] == before[r + 1]);
                }
            }
        }
    }
}

/// A sweep keeps the shape of the board.
pub proof fn lemma_sweep_keeps_shape(board: Seq<Seq<bool>>)
    requires
        well_shaped(board),
    ensures
        well_shaped(cleared(board)),
{
    lemma_swept_shape(board, board.len());
}

/// A board has no more complete rows than rows.
pub proof fn lemma_completed_rows_bound(board: Seq<Seq<bool>>)
    ensures
        completed_rows(board) <= board.len(),
{
    board.lemma_filter_len(|row: Seq<bool>| row_complete(row));
}

/// Once a sweep has passed the second complete row of a board, that row
/// stands one index below its place.
proof fn lemma_swept_past_second(board: Seq<Seq<bool>>, first: int, second: int, n: nat)
    requires
        well_shaped(board),
        0 <= first < second < n <= board.len(),
        row_complete(board[first]),
        row_complete(board[second]),
        forall|r: int| 0 <= r < second && r != first ==> !row_complete(#[trigger] board[r]),
    ensures
        swept(board, n)[second - 1] == board[second],
    decreases n,
{
    lemma_swept_shape(board, (n - 1) as nat);
    let before = swept(board, (n - 1) as nat);
    if n == second + 1 {
        lemma_swept_between(board, first, second as nat);
        assert(before[second - 1] == board[second]);
    } else {
        lemma_swept_past_second(board, first, second, (n - 1) as nat);
    }
}

/// Between its first and its second complete row, a sweep has taken out the
/// first and nothing else.
proof fn lemma_swept_between(board: Seq<Seq<bool>>, first: int, n: nat)
    requires
        0 <= first < n <= board.len(),
        row_complete(board[first]),
        forall|r: int| 0 <= r < n && r != first ==> !row_complete(#[trigger] board[r]),
    ensures
        swept(board, n) == board.remove(first).push(empty_row()),
    decreases n,
{
    if n == first + 1 {
        lemma_swept_before(board, (n - 1) as nat);
    } else {
        lemma_swept_between(board, first, (n - 1) as nat);
    }
}

/// A sweep over a board with two or more complete rows leaves the second
/// of them on the board, one index below its place: the index at which a
/// row is taken out does not follow the rows that came down, so that the
/// row above the second complete row leaves in its stead.
pub proof fn lemma_sweep_leaves_second(board: Seq<Seq<bool>>, first: int, second: int)
    requires
        well_shaped(board),
        0 <= first < second < board.len(),
        row_complete(board[first]),
        row_complete(board[second]),
        forall|r: int| 0 <= r < second && r != first ==> !row_complete(#[trigger] board[r]),
    ensures
        cleared(board)[second - 1] == board[second],
        !drained(cleared(board)),
{
    lemma_swept_past_second(board, first, second, board.len());
    lemma_sweep_keeps_shape(board);
}

} // verus!
