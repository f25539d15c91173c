//! The state of a game as a mathematical value, and what each event makes
//! of it.

use vstd::prelude::*;
use crate::board::{
    at_most_one_complete, blocked, cleared, collides, completed_rows, drained, empty_board,
    lemma_sweep_drains, lemma_sweep_keeps_shape, lemma_sweep_twice, locked, well_shaped,
};
use crate::cell::{COLUMNS, Direction, Position};
use crate::piece::{
    descended, extreme_column, half_turn_drift, is_corner, lemma_extremes,
    lemma_half_turn_shifts, min_column, occupies, on_board, rotated, shifted, turnable,
};

verus! {

/// A key that the game or the menu reacts to. `Other` stands for every key
/// that neither reacts to.
#[derive(Clone, Copy, PartialEq, Eq, Structural, Debug)]
pub enum Key {
    Enter,
    Up,
    Down,
    Left,
    Right,
    D,
    Other,
}

/// What a cell of the board shows.
#[derive(Clone, Copy, PartialEq, Eq, Structural, Debug)]
pub enum Cell {
    /// Nothing.
    Empty,
    /// A cell that was locked into the board.
    Locked,
    /// A cell of the falling piece.
    Falling,
}

/// What a game holds: the board, the falling piece, the catalog of shapes,
/// the number of rows cleared so far and the diagnostic flag.
pub struct GameView {
    pub board: Seq<Seq<bool>>,
    pub piece: Seq<Position>,
    pub catalog: Seq<Seq<Position>>,
    pub score: nat,
    pub debug: bool,
}

impl GameView {
    /// The board has its ten rows of five cells and the catalog has a shape
    /// to draw.
    pub open spec fn wf(self) -> bool {
        well_shaped(self.board) && self.catalog.len() > 0
    }

    /// The game at its start: an empty board, `piece` falling, nothing
    /// cleared and the diagnostic flag off.
    pub open spec fn start(catalog: Seq<Seq<Position>>, piece: Seq<Position>) -> GameView {
        GameView { board: empty_board(), piece, catalog, score: 0, debug: false }
    }

    /// What the cell in column `x` and row `y` shows.
    pub open spec fn cell(self, x: int, y: int) -> Cell {
        if self.board[y][x] {
            Cell::Locked
        } else if occupies(self.piece, x, y) {
            Cell::Falling
        } else {
            Cell::Empty
        }
    }

    /// Whether the falling piece rests on the floor or on an occupied cell.
    pub open spec fn collides(self) -> bool {
        collides(self.board, self.piece)
    }

    /// The last column towards `direction`.
    pub open spec fn wall(direction: Direction) -> int {
        match direction {
            Direction::Right => 0,
            Direction::Left => COLUMNS - 1,
        }
    }

    /// Whether the piece is free to move by one column in `direction`: it
    /// does not reach the last column on that side and none of its cells has
    /// an occupied neighbour there.
    pub open spec fn can_move(self, direction: Direction) -> bool {
        extreme_column(self.piece, direction) != Self::wall(direction) && !blocked(
            self.board,
            self.piece,
            direction,
        )
    }

    /// The game after a request to move the piece in `direction`, which is
    /// ignored where the piece is not free to move.
    pub open spec fn moved(self, direction: Direction) -> GameView {
        if self.can_move(direction) {
            GameView { piece: shifted(self.piece, direction), ..self }
        } else {
            self
        }
    }

    /// The game after a quarter turn of the piece.
    pub open spec fn turned(self) -> GameView {
        GameView { piece: rotated(self.piece), ..self }
    }

    /// The game after the piece fell by one row.
    pub open spec fn fell(self) -> GameView {
        GameView { piece: descended(self.piece), ..self }
    }

    /// The game with the piece locked into the board.
    pub open spec fn landed(self) -> GameView {
        GameView { board: locked(self.board, self.piece), ..self }
    }

    /// The game with `piece` as its falling piece.
    pub open spec fn with_piece(self, piece: Seq<Position>) -> GameView {
        GameView { piece, ..self }
    }

    /// The game after one sweep over the rows of the board, each complete
    /// row counted in the score.
    pub open spec fn swept(self) -> GameView {
        GameView {
            board: cleared(self.board),
            score: self.score + completed_rows(self.board),
            ..self
        }
    }

    /// Whether the game can take `key`: moving sideways and falling need a
    /// piece on the board, moving sideways needs a piece with a cell, and
    /// turning needs a piece that can turn.
    pub open spec fn accepts(self, key: Option<Key>) -> bool {
        match key {
            Some(Key::Right) | Some(Key::Left) => self.piece.len() > 0 && on_board(self.piece),
            Some(Key::Up) => turnable(self.piece),
            Some(Key::Down) => on_board(self.piece),
            _ => true,
        }
    }

    /// The game after `key`, if any, was pressed.
    pub open spec fn pressed(self, key: Option<Key>) -> GameView {
        match key {
            Some(Key::D) => GameView { debug: !self.debug, ..self },
            Some(Key::Right) => self.moved(Direction::Right),
            Some(Key::Left) => self.moved(Direction::Left),
            Some(Key::Up) => self.turned(),
            Some(Key::Down) => if self.collides() {
                self
            } else {
                self.fell()
            },
            _ => self,
        }
    }
}

/// A request to move sideways never takes a piece off the board: no cell of
/// it leaves the five columns, and none changes its row.
pub proof fn lemma_moved_on_board(game: GameView, direction: Direction)
    requires
        on_board(game.piece),
    ensures
        on_board(game.moved(direction).piece),
{
    let piece = game.piece;
    let after = game.moved(direction).piece;
    if game.can_move(direction) && piece.len() > 0 {
        lemma_extremes(piece);
        assert forall|i: int| 0 <= i < after.len() implies (#[trigger] after[i]).on_board() by {
            assert(piece[i].on_board());
        }
    }
}

/// A piece with a cell in row 0 collides, whatever the board holds.
pub proof fn lemma_floor_collides(game: GameView, i: int)
    requires
        0 <= i < game.piece.len(),
        game.piece[i].y == 0,
    ensures
        game.collides(),
{
    crate::board::lemma_floor_collides(game.board, game.piece, i);
}

/// Where a sweep has left no complete row, a second sweep right after it
/// changes nothing: neither the board nor the score.
pub proof fn lemma_swept_twice(game: GameView)
    requires
        drained(game.swept().board),
    ensures
        game.swept().swept() == game.swept(),
{
    lemma_sweep_twice(game.board);
}

/// A sweep leaves no complete row if the board had at most one. (With two
/// or more it leaves the second: see `lemma_sweep_leaves_second`.)
pub proof fn lemma_swept_drains(game: GameView)
    requires
        game.wf(),
        at_most_one_complete(game.board),
    ensures
        game.swept().wf(),
        drained(game.swept().board),
{
    lemma_sweep_drains(game.board);
    lemma_sweep_keeps_shape(game.board);
}

/// Two quarter turns bring a piece back to its shape, moved up the columns
/// by `half_turn_drift`: by one column if the piece lies in a single row,
/// and by one more if it lies in a single column. The drift comes from the
/// frame, which each turn places anew at the lowest column and row of the
/// piece. A corner, a piece of three cells, is left out: it comes back as
/// the opposite corner (see `lemma_rotated_twice`).
pub proof fn lemma_turned_twice(game: GameView)
    requires
        turnable(game.piece),
        min_column(game.piece) + 1 < usize::MAX,
        !is_corner(game.piece),
    ensures
        0 <= half_turn_drift(game.piece) <= 2,
        game.turned().turned() == (GameView { piece: game.turned().turned().piece, ..game }),
        forall|x: int, y: int|
            occupies(game.turned().turned().piece, x, y) == occupies(
                game.piece,
                x - half_turn_drift(game.piece),
                y,
            ),
{
    lemma_half_turn_shifts(game.piece);
}

} // verus!
