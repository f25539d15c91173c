//! The game: the board, the falling piece and the moves that act on them.

use vstd::prelude::*;
use crate::board::{
    blocked, cell_blocked, cell_collides, completed_rows, empty_board, empty_row, grid, locked,
    row_complete, swept, well_shaped,
};
use crate::cell::{COLUMNS, ROWS};
pub use crate::cell::{Direction, Position};
use crate::model::{Cell, GameView, Key};
use crate::piece::{
    descended, extreme_column, lemma_extremes, lemma_occupies_push, lowered, max_column,
    min_column, min_row, occupies, on_board, rotated, shifted, stepped, turnable,
};
use crate::tshape::TShape;

verus! {

/// The number of rows cleared so far.
#[derive(Clone, Copy, PartialEq, Eq, Structural, Debug)]
pub struct Score {
    pub lines: u32,
}

/// How the game is shown: whether the piece glides between two falls, and
/// whether the board is drawn in three dimensions.
#[derive(Clone, Copy, PartialEq, Eq, Structural, Debug)]
pub struct Settings {
    pub smooth: bool,
    pub mode3d: bool,
}

/// The time between two falls of the piece, in milliseconds.
pub const FALL_INTERVAL_MILLIS: u64 = 500;

/// What a look at the clock led to.
#[derive(Clone, Copy, PartialEq, Eq, Structural, Debug)]
pub enum Tick {
    /// It was not yet time for the piece to fall.
    Waiting,
    /// The piece fell by one row.
    Fell,
    /// The piece fell, was locked into the board and was replaced.
    Locked,
}

/// A game in progress.
pub struct Game {
    lines: Vec<Vec<bool>>,
    shape: Vec<Position>,
    shapes: TShape,
    pub score: Score,
    debug: bool,
}

impl View for Game {
    type V = GameView;

    closed spec fn view(&self) -> GameView {
        GameView {
            board: grid(self.lines@),
            piece: self.shape@,
            catalog: self.shapes@,
            score: self.score.lines as nat,
            debug: self.debug,
        }
    }
}

impl Game {
    /// A new game on an empty board with a score of zero, whose first piece
    /// is drawn at random from `shapes`. There is no game without a shape to
    /// draw: on an empty catalog the result is `None`.
    pub fn new(shapes: TShape) -> (game: Option<Game>)
        ensures
            game is None <==> shapes@.len() == 0,
            game matches Some(g) ==> g@.wf() && exists|i: int|
                0 <= i < shapes@.len() && g@ == GameView::start(shapes@, #[trigger] shapes@[i]),
    {
        if shapes.is_empty() {
            None
        } else {
            let shape = shapes.rand_shape();
            Self::with_shape(shapes, shape)
        }
    }

    /// A new game on an empty board with a score of zero, with `shape` as
    /// its first piece. On an empty catalog the result is `None`.
    pub fn with_shape(shapes: TShape, shape: Vec<Position>) -> (game: Option<Game>)
        ensures
            game is None <==> shapes@.len() == 0,
            game matches Some(g) ==> g@ == GameView::start(shapes@, shape@) && g@.wf(),
    {
        if shapes.is_empty() {
            return None;
        }
        let mut lines: Vec<Vec<bool>> = Vec::new();
        let mut row: usize = 0;
        while row < ROWS
            invariant
                0 <= row <= ROWS,
                lines.len() == row,
                forall|r: int| 0 <= r < row ==> (#[trigger] lines[r])@ == empty_row(),
            decreases ROWS - row,
        {
            lines.push(empty_line());
            row += 1;
        }
        assert(grid(lines@) =~= empty_board());
        Some(Game { lines, shape, shapes, score: Score { lines: 0 }, debug: false })
    }

    /// The rows of the board, the floor first.
    pub fn lines(&self) -> (lines: &Vec<Vec<bool>>)
        ensures
            grid(lines@) == self@.board,
    {
        &self.lines
    }

    /// The cells of the falling piece.
    pub fn shape(&self) -> (shape: &Vec<Position>)
        ensures
            shape@ == self@.piece,
    {
        &self.shape
    }

    /// The catalog that the pieces are drawn from.
    pub fn shapes(&self) -> (shapes: &TShape)
        ensures
            shapes@ == self@.catalog,
    {
        &self.shapes
    }

    /// The number of rows cleared so far.
    pub fn lines_cleared(&self) -> (lines: u32)
        ensures
            lines == self@.score,
    {
        self.score.lines
    }

    /// Whether the diagnostic flag is set.
    pub fn debug(&self) -> (debug: bool)
        ensures
            debug == self@.debug,
    {
        self.debug
    }

    /// What the cell in column `x` and row `y` shows: a locked cell, a cell
    /// of the falling piece, or nothing. A locked cell hides the piece.
    pub fn cell(&self, x: usize, y: usize) -> (cell: Cell)
        requires
            self@.wf(),
            x < COLUMNS,
            y < ROWS,
        ensures
            cell == self@.cell(x as int, y as int),
    {
        assert(grid(self.lines@)[y as int] == self.lines[y as int]@);
        if self.lines[y][x] {
            return Cell::Locked;
        }
        let mut i: usize = 0;
        while i < self.shape.len()
            invariant
                0 <= i <= self.shape.len(),
                !grid(self.lines@)[y as int][x as int],
                forall|j: int|
                    0 <= j < i ==> !((#[trigger] self.shape[j]).x == x && self.shape[j].y == y),
            decreases self.shape.len() - i,
        {
            if self.shape[i].x == x && self.shape[i].y == y {
                assert(self.shape@[i as int].x == x);
                return Cell::Falling;
            }
            i += 1;
        }
        Cell::Empty
    }

    /// Whether every cell of the piece lies on the board.
    pub fn piece_on_board(&self) -> (b: bool)
        ensures
            b == on_board(self@.piece),
    {
        let mut i: usize = 0;
        while i < self.shape.len()
            invariant
                0 <= i <= self.shape.len(),
                forall|j: int| 0 <= j < i ==> (#[trigger] self.shape[j]).on_board(),
            decreases self.shape.len() - i,
        {
            if !self.shape[i].is_on_board() {
                return false;
            }
            i += 1;
        }
        true
    }

    /// Whether the piece is on the board once it fell by one row.
    pub fn can_fall(&self) -> (b: bool)
        ensures
            b == on_board(self@.fell().piece),
    {
        let mut i: usize = 0;
        while i < self.shape.len()
            invariant
                0 <= i <= self.shape.len(),
                forall|j: int| 0 <= j < i ==> lowered(#[trigger] self.shape[j]).on_board(),
            decreases self.shape.len() - i,
        {
            let position = self.shape[i];
            if position.x >= COLUMNS || position.y > ROWS {
                assert(!descended(self.shape@)[i as int].on_board());
                return false;
            }
            i += 1;
        }
        assert forall|j: int| 0 <= j < descended(self.shape@).len() implies (#[trigger] descended(
            self.shape@,
        )[j]).on_board() by {
            assert(lowered(self.shape[j]).on_board());
        }
        true
    }

    /// Whether the piece can turn.
    pub fn can_rotate(&self) -> (b: bool)
        ensures
            b == turnable(self@.piece),
    {
        if self.shape.len() == 0 {
            return false;
        }
        let x = self.get_corner_position(Direction::Right).x;
        let y = self.get_top_position().y;
        if x == usize::MAX || y == usize::MAX {
            return false;
        }
        let mut i: usize = 0;
        while i < self.shape.len()
            invariant
                0 <= i <= self.shape.len(),
                x == min_column(self.shape@),
                y == min_row(self.shape@),
                x < usize::MAX,
                y < usize::MAX,
                forall|j: int|
                    0 <= j < i ==> (#[trigger] self.shape[j]).x <= x + 1 && self.shape[j].y <= y
                        + 1,
            decreases self.shape.len() - i,
        {
            if self.shape[i].x > x + 1 || self.shape[i].y > y + 1 {
                return false;
            }
            i += 1;
        }
        true
    }

    /// Whether the game can take `key` as it stands.
    pub fn accepts(&self, key: Option<Key>) -> (b: bool)
        ensures
            b == self@.accepts(key),
    {
        match key {
            Some(Key::Right) | Some(Key::Left) => self.shape.len() > 0 && self.piece_on_board(),
            Some(Key::Up) => self.can_rotate(),
            Some(Key::Down) => self.piece_on_board(),
            _ => true,
        }
    }

    /// The first cell of the piece, in the order in which the piece holds
    /// its cells, that lies in its lowest row.
    pub fn get_top_position(&self) -> (top: Position)
        requires
            self@.piece.len() > 0,
        ensures
            top.y == min_row(self@.piece),
            exists|k: int|
                0 <= k < self@.piece.len() && self@.piece[k] == top && forall|j: int|
                    0 <= j < k ==> (#[trigger] self@.piece[j]).y != top.y,
    {
        let mut top = self.shape[0];
        let ghost mut k: int = 0;
        let mut i: usize = 1;
        while i < self.shape.len()
            invariant
                1 <= i <= self.shape.len(),
                0 <= k < i,
                self.shape[k] == top,
                forall|j: int| 0 <= j < i ==> (#[trigger] self.shape[j]).y >= top.y,
                forall|j: int| 0 <= j < k ==> (#[trigger] self.shape[j]).y > top.y,
            decreases self.shape.len() - i,
        {
            if top.y > self.shape[i].y {
                top = self.shape[i];
                proof {
                    k = i as int;
                }
            }
            i += 1;
        }
        proof {
            lemma_extremes(self.shape@);
        }
        top
    }

    /// The first cell of the piece, in the order in which the piece holds
    /// its cells, that lies in the column in which the piece reaches
    /// furthest in `direction`.
    pub fn get_corner_position(&self, direction: Direction) -> (corner: Position)
        requires
            self@.piece.len() > 0,
        ensures
            corner.x == extreme_column(self@.piece, direction),
            exists|k: int|
                0 <= k < self@.piece.len() && self@.piece[k] == corner && forall|j: int|
                    0 <= j < k ==> (#[trigger] self@.piece[j]).x != corner.x,
    {
        let mut corner = self.shape[0];
        let ghost mut k: int = 0;
        let mut i: usize = 1;
        while i < self.shape.len()
            invariant
                1 <= i <= self.shape.len(),
                0 <= k < i,
                self.shape[k] == corner,
                direction == Direction::Right ==> forall|j: int|
                    0 <= j < i ==> (#[trigger] self.shape[j]).x >= corner.x,
                direction == Direction::Right ==> forall|j: int|
                    0 <= j < k ==> (#[trigger] self.shape[j]).x > corner.x,
                direction == Direction::Left ==> forall|j: int|
                    0 <= j < i ==> (#[trigger] self.shape[j]).x <= corner.x,
                direction == Direction::Left ==> forall|j: int|
                    0 <= j < k ==> (#[trigger] self.shape[j]).x < corner.x,
            decreases self.shape.len() - i,
        {
            let position = self.shape[i];
            match direction {
                Direction::Right => {
                    if position.x < corner.x {
                        corner = position;
                        proof {
                            k = i as int;
                        }
                    }
                },
                Direction::Left => {
                    if position.x > corner.x {
                        corner = position;
                        proof {
                            k = i as int;
                        }
                    }
                },
            }
            i += 1;
        }
        proof {
            lemma_extremes(self.shape@);
        }
        corner
    }

    /// Turns the piece by a quarter inside its frame. The turned piece is
    /// not held to the board, nor off the occupied cells.
    pub fn rotate_shape(&mut self)
        requires
            turnable(old(self)@.piece),
        ensures
            final(self)@ == old(self)@.turned(),
    {
        let top = self.get_top_position();
        let left_corner = self.get_corner_position(Direction::Right);
        let x = left_corner.x;
        let y = top.y;
        let ghost piece = self.shape@;
        let mut c0r0 = false;
        let mut c1r0 = false;
        let mut c0r1 = false;
        let mut c1r1 = false;
        let mut i: usize = 0;
        while i < self.shape.len()
            invariant
                0 <= i <= self.shape.len(),
                self.shape@ == piece,
                turnable(piece),
                x == min_column(piece),
                y == min_row(piece),
                c0r0 == occupies(piece.take(i as int), x as int, y as int),
                c1r0 == occupies(piece.take(i as int), x + 1, y as int),
                c0r1 == occupies(piece.take(i as int), x as int, y + 1),
                c1r1 == occupies(piece.take(i as int), x + 1, y + 1),
            decreases self.shape.len() - i,
        {
            let position = self.shape[i];
            proof {
                lemma_extremes(piece);
                lemma_occupies_push(piece.take(i as int), position, x as int, y as int);
                lemma_occupies_push(piece.take(i as int), position, x + 1, y as int);
                lemma_occupies_push(piece.take(i as int), position, x as int, y + 1);
                lemma_occupies_push(piece.take(i as int), position, x + 1, y + 1);
                assert(piece.take(i + 1) == piece.take(i as int).push(position));
            }
            if position.y - y == 0 {
                if position.x - x == 0 {
                    c0r0 = true;
                } else {
                    c1r0 = true;
                }
            } else {
                if position.x - x == 0 {
                    c0r1 = true;
                } else {
                    c1r1 = true;
                }
            }
            i += 1;
        }
        assert(piece.take(i as int) == piece);
        let mut shape: Vec<Position> = Vec::new();
        if c0r1 {
            shape.push(Position { x, y });
        }
        if c0r0 {
            shape.push(Position { x: x + 1, y });
        }
        if c1r1 {
            shape.push(Position { x, y: y + 1 });
        }
        if c1r0 {
            shape.push(Position { x: x + 1, y: y + 1 });
        }
        assert(shape@ == rotated(piece));
        self.shape = shape;
    }

    /// Whether the piece rests on the floor or on an occupied cell, or lies
    /// on one. A piece with a cell in row 0 always does.
    pub fn is_collision(&self) -> (hit: bool)
        requires
            self@.wf(),
            on_board(self@.piece),
        ensures
            hit == self@.collides(),
            (exists|i: int| 0 <= i < self@.piece.len() && (#[trigger] self@.piece[i]).y == 0)
                ==> hit,
    {
        let mut i: usize = 0;
        while i < self.shape.len()
            invariant
                0 <= i <= self.shape.len(),
                well_shaped(grid(self.lines@)),
                on_board(self.shape@),
                forall|j: int| 0 <= j < i ==> !cell_collides(grid(self.lines@), #[trigger] self.shape[j]),
            decreases self.shape.len() - i,
        {
            let position = self.shape[i];
            assert(position.on_board());
            if position.y == 0 {
                return true;
            }
            assert(grid(self.lines@)[position.y - 1] == self.lines[position.y - 1]@);
            assert(grid(self.lines@)[position.y as int] == self.lines[position.y as int]@);
            if self.lines[position.y - 1][position.x] || self.lines[position.y][position.x] {
                return true;
            }
            i += 1;
        }
        false
    }

    /// Whether some cell of the piece has an occupied neighbour on the side
    /// of `direction`.
    pub fn shape_is_next_to_block(&self, direction: Direction) -> (hit: bool)
        requires
            self@.wf(),
            on_board(self@.piece),
        ensures
            hit == blocked(self@.board, self@.piece, direction),
    {
        let mut i: usize = 0;
        while i < self.shape.len()
            invariant
                0 <= i <= self.shape.len(),
                well_shaped(grid(self.lines@)),
                on_board(self.shape@),
                forall|j: int|
                    0 <= j < i ==> !cell_blocked(
                        grid(self.lines@),
                        #[trigger] self.shape[j],
                        direction,
                    ),
            decreases self.shape.len() - i,
        {
            let position = self.shape[i];
            assert(position.on_board());
            assert(grid(self.lines@)[position.y as int] == self.lines[position.y as int]@);
            match direction {
                Direction::Right => {
                    if position.x > 0 {
                        if self.lines[position.y][position.x - 1] {
                            return true;
                        }
                    }
                },
                Direction::Left => {
                    if position.x < COLUMNS - 1 {
                        if self.lines[position.y][position.x + 1] {
                            return true;
                        }
                    }
                },
            }
            i += 1;
        }
        false
    }

    /// Lets the piece fall by one row; a cell on the floor stays.
    pub fn move_down(&mut self)
        ensures
            final(self)@ == old(self)@.fell(),
    {
        let ghost piece = self.shape@;
        let mut index: usize = 0;
        while index < self.shape.len()
            invariant
                0 <= index <= self.shape.len(),
                self.shape.len() == piece.len(),
                self.lines == old(self).lines,
                self.shapes == old(self).shapes,
                self.score == old(self).score,
                self.debug == old(self).debug,
                forall|j: int| 0 <= j < index ==> self.shape[j] == lowered(#[trigger] piece[j]),
                forall|j: int| index <= j < piece.len() ==> self.shape[j] == #[trigger] piece[j],
            decreases self.shape.len() - index,
        {
            let position = self.shape[index];
            if position.y > 0 {
                self.shape[index] = Position { x: position.x, y: position.y - 1 };
            }
            index += 1;
        }
        assert(self.shape@ == descended(piece));
    }

    /// Moves the piece by one column in `direction`, unless it reaches the
    /// last column on that side or a cell of it has an occupied neighbour
    /// there. The piece stays on the board.
    pub fn move_horizontal(&mut self, direction: Direction)
        requires
            old(self)@.wf(),
            old(self)@.piece.len() > 0,
            on_board(old(self)@.piece),
        ensures
            final(self)@ == old(self)@.moved(direction),
            on_board(final(self)@.piece),
    {
        let wall: usize = match direction {
            Direction::Right => 0,
            Direction::Left => COLUMNS - 1,
        };
        if self.get_corner_position(direction).x != wall && !self.shape_is_next_to_block(
            direction,
        ) {
            let ghost piece = self.shape@;
            proof {
                lemma_extremes(piece);
            }
            let mut index: usize = 0;
            while index < self.shape.len()
                invariant
                    0 <= index <= self.shape.len(),
                    self.shape.len() == piece.len(),
                    self.lines == old(self).lines,
                    self.shapes == old(self).shapes,
                    self.score == old(self).score,
                    self.debug == old(self).debug,
                    on_board(piece),
                    direction == Direction::Right ==> min_column(piece) > 0,
                    direction == Direction::Left ==> max_column(piece) < COLUMNS - 1,
                    forall|j: int|
                        0 <= j < piece.len() ==> min_column(piece) <= (#[trigger] piece[j]).x
                            <= max_column(piece),
                    forall|j: int|
                        0 <= j < index ==> self.shape[j] == stepped(#[trigger] piece[j], direction),
                    forall|j: int|
                        index <= j < piece.len() ==> self.shape[j] == #[trigger] piece[j],
                decreases self.shape.len() - index,
            {
                let position = self.shape[index];
                assert(position == piece[index as int]);
                assert(position.on_board());
                match direction {
                    Direction::Right => {
                        self.shape[index] = Position { x: position.x - 1, y: position.y };
                    },
                    Direction::Left => {
                        self.shape[index] = Position { x: position.x + 1, y: position.y };
                    },
                }
                index += 1;
            }
            assert(self.shape@ == shifted(piece, direction));
            assert forall|j: int| 0 <= j < self.shape@.len() implies (
            #[trigger] self.shape@[j]).on_board() by {
                assert(piece[j].on_board());
            }
        }
    }

    /// Reacts to the key pressed in this frame, if any: `D` flips the
    /// diagnostic flag, `Right` and `Left` ask for a move sideways, `Up`
    /// turns the piece, and `Down` lets it fall by one row unless it
    /// collides already. Any other key changes nothing.
    pub fn handle_input(&mut self, key: Option<Key>)
        requires
            old(self)@.wf(),
            old(self)@.accepts(key),
        ensures
            final(self)@ == old(self)@.pressed(key),
            final(self)@.wf(),
    {
        match key {
            Some(Key::D) => {
                self.debug = !self.debug;
            },
            Some(Key::Right) => {
                self.move_horizontal(Direction::Right);
            },
            Some(Key::Left) => {
                self.move_horizontal(Direction::Left);
            },
            Some(Key::Up) => {
                self.rotate_shape();
            },
            Some(Key::Down) => {
                if !self.is_collision() {
                    self.move_down();
                }
            },
            _ => {},
        }
    }

    /// Locks the piece: every cell of it becomes occupied on the board.
    pub fn lock_shape(&mut self)
        requires
            old(self)@.wf(),
            on_board(old(self)@.piece),
        ensures
            final(self)@ == old(self)@.landed(),
            final(self)@.wf(),
    {
        let ghost board = grid(self.lines@);
        assert(board =~= locked(board, self.shape@.take(0))) by {
            assert forall|r: int| 0 <= r < board.len() implies board[r] =~= locked(
                board,
                self.shape@.take(0),
            )[r] by {}
        }
        let mut i: usize = 0;
        while i < self.shape.len()
            invariant
                0 <= i <= self.shape.len(),
                self.shape == old(self).shape,
                self.shapes == old(self).shapes,
                self.score == old(self).score,
                self.debug == old(self).debug,
                well_shaped(board),
                well_shaped(grid(self.lines@)),
                on_board(self.shape@),
                grid(self.lines@) == locked(board, self.shape@.take(i as int)),
            decreases self.shape.len() - i,
        {
            let position = self.shape[i];
            assert(position.on_board());
            let ghost before = grid(self.lines@);
            assert(before[position.y as int] == self.lines[position.y as int]@);
            self.lines[position.y][position.x] = true;
            proof {
                let piece = self.shape@;
                assert(piece.take(i + 1) == piece.take(i as int).push(position));
                let after = grid(self.lines@);
                let goal = locked(board, piece.take(i + 1));
                assert(after.len() == goal.len());
                assert forall|r: int| 0 <= r < after.len() implies after[r] =~= goal[r] by {
                    assert(before[r] == locked(board, piece.take(i as int))[r]);
                    assert forall|c: int| 0 <= c < after[r].len() implies after[r][c]
                        == goal[r][c] by {
                        lemma_occupies_push(piece.take(i as int), position, c, r);
                    }
                }
                assert(after =~= goal);
            }
            i += 1;
        }
        assert(self.shape@.take(i as int) == self.shape@);
    }

    /// Makes `shape` the falling piece, as it is: the cells are taken for
    /// places on the board.
    pub fn spawn(&mut self, shape: Vec<Position>)
        ensures
            final(self)@ == old(self)@.with_piece(shape@),
    {
        self.shape = shape;
    }

    /// Whether every cell of `line` is occupied.
    pub fn is_valid_point(&self, line: &Vec<bool>) -> (full: bool)
        ensures
            full == row_complete(line@),
    {
        let mut i: usize = 0;
        while i < line.len()
            invariant
                0 <= i <= line.len(),
                forall|c: int| 0 <= c < i ==> line[c],
            decreases line.len() - i,
        {
            if !line[i] {
                return false;
            }
            i += 1;
        }
        true
    }

    /// Sweeps the board once for complete rows and counts each in the
    /// score. The rows are judged as they stand before the sweep. For each
    /// complete one, the row then found at its index leaves the board and an
    /// empty row is added after the last.
    pub fn update_lines(&mut self)
        requires
            old(self)@.wf(),
            old(self)@.score + completed_rows(old(self)@.board) <= u32::MAX,
        ensures
            final(self)@ == old(self)@.swept(),
            final(self)@.wf(),
    {
        let ghost board = grid(self.lines@);
        let ghost full = |row: Seq<bool>| row_complete(row);
        let mut complete: Vec<bool> = Vec::new();
        let mut row: usize = 0;
        while row < ROWS
            invariant
                0 <= row <= ROWS,
                *self == *old(self),
                board == grid(self.lines@),
                well_shaped(board),
                complete.len() == row,
                forall|r: int| 0 <= r < row ==> complete[r] == row_complete(#[trigger] board[r]),
            decreases ROWS - row,
        {
            assert(board[row as int] == self.lines[row as int]@);
            let full = self.is_valid_point(&self.lines[row]);
            complete.push(full);
            row += 1;
        }
        let mut index: usize = 0;
        while index < ROWS
            invariant
                0 <= index <= ROWS,
                self.shape == old(self).shape,
                self.shapes == old(self).shapes,
                self.debug == old(self).debug,
                board == grid(old(self).lines@),
                full == |row: Seq<bool>| row_complete(row),
                well_shaped(board),
                complete.len() == ROWS,
                forall|r: int| 0 <= r < ROWS ==> complete[r] == row_complete(#[trigger] board[r]),
                grid(self.lines@) == swept(board, index as nat),
                well_shaped(grid(self.lines@)),
                self.score.lines == old(self).score.lines + board.take(index as int).filter(
                    full,
                ).len(),
                old(self).score.lines + board.filter(full).len() <= u32::MAX,
            decreases ROWS - index,
        {
            proof {
                assert(board.take(index + 1) == board.take(index as int).push(board[index as int]));
                board.take(index as int).lemma_filter_push(board[index as int], full);
                board.lemma_filter_take_len(full, index + 1);
            }
            if complete[index] {
                let ghost before = self.lines@;
                self.lines.remove(index);
                self.lines.push(empty_line());
                self.score.lines += 1;
                assert(grid(self.lines@) =~= grid(before).remove(index as int).push(empty_row()));
            }
            index += 1;
        }
        assert(board.take(index as int) == board);
    }

    /// Lets time act on the game. Before `FALL_INTERVAL_MILLIS` have passed
    /// since the last fall, nothing happens. From then on the piece falls
    /// by one row; if it then collides, it is locked into the board and a
    /// shape drawn at random from the catalog takes its place.
    pub fn update_position(&mut self, elapsed_millis: u64) -> (tick: Tick)
        requires
            old(self)@.wf(),
            elapsed_millis >= FALL_INTERVAL_MILLIS ==> on_board(old(self)@.fell().piece),
        ensures
            final(self)@.wf(),
            elapsed_millis < FALL_INTERVAL_MILLIS ==> tick == Tick::Waiting && final(self)@ == old(
                self,
            )@,
            elapsed_millis >= FALL_INTERVAL_MILLIS && !old(self)@.fell().collides() ==> tick
                == Tick::Fell && final(self)@ == old(self)@.fell(),
            elapsed_millis >= FALL_INTERVAL_MILLIS && old(self)@.fell().collides() ==> tick
                == Tick::Locked && exists|i: int|
                0 <= i < old(self)@.catalog.len() && final(self)@ == old(
                    self,
                )@.fell().landed().with_piece(#[trigger] old(self)@.catalog[i]),
    {
        if elapsed_millis >= FALL_INTERVAL_MILLIS {
            if self.fall() {
                let next = self.shapes.rand_shape();
                self.spawn(next);
                Tick::Locked
            } else {
                Tick::Fell
            }
        } else {
            Tick::Waiting
        }
    }

    /// Lets the piece fall by one row and, if it then collides, locks it
    /// into the board. Tells whether it was locked; the locked piece stays
    /// the falling piece until another is spawned. The piece has to be on
    /// the board once it fell; before, it may reach one row above the
    /// board.
    pub fn fall(&mut self) -> (locked: bool)
        requires
            old(self)@.wf(),
            on_board(old(self)@.fell().piece),
        ensures
            locked == old(self)@.fell().collides(),
            final(self)@ == if locked {
                old(self)@.fell().landed()
            } else {
                old(self)@.fell()
            },
            final(self)@.wf(),
            on_board(final(self)@.piece),
    {
        self.move_down();
        if self.is_collision() {
            self.lock_shape();
            true
        } else {
            false
        }
    }
}

/// A row of the board with no cell occupied.
fn empty_line() -> (line: Vec<bool>)
    ensures
        line@ == empty_row(),
{
    let mut line: Vec<bool> = Vec::new();
    let mut column: usize = 0;
    while column < COLUMNS
        invariant
            0 <= column <= COLUMNS,
            line.len() == column,
            forall|c: int| 0 <= c < column ==> !line[c],
        decreases COLUMNS - column,
    {
        line.push(false);
        column += 1;
    }
    assert(line@ =~= empty_row());
    line
}

} // verus!
