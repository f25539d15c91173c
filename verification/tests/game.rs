use tetris::game::FALL_INTERVAL_MILLIS;
use tetris::{Cell, Direction, Game, Key, Position, TShape, Tick};

fn cell(x: usize, y: usize) -> Position {
    Position { x, y }
}

fn catalog() -> TShape {
    TShape::load("0-0 1-0 0-1 1-1\n2-0 3-0 2-1 3-1").unwrap()
}

/// A game whose board holds `locked` and whose piece is `piece`.
fn game_with(locked: &[Position], piece: &[Position]) -> Game {
    let mut game = Game::with_shape(catalog(), locked.to_vec()).unwrap();
    game.lock_shape();
    game.spawn(piece.to_vec());
    game
}

fn full_row(y: usize) -> Vec<Position> {
    (0..5).map(|x| cell(x, y)).collect()
}

fn row(flags: [u8; 5]) -> Vec<bool> {
    flags.iter().map(|&f| f != 0).collect()
}

fn empty_rows() -> Vec<Vec<bool>> {
    vec![vec![false; 5]; 10]
}

#[test]
fn new_game_is_empty_and_draws_from_catalog() {
    let game = Game::new(catalog()).unwrap();
    assert_eq!(game.lines(), &empty_rows());
    assert_eq!(game.score.lines, 0);
    assert_eq!(game.lines_cleared(), 0);
    assert!(!game.debug());
    assert_eq!(game.shapes().len(), 2);
    let first = catalog().shape(0);
    let second = catalog().shape(1);
    assert!(game.shape() == &first || game.shape() == &second);
}

#[test]
fn no_game_on_empty_catalog() {
    assert!(Game::new(TShape::load("").unwrap()).is_none());
    assert!(Game::with_shape(TShape::load("").unwrap(), vec![cell(0, 0)]).is_none());
}

#[test]
fn with_shape_takes_the_shape_as_it_is() {
    let game = Game::with_shape(catalog(), vec![cell(4, 9), cell(3, 9)]).unwrap();
    assert_eq!(game.shape(), &vec![cell(4, 9), cell(3, 9)]);
    assert_eq!(game.lines(), &empty_rows());
}

#[test]
fn collision_on_the_floor_whatever_the_board() {
    let on_empty = game_with(&[], &[cell(2, 0), cell(2, 1)]);
    assert!(on_empty.is_collision());
    let on_full = game_with(&full_row(5), &[cell(2, 3), cell(2, 0)]);
    assert!(on_full.is_collision());
}

#[test]
fn collision_on_occupied_cell_below() {
    let game = game_with(&[cell(2, 3)], &[cell(2, 4), cell(3, 4)]);
    assert!(game.is_collision());
}

#[test]
fn collision_on_own_place_occupied() {
    let game = game_with(&[cell(2, 4)], &[cell(2, 4)]);
    assert!(game.is_collision());
}

#[test]
fn no_collision_in_free_fall() {
    let game = game_with(&[cell(0, 0), cell(4, 3)], &[cell(2, 1), cell(3, 1), cell(2, 2)]);
    assert!(!game.is_collision());
}

#[test]
fn no_collision_without_cells() {
    let game = game_with(&full_row(0), &[]);
    assert!(!game.is_collision());
}

#[test]
fn lock_marks_the_cells_of_the_piece() {
    let mut game = game_with(&[cell(0, 0)], &[cell(1, 0), cell(1, 1), cell(4, 9)]);
    game.lock_shape();
    let mut expected = empty_rows();
    expected[0] = row([1, 1, 0, 0, 0]);
    expected[1] = row([0, 1, 0, 0, 0]);
    expected[9] = row([0, 0, 0, 0, 1]);
    assert_eq!(game.lines(), &expected);
    assert_eq!(game.shape(), &vec![cell(1, 0), cell(1, 1), cell(4, 9)]);
}

#[test]
fn sweep_takes_out_the_full_row_three() {
    let mut game = game_with(&full_row(3), &[cell(0, 9)]);
    assert_eq!(game.lines()[3], row([1, 1, 1, 1, 1]));
    game.update_lines();
    assert_eq!(game.lines(), &empty_rows());
    assert_eq!(game.lines().len(), 10);
    assert_eq!(game.lines()[9], row([0, 0, 0, 0, 0]));
    assert_eq!(game.score.lines, 1);
    assert_eq!(game.shape(), &vec![cell(0, 9)]);
}

#[test]
fn sweep_brings_the_rows_above_down() {
    let mut locked = full_row(3);
    locked.extend([cell(0, 2), cell(1, 4), cell(2, 5), cell(4, 9)]);
    let mut game = game_with(&locked, &[]);
    game.update_lines();
    let mut expected = empty_rows();
    expected[2] = row([1, 0, 0, 0, 0]);
    expected[3] = row([0, 1, 0, 0, 0]);
    expected[4] = row([0, 0, 1, 0, 0]);
    expected[8] = row([0, 0, 0, 0, 1]);
    assert_eq!(game.lines(), &expected);
    assert_eq!(game.score.lines, 1);
}

#[test]
fn sweep_without_full_row_changes_nothing() {
    let locked = [cell(0, 0), cell(1, 0), cell(2, 0), cell(3, 0), cell(4, 1)];
    let mut game = game_with(&locked, &[cell(2, 5)]);
    let before = game.lines().clone();
    game.update_lines();
    assert_eq!(game.lines(), &before);
    assert_eq!(game.score.lines, 0);
}

#[test]
fn second_sweep_after_a_draining_one_changes_nothing() {
    let mut locked = full_row(0);
    locked.extend([cell(1, 1), cell(3, 2)]);
    let mut game = game_with(&locked, &[]);
    game.update_lines();
    let after_first = game.lines().clone();
    assert_eq!(game.score.lines, 1);
    game.update_lines();
    assert_eq!(game.lines(), &after_first);
    assert_eq!(game.score.lines, 1);
}

#[test]
fn sweep_of_the_last_row() {
    let mut locked = full_row(9);
    locked.push(cell(2, 8));
    let mut game = game_with(&locked, &[]);
    game.update_lines();
    let mut expected = empty_rows();
    expected[8] = row([0, 0, 1, 0, 0]);
    assert_eq!(game.lines(), &expected);
    assert_eq!(game.score.lines, 1);
}

#[test]
fn sweep_with_two_full_rows_leaves_the_second() {
    let mut locked = full_row(0);
    locked.extend(full_row(1));
    locked.extend([cell(0, 2), cell(4, 3)]);
    let mut game = game_with(&locked, &[]);
    game.update_lines();
    // row 0 leaves; then the row found at index 1, which was row 2, leaves
    let mut expected = empty_rows();
    expected[0] = row([1, 1, 1, 1, 1]);
    expected[1] = row([0, 0, 0, 0, 1]);
    assert_eq!(game.lines(), &expected);
    assert_eq!(game.score.lines, 2);
    // the row that stayed is taken out by the next sweep
    game.update_lines();
    let mut expected = empty_rows();
    expected[0] = row([0, 0, 0, 0, 1]);
    assert_eq!(game.lines(), &expected);
    assert_eq!(game.score.lines, 3);
}

#[test]
fn sweep_counts_every_full_row() {
    let mut locked = Vec::new();
    for y in 0..10 {
        locked.extend(full_row(y));
    }
    let mut game = game_with(&locked, &[]);
    game.update_lines();
    assert_eq!(game.score.lines, 10);
    // the rows at odd indices stayed and came down
    let mut expected = empty_rows();
    for y in 0..5 {
        expected[y] = row([1, 1, 1, 1, 1]);
    }
    assert_eq!(game.lines(), &expected);
}

#[test]
fn is_valid_point_wants_every_cell() {
    let game = game_with(&[], &[]);
    assert!(game.is_valid_point(&row([1, 1, 1, 1, 1])));
    assert!(!game.is_valid_point(&row([1, 1, 1, 1, 0])));
    assert!(!game.is_valid_point(&row([0, 1, 1, 1, 1])));
    assert!(!game.is_valid_point(&row([0, 0, 0, 0, 0])));
    assert!(game.is_valid_point(&vec![]));
}

#[test]
fn move_down_stops_at_the_floor() {
    let mut game = game_with(&[], &[cell(1, 0), cell(1, 1), cell(2, 9)]);
    game.move_down();
    assert_eq!(game.shape(), &vec![cell(1, 0), cell(1, 0), cell(2, 8)]);
}

#[test]
fn right_leads_to_column_zero() {
    let mut game = game_with(&[], &[cell(1, 4), cell(2, 4)]);
    game.move_horizontal(Direction::Right);
    assert_eq!(game.shape(), &vec![cell(0, 4), cell(1, 4)]);
    game.move_horizontal(Direction::Right);
    assert_eq!(game.shape(), &vec![cell(0, 4), cell(1, 4)]);
}

#[test]
fn left_leads_to_column_four() {
    let mut game = game_with(&[], &[cell(2, 4), cell(3, 5)]);
    game.move_horizontal(Direction::Left);
    assert_eq!(game.shape(), &vec![cell(3, 4), cell(4, 5)]);
    game.move_horizontal(Direction::Left);
    assert_eq!(game.shape(), &vec![cell(3, 4), cell(4, 5)]);
}

#[test]
fn move_is_refused_next_to_a_block() {
    let mut game = game_with(&[cell(0, 4), cell(4, 5)], &[cell(1, 4), cell(2, 4), cell(2, 5)]);
    game.move_horizontal(Direction::Right);
    assert_eq!(game.shape(), &vec![cell(1, 4), cell(2, 4), cell(2, 5)]);
    game.move_horizontal(Direction::Left);
    assert_eq!(game.shape(), &vec![cell(2, 4), cell(3, 4), cell(3, 5)]);
    game.move_horizontal(Direction::Left);
    assert_eq!(game.shape(), &vec![cell(2, 4), cell(3, 4), cell(3, 5)]);
}

#[test]
fn moves_keep_the_piece_on_the_board() {
    for direction in [Direction::Left, Direction::Right] {
        let mut game = game_with(&[cell(2, 2)], &[cell(2, 9), cell(3, 9), cell(2, 8)]);
        for _ in 0..12 {
            game.move_horizontal(direction);
            assert!(game.piece_on_board());
            for position in game.shape() {
                assert!(position.x <= 4 && position.y <= 9);
            }
        }
    }
}

#[test]
fn shape_is_next_to_block_looks_one_column_over() {
    let game = game_with(&[cell(0, 3), cell(4, 6)], &[cell(1, 3), cell(3, 6)]);
    assert!(game.shape_is_next_to_block(Direction::Right));
    assert!(game.shape_is_next_to_block(Direction::Left));
    let free = game_with(&[cell(0, 3), cell(4, 6)], &[cell(2, 3), cell(2, 6), cell(0, 9), cell(4, 9)]);
    assert!(!free.shape_is_next_to_block(Direction::Right));
    assert!(!free.shape_is_next_to_block(Direction::Left));
}

#[test]
fn corner_is_the_first_cell_of_the_extreme_column() {
    let game = game_with(&[], &[cell(2, 5), cell(1, 6), cell(3, 5), cell(1, 5), cell(3, 6)]);
    assert_eq!(game.get_corner_position(Direction::Right), cell(1, 6));
    assert_eq!(game.get_corner_position(Direction::Left), cell(3, 5));
}

#[test]
fn top_is_the_first_cell_of_the_lowest_row() {
    let game = game_with(&[], &[cell(2, 5), cell(1, 4), cell(3, 4), cell(1, 5)]);
    assert_eq!(game.get_top_position(), cell(1, 4));
}

#[test]
fn rotate_turns_a_domino() {
    let mut game = game_with(&[], &[cell(1, 5), cell(2, 5)]);
    game.rotate_shape();
    assert_eq!(game.shape(), &vec![cell(2, 5), cell(2, 6)]);
    game.rotate_shape();
    assert_eq!(game.shape(), &vec![cell(2, 5), cell(3, 5)]);
}

#[test]
fn rotate_keeps_a_square() {
    let square = vec![cell(0, 0), cell(1, 0), cell(0, 1), cell(1, 1)];
    let mut game = game_with(&[], &square);
    game.rotate_shape();
    assert_eq!(game.shape(), &square);
    game.rotate_shape();
    assert_eq!(game.shape(), &square);
}

#[test]
fn rotate_moves_a_single_cell_up_the_columns() {
    let mut game = game_with(&[], &[cell(2, 3)]);
    game.rotate_shape();
    assert_eq!(game.shape(), &vec![cell(3, 3)]);
    game.rotate_shape();
    assert_eq!(game.shape(), &vec![cell(4, 3)]);
}

#[test]
fn rotate_twice_turns_a_corner_into_the_opposite_corner() {
    let mut game = game_with(&[], &[cell(0, 0), cell(1, 0), cell(0, 1)]);
    game.rotate_shape();
    assert_eq!(game.shape(), &vec![cell(0, 0), cell(1, 0), cell(1, 1)]);
    game.rotate_shape();
    assert_eq!(game.shape(), &vec![cell(1, 0), cell(0, 1), cell(1, 1)]);
}

#[test]
fn rotate_twice_keeps_a_diagonal() {
    let mut game = game_with(&[], &[cell(1, 1), cell(2, 2)]);
    game.rotate_shape();
    assert_eq!(game.shape(), &vec![cell(2, 1), cell(1, 2)]);
    game.rotate_shape();
    assert_eq!(game.shape(), &vec![cell(1, 1), cell(2, 2)]);
}

#[test]
fn rotate_drops_cells_that_lie_twice() {
    let mut game = game_with(&[], &[cell(1, 1), cell(1, 1), cell(1, 2)]);
    game.rotate_shape();
    assert_eq!(game.shape(), &vec![cell(1, 1), cell(2, 1)]);
}

#[test]
fn rotate_may_leave_the_board_and_enter_locked_cells() {
    let mut game = game_with(&[cell(4, 6)], &[cell(4, 5), cell(4, 6)]);
    game.rotate_shape();
    assert_eq!(game.shape(), &vec![cell(4, 5), cell(5, 5)]);
    assert!(!game.piece_on_board());
    let mut high = game_with(&[], &[cell(0, 9), cell(1, 9)]);
    high.rotate_shape();
    assert_eq!(high.shape(), &vec![cell(1, 9), cell(1, 10)]);
    assert!(!high.piece_on_board());
    assert!(!high.accepts(Some(Key::Down)));
    assert!(!high.accepts(Some(Key::Left)));
    assert!(high.accepts(Some(Key::Up)));
}

#[test]
fn can_rotate_wants_a_piece_within_two_by_two() {
    assert!(game_with(&[], &[cell(3, 3), cell(4, 4)]).can_rotate());
    assert!(!game_with(&[], &[]).can_rotate());
    assert!(!game_with(&[], &[cell(0, 0), cell(1, 0), cell(2, 0)]).can_rotate());
    assert!(!game_with(&[], &[cell(0, 0), cell(0, 2)]).can_rotate());
    assert!(!game_with(&[], &[cell(usize::MAX, 0)]).can_rotate());
    assert!(!game_with(&[], &[cell(0, usize::MAX)]).can_rotate());
    assert!(game_with(&[], &[cell(usize::MAX - 1, usize::MAX - 1)]).can_rotate());
}

#[test]
fn accepts_tells_what_each_key_needs() {
    let empty = game_with(&[], &[]);
    assert!(!empty.accepts(Some(Key::Left)));
    assert!(!empty.accepts(Some(Key::Right)));
    assert!(!empty.accepts(Some(Key::Up)));
    assert!(empty.accepts(Some(Key::Down)));
    assert!(empty.accepts(Some(Key::D)));
    assert!(empty.accepts(Some(Key::Enter)));
    assert!(empty.accepts(Some(Key::Other)));
    assert!(empty.accepts(None));
    let long = game_with(&[], &[cell(0, 5), cell(1, 5), cell(2, 5), cell(3, 5)]);
    assert!(long.accepts(Some(Key::Left)));
    assert!(long.accepts(Some(Key::Down)));
    assert!(!long.accepts(Some(Key::Up)));
    let off = game_with(&[], &[cell(5, 5)]);
    assert!(!off.accepts(Some(Key::Left)));
    assert!(!off.accepts(Some(Key::Down)));
    assert!(off.accepts(Some(Key::Up)));
}

#[test]
fn handle_input_maps_the_keys() {
    let piece = [cell(1, 5), cell(2, 5)];
    let mut game = game_with(&[], &piece);
    game.handle_input(None);
    assert_eq!(game.shape(), &piece.to_vec());
    game.handle_input(Some(Key::Other));
    game.handle_input(Some(Key::Enter));
    assert_eq!(game.shape(), &piece.to_vec());
    assert!(!game.debug());
    game.handle_input(Some(Key::D));
    assert!(game.debug());
    assert_eq!(game.shape(), &piece.to_vec());
    game.handle_input(Some(Key::D));
    assert!(!game.debug());
    game.handle_input(Some(Key::Right));
    assert_eq!(game.shape(), &vec![cell(0, 5), cell(1, 5)]);
    game.handle_input(Some(Key::Left));
    game.handle_input(Some(Key::Left));
    assert_eq!(game.shape(), &vec![cell(2, 5), cell(3, 5)]);
    game.handle_input(Some(Key::Down));
    assert_eq!(game.shape(), &vec![cell(2, 4), cell(3, 4)]);
    game.handle_input(Some(Key::Up));
    assert_eq!(game.shape(), &vec![cell(3, 4), cell(3, 5)]);
    assert_eq!(game.lines(), &empty_rows());
    assert_eq!(game.score.lines, 0);
}

#[test]
fn down_key_is_ignored_in_collision() {
    let mut game = game_with(&[cell(2, 3)], &[cell(2, 4)]);
    game.handle_input(Some(Key::Down));
    assert_eq!(game.shape(), &vec![cell(2, 4)]);
    let mut floor = game_with(&[], &[cell(2, 0), cell(2, 1)]);
    floor.handle_input(Some(Key::Down));
    assert_eq!(floor.shape(), &vec![cell(2, 0), cell(2, 1)]);
}

#[test]
fn fall_interval_is_half_a_second() {
    assert_eq!(FALL_INTERVAL_MILLIS, 500);
}

#[test]
fn update_position_waits_for_the_interval() {
    let mut game = game_with(&[], &[cell(2, 5)]);
    assert_eq!(game.update_position(0), Tick::Waiting);
    assert_eq!(game.update_position(499), Tick::Waiting);
    assert_eq!(game.shape(), &vec![cell(2, 5)]);
    assert_eq!(game.update_position(500), Tick::Fell);
    assert_eq!(game.shape(), &vec![cell(2, 4)]);
    assert_eq!(game.update_position(u64::MAX), Tick::Fell);
    assert_eq!(game.shape(), &vec![cell(2, 3)]);
}

#[test]
fn update_position_locks_and_respawns_on_collision() {
    let mut game = game_with(&[], &[cell(2, 1), cell(3, 1)]);
    assert_eq!(game.update_position(500), Tick::Locked);
    let mut expected = empty_rows();
    expected[0] = row([0, 0, 1, 1, 0]);
    assert_eq!(game.lines(), &expected);
    let first = catalog().shape(0);
    let second = catalog().shape(1);
    assert!(game.shape() == &first || game.shape() == &second);
    assert_eq!(game.score.lines, 0);
}

#[test]
fn fall_tells_whether_the_piece_was_locked() {
    let mut game = game_with(&[cell(2, 2)], &[cell(2, 5)]);
    assert!(!game.fall());
    assert_eq!(game.shape(), &vec![cell(2, 4)]);
    assert!(game.fall());
    assert_eq!(game.shape(), &vec![cell(2, 3)]);
    let mut expected = empty_rows();
    expected[2] = row([0, 0, 1, 0, 0]);
    expected[3] = row([0, 0, 1, 0, 0]);
    assert_eq!(game.lines(), &expected);
}

#[test]
fn a_row_filled_by_a_fall_is_swept() {
    let locked = [cell(0, 0), cell(1, 0), cell(2, 0)];
    let mut game = game_with(&locked, &[cell(3, 1), cell(4, 1), cell(4, 2)]);
    assert!(game.fall());
    game.spawn(vec![cell(0, 9)]);
    game.update_lines();
    let mut expected = empty_rows();
    expected[0] = row([0, 0, 0, 0, 1]);
    assert_eq!(game.lines(), &expected);
    assert_eq!(game.score.lines, 1);
}

#[test]
fn cell_shows_locked_before_falling() {
    let game = game_with(&[cell(1, 1), cell(2, 2)], &[cell(2, 2), cell(3, 3)]);
    assert_eq!(game.cell(1, 1), Cell::Locked);
    assert_eq!(game.cell(2, 2), Cell::Locked);
    assert_eq!(game.cell(3, 3), Cell::Falling);
    assert_eq!(game.cell(0, 0), Cell::Empty);
    assert_eq!(game.cell(4, 9), Cell::Empty);
}

#[test]
fn position_knows_the_board() {
    assert!(cell(0, 0).is_on_board());
    assert!(cell(4, 9).is_on_board());
    assert!(!cell(5, 9).is_on_board());
    assert!(!cell(4, 10).is_on_board());
}

#[test]
fn a_piece_one_row_above_the_board_can_fall() {
    let mut game = game_with(&[], &[cell(0, 9), cell(1, 9)]);
    game.rotate_shape();
    assert_eq!(game.shape(), &vec![cell(1, 9), cell(1, 10)]);
    assert!(game.can_fall());
    assert_eq!(game.update_position(500), Tick::Fell);
    assert_eq!(game.shape(), &vec![cell(1, 8), cell(1, 9)]);
    assert!(game.piece_on_board());
}

#[test]
fn can_fall_wants_the_piece_on_the_board_after_the_fall() {
    assert!(game_with(&[], &[]).can_fall());
    assert!(game_with(&[], &[cell(0, 0), cell(4, 10)]).can_fall());
    assert!(!game_with(&[], &[cell(0, 11)]).can_fall());
    assert!(!game_with(&[], &[cell(5, 3)]).can_fall());
}
