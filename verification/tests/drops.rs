use gridfour::cells::{Cell, DropError, Player};
use gridfour::game::Game;

fn snapshot(game: &Game) -> Vec<Vec<Cell>> {
    game.get_board().clone()
}

#[test]
fn fresh_board_dimensions_and_state() {
    let game = Game::new(false);
    let board = game.get_board();
    assert_eq!(board.len(), 6);
    for row in board.iter() {
        assert_eq!(row.len(), 7);
        for &cell in row.iter() {
            assert_eq!(cell, Cell::Empty);
        }
    }
    assert_eq!(game.get_current_player(), Player::X);
    assert!(!game.is_expanded());
    assert!(!game.has_power_ups());
}

#[test]
fn drop_lands_at_bottom_and_changes_one_cell() {
    let mut game = Game::new(false);
    let before = snapshot(&game);
    let res = game.drop_piece(2);
    assert_eq!(res, Ok((0, 2)));
    let after = game.get_board();
    let mut changed = 0;
    for r in 0..6 {
        for c in 0..7 {
            if after[r][c] != before[r][c] {
                changed += 1;
                assert_eq!((r, c), (0, 2));
                assert_eq!(after[r][c], Cell::Mark(Player::X));
            }
        }
    }
    assert_eq!(changed, 1);
}

#[test]
fn drops_stack_upward() {
    let mut game = Game::new(false);
    assert_eq!(game.drop_piece(4), Ok((0, 4)));
    game.switch_player();
    assert_eq!(game.drop_piece(4), Ok((1, 4)));
    let board = game.get_board();
    assert_eq!(board[0][4], Cell::Mark(Player::X));
    assert_eq!(board[1][4], Cell::Mark(Player::O));
}

#[test]
fn invalid_column_rejected_board_unchanged() {
    let mut game = Game::new(false);
    let before = snapshot(&game);
    assert_eq!(game.drop_piece(7), Err(DropError::InvalidColumn));
    assert_eq!(game.drop_piece(100), Err(DropError::InvalidColumn));
    assert_eq!(before, *game.get_board());
    assert_eq!(game.get_current_player(), Player::X);
}

#[test]
fn full_column_rejected_board_unchanged() {
    let mut game = Game::new(false);
    for r in 0..6 {
        assert_eq!(game.drop_piece(0), Ok((r, 0)));
    }
    let before = snapshot(&game);
    assert_eq!(game.drop_piece(0), Err(DropError::ColumnFull));
    assert_eq!(before, *game.get_board());
}

#[test]
fn empty_cell_above_obstacle_blocks_the_drop() {
    let mut game = Game::new(false);
    game.place_obstacles(0, 1);
    let board = game.get_board();
    assert_eq!(board[0][0], Cell::Obstacle);
    assert_eq!(board[0][2], Cell::Obstacle);
    let before = snapshot(&game);
    assert_eq!(game.drop_piece(0), Err(DropError::BlockedByObstacle));
    assert_eq!(game.drop_piece(2), Err(DropError::BlockedByObstacle));
    assert_eq!(before, *game.get_board());
    assert_eq!(game.drop_piece(1), Ok((0, 1)));
}

#[test]
fn spawned_obstacles_fall_under_gravity() {
    let mut game = Game::new(false);
    assert_eq!(game.drop_piece(0), Ok((0, 0)));
    game.place_obstacles(3, 1);
    let board = game.get_board();
    assert_eq!(board[0][0], Cell::Mark(Player::X));
    assert_eq!(board[1][0], Cell::Obstacle);
    assert_eq!(board[0][2], Cell::Obstacle);
    assert_eq!(board[3][1], Cell::Empty);
}

#[test]
fn switch_player_alternates_without_skip() {
    let mut game = Game::new(false);
    assert_eq!(game.get_current_player(), Player::X);
    game.switch_player();
    assert_eq!(game.get_current_player(), Player::O);
    game.switch_player();
    assert_eq!(game.get_current_player(), Player::X);
}

#[test]
fn fresh_board_is_not_full() {
    let game = Game::new(false);
    assert!(!game.is_full());
}
