use gridfour::cells::{Cell, Player, PowerUpKind};
use gridfour::game::Game;

fn power_up_cells(game: &Game) -> Vec<(usize, usize, PowerUpKind)> {
    let mut found = Vec::new();
    let board = game.get_board();
    for (r, row) in board.iter().enumerate() {
        for (c, &cell) in row.iter().enumerate() {
            if let Cell::PowerUp(kind) = cell {
                found.push((r, c, kind));
            }
        }
    }
    found
}

/// A fresh power-up game whose bottom row holds a power-up of the wanted
/// kind: the lowest landable cell of its column, so the next drop there
/// lands on it. Positions are random, so fresh games are made until one
/// fits; a miss on every try would leave the engine's seeding in doubt.
fn game_with_kind_at_bottom(kind: PowerUpKind) -> (Game, usize) {
    for _ in 0..10000 {
        let game = Game::new(true);
        let board = game.get_board();
        for c in 0..7 {
            if board[0][c] == Cell::PowerUp(kind) {
                return (game, c);
            }
        }
    }
    panic!("no fresh game offered that power-up kind on the bottom row");
}

#[test]
fn new_game_seeds_exactly_six_power_ups() {
    let game = Game::new(true);
    let found = power_up_cells(&game);
    assert_eq!(found.len(), 6);
    for wanted in [PowerUpKind::Bomb, PowerUpKind::Skip, PowerUpKind::ObstacleSpawner] {
        let of_kind = found.iter().filter(|&&(_, _, kind)| kind == wanted).count();
        assert_eq!(of_kind, 2, "the six kinds cycle bomb, skip, spawner twice over");
    }
    let board = game.get_board();
    let mut empty = 0;
    for row in board.iter() {
        for &cell in row.iter() {
            match cell {
                Cell::Empty => empty += 1,
                Cell::PowerUp(_) => {},
                other => panic!("unexpected cell on a fresh board: {:?}", other),
            }
        }
    }
    assert_eq!(empty, 42 - 6);
}

#[test]
fn new_game_without_power_ups_seeds_none() {
    let game = Game::new(false);
    assert_eq!(power_up_cells(&game).len(), 0);
}

#[test]
fn bomb_landing_clears_and_grants_extra_turn() {
    let (mut game, col) = game_with_kind_at_bottom(PowerUpKind::Bomb);
    assert_eq!(game.drop_piece(col), Ok((0, col)));
    assert_eq!(game.get_board()[0][col], Cell::Empty);
    assert_eq!(game.get_current_player(), Player::X);
    game.switch_player();
    assert_eq!(game.get_current_player(), Player::X);
    game.switch_player();
    assert_eq!(game.get_current_player(), Player::O);
}

#[test]
fn skip_landing_places_mark_and_grants_extra_turn() {
    let (mut game, col) = game_with_kind_at_bottom(PowerUpKind::Skip);
    assert_eq!(game.drop_piece(col), Ok((0, col)));
    assert_eq!(game.get_board()[0][col], Cell::Mark(Player::X));
    game.switch_player();
    assert_eq!(game.get_current_player(), Player::X);
    game.switch_player();
    assert_eq!(game.get_current_player(), Player::O);
}

#[test]
fn spawner_landing_places_mark_and_drops_obstacles() {
    let (mut game, col) = game_with_kind_at_bottom(PowerUpKind::ObstacleSpawner);
    assert_eq!(game.drop_piece(col), Ok((0, col)));
    let board = game.get_board();
    assert_eq!(board[0][col], Cell::Mark(Player::X));
    if col >= 1 {
        assert_eq!(board[0][col - 1], Cell::Obstacle);
    }
    if col + 1 < 7 {
        assert_eq!(board[0][col + 1], Cell::Obstacle);
    }
    game.switch_player();
    assert_eq!(game.get_current_player(), Player::O);
}

#[test]
fn bomb_clears_cell_below_and_cancels_one_switch() {
    let mut game = Game::new(false);
    assert_eq!(game.drop_piece(0), Ok((0, 0)));
    assert_eq!(game.drop_piece(0), Ok((1, 0)));
    game.use_bomb(1, 0);
    let board = game.get_board();
    assert_eq!(board[0][0], Cell::Empty);
    assert_eq!(board[1][0], Cell::Empty);
    game.switch_player();
    assert_eq!(game.get_current_player(), Player::X);
    game.switch_player();
    assert_eq!(game.get_current_player(), Player::O);
}

#[test]
fn bomb_on_bottom_row_clears_only_that_cell() {
    let mut game = Game::new(false);
    assert_eq!(game.drop_piece(2), Ok((0, 2)));
    assert_eq!(game.drop_piece(2), Ok((1, 2)));
    game.use_bomb(0, 2);
    let board = game.get_board();
    assert_eq!(board[0][2], Cell::Empty);
    assert_eq!(board[1][2], Cell::Mark(Player::X));
}

#[test]
fn activating_a_plain_cell_changes_nothing() {
    let mut game = Game::new(false);
    let before = game.get_board().clone();
    game.activate_power_up(0, 0);
    assert_eq!(before, *game.get_board());
    let mut with_ups = Game::new(true);
    if with_ups.get_board()[5][0] == Cell::Empty {
        let before_ups = with_ups.get_board().clone();
        with_ups.activate_power_up(5, 0);
        assert_eq!(before_ups, *with_ups.get_board());
    }
}

#[test]
fn initialize_power_ups_adds_to_empty_cells_only() {
    let mut game = Game::new(true);
    let before = game.get_board().clone();
    game.initialize_power_ups(3);
    let after = game.get_board();
    let mut added = 0;
    for r in 0..6 {
        for c in 0..7 {
            if after[r][c] != before[r][c] {
                assert_eq!(before[r][c], Cell::Empty);
                assert!(matches!(after[r][c], Cell::PowerUp(_)));
                added += 1;
            }
        }
    }
    assert_eq!(added, 3);
    let found = power_up_cells(&game);
    assert_eq!(found.len(), 9);
    for wanted in [PowerUpKind::Bomb, PowerUpKind::Skip, PowerUpKind::ObstacleSpawner] {
        let of_kind = found.iter().filter(|&&(_, _, kind)| kind == wanted).count();
        assert_eq!(of_kind, 3, "each pass starts its kind cycle at the bomb");
    }
}
