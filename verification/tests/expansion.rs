use gridfour::cells::{Cell, Player, PowerUpKind};
use gridfour::game::Game;

fn force_player(game: &mut Game, p: Player) {
    if game.get_current_player() != p {
        game.switch_player();
    }
    assert_eq!(game.get_current_player(), p);
}

/// The drawing pattern: rows paired two by two, colours alternating by
/// column, so no four equal cells line up in any of the four directions.
fn pattern(r: usize, c: usize) -> Player {
    if (r / 2 + c) % 2 == 0 {
        Player::X
    } else {
        Player::O
    }
}

/// Fill every column of the board up to `rows`, following the pattern.
fn fill_columns(game: &mut Game, rows: usize, cols: usize) {
    for c in 0..cols {
        loop {
            let height = {
                let board = game.get_board();
                let mut h = 0;
                while h < rows && board[h][c] != Cell::Empty {
                    h += 1;
                }
                h
            };
            if height == rows {
                break;
            }
            force_player(game, pattern(height, c));
            assert_eq!(game.drop_piece(c), Ok((height, c)));
        }
    }
}

#[test]
fn filled_drawn_board_expands_once_then_never_again() {
    let mut game = Game::new(false);
    fill_columns(&mut game, 6, 7);
    assert!(game.is_full());
    assert_eq!(game.check_winner(), None);
    assert!(!game.is_expanded());

    let before = game.get_board().clone();
    game.expand_board();
    assert!(game.is_expanded());
    let board = game.get_board().clone();
    assert_eq!(board.len(), 10);
    for row in board.iter() {
        assert_eq!(row.len(), 10);
    }
    for r in 0..6 {
        for c in 0..7 {
            assert_eq!(board[r][c], before[r][c]);
        }
    }
    for r in 0..10 {
        for c in 0..10 {
            if !(r < 6 && c < 7) {
                assert_eq!(board[r][c], Cell::Empty);
            }
        }
    }
    assert!(!game.is_full());
    assert_eq!(game.check_winner(), None);

    fill_columns(&mut game, 10, 10);
    assert!(game.is_full());
    assert_eq!(game.check_winner(), None);

    let full_board = game.get_board().clone();
    game.expand_board();
    assert!(game.is_expanded());
    assert_eq!(full_board, *game.get_board());
    assert!(game.is_full());
}

#[test]
fn expansion_seeds_power_ups_in_new_rows_only() {
    let mut game = Game::new(true);
    let before = game.get_board().clone();
    game.expand_board();
    let board = game.get_board();
    assert_eq!(board.len(), 10);
    for r in 0..6 {
        for c in 0..7 {
            assert_eq!(board[r][c], before[r][c]);
        }
    }
    let mut new_power_ups = 0;
    let mut new_kinds = Vec::new();
    for r in 0..10 {
        for c in 0..10 {
            if r < 6 && c < 7 {
                continue;
            }
            match board[r][c] {
                Cell::Empty => {},
                Cell::PowerUp(kind) => {
                    assert!(r >= 6);
                    assert_ne!(c, 8);
                    new_power_ups += 1;
                    new_kinds.push(kind);
                },
                other => panic!("unexpected cell in the added area: {:?}", other),
            }
        }
    }
    assert_eq!(new_power_ups, (10 * 10 - 6 * 7) / 10);
    let bombs = new_kinds.iter().filter(|&&k| k == PowerUpKind::Bomb).count();
    let skips = new_kinds.iter().filter(|&&k| k == PowerUpKind::Skip).count();
    let spawners = new_kinds
        .iter()
        .filter(|&&k| k == PowerUpKind::ObstacleSpawner)
        .count();
    assert_eq!((bombs, skips, spawners), (2, 2, 1), "five markers cycle bomb, skip, spawner");
}

#[test]
fn expansion_without_power_ups_adds_only_empty_cells() {
    let mut game = Game::new(false);
    game.expand_board();
    let board = game.get_board();
    let mut empty = 0;
    for r in 0..10 {
        for c in 0..10 {
            if !(r < 6 && c < 7) {
                assert_eq!(board[r][c], Cell::Empty);
                empty += 1;
            }
        }
    }
    assert_eq!(empty, 100 - 42);
}

#[test]
fn power_up_only_cells_still_count_as_occupied() {
    let mut game = Game::new(true);
    assert!(!game.is_full());
    game.initialize_power_ups(42 - 6);
    assert!(game.is_full());
    assert_eq!(
        game.get_board()
            .iter()
            .flatten()
            .filter(|&&cell| matches!(cell, Cell::PowerUp(PowerUpKind::Bomb)
                | Cell::PowerUp(PowerUpKind::Skip)
                | Cell::PowerUp(PowerUpKind::ObstacleSpawner)))
            .count(),
        42
    );
}
