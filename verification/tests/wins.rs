use gridfour::cells::Player;
use gridfour::game::Game;

fn force_player(game: &mut Game, p: Player) {
    if game.get_current_player() != p {
        game.switch_player();
    }
    assert_eq!(game.get_current_player(), p);
}

#[test]
fn vertical_four_in_column_three_wins() {
    let mut game = Game::new(false);
    for round in 0..3 {
        assert_eq!(game.drop_piece(3), Ok((round, 3)));
        game.switch_player();
        assert_eq!(game.drop_piece(4), Ok((round, 4)));
        game.switch_player();
    }
    assert_eq!(game.check_winner(), None);
    assert_eq!(game.drop_piece(3), Ok((3, 3)));
    assert_eq!(game.check_winner(), Some(Player::X));
}

#[test]
fn horizontal_four_wins() {
    let mut game = Game::new(false);
    for c in 0..3 {
        force_player(&mut game, Player::X);
        assert_eq!(game.drop_piece(c), Ok((0, c)));
        force_player(&mut game, Player::O);
        assert_eq!(game.drop_piece(6), Ok((c, 6)));
    }
    assert_eq!(game.check_winner(), None);
    force_player(&mut game, Player::X);
    assert_eq!(game.drop_piece(3), Ok((0, 3)));
    assert_eq!(game.check_winner(), Some(Player::X));
}

#[test]
fn diagonal_up_right_four_wins() {
    let mut game = Game::new(false);
    let moves = [
        (0, Player::X),
        (1, Player::O),
        (1, Player::X),
        (2, Player::O),
        (2, Player::O),
        (2, Player::X),
        (3, Player::O),
        (3, Player::O),
        (3, Player::O),
    ];
    for &(col, p) in moves.iter() {
        force_player(&mut game, p);
        assert!(game.drop_piece(col).is_ok());
    }
    assert_eq!(game.check_winner(), None);
    force_player(&mut game, Player::X);
    assert_eq!(game.drop_piece(3), Ok((3, 3)));
    assert_eq!(game.check_winner(), Some(Player::X));
}

#[test]
fn diagonal_down_right_four_wins() {
    let mut game = Game::new(false);
    let moves = [
        (0, Player::O),
        (0, Player::O),
        (0, Player::O),
        (1, Player::O),
        (1, Player::O),
        (2, Player::O),
        (0, Player::X),
        (1, Player::X),
        (2, Player::X),
    ];
    for &(col, p) in moves.iter() {
        force_player(&mut game, p);
        assert!(game.drop_piece(col).is_ok());
    }
    assert_eq!(game.check_winner(), None);
    force_player(&mut game, Player::X);
    assert_eq!(game.drop_piece(3), Ok((0, 3)));
    assert_eq!(game.check_winner(), Some(Player::X));
}

#[test]
fn three_in_a_row_is_no_win() {
    let mut game = Game::new(false);
    for round in 0..3 {
        assert_eq!(game.drop_piece(0), Ok((round, 0)));
        game.switch_player();
        assert_eq!(game.drop_piece(1), Ok((round, 1)));
        game.switch_player();
    }
    assert_eq!(game.check_winner(), None);
}

#[test]
fn obstacles_never_count_toward_a_run() {
    let mut game = Game::new(false);
    game.place_obstacles(0, 1);
    game.place_obstacles(0, 2);
    let board = game.get_board();
    assert_eq!(board[0][0], gridfour::cells::Cell::Obstacle);
    assert_eq!(board[0][1], gridfour::cells::Cell::Obstacle);
    assert_eq!(board[0][2], gridfour::cells::Cell::Obstacle);
    assert_eq!(board[0][3], gridfour::cells::Cell::Obstacle);
    assert_eq!(game.check_winner(), None);
}
