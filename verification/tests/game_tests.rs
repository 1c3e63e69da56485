use mancala_game::board::Board;
use mancala_game::engine::{InvalidMove, Player};
use mancala_game::game::Game;

#[test]
fn new_game_starts_from_standard_board() {
    let game = Game::new();
    assert_eq!(game.current_board.pits, [4; 12]);
    assert_eq!(game.current_board.stores, [0, 0]);
    assert!(game.previous_boards.is_empty());
}

#[test]
fn with_starting_position_keeps_the_given_board() {
    let board = Board::with_custom_pits([1; 12], [5, 7]);
    let game = Game::with_starting_position(board);
    assert_eq!(game.current_board.pits, [1; 12]);
    assert_eq!(game.current_board.stores, [5, 7]);
    assert!(game.previous_boards.is_empty());
}

#[test]
fn make_move_appends_old_board_to_history() {
    let mut game = Game::new();
    let extra = game.make_move(Player::PlayerOne, 2).unwrap();
    assert!(extra);
    assert_eq!(game.previous_boards.len(), 1);
    assert_eq!(game.previous_boards[0].pits, [4; 12]);
    assert_eq!(game.current_board.pits, [4, 4, 0, 5, 5, 5, 4, 4, 4, 4, 4, 4]);
    assert_eq!(game.current_board.stores, [1, 0]);

    let extra = game.make_move(Player::PlayerOne, 3).unwrap();
    assert!(!extra);
    assert_eq!(game.previous_boards.len(), 2);
    assert_eq!(game.previous_boards[1].pits, [4, 4, 0, 5, 5, 5, 4, 4, 4, 4, 4, 4]);
    assert_eq!(game.current_board.pits, [4, 4, 0, 0, 6, 6, 5, 5, 4, 4, 4, 4]);
    assert_eq!(game.current_board.stores, [2, 0]);
}

#[test]
fn rejected_move_leaves_the_game_untouched() {
    let mut game = Game::new();
    assert_eq!(game.make_move(Player::PlayerTwo, 2).unwrap_err(), InvalidMove);
    assert_eq!(game.current_board.pits, [4; 12]);
    assert_eq!(game.current_board.stores, [0, 0]);
    assert!(game.previous_boards.is_empty());
}

#[test]
fn default_game_matches_new() {
    let game = Game::default();
    assert_eq!(game.current_board.pits, [4; 12]);
    assert_eq!(game.current_board.stores, [0, 0]);
    assert!(game.previous_boards.is_empty());
}
