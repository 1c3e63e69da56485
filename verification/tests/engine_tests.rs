use mancala_game::board::Board;
use mancala_game::engine::{apply_move, check_terminal, InvalidMove, Outcome, Player};

fn total(board: &Board) -> u32 {
    let pits: u32 = board.pits.iter().map(|&x| x as u32).sum();
    let stores: u32 = board.stores.iter().map(|&x| x as u32).sum();
    pits + stores
}

#[test]
fn sowing_from_starting_board() {
    let board = Board::new();
    let (next, extra) = apply_move(&board, Player::PlayerOne, 2).unwrap();
    assert_eq!(next.pits, [4, 4, 0, 5, 5, 5, 4, 4, 4, 4, 4, 4]);
    assert_eq!(next.stores, [1, 0]);
    assert!(extra);
}

#[test]
fn last_stone_elsewhere_gives_no_extra_turn() {
    let board = Board::new();
    let (next, extra) = apply_move(&board, Player::PlayerOne, 0).unwrap();
    assert_eq!(next.pits, [0, 5, 5, 5, 5, 4, 4, 4, 4, 4, 4, 4]);
    assert_eq!(next.stores, [0, 0]);
    assert!(!extra);
}

#[test]
fn player_two_sows_into_own_store() {
    let board = Board::new();
    let (next, extra) = apply_move(&board, Player::PlayerTwo, 8).unwrap();
    assert_eq!(next.pits, [4, 4, 4, 4, 4, 4, 4, 4, 0, 5, 5, 5]);
    assert_eq!(next.stores, [0, 1]);
    assert!(extra);
}

#[test]
fn landing_in_empty_own_pit_captures_opposite() {
    // Player one's last stone lands in empty pit 5; pit 6 opposite holds 3.
    let board = Board::with_custom_pits([0, 4, 4, 4, 1, 0, 3, 4, 4, 4, 4, 4], [0, 0]);
    let (next, extra) = apply_move(&board, Player::PlayerOne, 4).unwrap();
    assert_eq!(next.pits, [0, 4, 4, 4, 0, 0, 0, 4, 4, 4, 4, 4]);
    assert_eq!(next.stores, [4, 0]);
    assert!(!extra);
}

#[test]
fn landing_in_occupied_pit_does_not_capture() {
    let board = Board::with_custom_pits([0, 4, 4, 4, 1, 2, 3, 4, 4, 4, 4, 4], [0, 0]);
    let (next, extra) = apply_move(&board, Player::PlayerOne, 4).unwrap();
    assert_eq!(next.pits, [0, 4, 4, 4, 0, 3, 3, 4, 4, 4, 4, 4]);
    assert_eq!(next.stores, [0, 0]);
    assert!(!extra);
}

#[test]
fn sowing_wraps_and_skips_opponent_store() {
    // Thirteen stones from pit 5 visit the own store, all six opponent
    // pits, and wrap through pits 0..4 back to pit 5 itself, which was
    // emptied, so the final stone triggers a capture of pits 5 and 6.
    let board = Board::with_custom_pits([1, 1, 1, 1, 1, 13, 2, 2, 2, 2, 2, 2], [0, 0]);
    let (next, extra) = apply_move(&board, Player::PlayerOne, 5).unwrap();
    assert_eq!(next.pits, [2, 2, 2, 2, 2, 0, 0, 3, 3, 3, 3, 3]);
    assert_eq!(next.stores, [5, 0]);
    assert!(!extra);
}

#[test]
fn stones_are_conserved_by_moves() {
    let board = Board::new();
    assert_eq!(total(&board), 48);
    let (after_one, _) = apply_move(&board, Player::PlayerOne, 2).unwrap();
    assert_eq!(total(&after_one), 48);
    let capture_board = Board::with_custom_pits([0, 4, 4, 4, 1, 0, 3, 4, 4, 4, 4, 4], [0, 0]);
    let (after_capture, _) = apply_move(&capture_board, Player::PlayerOne, 4).unwrap();
    assert_eq!(total(&after_capture), total(&capture_board));
}

#[test]
fn pit_outside_own_range_is_invalid() {
    let board = Board::new();
    assert_eq!(apply_move(&board, Player::PlayerOne, 6).unwrap_err(), InvalidMove);
    assert_eq!(apply_move(&board, Player::PlayerOne, 12).unwrap_err(), InvalidMove);
    assert_eq!(apply_move(&board, Player::PlayerTwo, 3).unwrap_err(), InvalidMove);
}

#[test]
fn empty_pit_is_invalid() {
    let board = Board::with_custom_pits([0, 4, 4, 4, 4, 4, 4, 4, 4, 4, 4, 4], [4, 0]);
    assert_eq!(apply_move(&board, Player::PlayerOne, 0).unwrap_err(), InvalidMove);
}

#[test]
fn cleared_side_ends_the_game() {
    // Player one's pits are empty; player two sweeps 4 remaining stones.
    let board = Board::with_custom_pits([0, 0, 0, 0, 0, 0, 1, 2, 0, 0, 0, 1], [10, 8]);
    assert_eq!(check_terminal(&board), Some(Outcome::Winner(Player::PlayerTwo)));
}

#[test]
fn equal_scores_after_sweep_are_a_draw() {
    let board = Board::with_custom_pits([0, 0, 0, 0, 0, 0, 1, 2, 0, 0, 0, 1], [12, 8]);
    assert_eq!(check_terminal(&board), Some(Outcome::Draw));
}

#[test]
fn higher_store_after_sweep_wins() {
    let board = Board::with_custom_pits([0, 0, 0, 0, 0, 0, 1, 2, 0, 0, 0, 1], [20, 8]);
    assert_eq!(check_terminal(&board), Some(Outcome::Winner(Player::PlayerOne)));
}

#[test]
fn game_with_stones_on_both_sides_goes_on() {
    let board = Board::new();
    assert_eq!(check_terminal(&board), None);
}
