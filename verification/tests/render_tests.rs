use mancala_game::board::Board;

#[test]
fn formats_empty_board() {
    let lines = Vec::from([
        "",
        "     #6: 4 |  #7: 4 |  #8: 4 |  #9: 4 | #10: 4 | #11: 4",
        "0  --------+--------+--------+--------+--------+-------- 0",
        "     #5: 4 |  #4: 4 |  #3: 4 |  #2: 4 |  #1: 4 |  #0: 4",
        "",
    ]);

    let board = Board::new();
    assert_eq!(board.to_display_string(), lines.join("\n"));
}

#[test]
fn formats_complete_board() {
    let lines = Vec::from([
        "",
        "     #6: 0 |  #7: 0 |  #8: 0 |  #9: 0 | #10: 0 | #11: 0",
        "24 --------+--------+--------+--------+--------+-------- 24",
        "     #5: 0 |  #4: 0 |  #3: 0 |  #2: 0 |  #1: 0 |  #0: 0",
        "",
    ]);

    let board = Board::with_custom_pits([0; 12], [24; 2]);
    assert_eq!(board.to_display_string(), lines.join("\n"));
}

#[test]
fn formats_two_digit_pit_counts() {
    let lines = Vec::from([
        "",
        "     #6: 6 |  #7: 7 |  #8: 8 |  #9: 9 | #10: 10 | #11: 11",
        "3  --------+--------+--------+--------+--------+-------- 42",
        "     #5: 5 |  #4: 4 |  #3: 3 |  #2: 2 |  #1: 1 |  #0: 0",
        "",
    ]);

    let board = Board::with_custom_pits([0, 1, 2, 3, 4, 5, 6, 7, 8, 9, 10, 11], [3, 42]);
    assert_eq!(board.to_display_string(), lines.join("\n"));
}

#[test]
fn formats_three_digit_store() {
    let lines = Vec::from([
        "",
        "     #6: 0 |  #7: 0 |  #8: 0 |  #9: 0 | #10: 0 | #11: 0",
        "100 --------+--------+--------+--------+--------+-------- 0",
        "     #5: 0 |  #4: 0 |  #3: 0 |  #2: 0 |  #1: 0 |  #0: 0",
        "",
    ]);

    let board = Board::with_custom_pits([0; 12], [100, 0]);
    assert_eq!(board.to_display_string(), lines.join("\n"));
}

#[test]
fn default_board_matches_new() {
    let a = Board::new();
    let b = Board::default();
    assert_eq!(a.pits, b.pits);
    assert_eq!(a.stores, b.stores);
}
