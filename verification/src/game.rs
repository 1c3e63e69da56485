//! The `Game` wrapper: the current board plus an append-only log of the
//! boards that preceded it.

use vstd::prelude::*;
use crate::board::{Board, total_stones};
use crate::engine::{
    self, InvalidMove, Player, grants_extra_turn, move_allowed, move_result,
};

verus! {

/// The current position of a game together with every earlier position, in
/// the order they occurred.
#[derive(Debug)]
pub struct Game {
    /// The board the next move will be played on.
    pub current_board: Board,
    /// Every board that preceded the current one, oldest first.
    pub previous_boards: Vec<Board>,
}

impl Game {
    /// A fresh game on the standard starting board, with an empty history.
    pub fn new() -> (r: Self)
        ensures
            forall|i: int| 0 <= i < 12 ==> r.current_board.slots()[i] == 4,
            r.current_board.slots()[12] == 0,
            r.current_board.slots()[13] == 0,
            r.previous_boards@.len() == 0,
    {
        Game { current_board: Board::new(), previous_boards: Vec::new() }
    }

    /// A game that starts from a caller-chosen position, with an empty
    /// history.
    pub fn with_starting_position(starting_position: Board) -> (r: Self)
        ensures
            r.current_board == starting_position,
            r.previous_boards@.len() == 0,
    {
        Game { current_board: starting_position, previous_boards: Vec::new() }
    }

    /// Play one move on the current board.  On success the old board is
    /// appended to the history, the move's result becomes current, and the
    /// returned flag says whether `player` moves again; an illegal move
    /// leaves the game untouched.
    pub fn make_move(&mut self, player: Player, pit: usize) -> (r: Result<bool, InvalidMove>)
        requires
            total_stones(old(self).current_board.slots()) <= u8::MAX as int,
        ensures
            r is Err <==> !move_allowed(old(self).current_board.slots(), player, pit as int),
            r is Err ==> *final(self) == *old(self),
            r matches Ok(extra) ==> {
                &&& final(self).current_board.slots() == move_result(
                    old(self).current_board.slots(),
                    player,
                    pit as int,
                )
                &&& extra == grants_extra_turn(old(self).current_board.slots(), player, pit as int)
                &&& final(self).previous_boards@ == old(self).previous_boards@.push(
                    old(self).current_board,
                )
                &&& total_stones(final(self).current_board.slots()) == total_stones(
                    old(self).current_board.slots(),
                )
            },
    {
        match engine::apply_move(&self.current_board, player, pit) {
            Ok((next, extra)) => {
                let prev = self.current_board;
                self.previous_boards.push(prev);
                self.current_board = next;
                Ok(extra)
            },
            Err(e) => Err(e),
        }
    }
}

impl Default for Game {
    fn default() -> (r: Self)
        ensures
            forall|i: int| 0 <= i < 12 ==> r.current_board.slots()[i] == 4,
            r.current_board.slots()[12] == 0,
            r.current_board.slots()[13] == 0,
            r.previous_boards@.len() == 0,
    {
        Game::new()
    }
}

} // verus!
