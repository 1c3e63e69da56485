//! The move-resolution engine: sowing, capture, the extra-turn rule and
//! terminal detection, specified over the 14-slot view of a board.

use vstd::prelude::*;
use crate::board::{
    Board, slots_of, total_stones, all_nonneg, lemma_slots_nonneg, lemma_total_update,
    lemma_slot_le_total,
};

verus! {

/// One of the two players.
#[derive(Clone, Copy, Debug, PartialEq, Eq, Structural)]
pub enum Player {
    PlayerOne,
    PlayerTwo,
}

/// The single error kind: the chosen pit is not the acting player's, or is
/// empty.
#[derive(Clone, Copy, Debug, PartialEq, Eq, Structural)]
pub struct InvalidMove;

/// The result of a finished game: a winner, or a draw when both stores hold
/// the same number of stones.
#[derive(Clone, Copy, Debug, PartialEq, Eq, Structural)]
pub enum Outcome {
    Winner(Player),
    Draw,
}

/// The slot index of a player's own store.
pub open spec fn store_slot(p: Player) -> int {
    match p {
        Player::PlayerOne => 12,
        Player::PlayerTwo => 13,
    }
}

/// Whether pit `i` lies on player `p`'s side of the board.
pub open spec fn owns_pit(p: Player, i: int) -> bool {
    match p {
        Player::PlayerOne => 0 <= i < 6,
        Player::PlayerTwo => 6 <= i < 12,
    }
}

/// The slot indices a sown stone may ever occupy for player `p`: any pit,
/// or `p`'s own store — never the opponent's store.
pub open spec fn valid_pos(p: Player, pos: int) -> bool {
    0 <= pos < 12 || pos == store_slot(p)
}

/// The next position in sowing order for player `p`.  The order runs through
/// the pits 0..11 with `p`'s own store inserted after the last pit of `p`'s
/// side (after pit 5 for player one, after pit 11 for player two); the
/// opponent's store is skipped.
pub open spec fn next_pos(p: Player, pos: int) -> int {
    match p {
        Player::PlayerOne => if pos == 5 {
            12
        } else if pos == 12 {
            6
        } else if pos == 11 {
            0
        } else {
            pos + 1
        },
        Player::PlayerTwo => if pos == 11 {
            13
        } else if pos == 13 {
            0
        } else {
            pos + 1
        },
    }
}

/// The position reached after taking `k` sowing steps from `start`.
pub open spec fn pos_after(p: Player, start: int, k: nat) -> int
    decreases k,
{
    if k == 0 {
        start
    } else {
        next_pos(p, pos_after(p, start, (k - 1) as nat))
    }
}

/// The slots after dropping one stone into each of the first `k` positions
/// that follow `start` in player `p`'s sowing order.
pub open spec fn sow(s: Seq<int>, p: Player, start: int, k: nat) -> Seq<int>
    decreases k,
{
    if k == 0 {
        s
    } else {
        let prev = sow(s, p, start, (k - 1) as nat);
        let pos = pos_after(p, start, k);
        prev.update(pos, prev[pos] + 1)
    }
}

/// A move is legal when the chosen pit belongs to the acting player and
/// holds at least one stone.
pub open spec fn move_allowed(s: Seq<int>, p: Player, pit: int) -> bool {
    owns_pit(p, pit) && s[pit] >= 1
}

/// The slots after the sowing phase of a move: the chosen pit is emptied and
/// its stones are distributed one by one along `p`'s sowing order.
pub open spec fn sown(s: Seq<int>, p: Player, pit: int) -> Seq<int> {
    sow(s.update(pit, 0), p, pit, s[pit] as nat)
}

/// Where the last stone of the move lands.
pub open spec fn landing(s: Seq<int>, p: Player, pit: int) -> int {
    pos_after(p, pit, s[pit] as nat)
}

/// The capture rule fires when the last stone lands in a pit on the acting
/// player's own side that was empty just before that stone was placed
/// (so it holds exactly one stone after sowing).
pub open spec fn captures(s: Seq<int>, p: Player, pit: int) -> bool {
    owns_pit(p, landing(s, p, pit)) && sown(s, p, pit)[landing(s, p, pit)] == 1
}

/// The slots after the whole move: sowing, then, if the capture rule fires,
/// the landing pit and the pit directly opposite (index `11 - landing`) are
/// emptied into the acting player's store.
pub open spec fn move_result(s: Seq<int>, p: Player, pit: int) -> Seq<int> {
    let t = sown(s, p, pit);
    if captures(s, p, pit) {
        let l = landing(s, p, pit);
        let o = 11 - l;
        t.update(l, 0).update(o, 0).update(store_slot(p), t[store_slot(p)] + t[l] + t[o])
    } else {
        t
    }
}

/// The acting player moves again exactly when the last stone lands in their
/// own store.
pub open spec fn grants_extra_turn(s: Seq<int>, p: Player, pit: int) -> bool {
    landing(s, p, pit) == store_slot(p)
}

/// The other player.
pub open spec fn opponent(p: Player) -> Player {
    match p {
        Player::PlayerOne => Player::PlayerTwo,
        Player::PlayerTwo => Player::PlayerOne,
    }
}

/// Sowing only ever steps through positions that are valid for the sowing
/// player, so it can never reach the opponent's store.
proof fn lemma_pos_after_valid(p: Player, start: int, k: nat)
    requires
        valid_pos(p, start),
    ensures
        valid_pos(p, pos_after(p, start, k)),
    decreases k,
{
    if k > 0 {
        lemma_pos_after_valid(p, start, (k - 1) as nat);
    }
}

/// Sowing never changes how many slots there are.
proof fn lemma_sow_len(s: Seq<int>, p: Player, start: int, k: nat)
    requires
        s.len() == 14,
        valid_pos(p, start),
    ensures
        sow(s, p, start, k).len() == s.len(),
    decreases k,
{
    if k > 0 {
        lemma_sow_len(s, p, start, (k - 1) as nat);
        lemma_pos_after_valid(p, start, k);
    }
}

/// A slot that is never a valid sowing position for `p` — in particular the
/// opponent's store — is left alone by sowing.
proof fn lemma_sow_preserves_slot(s: Seq<int>, p: Player, start: int, k: nat, j: int)
    requires
        s.len() == 14,
        0 <= j < 14,
        valid_pos(p, start),
        !valid_pos(p, j),
    ensures
        sow(s, p, start, k)[j] == s[j],
    decreases k,
{
    if k > 0 {
        lemma_sow_preserves_slot(s, p, start, (k - 1) as nat, j);
        lemma_sow_len(s, p, start, (k - 1) as nat);
        lemma_pos_after_valid(p, start, k);
    }
}

/// No stone of a move ever enters the opponent's store: sowing skips it and
/// a capture pays into the mover's own store only.
pub proof fn lemma_move_skips_opponent_store(s: Seq<int>, p: Player, pit: int)
    requires
        s.len() == 14,
        all_nonneg(s),
        move_allowed(s, p, pit),
    ensures
        move_result(s, p, pit)[store_slot(opponent(p))] == s[store_slot(opponent(p))],
{
    let j = store_slot(opponent(p));
    lemma_sow_props(s.update(pit, 0), p, pit, s[pit] as nat);
    lemma_sow_preserves_slot(s.update(pit, 0), p, pit, s[pit] as nat, j);
    let t = sown(s, p, pit);
    assert(t[j] == s[j]);
    if captures(s, p, pit) {
        let l = landing(s, p, pit);
        assert(0 <= l < 12);
        assert(0 <= 11 - l < 12);
        assert(store_slot(p) != j);
        assert(move_result(s, p, pit)[j] == t[j]);
    }
}

/// Sowing `k` stones keeps the slot count at 14, keeps every slot
/// non-negative, adds exactly `k` to the total, and ends on a position that
/// is still valid for the sowing player.
pub proof fn lemma_sow_props(s: Seq<int>, p: Player, start: int, k: nat)
    requires
        s.len() == 14,
        all_nonneg(s),
        valid_pos(p, start),
    ensures
        sow(s, p, start, k).len() == 14,
        all_nonneg(sow(s, p, start, k)),
        total_stones(sow(s, p, start, k)) == total_stones(s) + k,
        valid_pos(p, pos_after(p, start, k)),
    decreases k,
{
    if k > 0 {
        lemma_sow_props(s, p, start, (k - 1) as nat);
        let prev = sow(s, p, start, (k - 1) as nat);
        let pos = pos_after(p, start, k);
        assert(pos == next_pos(p, pos_after(p, start, (k - 1) as nat)));
        assert(valid_pos(p, pos));
        lemma_total_update(prev, pos, prev[pos] + 1);
    }
}

/// Stone conservation: a legal move never creates or destroys stones — the
/// total over all pits and both stores is unchanged by `move_result`.
pub proof fn lemma_move_conserves_stones(s: Seq<int>, p: Player, pit: int)
    requires
        s.len() == 14,
        all_nonneg(s),
        move_allowed(s, p, pit),
    ensures
        total_stones(move_result(s, p, pit)) == total_stones(s),
        move_result(s, p, pit).len() == 14,
        all_nonneg(move_result(s, p, pit)),
{
    let n = s[pit] as nat;
    let s0 = s.update(pit, 0);
    lemma_total_update(s, pit, 0);
    lemma_sow_props(s0, p, pit, n);
    let t = sown(s, p, pit);
    assert(total_stones(t) == total_stones(s));
    if captures(s, p, pit) {
        let l = landing(s, p, pit);
        let o = 11 - l;
        let st = store_slot(p);
        let u1 = t.update(l, 0);
        let u2 = u1.update(o, 0);
        let u3 = u2.update(st, t[st] + t[l] + t[o]);
        lemma_total_update(t, l, 0);
        lemma_total_update(u1, o, 0);
        lemma_total_update(u2, st, t[st] + t[l] + t[o]);
        assert(total_stones(u3) == total_stones(s));
    }
}

/// The stones still lying in player `p`'s six pits.
pub open spec fn side_total(s: Seq<int>, p: Player) -> int {
    match p {
        Player::PlayerOne => s[0] + s[1] + s[2] + s[3] + s[4] + s[5],
        Player::PlayerTwo => s[6] + s[7] + s[8] + s[9] + s[10] + s[11],
    }
}

/// Whether player `p`'s six pits are all empty.
pub open spec fn side_cleared(s: Seq<int>, p: Player) -> bool {
    forall|i: int| owns_pit(p, i) ==> s[i] == 0
}

/// The game is over once either side's pits are all empty.
pub open spec fn is_terminal(s: Seq<int>) -> bool {
    side_cleared(s, Player::PlayerOne) || side_cleared(s, Player::PlayerTwo)
}

/// A player's final score: their store after sweeping the stones still on
/// their own side into it.
pub open spec fn final_score(s: Seq<int>, p: Player) -> int {
    s[store_slot(p)] + side_total(s, p)
}

/// One sowing step: the next position in player `p`'s order.
fn next_position(p: Player, pos: usize) -> (r: usize)
    requires
        valid_pos(p, pos as int),
    ensures
        r as int == next_pos(p, pos as int),
        valid_pos(p, r as int),
{
    match p {
        Player::PlayerOne => {
            if pos == 5 {
                12
            } else if pos == 12 {
                6
            } else if pos == 11 {
                0
            } else {
                pos + 1
            }
        },
        Player::PlayerTwo => {
            if pos == 11 {
                13
            } else if pos == 13 {
                0
            } else {
                pos + 1
            }
        },
    }
}

/// Resolve one move: empty the chosen pit, sow its stones (skipping the
/// opponent's store), apply the capture rule, and report whether the acting
/// player earned an extra turn.
///
/// Fails with `InvalidMove` exactly when the pit does not belong to `player`
/// or is empty.  Pit indices are absolute: player one may choose 0-5,
/// player two 6-11.  The bound on the board's total keeps every slot within
/// its `u8`; any board reachable from the standard 48-stone start satisfies
/// it.
#[verifier::loop_isolation(false)]
pub fn apply_move(board: &Board, player: Player, pit: usize) -> (r: Result<(Board, bool), InvalidMove>)
    requires
        total_stones(board.slots()) <= u8::MAX as int,
    ensures
        r is Err <==> !move_allowed(board.slots(), player, pit as int),
        r matches Ok(p) ==> {
            &&& p.0.slots() == move_result(board.slots(), player, pit as int)
            &&& p.1 == grants_extra_turn(board.slots(), player, pit as int)
            &&& total_stones(p.0.slots()) == total_stones(board.slots())
        },
{
    let in_range = match player {
        Player::PlayerOne => pit < 6,
        Player::PlayerTwo => 6 <= pit && pit < 12,
    };
    if !in_range {
        return Err(InvalidMove);
    }
    if board.pits[pit] == 0 {
        return Err(InvalidMove);
    }
    let ghost s = board.slots();
    let mut pits = board.pits;
    let mut stores = board.stores;
    let n: u8 = pits[pit];
    pits[pit] = 0;
    let ghost s0 = s.update(pit as int, 0);
    proof {
        assert(slots_of(pits@, stores@) =~= s0);
        lemma_slots_nonneg(*board);
        lemma_total_update(s, pit as int, 0);
    }
    let mut remaining: u8 = n;
    let mut pos: usize = pit;
    while remaining > 0
        invariant
            remaining <= n,
            pos as int == pos_after(player, pit as int, (n - remaining) as nat),
            valid_pos(player, pos as int),
            slots_of(pits@, stores@) == sow(s0, player, pit as int, (n - remaining) as nat),
        decreases remaining,
    {
        let ghost k = (n - remaining) as nat;
        pos = next_position(player, pos);
        proof {
            lemma_sow_props(s0, player, pit as int, k);
            assert(pos_after(player, pit as int, (k + 1) as nat) == pos as int);
            let cur = sow(s0, player, pit as int, k);
            lemma_slot_le_total(cur, pos as int);
            assert(cur[pos as int] <= total_stones(s) - remaining);
        }
        if pos == 12 {
            stores[0] = stores[0] + 1;
        } else if pos == 13 {
            stores[1] = stores[1] + 1;
        } else {
            pits[pos] = pits[pos] + 1;
        }
        proof {
            let cur = sow(s0, player, pit as int, k);
            assert(slots_of(pits@, stores@) =~= cur.update(pos as int, cur[pos as int] + 1));
            assert(slots_of(pits@, stores@) == sow(s0, player, pit as int, (k + 1) as nat));
        }
        remaining = remaining - 1;
    }
    proof {
        assert(slots_of(pits@, stores@) == sown(s, player, pit as int));
        assert(pos as int == landing(s, player, pit as int));
        lemma_sow_props(s0, player, pit as int, n as nat);
    }
    let extra = match player {
        Player::PlayerOne => pos == 12,
        Player::PlayerTwo => pos == 13,
    };
    let own_landing = match player {
        Player::PlayerOne => pos < 6,
        Player::PlayerTwo => 6 <= pos && pos < 12,
    };
    if own_landing && pits[pos] == 1 {
        let ghost t = sown(s, player, pit as int);
        let opp = 11 - pos;
        let a = pits[pos];
        let b = pits[opp];
        pits[pos] = 0;
        pits[opp] = 0;
        proof {
            let u2 = t.update(pos as int, 0).update(opp as int, 0);
            assert(slots_of(pits@, stores@) =~= u2);
            lemma_total_update(t, pos as int, 0);
            lemma_total_update(t.update(pos as int, 0), opp as int, 0);
            lemma_slot_le_total(u2, store_slot(player));
            assert(u2[store_slot(player)] + a + b <= total_stones(s));
        }
        match player {
            Player::PlayerOne => {
                stores[0] = stores[0] + a + b;
            },
            Player::PlayerTwo => {
                stores[1] = stores[1] + a + b;
            },
        }
        proof {
            assert(slots_of(pits@, stores@) =~= move_result(s, player, pit as int));
        }
    } else {
        proof {
            assert(!captures(s, player, pit as int));
        }
    }
    proof {
        lemma_move_conserves_stones(s, player, pit as int);
    }
    Ok((Board { pits, stores }, extra))
}

/// Decide whether the game is over.  It is over exactly when one side's six
/// pits are all empty; the side still holding stones then sweeps them into
/// its own store, and the player whose store holds strictly more stones
/// wins (equal stores are a draw).
pub fn check_terminal(board: &Board) -> (r: Option<Outcome>)
    ensures
        r is Some <==> is_terminal(board.slots()),
        r matches Some(o) ==> {
            let s1 = final_score(board.slots(), Player::PlayerOne);
            let s2 = final_score(board.slots(), Player::PlayerTwo);
            &&& (o == Outcome::Winner(Player::PlayerOne) <==> s1 > s2)
            &&& (o == Outcome::Winner(Player::PlayerTwo) <==> s2 > s1)
            &&& (o == Outcome::Draw <==> s1 == s2)
        },
{
    let p = &board.pits;
    let p1_empty = p[0] == 0 && p[1] == 0 && p[2] == 0 && p[3] == 0 && p[4] == 0 && p[5] == 0;
    let p2_empty = p[6] == 0 && p[7] == 0 && p[8] == 0 && p[9] == 0 && p[10] == 0 && p[11] == 0;
    proof {
        let sv = board.slots();
        if p1_empty {
            assert forall|i: int| owns_pit(Player::PlayerOne, i) implies sv[i] == 0 by {
                assert(sv[i] == board.pits@[i]);
            }
        } else {
            assert(owns_pit(Player::PlayerOne, 0) && owns_pit(Player::PlayerOne, 1)
                && owns_pit(Player::PlayerOne, 2) && owns_pit(Player::PlayerOne, 3)
                && owns_pit(Player::PlayerOne, 4) && owns_pit(Player::PlayerOne, 5));
            assert(!side_cleared(sv, Player::PlayerOne));
        }
        if p2_empty {
            assert forall|i: int| owns_pit(Player::PlayerTwo, i) implies sv[i] == 0 by {
                assert(sv[i] == board.pits@[i]);
            }
        } else {
            assert(owns_pit(Player::PlayerTwo, 6) && owns_pit(Player::PlayerTwo, 7)
                && owns_pit(Player::PlayerTwo, 8) && owns_pit(Player::PlayerTwo, 9)
                && owns_pit(Player::PlayerTwo, 10) && owns_pit(Player::PlayerTwo, 11));
            assert(!side_cleared(sv, Player::PlayerTwo));
        }
        assert(p1_empty == side_cleared(sv, Player::PlayerOne));
        assert(p2_empty == side_cleared(sv, Player::PlayerTwo));
    }
    if !p1_empty && !p2_empty {
        return None;
    }
    let side1: u32 = p[0] as u32 + p[1] as u32 + p[2] as u32 + p[3] as u32 + p[4] as u32
        + p[5] as u32;
    let side2: u32 = p[6] as u32 + p[7] as u32 + p[8] as u32 + p[9] as u32 + p[10] as u32
        + p[11] as u32;
    let s1: u32 = board.stores[0] as u32 + side1;
    let s2: u32 = board.stores[1] as u32 + side2;
    if s1 > s2 {
        Some(Outcome::Winner(Player::PlayerOne))
    } else if s2 > s1 {
        Some(Outcome::Winner(Player::PlayerTwo))
    } else {
        Some(Outcome::Draw)
    }
}

} // verus!
