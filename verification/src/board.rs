//! The board value type: 12 pits and 2 stores, plus the mathematical view
//! of a position as a sequence of 14 stone counts.

use vstd::prelude::*;

verus! {

/// A Mancala position.
///
/// Pits 0-5 belong to player one and pits 6-11 to player two; store 0 is
/// player one's and store 1 is player two's.  The stores sit, in sowing
/// order, immediately after pit 5 and immediately after pit 11.
#[derive(Clone, Copy, Debug)]
pub struct Board {
    /// The twelve pits, each holding a stone count.
    pub pits: [u8; 12],
    /// The two stores, where captured and banked stones accumulate.
    pub stores: [u8; 2],
}

/// Pit and store contents laid out as one sequence of 14 slots: pits 0..11,
/// then player one's store at index 12 and player two's store at index 13.
pub open spec fn slots_of(pits: Seq<u8>, stores: Seq<u8>) -> Seq<int> {
    Seq::new(
        14,
        |i: int|
            if i < 12 {
                pits[i] as int
            } else {
                stores[i - 12] as int
            },
    )
}

impl Board {
    /// The board as one sequence of 14 slots: pits 0..11, then player one's
    /// store at index 12 and player two's store at index 13.  All move rules
    /// are specified over this view.
    pub open spec fn slots(&self) -> Seq<int> {
        slots_of(self.pits@, self.stores@)
    }

    /// The standard starting position: four stones in every pit, both
    /// stores empty.
    pub fn new() -> (r: Board)
        ensures
            forall|i: int| 0 <= i < 12 ==> r.slots()[i] == 4,
            r.slots()[12] == 0,
            r.slots()[13] == 0,
    {
        Board { pits: [4; 12], stores: [0; 2] }
    }

    /// A board with caller-chosen pit and store contents.
    pub fn with_custom_pits(pits: [u8; 12], stores: [u8; 2]) -> (r: Self)
        ensures
            r.pits == pits,
            r.stores == stores,
    {
        Board { pits, stores }
    }
}

impl Default for Board {
    fn default() -> (r: Self)
        ensures
            forall|i: int| 0 <= i < 12 ==> r.slots()[i] == 4,
            r.slots()[12] == 0,
            r.slots()[13] == 0,
    {
        Board::new()
    }
}

/// The stones on the board in total, summed over a suffix of the slot view:
/// `total_from(s, k)` adds up `s[k..]`.
pub open spec fn total_from(s: Seq<int>, k: int) -> int
    decreases s.len() - k,
{
    if k < 0 || k >= s.len() {
        0
    } else {
        s[k] + total_from(s, k + 1)
    }
}

/// All stones on the board: every pit and both stores.
pub open spec fn total_stones(s: Seq<int>) -> int {
    total_from(s, 0)
}

/// Every slot holds a non-negative count (true of every slot view, since
/// counts are unsigned on the board itself).
pub open spec fn all_nonneg(s: Seq<int>) -> bool {
    forall|i: int| 0 <= i < s.len() ==> s[i] >= 0
}

/// A board's slot view is non-negative everywhere.
pub proof fn lemma_slots_nonneg(b: Board)
    ensures
        all_nonneg(b.slots()),
{
}

/// Replacing one slot changes the total by the difference at that slot.
pub proof fn lemma_total_update(s: Seq<int>, i: int, v: int)
    requires
        0 <= i < s.len(),
    ensures
        total_stones(s.update(i, v)) == total_stones(s) - s[i] + v,
{
    lemma_total_from_update(s, i, v, 0);
}

proof fn lemma_total_from_update(s: Seq<int>, i: int, v: int, k: int)
    requires
        0 <= i < s.len(),
        0 <= k <= s.len(),
    ensures
        total_from(s.update(i, v), k) == if k <= i {
            total_from(s, k) - s[i] + v
        } else {
            total_from(s, k)
        },
    decreases s.len() - k,
{
    if k < s.len() {
        lemma_total_from_update(s, i, v, k + 1);
    }
}

/// In a non-negative sequence, every suffix total is non-negative.
proof fn lemma_total_from_nonneg(s: Seq<int>, k: int)
    requires
        all_nonneg(s),
        0 <= k <= s.len(),
    ensures
        total_from(s, k) >= 0,
    decreases s.len() - k,
{
    if k < s.len() {
        lemma_total_from_nonneg(s, k + 1);
    }
}

/// In a non-negative sequence, one slot never exceeds the whole total.
pub proof fn lemma_slot_le_total(s: Seq<int>, i: int)
    requires
        all_nonneg(s),
        0 <= i < s.len(),
    ensures
        s[i] <= total_stones(s),
{
    lemma_slot_le_total_from(s, i, 0);
}

proof fn lemma_slot_le_total_from(s: Seq<int>, i: int, k: int)
    requires
        all_nonneg(s),
        0 <= k <= i < s.len(),
    ensures
        s[i] <= total_from(s, k),
    decreases i - k,
{
    lemma_total_from_nonneg(s, i + 1);
    if k < i {
        lemma_slot_le_total_from(s, i, k + 1);
    }
}

} // verus!
