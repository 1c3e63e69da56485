//! The text renderer: a fixed two-row-plus-separator picture of a board,
//! specified character by character.
//!
//! The layout is: a blank first line; the opponent row (pits 6..11 left to
//! right); a separator line carrying both store totals; the active player's
//! row (pits 5..0); and a trailing newline.  Pit labels are `#N` right-
//! aligned to four characters, cells are joined by `" |"`, pit rows carry a
//! three-space left margin, and the separator is six eight-dash segments
//! joined by `+`, flanked by the store totals (the left one padded right to
//! width two).

use vstd::prelude::*;
use vstd::string::StringExecFns;
use crate::board::Board;

verus! {

/// The decimal digit character for `d` (a value 0 through 9).
pub open spec fn digit_char(d: int) -> char {
    if d == 0 {
        '0'
    } else if d == 1 {
        '1'
    } else if d == 2 {
        '2'
    } else if d == 3 {
        '3'
    } else if d == 4 {
        '4'
    } else if d == 5 {
        '5'
    } else if d == 6 {
        '6'
    } else if d == 7 {
        '7'
    } else if d == 8 {
        '8'
    } else {
        '9'
    }
}

/// The usual decimal rendering of `n`, most significant digit first, with
/// no leading zeros (and `0` rendered as the single digit `0`).
pub open spec fn dec_rep(n: nat) -> Seq<char>
    decreases n,
{
    if n < 10 {
        seq![digit_char(n as int)]
    } else {
        dec_rep(n / 10) + seq![digit_char((n % 10) as int)]
    }
}

/// `n` space characters.
pub open spec fn spaces(n: nat) -> Seq<char>
    decreases n,
{
    if n == 0 {
        Seq::empty()
    } else {
        spaces((n - 1) as nat) + seq![' ']
    }
}

/// `s` right-aligned in a field of width `w` (left-padded with spaces;
/// unchanged when already at least `w` long).
pub open spec fn pad_left(s: Seq<char>, w: nat) -> Seq<char> {
    if s.len() >= w {
        s
    } else {
        spaces((w - s.len()) as nat) + s
    }
}

/// `s` left-aligned in a field of width `w` (right-padded with spaces).
pub open spec fn pad_right(s: Seq<char>, w: nat) -> Seq<char> {
    if s.len() >= w {
        s
    } else {
        s + spaces((w - s.len()) as nat)
    }
}

/// One pit cell: the label `#N` right-aligned to four characters, then a
/// colon, a space, and the pit's stone count.
pub open spec fn cell(i: int, stones: u8) -> Seq<char> {
    pad_left(seq!['#'] + dec_rep(i as nat), 4) + seq![':', ' '] + dec_rep(stones as nat)
}

/// The cells for the pits listed in `idxs`, joined by `" |"`.
pub open spec fn row_cells(pits: Seq<u8>, idxs: Seq<int>) -> Seq<char>
    decreases idxs.len(),
{
    if idxs.len() == 0 {
        Seq::empty()
    } else if idxs.len() == 1 {
        cell(idxs[0], pits[idxs[0]])
    } else {
        row_cells(pits, idxs.drop_last()) + seq![' ', '|'] + cell(
            idxs.last(),
            pits[idxs.last()],
        )
    }
}

/// The pit order of the top row: player two's pits, left to right.
pub open spec fn top_row_idxs() -> Seq<int> {
    seq![6, 7, 8, 9, 10, 11]
}

/// The pit order of the bottom row: player one's pits, highest first.
pub open spec fn bottom_row_idxs() -> Seq<int> {
    seq![5, 4, 3, 2, 1, 0]
}

/// `n` dash characters.
pub open spec fn dashes(n: nat) -> Seq<char>
    decreases n,
{
    if n == 0 {
        Seq::empty()
    } else {
        dashes((n - 1) as nat) + seq!['-']
    }
}

/// `k` eight-dash segments joined by `+`.
pub open spec fn dash_segments(k: nat) -> Seq<char>
    decreases k,
{
    if k == 0 {
        Seq::empty()
    } else if k == 1 {
        dashes(8)
    } else {
        dash_segments((k - 1) as nat) + seq!['+'] + dashes(8)
    }
}

/// The separator line: player one's store total left-aligned to width two,
/// a space, the six dash segments, a space, player two's store total.
pub open spec fn separator_line(stores: Seq<u8>) -> Seq<char> {
    pad_right(dec_rep(stores[0] as nat), 2) + seq![' '] + dash_segments(6) + seq![' ']
        + dec_rep(stores[1] as nat)
}

/// The full rendering: a blank first line, the top pit row behind a three-
/// space margin, the separator line, the bottom pit row behind the same
/// margin, and a trailing newline.
pub open spec fn board_text(b: Board) -> Seq<char> {
    seq!['\n'] + spaces(3) + row_cells(b.pits@, top_row_idxs()) + seq!['\n'] + separator_line(
        b.stores@,
    ) + seq!['\n'] + spaces(3) + row_cells(b.pits@, bottom_row_idxs()) + seq!['\n']
}

/// The single digit `d`, as a one-character string slice.
fn digit_str(d: u8) -> (r: &'static str)
    requires
        d < 10,
    ensures
        r@ == seq![digit_char(d as int)],
{
    let r = match d {
        0 => "0",
        1 => "1",
        2 => "2",
        3 => "3",
        4 => "4",
        5 => "5",
        6 => "6",
        7 => "7",
        8 => "8",
        _ => "9",
    };
    proof {
        reveal_strlit("0");
        reveal_strlit("1");
        reveal_strlit("2");
        reveal_strlit("3");
        reveal_strlit("4");
        reveal_strlit("5");
        reveal_strlit("6");
        reveal_strlit("7");
        reveal_strlit("8");
        reveal_strlit("9");
        assert(r@ =~= seq![digit_char(d as int)]);
    }
    r
}

/// Append the decimal rendering of `n` to `out`.
fn push_dec(out: &mut String, n: u8)
    ensures
        final(out)@ == old(out)@ + dec_rep(n as nat),
{
    if n >= 100 {
        proof {
            let m = n as nat;
            vstd::arithmetic::div_mod::lemma_div_denominator(n as int, 10, 10);
            assert((m / 10) / 10 == m / 100);
            assert(m / 100 < 10);
            assert(dec_rep(m / 100) == seq![digit_char((m / 100) as int)]);
            assert(dec_rep(m / 10) == dec_rep((m / 10) / 10) + seq![
                digit_char(((m / 10) % 10) as int),
            ]);
            assert(dec_rep(m) == dec_rep(m / 10) + seq![digit_char((m % 10) as int)]);
            assert(dec_rep(m) =~= seq![
                digit_char((m / 100) as int),
                digit_char(((m / 10) % 10) as int),
                digit_char((m % 10) as int),
            ]);
        }
        out.append(digit_str(n / 100));
        out.append(digit_str((n / 10) % 10));
        out.append(digit_str(n % 10));
    } else if n >= 10 {
        proof {
            let m = n as nat;
            assert(m / 10 < 10);
            assert(dec_rep(m / 10) == seq![digit_char((m / 10) as int)]);
            assert(dec_rep(m) == dec_rep(m / 10) + seq![digit_char((m % 10) as int)]);
            assert(dec_rep(m) =~= seq![
                digit_char((m / 10) as int),
                digit_char((m % 10) as int),
            ]);
        }
        out.append(digit_str(n / 10));
        out.append(digit_str(n % 10));
    } else {
        out.append(digit_str(n));
    }
    proof {
        assert(out@ =~= old(out)@ + dec_rep(n as nat));
    }
}

/// The short space runs the renderer pads with, written out.
proof fn lemma_spaces_small()
    ensures
        spaces(0) == Seq::<char>::empty(),
        spaces(1) =~= seq![' '],
        spaces(2) =~= seq![' ', ' '],
        spaces(3) =~= seq![' ', ' ', ' '],
{
    reveal_with_fuel(spaces, 5);
    assert(spaces(1) =~= seq![' ']);
    assert(spaces(2) =~= seq![' ', ' ']);
    assert(spaces(3) =~= seq![' ', ' ', ' ']);
}

/// A decimal rendering has one digit below ten and at least two from ten up.
proof fn lemma_dec_rep_len(n: nat)
    ensures
        n < 10 ==> dec_rep(n).len() == 1,
        n >= 10 ==> dec_rep(n).len() >= 2,
        dec_rep(n).len() >= 1,
    decreases n,
{
    if n >= 10 {
        lemma_dec_rep_len(n / 10);
    }
}

/// Append one pit cell (label, colon, count) to `out`.
fn push_cell(out: &mut String, i: usize, stones: u8)
    requires
        i < 12,
    ensures
        final(out)@ == old(out)@ + cell(i as int, stones),
{
    proof {
        reveal_strlit("  #");
        reveal_strlit(" #");
        reveal_strlit(": ");
        lemma_spaces_small();
        lemma_dec_rep_len(i as nat);
    }
    if i < 10 {
        out.append("  #");
        out.append(digit_str(i as u8));
        proof {
            assert(pad_left(seq!['#'] + dec_rep(i as nat), 4) =~= "  #"@ + seq![
                digit_char(i as int),
            ]);
        }
    } else {
        out.append(" #");
        push_dec(out, i as u8);
        proof {
            let m = i as nat;
            assert(dec_rep(m / 10) == seq![digit_char((m / 10) as int)]);
            assert(dec_rep(m) == dec_rep(m / 10) + seq![digit_char((m % 10) as int)]);
            assert(pad_left(seq!['#'] + dec_rep(i as nat), 4) =~= " #"@ + dec_rep(i as nat));
        }
    }
    out.append(": ");
    push_dec(out, stones);
    proof {
        assert(out@ =~= old(out)@ + cell(i as int, stones));
    }
}

/// Append one pit row to `out`: the top row walks pits 6..11, the bottom
/// row walks pits 5..0.
fn push_row(out: &mut String, pits: &[u8; 12], top: bool)
    ensures
        final(out)@ == old(out)@ + row_cells(
            pits@,
            if top {
                top_row_idxs()
            } else {
                bottom_row_idxs()
            },
        ),
{
    let ghost idxs = if top {
        top_row_idxs()
    } else {
        bottom_row_idxs()
    };
    let ghost base = out@;
    let mut j: usize = 0;
    while j < 6
        invariant
            j <= 6,
            out@ == base + row_cells(pits@, idxs.take(j as int)),
            idxs == (if top {
                top_row_idxs()
            } else {
                bottom_row_idxs()
            }),
        decreases 6 - j,
    {
        if j > 0 {
            out.append(" |");
        }
        let i = if top {
            6 + j
        } else {
            5 - j
        };
        push_cell(out, i, pits[i]);
        proof {
            reveal_strlit(" |");
            assert(idxs[j as int] == i as int);
            let taken = idxs.take(j as int + 1);
            assert(taken.drop_last() =~= idxs.take(j as int));
            assert(taken.last() == i as int);
            if j == 0 {
                assert(row_cells(pits@, taken) == cell(i as int, pits@[i as int]));
            } else {
                assert(row_cells(pits@, taken) == row_cells(pits@, idxs.take(j as int)) + seq![
                    ' ',
                    '|',
                ] + cell(i as int, pits@[i as int]));
            }
            assert(out@ =~= base + row_cells(pits@, taken));
        }
        j = j + 1;
    }
    proof {
        assert(idxs.take(6) =~= idxs);
    }
}

impl Board {
    /// Render the board as the fixed text-art picture described at the top
    /// of this module.
    pub fn to_display_string(&self) -> (r: String)
        ensures
            r@ == board_text(*self),
    {
        proof {
            reveal_strlit("\n");
            reveal_strlit("\n   ");
            reveal_strlit(" ");
            reveal_strlit("+");
            reveal_strlit("--------");
            lemma_spaces_small();
            assert("\n   "@ =~= seq!['\n'] + spaces(3));
            lemma_dec_rep_len(self.stores@[0] as nat);
        }
        let mut out = String::new();
        out.append("\n   ");
        push_row(&mut out, &self.pits, true);
        out.append("\n");
        push_dec(&mut out, self.stores[0]);
        if self.stores[0] < 10 {
            out.append(" ");
            proof {
                assert(pad_right(dec_rep(self.stores@[0] as nat), 2) =~= dec_rep(
                    self.stores@[0] as nat,
                ) + seq![' ']);
            }
        } else {
            proof {
                assert(pad_right(dec_rep(self.stores@[0] as nat), 2) == dec_rep(
                    self.stores@[0] as nat,
                ));
            }
        }
        out.append(" ");
        let mut k: usize = 0;
        let ghost sep_base = out@;
        while k < 6
            invariant
                k <= 6,
                out@ == sep_base + dash_segments(k as nat),
            decreases 6 - k,
        {
            if k > 0 {
                out.append("+");
            }
            out.append("--------");
            proof {
                reveal_strlit("+");
                reveal_strlit("--------");
                assert(dashes(8) =~= "--------"@) by {
                    reveal_with_fuel(dashes, 9);
                }
                if k == 0 {
                    assert(dash_segments(1) == dashes(8));
                } else {
                    assert(dash_segments(k as nat + 1) == dash_segments(k as nat) + seq!['+']
                        + dashes(8));
                }
                assert(out@ =~= sep_base + dash_segments(k as nat + 1));
            }
            k = k + 1;
        }
        out.append(" ");
        push_dec(&mut out, self.stores[1]);
        out.append("\n   ");
        push_row(&mut out, &self.pits, false);
        out.append("\n");
        proof {
            assert(out@ =~= board_text(*self));
        }
        out
    }
}

} // verus!
