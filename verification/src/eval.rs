//! Static evaluation. The material score is read straight off the FEN
//! piece-placement field: piece values (queen 9, rook 5, bishop and knight
//! 3, pawn 1) plus a pawn-advancement bonus, positive for White, and
//! doubled, so that material dominates wherever the mobility term is also
//! weighed. The mobility term compares how many legal moves each position
//! allows, signed so that a gain favors the side that just moved.

use crate::fen::{placement_of, turn_white_of};
use crate::pos::Pos;
use crate::shak::legals_of;
use vstd::prelude::*;

verus! {

/// Advancement bonus for a White pawn on placement row `row` (row 0 is
/// rank 8): +1 on ranks 3 to 5, +2 on ranks 6 and 7.
pub open spec fn white_pawn_bonus(row: int) -> int {
    if 1 <= row <= 2 {
        2
    } else if 3 <= row <= 5 {
        1
    } else {
        0
    }
}

/// Advancement bonus for a Black pawn, mirrored: +1 on ranks 4 to 6, +2 on
/// ranks 2 and 3.
pub open spec fn black_pawn_bonus(row: int) -> int {
    if 5 <= row <= 6 {
        2
    } else if 2 <= row <= 4 {
        1
    } else {
        0
    }
}

/// Signed value of one placement byte on row `row`: upper-case piece
/// letters count for White, lower-case for Black, anything else (digits,
/// kings, rank separators) counts 0.
pub open spec fn piece_score(c: u8, row: int) -> int {
    if c == 80 {
        1 + white_pawn_bonus(row)
    } else if c == 78 || c == 66 {
        3
    } else if c == 82 {
        5
    } else if c == 81 {
        9
    } else if c == 112 {
        -1 - black_pawn_bonus(row)
    } else if c == 110 || c == 98 {
        -3
    } else if c == 114 {
        -5
    } else if c == 113 {
        -9
    } else {
        0
    }
}

/// Sum of piece scores over a placement field, tracking the current row:
/// a `/` byte steps to the next row.
pub open spec fn placement_score(s: Seq<u8>, row: int) -> int
    decreases s.len(),
{
    if s.len() == 0 {
        0
    } else if s[0] == 47 {
        placement_score(s.drop_first(), row + 1)
    } else {
        piece_score(s[0], row) + placement_score(s.drop_first(), row)
    }
}

/// The static score of a position: twice its material-and-advancement
/// difference, positive when White is ahead.
pub open spec fn board_score_of(f: Seq<u8>) -> int {
    2 * placement_score(placement_of(f), 0)
}

/// The mobility term between a position and its successor: the drop in
/// the opponent's legal-move count, signed on the White-positive scale.
pub open spec fn mobility_of(prev: Seq<u8>, next: Seq<u8>) -> int {
    if turn_white_of(prev) {
        legals_of(prev).len() - legals_of(next).len()
    } else {
        legals_of(next).len() - legals_of(prev).len()
    }
}

/// The placement field never outgrows the record it was read from.
pub proof fn lemma_placement_len(s: Seq<u8>)
    ensures
        placement_of(s).len() <= s.len(),
    decreases s.len(),
{
    if s.len() != 0 && s[0] != 32 {
        lemma_placement_len(s.drop_first());
    }
}

/// Each placement byte is worth at most 11 points, so a placement score
/// is bounded by 11 per byte.
pub proof fn lemma_placement_score_bound(s: Seq<u8>, row: int)
    ensures
        -11 * s.len() <= placement_score(s, row) <= 11 * s.len(),
    decreases s.len(),
{
    if s.len() != 0 {
        if s[0] == 47 {
            lemma_placement_score_bound(s.drop_first(), row + 1);
        } else {
            lemma_placement_score_bound(s.drop_first(), row);
        }
    }
}

/// The static score of a FEN record of at most `n` bytes is bounded by
/// 22 points per byte.
pub proof fn lemma_board_score_bound(f: Seq<u8>, n: int)
    requires
        f.len() <= n,
    ensures
        -22 * n <= board_score_of(f) <= 22 * n,
{
    lemma_placement_len(f);
    lemma_placement_score_bound(placement_of(f), 0);
}

fn piece_val(c: u8, row: i32) -> (r: i32)
    ensures
        r as int == piece_score(c, row as int),
        -11 <= r <= 11,
{
    if c == 80 {
        if 1 <= row && row <= 2 {
            3
        } else if 3 <= row && row <= 5 {
            2
        } else {
            1
        }
    } else if c == 78 || c == 66 {
        3
    } else if c == 82 {
        5
    } else if c == 81 {
        9
    } else if c == 112 {
        if 5 <= row && row <= 6 {
            -3
        } else if 2 <= row && row <= 4 {
            -2
        } else {
            -1
        }
    } else if c == 110 || c == 98 {
        -3
    } else if c == 114 {
        -5
    } else if c == 113 {
        -9
    } else {
        0
    }
}

/// The static score of `p`, exactly `board_score_of(p@)`.
pub fn board_score(p: &Pos) -> (r: i32)
    ensures
        r as int == board_score_of(p@),
        -2640 <= r <= 2640,
{
    let pl = p.placement();
    let mut acc: i32 = 0;
    let mut row: i32 = 0;
    let mut i: usize = 0;
    proof {
        assert(pl@.skip(0) =~= pl@);
    }
    while i < pl.len()
        invariant
            i <= pl@.len(),
            pl@.len() <= 120,
            pl@ == placement_of(p@),
            placement_score(pl@, 0) == acc + placement_score(pl@.skip(i as int), row as int),
            -11 * (i as int) <= acc as int <= 11 * (i as int),
            0 <= row as int <= i as int,
        decreases pl@.len() - i,
    {
        let c = pl[i];
        proof {
            assert(pl@.skip(i as int)[0] == pl@[i as int]);
            assert(pl@.skip(i as int).drop_first() =~= pl@.skip(i as int + 1));
        }
        if c == 47 {
            row = row + 1;
        } else {
            let d = piece_val(c, row);
            acc = acc + d;
        }
        i = i + 1;
    }
    proof {
        assert(pl@.skip(pl@.len() as int) =~= Seq::<u8>::empty());
    }
    2 * acc
}

/// The mobility term between `prev` and its successor `next`, exactly
/// `mobility_of(prev@, next@)`.
pub fn mobility_score(prev: &Pos, next: &Pos) -> (r: i32)
    ensures
        r as int == mobility_of(prev@, next@),
        -256 <= r <= 256,
{
    let a = prev.legal_moves().len() as i32;
    let b = next.legal_moves().len() as i32;
    if prev.white_to_move() {
        a - b
    } else {
        b - a
    }
}

} // verus!
