//! The position model. A `Pos` holds the FEN record of a playable
//! standard-chess position, always in `shakmaty`'s own rendering: every
//! `Pos` in existence was parsed, validated and re-rendered, or reached
//! from such a record by a legal move. So the placement field runs to the
//! first space, the side-to-move field follows it, and the record fits in
//! 120 bytes, which keeps the scores computed over it from overflowing.

use crate::fen::{placement_bytes, placement_of, turn_is_white, turn_white_of};
use crate::shak::{
    canon_of, fen_after, in_check_of, legals_of, shak_canonical_fen, shak_in_check,
    shak_legal_ucis, shak_play_uci,
};
use vstd::prelude::*;

verus! {

/// Longest FEN record the engine holds; `shakmaty`'s rendering of a
/// playable position is always shorter.
pub const MAX_FEN_LEN: usize = 120;

/// Checkmate: the side to move is in check and has no legal move.
pub open spec fn checkmate_of(f: Seq<u8>) -> bool {
    in_check_of(f) && legals_of(f).len() == 0
}

/// Stalemate: the side to move is not in check and has no legal move.
pub open spec fn stalemate_of(f: Seq<u8>) -> bool {
    !in_check_of(f) && legals_of(f).len() == 0
}

/// A stalemated position offers no legal move, yet is not checkmate: the
/// two terminal verdicts never overlap, and both mean the move list is
/// empty.
pub proof fn lemma_stalemate_not_checkmate(f: Seq<u8>)
    ensures
        stalemate_of(f) ==> !checkmate_of(f) && legals_of(f).len() == 0,
        checkmate_of(f) ==> !stalemate_of(f) && legals_of(f).len() == 0,
{
}

/// Do two byte vectors hold the same bytes?
pub fn bytes_eq(a: &Vec<u8>, b: &Vec<u8>) -> (r: bool)
    ensures
        r == (a@ == b@),
{
    if a.len() != b.len() {
        return false;
    }
    let mut i: usize = 0;
    while i < a.len()
        invariant
            i <= a@.len(),
            a@.len() == b@.len(),
            forall|j: int| 0 <= j < i ==> a@[j] == b@[j],
        decreases a@.len() - i,
    {
        if a[i] != b[i] {
            return false;
        }
        i = i + 1;
    }
    proof {
        assert(a@ =~= b@);
    }
    true
}

/// A playable standard-chess position, kept as its canonical FEN record.
pub struct Pos {
    fen: Vec<u8>,
}

impl View for Pos {
    type V = Seq<u8>;

    closed spec fn view(&self) -> Seq<u8> {
        self.fen@
    }
}

impl Pos {
    #[verifier::type_invariant]
    spec fn inv(self) -> bool {
        canon_of(self.fen@) == Some(self.fen@) && self.fen@.len() <= MAX_FEN_LEN
    }

    /// Parse and validate a FEN record, keeping `shakmaty`'s rendering of
    /// it. Returns `None` exactly when `shakmaty` rejects the bytes.
    pub fn from_fen(bytes: &Vec<u8>) -> (r: Option<Pos>)
        ensures
            r is Some <==> canon_of(bytes@) is Some,
            r matches Some(p) ==> Some(p@) == canon_of(bytes@),
    {
        match shak_canonical_fen(bytes) {
            Some(fen) => Some(Pos { fen }),
            None => None,
        }
    }

    /// The FEN record of this position.
    pub fn fen_bytes(&self) -> (r: &Vec<u8>)
        ensures
            r@ == self@,
            r@.len() <= MAX_FEN_LEN,
    {
        proof {
            use_type_invariant(&*self);
        }
        &self.fen
    }

    /// The piece-placement field of the FEN: the board picture alone,
    /// which is what repetition detection compares.
    pub fn placement(&self) -> (r: Vec<u8>)
        ensures
            r@ == placement_of(self@),
            r@.len() <= MAX_FEN_LEN,
    {
        proof {
            use_type_invariant(&*self);
        }
        placement_bytes(&self.fen)
    }

    /// Whether White has the move.
    pub fn white_to_move(&self) -> (r: bool)
        ensures
            r == turn_white_of(self@),
    {
        turn_is_white(&self.fen)
    }

    /// All legal moves of this position, in UCI coordinate notation.
    pub fn legal_moves(&self) -> (r: Vec<Vec<u8>>)
        ensures
            r@.map_values(|m: Vec<u8>| m@) == legals_of(self@),
            r@.len() <= 256,
    {
        proof {
            use_type_invariant(&*self);
        }
        shak_legal_ucis(&self.fen)
    }

    /// Whether the side to move is in check.
    pub fn in_check(&self) -> (r: bool)
        ensures
            r == in_check_of(self@),
    {
        proof {
            use_type_invariant(&*self);
        }
        shak_in_check(&self.fen)
    }

    /// Whether the side to move is checkmated.
    pub fn is_checkmate(&self) -> (r: bool)
        ensures
            r == checkmate_of(self@),
    {
        let legals = self.legal_moves();
        legals.len() == 0 && self.in_check()
    }

    /// Whether the side to move is stalemated.
    pub fn is_stalemate(&self) -> (r: bool)
        ensures
            r == stalemate_of(self@),
    {
        let legals = self.legal_moves();
        legals.len() == 0 && !self.in_check()
    }

    /// Play `uci` if it is a legal move of this position; `None` exactly
    /// when it is not.
    pub fn try_apply(&self, uci: &Vec<u8>) -> (r: Option<Pos>)
        ensures
            r is Some <==> legals_of(self@).contains(uci@),
            r matches Some(q) ==> q@ == fen_after(self@, uci@) && turn_white_of(q@)
                == !turn_white_of(self@),
    {
        proof {
            use_type_invariant(&*self);
        }
        let legals = self.legal_moves();
        let mut i: usize = 0;
        let mut found = false;
        while i < legals.len()
            invariant
                i <= legals@.len(),
                legals@.map_values(|m: Vec<u8>| m@) == legals_of(self@),
                found == exists|j: int| 0 <= j < i && legals@[j]@ == uci@,
            decreases legals@.len() - i,
        {
            if bytes_eq(&legals[i], uci) {
                found = true;
            }
            i = i + 1;
        }
        proof {
            assert(found == legals_of(self@).contains(uci@)) by {
                if found {
                    let j = choose|j: int| 0 <= j < legals@.len() && legals@[j]@ == uci@;
                    assert(legals_of(self@)[j] == uci@);
                } else {
                    if legals_of(self@).contains(uci@) {
                        let j = choose|j: int|
                            0 <= j < legals_of(self@).len() && legals_of(self@)[j] == uci@;
                        assert(legals@[j]@ == uci@);
                    }
                }
            }
        }
        if found {
            let next = shak_play_uci(&self.fen, uci);
            Some(Pos { fen: next })
        } else {
            None
        }
    }
}

} // verus!
