//! Reading the two fields of a FEN record that the engine itself needs:
//! the piece-placement field (everything before the first space), which
//! identifies a board for repetition detection and scoring, and the
//! side-to-move field (the character right after the first space).

use vstd::prelude::*;

verus! {

/// The piece-placement field of a FEN record: its bytes up to (not
/// including) the first space.
pub open spec fn placement_of(s: Seq<u8>) -> Seq<u8>
    decreases s.len(),
{
    if s.len() == 0 {
        Seq::empty()
    } else if s[0] == 32 {
        Seq::empty()
    } else {
        seq![s[0]] + placement_of(s.drop_first())
    }
}

/// Whether the side-to-move field of a FEN record says White: the byte
/// right after the first space is `w`.
pub open spec fn turn_white_of(s: Seq<u8>) -> bool
    decreases s.len(),
{
    if s.len() < 2 {
        false
    } else if s[0] == 32 {
        s[1] == 119
    } else {
        turn_white_of(s.drop_first())
    }
}

proof fn lemma_placement_take(s: Seq<u8>, i: int)
    requires
        0 <= i <= s.len(),
        forall|j: int| 0 <= j < i ==> s[j] != 32,
        i == s.len() || s[i] == 32,
    ensures
        placement_of(s) == s.take(i),
    decreases s.len(),
{
    if i == 0 {
        assert(s.take(0) =~= Seq::<u8>::empty());
        if s.len() != 0 {
            assert(s[0] == 32);
        }
        if s.len() == 0 {
            assert(placement_of(s) =~= s.take(0));
        }
    } else {
        assert(s[0] != 32);
        lemma_placement_take(s.drop_first(), i - 1);
        assert(seq![s[0]] + s.drop_first().take(i - 1) =~= s.take(i));
    }
}

proof fn lemma_turn_first_space(s: Seq<u8>, i: int)
    requires
        0 <= i <= s.len(),
        forall|j: int| 0 <= j < i ==> s[j] != 32,
        i == s.len() || s[i] == 32,
    ensures
        turn_white_of(s) == (i + 1 < s.len() && s[i + 1] == 119),
    decreases s.len(),
{
    if s.len() < 2 {
    } else if s[0] == 32 {
        assert(i == 0);
    } else {
        assert(i >= 1);
        lemma_turn_first_space(s.drop_first(), i - 1);
        if i + 1 < s.len() {
            assert(s.drop_first()[i] == s[i + 1]);
        }
    }
}

/// Index of the first space in `s`, or `s.len()` if there is none.
fn first_space(s: &Vec<u8>) -> (r: usize)
    ensures
        r <= s@.len(),
        forall|j: int| 0 <= j < r ==> s@[j] != 32,
        r == s@.len() || s@[r as int] == 32,
{
    let mut i: usize = 0;
    while i < s.len() && s[i] != 32
        invariant
            i <= s@.len(),
            forall|j: int| 0 <= j < i ==> s@[j] != 32,
        decreases s@.len() - i,
    {
        i = i + 1;
    }
    i
}

/// The piece-placement field of a FEN record, as its own byte vector.
pub fn placement_bytes(s: &Vec<u8>) -> (r: Vec<u8>)
    ensures
        r@ == placement_of(s@),
        r@.len() <= s@.len(),
{
    let mut out: Vec<u8> = Vec::new();
    let mut i: usize = 0;
    while i < s.len() && s[i] != 32
        invariant
            i <= s@.len(),
            forall|j: int| 0 <= j < i ==> s@[j] != 32,
            out@ == s@.take(i as int),
        decreases s@.len() - i,
    {
        out.push(s[i]);
        assert(out@ =~= s@.take(i + 1));
        i = i + 1;
    }
    proof {
        lemma_placement_take(s@, i as int);
    }
    out
}

/// Whether the FEN record gives White the move.
pub fn turn_is_white(s: &Vec<u8>) -> (r: bool)
    ensures
        r == turn_white_of(s@),
{
    let i = first_space(s);
    proof {
        lemma_turn_first_space(s@, i as int);
    }
    if i >= s.len() {
        false
    } else {
        i + 1 < s.len() && s[i + 1] == 119
    }
}

} // verus!
