//! Setting up a game from a FEN record and a list of moves already
//! played: validate the record, replay the moves, and record the board
//! placement of every position along the way for repetition detection.

use crate::fen::placement_of;
use crate::pos::Pos;
use crate::seen::SeenSet;
use crate::shak::{canon_of, fen_after, legals_of};
use vstd::prelude::*;

verus! {

/// The FEN reached by replaying `ms` from `f`, or `None` as soon as a
/// move is not legal in the position reached so far.
pub open spec fn replay_of(f: Seq<u8>, ms: Seq<Seq<u8>>) -> Option<Seq<u8>>
    decreases ms.len(),
{
    if ms.len() == 0 {
        Some(f)
    } else if legals_of(f).contains(ms[0]) {
        replay_of(fen_after(f, ms[0]), ms.drop_first())
    } else {
        None
    }
}

/// The board placements of every position visited while replaying `ms`
/// from `f`: the starting board and the board after each legal move.
pub open spec fn seen_keys_of(f: Seq<u8>, ms: Seq<Seq<u8>>) -> Seq<Seq<u8>>
    decreases ms.len(),
{
    if ms.len() == 0 {
        seq![placement_of(f)]
    } else if legals_of(f).contains(ms[0]) {
        seq![placement_of(f)] + seen_keys_of(fen_after(f, ms[0]), ms.drop_first())
    } else {
        seq![placement_of(f)]
    }
}

/// Validate `fen`, replay `moves` on its canonical form, and collect the
/// boards seen. `None` exactly when the record is rejected or a move is
/// illegal; prior engine state is then left for the caller to keep.
pub fn setup_with_fen_and_moves(fen: &Vec<u8>, moves: &Vec<Vec<u8>>) -> (r: Option<
    (Pos, SeenSet),
>)
    ensures
        r is Some <==> (canon_of(fen@) matches Some(c) && replay_of(
            c,
            moves@.map_values(|m: Vec<u8>| m@),
        ) is Some),
        r matches Some(pr) ==> (canon_of(fen@) matches Some(c) && Some(pr.0@) == replay_of(
            c,
            moves@.map_values(|m: Vec<u8>| m@),
        ) && pr.1@ == seen_keys_of(c, moves@.map_values(|m: Vec<u8>| m@))),
{
    let ghost ms = moves@.map_values(|m: Vec<u8>| m@);
    let p0 = match Pos::from_fen(fen) {
        Some(p) => p,
        None => {
            return None;
        },
    };
    let ghost c = p0@;
    let mut seen = SeenSet::new();
    seen.insert(p0.placement());
    let mut cur = p0;
    let mut i: usize = 0;
    proof {
        assert(ms.skip(0) =~= ms);
        assert(seen@.drop_last() =~= Seq::<Seq<u8>>::empty());
        assert(seen@.drop_last() + seen_keys_of(cur@, ms) =~= seen_keys_of(c, ms));
    }
    while i < moves.len()
        invariant
            i <= moves@.len(),
            ms == moves@.map_values(|m: Vec<u8>| m@),
            seen@.len() == i + 1,
            seen@.last() == placement_of(cur@),
            c == canon_of(fen@)->Some_0,
            canon_of(fen@) is Some,
            seen_keys_of(c, ms) == seen@.drop_last() + seen_keys_of(cur@, ms.skip(i as int)),
            replay_of(c, ms) == replay_of(cur@, ms.skip(i as int)),
        decreases moves@.len() - i,
    {
        let ghost rest = ms.skip(i as int);
        proof {
            assert(rest.len() == ms.len() - i);
            assert(rest[0] == ms[i as int]);
            assert(ms[i as int] == moves@[i as int]@);
            assert(rest.drop_first() =~= ms.skip(i as int + 1));
        }
        match cur.try_apply(&moves[i]) {
            Some(next) => {
                proof {
                    assert(legals_of(cur@).contains(rest[0]));
                    assert(replay_of(cur@, rest) == replay_of(next@, ms.skip(i as int + 1)));
                    assert(seen_keys_of(cur@, rest) == seq![placement_of(cur@)] + seen_keys_of(
                        next@,
                        ms.skip(i as int + 1),
                    ));
                }
                let ghost seen0 = seen@;
                seen.insert(next.placement());
                proof {
                    assert(seen@.drop_last() =~= seen0);
                    assert(seen0.drop_last() + (seq![placement_of(cur@)] + seen_keys_of(
                        next@,
                        ms.skip(i as int + 1),
                    )) =~= seen@.drop_last() + seen_keys_of(next@, ms.skip(i as int + 1)));
                }
                cur = next;
            },
            None => {
                proof {
                    assert(!legals_of(cur@).contains(rest[0]));
                    assert(replay_of(cur@, rest) is None);
                }
                return None;
            },
        }
        i = i + 1;
    }
    proof {
        assert(ms.skip(i as int) =~= Seq::<Seq<u8>>::empty());
        assert(replay_of(cur@, ms.skip(i as int)) == Some(cur@));
        assert(seen@.drop_last() + seen_keys_of(cur@, ms.skip(i as int)) =~= seen@);
    }
    Some((cur, seen))
}

} // verus!
