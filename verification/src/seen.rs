//! The positions already reached in the game being played. The driver
//! records the placement field of every position actually played (not of
//! positions the search merely explores); during a search the set is only
//! read, and a move that recreates a recorded board is scored as a draw.

use crate::pos::bytes_eq;
use vstd::prelude::*;

verus! {

/// Board placements seen so far in this game, in the order they occurred.
pub struct SeenSet {
    keys: Vec<Vec<u8>>,
}

impl View for SeenSet {
    type V = Seq<Seq<u8>>;

    closed spec fn view(&self) -> Seq<Seq<u8>> {
        self.keys@.map_values(|k: Vec<u8>| k@)
    }
}

impl SeenSet {
    /// An empty record, for the start of a new game.
    pub fn new() -> (r: SeenSet)
        ensures
            r@ == Seq::<Seq<u8>>::empty(),
    {
        let r = SeenSet { keys: Vec::new() };
        proof {
            assert(r@ =~= Seq::<Seq<u8>>::empty());
        }
        r
    }

    /// Record one more board placement.
    pub fn insert(&mut self, key: Vec<u8>)
        ensures
            final(self)@ == old(self)@.push(key@),
    {
        let ghost k = key@;
        self.keys.push(key);
        proof {
            assert(self@ =~= old(self)@.push(k));
        }
    }

    /// Whether this board placement was already seen.
    pub fn contains(&self, key: &Vec<u8>) -> (r: bool)
        ensures
            r == self@.contains(key@),
    {
        let mut i: usize = 0;
        let mut found = false;
        while i < self.keys.len()
            invariant
                i <= self.keys@.len(),
                found == exists|j: int| 0 <= j < i && self.keys@[j]@ == key@,
            decreases self.keys@.len() - i,
        {
            if bytes_eq(&self.keys[i], key) {
                found = true;
            }
            i = i + 1;
        }
        proof {
            assert(found == self@.contains(key@)) by {
                if found {
                    let j = choose|j: int| 0 <= j < self.keys@.len() && self.keys@[j]@ == key@;
                    assert(self@[j] == key@);
                } else {
                    if self@.contains(key@) {
                        let j = choose|j: int| 0 <= j < self@.len() && self@[j] == key@;
                        assert(self.keys@[j]@ == key@);
                    }
                }
            }
        }
        found
    }
}

} // verus!
