//! The tie-break source. When the search finds two moves of exactly equal
//! score it flips a coin to choose between them. The source is injected
//! into the search call: a seeded variant runs a fully specified xorshift
//! generator, so that repeated searches from the same inputs are
//! reproducible, and a system variant draws from `rand`.

use crate::shak::coin;
use vstd::prelude::*;

verus! {

/// One xorshift step; 0 is a fixed point, any other seed keeps producing
/// nonzero states.
pub open spec fn xorshift_step(s: u64) -> u64 {
    let a = s ^ (s << 13);
    let b = a ^ (a >> 7);
    b ^ (b << 17)
}

/// A source of coin flips for breaking score ties.
pub enum TieBreak {
    /// Deterministic: a xorshift generator over the held state.
    Seeded(u64),
    /// The `rand` crate's thread-local generator.
    System,
}

impl TieBreak {
    /// Draw one coin flip. A seeded source steps its state and reports the
    /// low bit; nothing is promised of a system draw.
    pub fn next_bool(&mut self) -> (r: bool)
        ensures
            *old(self) matches TieBreak::Seeded(s) ==> *final(self) == TieBreak::Seeded(
                xorshift_step(s),
            ) && r == (xorshift_step(s) & 1 == 1),
            *old(self) is System ==> *final(self) is System,
    {
        match self {
            TieBreak::Seeded(state) => {
                let s = *state;
                let a = s ^ (s << 13u64);
                let b = a ^ (a >> 7u64);
                let n = b ^ (b << 17u64);
                *state = n;
                n & 1 == 1
            },
            TieBreak::System => coin(),
        }
    }
}

} // verus!
