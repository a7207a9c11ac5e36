//! A fixed-depth chess engine core: position handling, evaluation and
//! alpha-beta search, with move generation and move application delegated
//! to the `shakmaty` crate behind a small trusted boundary.

pub mod eval;
pub mod fen;
pub mod game;
pub mod pos;
pub mod search;
pub mod seen;
pub mod shak;
pub mod tie;
