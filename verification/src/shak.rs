//! The trusted boundary around the `shakmaty` crate and `rand`.
//!
//! The engine keeps every position as the bytes of its FEN record — always
//! `shakmaty`'s own rendering of it, so that the byte-level readers in
//! `fen` see the fields where the renderer puts them. Each item here is a
//! function from plain byte vectors to plain values. What a call returns
//! is a function of the FEN bytes alone; those results are given names
//! (`canon_of`, `legals_of`, `fen_after`, `in_check_of`) that the verified
//! code reasons with. Nothing else in the crate calls an outside crate.

use shakmaty::Position;
use vstd::prelude::*;

verus! {

/// `shakmaty`'s own rendering of the playable standard-chess position
/// these bytes describe, or `None` when it rejects them. The parser is
/// deliberately relaxed (missing fields, `_` separators, doubled spaces),
/// so the rendering, not the input, is what the engine stores.
pub uninterp spec fn canon_of(fen: Seq<u8>) -> Option<Seq<u8>>;

/// The legal moves of the position with this FEN, as UCI coordinate
/// notation (for example `e2e4`, `e7e8q`), in generation order.
pub uninterp spec fn legals_of(fen: Seq<u8>) -> Seq<Seq<u8>>;

/// The FEN of the position reached by playing the given legal UCI move on
/// the position with the given FEN.
pub uninterp spec fn fen_after(fen: Seq<u8>, uci: Seq<u8>) -> Seq<u8>;

/// Whether the side to move in the position with this FEN is in check.
pub uninterp spec fn in_check_of(fen: Seq<u8>) -> bool;

/// Relies on `shakmaty::fen::Fen::from_ascii`, `Fen::into_position` with
/// `CastlingMode::Standard`, and `Fen::from_position`: whether the bytes
/// are accepted, and the rendering of the accepted position, depend on
/// the bytes alone. Rendering is deterministic and parsing a rendered
/// record reconstructs the rendered position, so a rendering is a fixed
/// point of this canonicalization; a rendered record stays within 120
/// bytes (board and castling fields are bounded, the two counters are
/// `u32`s).
#[verifier::external_body]
pub(crate) fn shak_canonical_fen(fen: &Vec<u8>) -> (r: Option<Vec<u8>>)
    ensures
        r is Some <==> canon_of(fen@) is Some,
        r matches Some(v) ==> canon_of(fen@) == Some(v@) && canon_of(v@) == Some(v@)
            && v@.len() <= 120,
{
    let pos: shakmaty::Chess = shakmaty::fen::Fen::from_ascii(fen)
        .ok()?
        .into_position(shakmaty::CastlingMode::Standard)
        .ok()?;
    let mut out: Vec<u8> = Vec::new();
    shakmaty::fen::Fen::from_position(pos, shakmaty::EnPassantMode::Legal).append_ascii_to(&mut out);
    Some(out)
}

/// Relies on `shakmaty::Position::legal_moves` (its `MoveList` holds at
/// most 256 moves) and `Move::to_uci` for the coordinate rendering.
#[verifier::external_body]
pub(crate) fn shak_legal_ucis(fen: &Vec<u8>) -> (r: Vec<Vec<u8>>)
    requires
        canon_of(fen@) == Some(fen@),
    ensures
        r@.map_values(|m: Vec<u8>| m@) == legals_of(fen@),
        r@.len() <= 256,
{
    let pos: shakmaty::Chess = shakmaty::fen::Fen::from_ascii(fen)
        .unwrap()
        .into_position(shakmaty::CastlingMode::Standard)
        .unwrap();
    let mut out: Vec<Vec<u8>> = Vec::new();
    for m in pos.legal_moves() {
        let mut buf: Vec<u8> = Vec::new();
        m.to_uci(shakmaty::CastlingMode::Standard).append_ascii_to(&mut buf);
        out.push(buf);
    }
    out
}

/// Relies on `shakmaty::uci::UciMove::to_move` and `Position::play`: a
/// legal move applies cleanly and hands the move to the other side, and
/// the position it reaches is again playable. The result is rendered by
/// `Fen::from_position`, so it is its own canonical form and stays within
/// 120 bytes; in a rendered record the side-to-move field follows the
/// first space (the board field holds no space), so the byte that
/// `turn_white_of` reads flips between the canonical input and the
/// rendered successor.
#[verifier::external_body]
pub(crate) fn shak_play_uci(fen: &Vec<u8>, uci: &Vec<u8>) -> (r: Vec<u8>)
    requires
        canon_of(fen@) == Some(fen@),
        legals_of(fen@).contains(uci@),
    ensures
        r@ == fen_after(fen@, uci@),
        canon_of(r@) == Some(r@),
        r@.len() <= 120,
        crate::fen::turn_white_of(r@) == !crate::fen::turn_white_of(fen@),
{
    let pos: shakmaty::Chess = shakmaty::fen::Fen::from_ascii(fen)
        .unwrap()
        .into_position(shakmaty::CastlingMode::Standard)
        .unwrap();
    let m = shakmaty::uci::UciMove::from_ascii(uci).unwrap().to_move(&pos).unwrap();
    let next = pos.play(&m).unwrap();
    let mut out: Vec<u8> = Vec::new();
    shakmaty::fen::Fen::from_position(next, shakmaty::EnPassantMode::Legal).append_ascii_to(&mut out);
    out
}

/// Relies on `shakmaty::Position::is_check`: whether the king of the side
/// to move is attacked.
#[verifier::external_body]
pub(crate) fn shak_in_check(fen: &Vec<u8>) -> (r: bool)
    requires
        canon_of(fen@) == Some(fen@),
    ensures
        r == in_check_of(fen@),
{
    let pos: shakmaty::Chess = shakmaty::fen::Fen::from_ascii(fen)
        .unwrap()
        .into_position(shakmaty::CastlingMode::Standard)
        .unwrap();
    pos.is_check()
}

/// Relies on `rand::random`: a coin flip from the thread-local generator.
/// Nothing can be promised of the value.
#[verifier::external_body]
pub(crate) fn coin() -> bool {
    rand::random()
}

} // verus!
