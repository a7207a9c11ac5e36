use chesscore::eval::{board_score, mobility_score};
use chesscore::game::setup_with_fen_and_moves;
use chesscore::pos::Pos;
use chesscore::seen::SeenSet;
use chesscore::tie::TieBreak;

const STARTPOS: &str = "rnbqkbnr/pppppppp/8/8/8/8/PPPPPPPP/RNBQKBNR w KQkq - 0 1";

fn p(fen: &str) -> Pos {
    Pos::from_fen(&fen.as_bytes().to_vec()).expect("valid fen")
}

fn has_move(pos: &Pos, uci: &str) -> bool {
    pos.legal_moves().iter().any(|m| m.as_slice() == uci.as_bytes())
}

/// Expand a placement field into 64 squares; index 0 is a8, 63 is h1.
fn expand(pl: &[u8]) -> [u8; 64] {
    let mut b = [0u8; 64];
    let mut idx = 0;
    for &c in pl {
        if c == b'/' {
            continue;
        }
        if c.is_ascii_digit() {
            idx += (c - b'0') as usize;
        } else {
            b[idx] = c;
            idx += 1;
        }
    }
    assert_eq!(idx, 64);
    b
}

/// Board index of a two-byte coordinate like `e2`.
fn sq(coord: &[u8]) -> usize {
    let file = (coord[0] - b'a') as usize;
    let rank = (coord[1] - b'1') as usize;
    (7 - rank) * 8 + file
}

#[test]
fn startpos_has_twenty_moves() {
    assert_eq!(p(STARTPOS).legal_moves().len(), 20);
}

#[test]
fn from_fen_rejects_garbage() {
    assert!(Pos::from_fen(&b"not a fen".to_vec()).is_none());
    assert!(Pos::from_fen(&Vec::new()).is_none());
    assert!(Pos::from_fen(&b"rnbqkbnr/pppppppp/8/8/8/8/PPPPPPPP w KQkq - 0 1".to_vec()).is_none());
}

#[test]
fn from_fen_keeps_the_record() {
    let pos = p(STARTPOS);
    assert_eq!(pos.fen_bytes().as_slice(), STARTPOS.as_bytes());
    assert_eq!(pos.placement().as_slice(), b"rnbqkbnr/pppppppp/8/8/8/8/PPPPPPPP/RNBQKBNR");
    assert!(pos.white_to_move());
}

#[test]
fn apply_changes_board_and_turn() {
    let pos = p(STARTPOS);
    let next = pos.try_apply(&b"e2e4".to_vec()).expect("e2e4 is legal");
    assert!(!next.white_to_move());
    let board = expand(&next.placement());
    assert_eq!(board[sq(b"e2")], 0);
    assert_eq!(board[sq(b"e4")], b'P');
    assert!(pos.try_apply(&b"e2e5".to_vec()).is_none());
    assert!(pos.try_apply(&b"zz99".to_vec()).is_none());
}

#[test]
fn relaxed_records_are_canonicalized() {
    // The parser accepts a board-only record and fills in the missing
    // fields; the engine keeps the full rendering, so the side to move
    // and the placement field read correctly.
    let pos = p("8/8/8/4k3/8/8/8/4K3");
    assert!(pos.white_to_move());
    assert_eq!(pos.fen_bytes().as_slice(), b"8/8/8/4k3/8/8/8/4K3 w - - 0 1");
    assert_eq!(pos.placement().as_slice(), b"8/8/8/4k3/8/8/8/4K3");
    assert_eq!(pos.legal_moves().len(), 5);
    let next = pos.try_apply(&b"e1e2".to_vec()).expect("e1e2 is legal");
    assert!(!next.white_to_move());
}

#[test]
fn underscore_records_are_canonicalized() {
    let pos = p("4k3/8/8/8/8/8/8/4K3_b_-_-_3_7");
    assert!(!pos.white_to_move());
    assert_eq!(pos.fen_bytes().as_slice(), b"4k3/8/8/8/8/8/8/4K3 b - - 3 7");
}

#[test]
fn board_score_startpos_is_zero() {
    assert_eq!(board_score(&p(STARTPOS)), 0);
}

#[test]
fn board_score_counts_pawn_advancement() {
    // A lone white pawn on d5 (rank 5): one point of material plus one
    // of advancement, doubled.
    assert_eq!(board_score(&p("8/8/8/3P4/8/8/8/K6k w - - 0 1")), 4);
    // The mirrored black pawn on d4.
    assert_eq!(board_score(&p("8/8/8/8/3p4/8/8/K6k w - - 0 1")), -4);
}

#[test]
fn board_score_counts_material() {
    // White is missing all eight pawns: 2 * (31 - 39).
    assert_eq!(board_score(&p("rnbqkbnr/pppppppp/8/8/8/8/8/RNBQKBNR w KQkq - 0 1")), -16);
}

#[test]
fn checkmate_is_detected() {
    // The fool's mate: White is checkmated.
    let pos = p("rnb1kbnr/pppp1ppp/8/4p3/6Pq/5P2/PPPPP2P/RNBQKBNR w KQkq - 0 3");
    assert!(pos.in_check());
    assert!(pos.is_checkmate());
    assert!(!pos.is_stalemate());
    assert_eq!(pos.legal_moves().len(), 0);
}

#[test]
fn stalemate_is_detected() {
    let pos = p("7k/5Q2/6K1/8/8/8/8/8 b - - 0 1");
    assert!(!pos.in_check());
    assert!(!pos.is_checkmate());
    assert!(pos.is_stalemate());
    assert_eq!(pos.legal_moves().len(), 0);
}

#[test]
fn promotions_are_generated() {
    let pos = p("8/P6k/8/8/8/8/8/K7 w - - 0 1");
    for m in ["a7a8q", "a7a8r", "a7a8b", "a7a8n"] {
        assert!(has_move(&pos, m), "missing promotion {}", m);
    }
}

#[test]
fn en_passant_capture_removes_the_pawn() {
    let pos = p("k7/8/8/3pP3/8/8/8/K7 w - d6 0 2");
    assert!(has_move(&pos, "e5d6"));
    let next = pos.try_apply(&b"e5d6".to_vec()).expect("en passant is legal");
    let board = expand(&next.placement());
    assert_eq!(board[sq(b"e5")], 0);
    assert_eq!(board[sq(b"d5")], 0);
    assert_eq!(board[sq(b"d6")], b'P');
}

#[test]
fn castling_moves_both_pieces() {
    let pos = p("r3k2r/p1ppqpb1/bn2pnp1/3PN3/1p2P3/2N2Q1p/PPPBBPPP/R3K2R w KQkq - 0 1");
    assert!(has_move(&pos, "e1g1"));
    let next = pos.try_apply(&b"e1g1".to_vec()).expect("castling is legal");
    let board = expand(&next.placement());
    assert_eq!(board[sq(b"e1")], 0);
    assert_eq!(board[sq(b"h1")], 0);
    assert_eq!(board[sq(b"g1")], b'K');
    assert_eq!(board[sq(b"f1")], b'R');
}

#[test]
fn mobility_rewards_restricting_the_opponent() {
    // A rook and king against a bare king: 16 moves before, 4 after.
    let prev = p("1k6/8/8/8/8/8/8/R6K w - - 0 1");
    assert_eq!(prev.legal_moves().len(), 16);
    let next = prev.try_apply(&b"a1b1".to_vec()).unwrap();
    assert_eq!(next.legal_moves().len(), 4);
    assert_eq!(mobility_score(&prev, &next), 12);
    // Mirrored for Black: the same gain on the White-positive scale is
    // negative.
    let prev = p("1K6/8/8/8/8/8/8/r6k b - - 0 1");
    let next = prev.try_apply(&b"a1b1".to_vec()).unwrap();
    assert_eq!(mobility_score(&prev, &next), -12);
}

#[test]
fn setup_replays_moves_and_records_boards() {
    let moves: Vec<Vec<u8>> = vec![b"e2e4".to_vec(), b"e7e5".to_vec()];
    let (pos, seen) =
        setup_with_fen_and_moves(&STARTPOS.as_bytes().to_vec(), &moves).expect("legal line");
    assert_eq!(
        pos.fen_bytes().as_slice(),
        b"rnbqkbnr/pppp1ppp/8/4p3/4P3/8/PPPP1PPP/RNBQKBNR w KQkq - 0 2"
    );
    assert!(seen.contains(&b"rnbqkbnr/pppppppp/8/8/8/8/PPPPPPPP/RNBQKBNR".to_vec()));
    assert!(seen.contains(&b"rnbqkbnr/pppppppp/8/8/4P3/8/PPPP1PPP/RNBQKBNR".to_vec()));
    assert!(seen.contains(&pos.placement()));
    assert!(!seen.contains(&b"8/8/8/8/8/8/8/8".to_vec()));
}

#[test]
fn setup_rejects_an_illegal_move() {
    let moves: Vec<Vec<u8>> = vec![b"e2e4".to_vec(), b"e2e4".to_vec()];
    assert!(setup_with_fen_and_moves(&STARTPOS.as_bytes().to_vec(), &moves).is_none());
    assert!(setup_with_fen_and_moves(&b"garbage".to_vec(), &Vec::new()).is_none());
}

#[test]
fn shuffle_returns_to_the_start_board() {
    let moves: Vec<Vec<u8>> =
        vec![b"g1f3".to_vec(), b"g8f6".to_vec(), b"f3g1".to_vec(), b"f6g8".to_vec()];
    let (pos, seen) =
        setup_with_fen_and_moves(&STARTPOS.as_bytes().to_vec(), &moves).expect("legal shuffle");
    assert_eq!(pos.placement().as_slice(), b"rnbqkbnr/pppppppp/8/8/8/8/PPPPPPPP/RNBQKBNR");
    assert!(seen.contains(&pos.placement()));
}

#[test]
fn seeded_tie_break_is_reproducible() {
    let mut a = TieBreak::Seeded(9);
    let mut b = TieBreak::Seeded(9);
    for _ in 0..32 {
        assert_eq!(a.next_bool(), b.next_bool());
    }
    let mut c = TieBreak::System;
    let _ = c.next_bool();
}

#[test]
fn seen_set_membership() {
    let mut seen = SeenSet::new();
    let key = b"rnbqkbnr/pppppppp/8/8/8/8/PPPPPPPP/RNBQKBNR".to_vec();
    assert!(!seen.contains(&key));
    seen.insert(key.clone());
    assert!(seen.contains(&key));
    assert!(!seen.contains(&b"8/8/8/8/8/8/8/8".to_vec()));
}
