use chesscore::pos::Pos;
use chesscore::search::{do_search, search, SearchState};
use chesscore::seen::SeenSet;
use chesscore::tie::TieBreak;

const STARTPOS: &str = "rnbqkbnr/pppppppp/8/8/8/8/PPPPPPPP/RNBQKBNR w KQkq - 0 1";

fn p(fen: &str) -> Pos {
    Pos::from_fen(&fen.as_bytes().to_vec()).expect("valid fen")
}

/// Expand a placement field into 64 squares; index 0 is a8, 63 is h1.
fn board_of(pos: &Pos) -> [u8; 64] {
    let mut b = [0u8; 64];
    let mut idx = 0;
    for &c in pos.placement().iter() {
        if c == b'/' {
            continue;
        }
        if c.is_ascii_digit() {
            idx += (c - b'0') as usize;
        } else {
            b[idx] = c;
            idx += 1;
        }
    }
    b
}

fn square(coord: &[u8]) -> usize {
    let file = (coord[0] - b'a') as usize;
    let rank = (coord[1] - b'1') as usize;
    (7 - rank) * 8 + file
}

#[test]
fn search_state_starts_with_a_full_window() {
    let st = SearchState::with_max_depth(6);
    assert_eq!(st.depth, 6);
    assert_eq!(st.alpha, i32::MIN);
    assert_eq!(st.beta, i32::MAX);
    assert!(!st.normal);
}

#[test]
fn mate_in_one_is_found_for_white() {
    let pos = p("6k1/R7/1R6/8/8/8/8/6K1 w - - 0 1");
    let seen = SeenSet::new();
    let mut tie = TieBreak::Seeded(1);
    let (m, score) = search(&pos, 1, &seen, &mut tie).expect("a move exists");
    assert_eq!(m.as_slice(), b"b6b8");
    assert_eq!(score, 10000);
    let (m, score) = search(&pos, 2, &seen, &mut tie).expect("a move exists");
    assert_eq!(m.as_slice(), b"b6b8");
    // The mate is found one ply down, so the propagated score is exactly
    // 10000 plus the remaining depth there; no mobility term leaks in.
    assert_eq!(score, 10001);
}

#[test]
fn mate_in_one_is_found_for_black() {
    let pos = p("6K1/r7/1r6/8/8/8/8/6k1 b - - 0 1");
    let seen = SeenSet::new();
    let mut tie = TieBreak::Seeded(1);
    let (m, score) = search(&pos, 1, &seen, &mut tie).expect("a move exists");
    assert_eq!(m.as_slice(), b"b6b8");
    assert_eq!(score, -10000);
}

#[test]
fn mated_position_scores_by_remaining_depth() {
    // The fool's mate position: White to move is checkmated.
    let pos = p("rnb1kbnr/pppp1ppp/8/4p3/6Pq/5P2/PPPPP2P/RNBQKBNR w KQkq - 0 3");
    let seen = SeenSet::new();
    let mut tie = TieBreak::Seeded(1);
    assert!(search(&pos, 3, &seen, &mut tie).is_none());
    let (m, score) = do_search(&pos, SearchState::with_max_depth(2), &seen, &mut tie);
    assert!(m.is_none());
    assert_eq!(score, -10002);
}

#[test]
fn stalemate_scores_zero() {
    let pos = p("7k/5Q2/6K1/8/8/8/8/8 b - - 0 1");
    let seen = SeenSet::new();
    let mut tie = TieBreak::Seeded(1);
    assert!(search(&pos, 3, &seen, &mut tie).is_none());
    let (m, score) = do_search(&pos, SearchState::with_max_depth(1), &seen, &mut tie);
    assert!(m.is_none());
    assert_eq!(score, 0);
}

#[test]
fn zero_depth_search_chooses_nothing() {
    let pos = p(STARTPOS);
    let seen = SeenSet::new();
    let mut tie = TieBreak::Seeded(1);
    assert!(search(&pos, 0, &seen, &mut tie).is_none());
}

#[test]
fn repeated_boards_are_scored_as_draws() {
    // White is a queen up; every reachable board is recorded as already
    // seen, so the search must answer 0 instead of the material score.
    let pos = p("1Q6/8/8/8/8/8/8/K6k w - - 0 1");
    let mut seen = SeenSet::new();
    for m in pos.legal_moves() {
        let child = pos.try_apply(&m).expect("legal move");
        seen.insert(child.placement());
    }
    let mut tie = TieBreak::Seeded(3);
    let (_, score) = search(&pos, 1, &seen, &mut tie).expect("a move exists");
    assert_eq!(score, 0);
    // Without the record the same search keeps the material score.
    let empty = SeenSet::new();
    let (_, score) = search(&pos, 1, &empty, &mut tie).expect("a move exists");
    assert_eq!(score, 18);
}

#[test]
fn seeded_searches_are_reproducible() {
    let pos = p(STARTPOS);
    let seen = SeenSet::new();
    let mut tie_a = TieBreak::Seeded(42);
    let mut tie_b = TieBreak::Seeded(42);
    let a = search(&pos, 2, &seen, &mut tie_a).expect("a move exists");
    let b = search(&pos, 2, &seen, &mut tie_b).expect("a move exists");
    assert_eq!(a, b);
}

#[test]
fn random_tie_breaks_keep_the_score() {
    let pos = p(STARTPOS);
    let seen = SeenSet::new();
    let mut tie = TieBreak::System;
    let (_, a) = search(&pos, 2, &seen, &mut tie).expect("a move exists");
    let (_, b) = search(&pos, 2, &seen, &mut tie).expect("a move exists");
    assert_eq!(a, b);
}

#[test]
fn chosen_moves_are_legal() {
    let fens = [
        STARTPOS,
        "r3k2r/p1ppqpb1/bn2pnp1/3PN3/1p2P3/2N2Q1p/PPPBBPPP/R3K2R w KQkq - 0 1",
        "8/2p5/3p4/KP5r/1R3p1k/8/4P1P1/8 w - - 0 1",
    ];
    let seen = SeenSet::new();
    let mut tie = TieBreak::Seeded(7);
    for fen in fens {
        let pos = p(fen);
        let (m, _) = search(&pos, 2, &seen, &mut tie).expect("a move exists");
        assert!(pos.legal_moves().iter().any(|x| *x == m));
    }
}

#[test]
fn depth_one_score_is_the_best_leaf_value() {
    // From the start every pawn advance scores +2 (one advancement point,
    // doubled) and every knight move 0, so a depth-one search must answer
    // exactly 2, whatever the tie source picks.
    let pos = p(STARTPOS);
    let seen = SeenSet::new();
    let mut tie = TieBreak::System;
    let (m, score) = search(&pos, 1, &seen, &mut tie).expect("a move exists");
    assert_eq!(score, 2);
    let child = pos.try_apply(&m).expect("chosen move is legal");
    assert_eq!(chesscore::eval::board_score(&child), 2);
}

#[test]
fn search_takes_a_free_queen() {
    let pos = p("k7/8/8/3q4/4P3/8/8/K7 w - - 0 1");
    let seen = SeenSet::new();
    let mut tie = TieBreak::Seeded(5);
    let (m, score) = search(&pos, 2, &seen, &mut tie).expect("a move exists");
    assert_eq!(m.as_slice(), b"e4d5");
    assert_eq!(score, 4);
}

#[test]
fn pinned_piece_may_not_move() {
    // The bishop on e2 shields its king from the rook on e8 and so has
    // no legal move at all.
    let pos = p("4r2k/8/8/8/8/8/4B3/4K3 w - - 0 1");
    for m in pos.legal_moves() {
        assert_ne!(&m[0..2], b"e2", "pinned bishop moved: {:?}", String::from_utf8_lossy(&m));
    }
}

#[test]
fn no_move_leaves_the_own_king_attackable() {
    // Applying any generated move gives a position that still satisfies
    // the rules: the origin square is vacated, and no reply can land on
    // the square of the king of the side that just moved.
    let fens = [
        STARTPOS,
        "r3k2r/p1ppqpb1/bn2pnp1/3PN3/1p2P3/2N2Q1p/PPPBBPPP/R3K2R w KQkq - 0 1",
        "k7/8/8/3pP3/8/8/8/K7 w - d6 0 2",
    ];
    for fen in fens {
        let pos = p(fen);
        let mover_king = if pos.white_to_move() { b'K' } else { b'k' };
        for m in pos.legal_moves() {
            let child = pos.try_apply(&m).expect("legal move");
            let board = board_of(&child);
            assert_eq!(board[square(&m[0..2])], 0, "origin still occupied after {:?}",
                String::from_utf8_lossy(&m));
            let king_sq = (0..64).find(|&i| board[i] == mover_king).expect("king present");
            for reply in child.legal_moves() {
                assert_ne!(square(&reply[2..4]), king_sq, "reply {:?} captures the king",
                    String::from_utf8_lossy(&reply));
            }
        }
    }
}
