//! Fixed-depth alpha-beta search. Each node evaluates leaves with the
//! static score, returns exact scores for checkmate and stalemate, orders
//! children by their static score to sharpen pruning, and overrides the
//! score of a child whose board was already seen in this game to zero.
//! The returned score is always the chosen child's repetition-adjusted
//! value: the mobility "annoyance" term, computed at selected plies, only
//! decides between moves whose propagated scores tie, and the injected
//! coin-flip source breaks exact ties of both.

use crate::eval::{board_score, board_score_of, mobility_score};
use crate::fen::{placement_of, turn_white_of};
use crate::pos::{checkmate_of, stalemate_of, Pos};
use crate::seen::SeenSet;
use crate::shak::{fen_after, legals_of};
use crate::tie::TieBreak;
use vstd::prelude::*;

verus! {

/// One recursion level of the search: remaining depth, the alpha-beta
/// window, and the perspective flag that flips at every ply.
pub struct SearchState {
    pub depth: u8,
    pub alpha: i32,
    pub beta: i32,
    pub normal: bool,
}

impl SearchState {
    /// The root state: full window, root perspective.
    pub fn with_max_depth(max_depth: u8) -> (r: Self)
        ensures
            r.depth == max_depth,
            r.alpha == i32::MIN,
            r.beta == i32::MAX,
            !r.normal,
    {
        SearchState { depth: max_depth, alpha: i32::MIN, beta: i32::MAX, normal: false }
    }
}

/// The score of a checkmate found with `depth` plies still to search, on
/// the White-positive scale: magnitude 10000 plus the remaining depth, so
/// a mate delivered sooner outranks a later one and a mate suffered
/// sooner is worse than a later one; negative when the mated side to move
/// is White.
pub open spec fn mate_score_of(white: bool, depth: int) -> int {
    if white {
        -(10000 + depth)
    } else {
        10000 + depth
    }
}

/// Every score a depth-`depth` search can return fits this bound: static
/// scores stay under 2640, mate scores reach 10000 plus the depth, and an
/// interior node hands a child's value up unchanged.
pub open spec fn score_bound(depth: int) -> int {
    11000 + depth
}

/// A mate score outranks in magnitude every score a position's static
/// evaluation can produce: static scores of engine-held records stay
/// within 2640, while a mate score is at least 10000 either way.
pub proof fn lemma_mate_score_dominates(white: bool, depth: int, f: Seq<u8>)
    requires
        0 <= depth,
        f.len() <= crate::pos::MAX_FEN_LEN,
    ensures
        white ==> mate_score_of(white, depth) < board_score_of(f),
        !white ==> mate_score_of(white, depth) > board_score_of(f),
{
    crate::eval::lemma_board_score_bound(f, crate::pos::MAX_FEN_LEN as int);
}

/// The exact score a bottom-ply search gives a child position with FEN
/// `c`, after the seen-board override: a recorded board counts as a draw,
/// otherwise checkmate, stalemate and the static score decide.
pub open spec fn leaf_val(sn: Seq<Seq<u8>>, c: Seq<u8>) -> int {
    if sn.contains(placement_of(c)) {
        0
    } else if checkmate_of(c) {
        mate_score_of(turn_white_of(c), 0)
    } else if stalemate_of(c) {
        0
    } else {
        board_score_of(c)
    }
}

/// The leaf value of the child reached by the `k`-th legal move of the
/// position with FEN `f`.
pub open spec fn child_leaf_val(f: Seq<u8>, sn: Seq<Seq<u8>>, k: int) -> int {
    leaf_val(sn, fen_after(f, legals_of(f)[k]))
}

/// The best leaf value among the first `n` children: the largest when
/// White chooses, the smallest when Black does.
pub open spec fn best_leaf_val(f: Seq<u8>, sn: Seq<Seq<u8>>, white: bool, n: int) -> int
    decreases n,
{
    if n <= 1 {
        child_leaf_val(f, sn, 0)
    } else {
        let prev = best_leaf_val(f, sn, white, n - 1);
        let v = child_leaf_val(f, sn, n - 1);
        if white {
            if v > prev {
                v
            } else {
                prev
            }
        } else {
            if v < prev {
                v
            } else {
                prev
            }
        }
    }
}

proof fn lemma_best_leaf_val(f: Seq<u8>, sn: Seq<Seq<u8>>, white: bool, n: int)
    requires
        1 <= n,
    ensures
        forall|k: int|
            0 <= k < n ==> (white ==> #[trigger] child_leaf_val(f, sn, k) <= best_leaf_val(
                f,
                sn,
                white,
                n,
            )) && (!white ==> child_leaf_val(f, sn, k) >= best_leaf_val(f, sn, white, n)),
        exists|k: int|
            0 <= k < n && #[trigger] child_leaf_val(f, sn, k) == best_leaf_val(f, sn, white, n),
    decreases n,
{
    if n == 1 {
        assert(child_leaf_val(f, sn, 0) == best_leaf_val(f, sn, white, 1));
    } else {
        lemma_best_leaf_val(f, sn, white, n - 1);
        let prev = best_leaf_val(f, sn, white, n - 1);
        if best_leaf_val(f, sn, white, n) == child_leaf_val(f, sn, n - 1) {
            assert(child_leaf_val(f, sn, n - 1) == best_leaf_val(f, sn, white, n));
        } else {
            let k0 = choose|k: int|
                0 <= k < n - 1 && #[trigger] child_leaf_val(f, sn, k) == prev;
            assert(child_leaf_val(f, sn, k0) == best_leaf_val(f, sn, white, n));
        }
    }
}

/// A candidate move of the position with FEN `f`, paired with the child
/// position it reaches (where the other side has the move) and its
/// ordering key.
pub open spec fn child_ok(f: Seq<u8>, c: (Vec<u8>, Pos, i32)) -> bool {
    legals_of(f).contains(c.0@) && c.1@ == fen_after(f, c.0@) && turn_white_of(c.1@)
        == !turn_white_of(f)
}

/// Insertion sort of candidate children, ascending by ordering key. Every
/// element of the result satisfies whatever `keep` held of every element
/// of the input, and an element satisfying `mark` or `mark2` survives the
/// sort.
fn sort_children(
    v: Vec<(Vec<u8>, Pos, i32)>,
    Ghost(keep): Ghost<spec_fn((Vec<u8>, Pos, i32)) -> bool>,
    Ghost(mark): Ghost<spec_fn((Vec<u8>, Pos, i32)) -> bool>,
    Ghost(mark2): Ghost<spec_fn((Vec<u8>, Pos, i32)) -> bool>,
) -> (r: Vec<(Vec<u8>, Pos, i32)>)
    requires
        forall|j: int| 0 <= j < v@.len() ==> #[trigger] keep(v@[j]),
    ensures
        r@.len() == v@.len(),
        forall|j: int| 0 <= j < r@.len() ==> #[trigger] keep(r@[j]),
        forall|a: int, b: int| 0 <= a < b < r@.len() ==> #[trigger] r@[a].2 <= #[trigger] r@[b].2,
        (exists|j: int| 0 <= j < v@.len() && #[trigger] mark(v@[j])) ==> (exists|j: int|
            0 <= j < r@.len() && #[trigger] mark(r@[j])),
        (exists|j: int| 0 <= j < v@.len() && #[trigger] mark2(v@[j])) ==> (exists|j: int|
            0 <= j < r@.len() && #[trigger] mark2(r@[j])),
{
    let ghost orig = v@;
    let mut src = v;
    let mut out: Vec<(Vec<u8>, Pos, i32)> = Vec::new();
    let ghost total = src@.len();
    while src.len() > 0
        invariant
            out@.len() + src@.len() == total,
            forall|j: int| 0 <= j < out@.len() ==> #[trigger] keep(out@[j]),
            forall|j: int| 0 <= j < src@.len() ==> #[trigger] keep(src@[j]),
            forall|a: int, b: int|
                0 <= a < b < out@.len() ==> #[trigger] out@[a].2 <= #[trigger] out@[b].2,
            (exists|j: int| 0 <= j < orig.len() && #[trigger] mark(orig[j])) ==> ((exists|j: int|
                0 <= j < out@.len() && #[trigger] mark(out@[j])) || (exists|j: int|
                0 <= j < src@.len() && #[trigger] mark(src@[j]))),
            (exists|j: int| 0 <= j < orig.len() && #[trigger] mark2(orig[j])) ==> ((exists|j: int|
                0 <= j < out@.len() && #[trigger] mark2(out@[j])) || (exists|j: int|
                0 <= j < src@.len() && #[trigger] mark2(src@[j]))),
        decreases src@.len(),
    {
        let ghost src0 = src@;
        let x = match src.pop() {
            Some(x) => x,
            None => {
                proof {
                    assert(false);
                }
                return out;
            },
        };
        proof {
            assert(keep(src0[src0.len() - 1]));
        }
        let mut idx: usize = 0;
        while idx < out.len() && out[idx].2 <= x.2
            invariant
                idx <= out@.len(),
                forall|j: int| 0 <= j < idx ==> #[trigger] out@[j].2 <= x.2,
                forall|a: int, b: int|
                    0 <= a < b < out@.len() ==> #[trigger] out@[a].2 <= #[trigger] out@[b].2,
            decreases out@.len() - idx,
        {
            idx = idx + 1;
        }
        let ghost out0 = out@;
        let ghost gidx = idx as int;
        out.insert(idx, x);
        proof {
            out0.insert_ensures(gidx, x);
            assert forall|j: int| 0 <= j < out@.len() implies #[trigger] keep(out@[j]) by {
                if j < gidx {
                    assert(out@[j] == out0[j]);
                } else if j > gidx {
                    assert(out@[j] == out0[j - 1]);
                }
            }
            assert forall|a: int, b: int| 0 <= a < b < out@.len() implies #[trigger] out@[a].2
                <= #[trigger] out@[b].2 by {
                if b < gidx {
                    assert(out@[a] == out0[a] && out@[b] == out0[b]);
                } else if a < gidx && b == gidx {
                    assert(out@[a] == out0[a]);
                } else if a < gidx && b > gidx {
                    assert(out@[a] == out0[a] && out@[b] == out0[b - 1]);
                } else if a == gidx {
                    assert(out@[b] == out0[b - 1]);
                    assert(gidx < out0.len() ==> out0[gidx].2 > x.2);
                } else {
                    assert(out@[a] == out0[a - 1] && out@[b] == out0[b - 1]);
                }
            }
            if exists|j: int| 0 <= j < orig.len() && #[trigger] mark(orig[j]) {
                if exists|j: int| 0 <= j < out0.len() && #[trigger] mark(out0[j]) {
                    let j = choose|j: int| 0 <= j < out0.len() && #[trigger] mark(out0[j]);
                    if j < gidx {
                        assert(mark(out@[j]));
                    } else {
                        assert(out@[j + 1] == out0[j]);
                        assert(mark(out@[j + 1]));
                    }
                } else {
                    let j = choose|j: int| 0 <= j < src0.len() && #[trigger] mark(src0[j]);
                    if j == src0.len() - 1 {
                        assert(out@[gidx] == x);
                        assert(mark(out@[gidx]));
                    } else {
                        assert(src@[j] == src0[j]);
                        assert(mark(src@[j]));
                    }
                }
            }
            if exists|j: int| 0 <= j < orig.len() && #[trigger] mark2(orig[j]) {
                if exists|j: int| 0 <= j < out0.len() && #[trigger] mark2(out0[j]) {
                    let j = choose|j: int| 0 <= j < out0.len() && #[trigger] mark2(out0[j]);
                    if j < gidx {
                        assert(mark2(out@[j]));
                    } else {
                        assert(out@[j + 1] == out0[j]);
                        assert(mark2(out@[j + 1]));
                    }
                } else {
                    let j = choose|j: int| 0 <= j < src0.len() && #[trigger] mark2(src0[j]);
                    if j == src0.len() - 1 {
                        assert(out@[gidx] == x);
                        assert(mark2(out@[gidx]));
                    } else {
                        assert(src@[j] == src0[j]);
                        assert(mark2(src@[j]));
                    }
                }
            }
        }
    }
    out
}

/// One node of the alpha-beta search. Returns the chosen move (`None` at
/// a terminal) and the node's score: at an interior node, the chosen
/// child's repetition-adjusted value, free of the mobility term.
pub fn do_search(pos: &Pos, state: SearchState, seen: &SeenSet, tie: &mut TieBreak) -> (r: (
    Option<Vec<u8>>,
    i32,
))
    ensures
        -score_bound(state.depth as int) <= r.1 as int <= score_bound(state.depth as int),
        checkmate_of(pos@) ==> r.0 is None && r.1 as int == mate_score_of(
            turn_white_of(pos@),
            state.depth as int,
        ),
        stalemate_of(pos@) ==> r.0 is None && r.1 == 0,
        state.depth == 0 && !checkmate_of(pos@) && !stalemate_of(pos@) ==> r.0 is None
            && r.1 as int == board_score_of(pos@),
        state.depth > 0 && !checkmate_of(pos@) && !stalemate_of(pos@) ==> (r.0 matches Some(m)
            && legals_of(pos@).contains(m@) && (seen@.contains(
                placement_of(fen_after(pos@, m@)),
            ) ==> r.1 == 0)),
        (state.depth >= 1 && !checkmate_of(pos@) && !stalemate_of(pos@) && (forall|k: int|
            0 <= k < legals_of(pos@).len() ==> seen@.contains(
                placement_of(fen_after(pos@, #[trigger] legals_of(pos@)[k])),
            ))) ==> r.1 == 0,
        (state.depth >= 1 && seen@.len() == 0 && (exists|k: int|
            0 <= k < legals_of(pos@).len() && checkmate_of(
                fen_after(pos@, #[trigger] legals_of(pos@)[k]),
            ))) ==> {
            &&& (turn_white_of(pos@) && state.beta == i32::MAX) ==> r.1 as int >= 9999
                + state.depth as int
            &&& (!turn_white_of(pos@) && state.alpha == i32::MIN) ==> r.1 as int <= -9999
                - state.depth as int
        },
        (state.depth == 1 && !checkmate_of(pos@) && !stalemate_of(pos@) && (turn_white_of(pos@)
            ==> state.beta == i32::MAX) && (!turn_white_of(pos@) ==> state.alpha == i32::MIN))
            ==> r.1 as int == best_leaf_val(
            pos@,
            seen@,
            turn_white_of(pos@),
            legals_of(pos@).len() as int,
        ) && (r.0 matches Some(m) && leaf_val(seen@, fen_after(pos@, m@)) == r.1 as int),
    decreases state.depth,
{
    let legals = pos.legal_moves();
    let white = pos.white_to_move();
    if legals.len() == 0 {
        if pos.in_check() {
            let d = state.depth as i32;
            let sc = if white {
                -(10000 + d)
            } else {
                10000 + d
            };
            return (None, sc);
        } else {
            return (None, 0);
        }
    }
    if state.depth == 0 {
        let sc = board_score(pos);
        return (None, sc);
    }
    // A move exists, so this node is neither checkmate nor stalemate.
    let mut kids: Vec<(Vec<u8>, Pos, i32)> = Vec::new();
    let mut i: usize = 0;
    while i < legals.len()
        invariant
            i <= legals@.len(),
            legals@.map_values(|m: Vec<u8>| m@) == legals_of(pos@),
            kids@.len() == i,
            white == turn_white_of(pos@),
            forall|j: int| 0 <= j < i ==> child_ok(pos@, #[trigger] kids@[j]),
            forall|j: int| 0 <= j < i ==> #[trigger] kids@[j].0@ == legals@[j]@,
        decreases legals@.len() - i,
    {
        let uci = legals[i].clone();
        proof {
            assert(uci@ =~= legals@[i as int]@);
            assert(legals_of(pos@)[i as int] == legals@[i as int]@);
            assert(legals_of(pos@).contains(uci@));
        }
        if let Some(child) = pos.try_apply(&uci) {
            let cs = board_score(&child);
            let key = if white {
                -cs
            } else {
                cs
            };
            kids.push((uci, child, key));
        } else {
            proof {
                assert(false);
            }
        }
        i = i + 1;
    }
    let ghost keep = |c: (Vec<u8>, Pos, i32)| child_ok(pos@, c);
    let ghost mark = |c: (Vec<u8>, Pos, i32)| checkmate_of(c.1@);
    let ghost has_mate = exists|k: int|
        0 <= k < legals_of(pos@).len() && checkmate_of(fen_after(pos@, #[trigger] legals_of(pos@)[k]));
    let ghost n_leg = legals_of(pos@).len() as int;
    let ghost bval = best_leaf_val(pos@, seen@, white, n_leg);
    let ghost mark2 = |c: (Vec<u8>, Pos, i32)| leaf_val(seen@, c.1@) == bval;
    proof {
        if has_mate {
            let k = choose|k: int|
                0 <= k < legals_of(pos@).len() && checkmate_of(
                    fen_after(pos@, #[trigger] legals_of(pos@)[k]),
                );
            assert(kids@[k].0@ == legals@[k]@);
            assert(legals@.map_values(|m: Vec<u8>| m@)[k] == legals@[k]@);
            assert(kids@[k].1@ == fen_after(pos@, legals_of(pos@)[k]));
            assert(mark(kids@[k]));
        }
        lemma_best_leaf_val(pos@, seen@, white, n_leg);
        let kb = choose|k: int|
            0 <= k < n_leg && #[trigger] child_leaf_val(pos@, seen@, k) == bval;
        assert(kids@[kb].0@ == legals@[kb]@);
        assert(legals@.map_values(|m: Vec<u8>| m@)[kb] == legals@[kb]@);
        assert(kids@[kb].1@ == fen_after(pos@, legals_of(pos@)[kb]));
        assert(mark2(kids@[kb]));
    }
    let mut sorted = sort_children(kids, Ghost(keep), Ghost(mark), Ghost(mark2));
    proof {
        assert forall|j: int| 0 <= j < sorted@.len() implies child_ok(
            pos@,
            #[trigger] sorted@[j],
        ) by {
            assert(keep(sorted@[j]));
        }
    }
    let ghost all_seen = forall|k: int|
        0 <= k < legals_of(pos@).len() ==> seen@.contains(
            placement_of(fen_after(pos@, #[trigger] legals_of(pos@)[k])),
        );
    let ghost n0 = sorted@.len();
    let ghost law_active = seen@.len() == 0 && has_mate && (if white {
        state.beta == i32::MAX
    } else {
        state.alpha == i32::MIN
    });
    let ghost exact_one = state.depth == 1 && (if white {
        state.beta == i32::MAX
    } else {
        state.alpha == i32::MIN
    });
    let ghost mut mate_done = false;
    let ghost mut argmax_done = false;
    let mut alpha = state.alpha;
    let mut beta = state.beta;
    let mut best_mv: Option<Vec<u8>> = None;
    let mut best_sc: i32 = 0;
    let mut best_cmp: i32 = 0;
    let mut pruned = false;
    while sorted.len() > 0 && !pruned
        invariant
            1 <= state.depth,
            white == turn_white_of(pos@),
            forall|j: int| 0 <= j < sorted@.len() ==> child_ok(pos@, #[trigger] sorted@[j]),
            best_mv is None ==> sorted@.len() == n0,
            n0 > 0,
            pruned ==> best_mv is Some,
            best_mv matches Some(m) ==> legals_of(pos@).contains(m@) && (seen@.contains(
                placement_of(fen_after(pos@, m@)),
            ) ==> best_sc == 0),
            best_mv is Some ==> -score_bound(state.depth as int) <= best_sc as int <= score_bound(
                state.depth as int,
            ),
            all_seen ==> (best_mv is Some ==> best_sc == 0),
            all_seen ==> (forall|k: int|
                0 <= k < legals_of(pos@).len() ==> seen@.contains(
                    placement_of(fen_after(pos@, #[trigger] legals_of(pos@)[k])),
                )),
            white ==> beta == state.beta,
            !white ==> alpha == state.alpha,
            law_active ==> seen@.len() == 0 && (if white {
                state.beta == i32::MAX
            } else {
                state.alpha == i32::MIN
            }),
            law_active ==> !pruned,
            law_active ==> (mate_done || (exists|j: int|
                0 <= j < sorted@.len() && checkmate_of(#[trigger] sorted@[j].1@))),
            (law_active && mate_done) ==> (best_mv is Some && (white ==> best_sc as int >= 9999
                + state.depth as int) && (!white ==> best_sc as int <= -9999
                - state.depth as int)),
            exact_one ==> state.depth == 1 && (if white {
                state.beta == i32::MAX
            } else {
                state.alpha == i32::MIN
            }),
            n_leg == legals_of(pos@).len(),
            n_leg >= 1,
            bval == best_leaf_val(pos@, seen@, white, n_leg),
            exact_one ==> !pruned,
            exact_one ==> (best_mv is Some ==> (white ==> best_sc as int <= bval) && (!white
                ==> best_sc as int >= bval)),
            exact_one ==> (argmax_done || (exists|j: int|
                0 <= j < sorted@.len() && leaf_val(seen@, #[trigger] sorted@[j].1@) == bval)),
            (exact_one && argmax_done) ==> (best_mv is Some && (white ==> best_sc as int >= bval)
                && (!white ==> best_sc as int <= bval)),
            exact_one ==> (best_mv matches Some(m) ==> leaf_val(seen@, fen_after(pos@, m@))
                == best_sc as int),
        decreases sorted@.len(),
    {
        let ghost sorted0 = sorted@;
        let x = sorted.remove(0);
        let (m, child, _key) = x;
        let sub = do_search(
            &child,
            SearchState {
                depth: state.depth - 1,
                alpha,
                beta,
                normal: !state.normal,
            },
            seen,
            tie,
        );
        let key = child.placement();
        let seen_child = seen.contains(&key);
        let score0 = if seen_child {
            0
        } else {
            sub.1
        };
        let ann = if !state.normal && state.depth > 1 {
            mobility_score(pos, &child)
        } else {
            0
        };
        let cmp = score0 + ann;
        proof {
            assert(child_ok(pos@, sorted0[0]));
            assert(seen_child == seen@.contains(placement_of(fen_after(pos@, m@))));
            if all_seen {
                let k = choose|k: int|
                    0 <= k < legals_of(pos@).len() && legals_of(pos@)[k] == m@;
                assert(seen@.contains(placement_of(fen_after(pos@, legals_of(pos@)[k]))));
                assert(seen_child);
            }
            if law_active {
                if checkmate_of(child@) {
                    mate_done = true;
                    assert(!seen_child);
                    assert(turn_white_of(child@) == !white);
                    assert(sub.1 as int == mate_score_of(!white, state.depth - 1));
                } else if !mate_done {
                    let j = choose|j: int|
                        0 <= j < sorted0.len() && checkmate_of(#[trigger] sorted0[j].1@);
                    assert(j >= 1);
                    assert(sorted@[j - 1] == sorted0[j]);
                }
            }
            if exact_one {
                if seen_child {
                    assert(score0 as int == leaf_val(seen@, child@));
                } else if checkmate_of(child@) {
                    assert(score0 as int == leaf_val(seen@, child@));
                } else if stalemate_of(child@) {
                    assert(score0 as int == leaf_val(seen@, child@));
                } else {
                    assert(score0 as int == leaf_val(seen@, child@));
                }
                let k = choose|k: int|
                    0 <= k < legals_of(pos@).len() && legals_of(pos@)[k] == m@;
                lemma_best_leaf_val(pos@, seen@, white, n_leg);
                assert(child_leaf_val(pos@, seen@, k) == leaf_val(seen@, child@));
                if leaf_val(seen@, child@) == bval {
                    argmax_done = true;
                } else if !argmax_done {
                    let j = choose|j: int|
                        0 <= j < sorted0.len() && leaf_val(seen@, #[trigger] sorted0[j].1@)
                            == bval;
                    assert(j >= 1);
                    assert(sorted@[j - 1] == sorted0[j]);
                }
            }
        }
        let is_new_best = match &best_mv {
            None => true,
            Some(_) => {
                let primary = if white {
                    score0 > best_sc
                } else {
                    score0 < best_sc
                };
                let secondary = if white {
                    cmp > best_cmp
                } else {
                    cmp < best_cmp
                };
                primary || (score0 == best_sc && (secondary || (cmp == best_cmp
                    && tie.next_bool())))
            },
        };
        if is_new_best {
            best_mv = Some(m);
            best_sc = score0;
            best_cmp = cmp;
        }
        if white {
            if score0 > alpha {
                alpha = score0;
            }
            if alpha > beta {
                pruned = true;
            }
        } else {
            if score0 < beta {
                beta = score0;
            }
            if beta < alpha {
                pruned = true;
            }
        }
    }
    match best_mv {
        Some(m) => (Some(m), best_sc),
        None => {
            proof {
                assert(false);
            }
            (None, 0)
        },
    }
}

/// Search `pos` to the given depth. Returns the chosen move and its
/// score, or `None` exactly when there is nothing to choose: a zero-depth
/// search, or a position with no legal move (checkmate or stalemate).
/// The score is the chosen child's repetition-adjusted value: a returned
/// move that recreates a recorded board scores exactly 0. When no board
/// has been seen yet and the side to move has a mate in one, the root
/// window is full and the returned score reaches mate magnitude for that
/// side, beyond any static score (see `lemma_mate_score_dominates`). A
/// depth-one search returns exactly the best leaf value among the
/// children, whatever the tie source does.
pub fn search(pos: &Pos, depth: u8, seen: &SeenSet, tie: &mut TieBreak) -> (r: Option<
    (Vec<u8>, i32),
>)
    ensures
        r is Some <==> (depth > 0 && legals_of(pos@).len() > 0),
        r matches Some(p) ==> legals_of(pos@).contains(p.0@) && -score_bound(depth as int)
            <= p.1 as int <= score_bound(depth as int) && (seen@.contains(
            placement_of(fen_after(pos@, p.0@)),
        ) ==> p.1 == 0),
        (depth >= 1 && seen@.len() == 0 && (exists|k: int|
            0 <= k < legals_of(pos@).len() && checkmate_of(
                fen_after(pos@, #[trigger] legals_of(pos@)[k]),
            ))) ==> (r matches Some(p) && (turn_white_of(pos@) ==> p.1 as int >= 9999
            + depth as int) && (!turn_white_of(pos@) ==> p.1 as int <= -9999 - depth as int)),
        (depth == 1 && legals_of(pos@).len() > 0) ==> (r matches Some(p) && p.1 as int
            == best_leaf_val(pos@, seen@, turn_white_of(pos@), legals_of(pos@).len() as int)
            && leaf_val(seen@, fen_after(pos@, p.0@)) == p.1 as int),
{
    let st = SearchState::with_max_depth(depth);
    let (m, sc) = do_search(pos, st, seen, tie);
    match m {
        Some(mv) => Some((mv, sc)),
        None => None,
    }
}

} // verus!
