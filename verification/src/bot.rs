//! The automated player: static material evaluation and a depth-limited
//! minimax search with alpha-beta pruning that picks uniformly at random
//! among the equally best successors.

use vstd::prelude::*;

use crate::bits::count_upto;
use crate::engine::Chess;
use crate::model::{board_ok, checkmate, successors, BoardState};

verus! {

/// The material weight of bitboard `k`'s piece kind: pawn 10, rook 30,
/// knight 30, bishop 50, queen 90, king 900; positive for white boards,
/// negative for black ones.
pub open spec fn piece_weight(k: int) -> int {
    let magnitude = if k % 6 == 0 {
        10int
    } else if k % 6 == 1 {
        30int
    } else if k % 6 == 2 {
        30int
    } else if k % 6 == 3 {
        50int
    } else if k % 6 == 4 {
        90int
    } else {
        900int
    };
    if k < 6 {
        magnitude
    } else {
        -magnitude
    }
}

/// The material score contributed by the first `n` bitboards: piece
/// count times kind weight.
pub open spec fn score_upto(b: BoardState, n: int) -> int
    decreases n,
{
    if n <= 0 {
        0int
    } else {
        score_upto(b, n - 1) + count_upto(b.pieces[n - 1], 64) * piece_weight(n - 1)
    }
}

/// The static material score of a board, from white's perspective:
/// positive favors white, negative favors black.
pub open spec fn board_score(b: BoardState) -> int {
    score_upto(b, 12)
}

/// The search stops here: no depth left, or the side to move has no
/// legal move.
pub open spec fn terminal(b: BoardState, depth: u8) -> bool {
    depth == 0 || checkmate(b)
}

/// One alpha-beta scan over the successors from index `i` on, carrying
/// the best score, the successors tied at that score, and the narrowing
/// window; the scan stops early once the window closes.
pub open spec fn search_scan(
    succs: Seq<BoardState>,
    i: int,
    depth: u8,
    maxing: bool,
    alpha: int,
    beta: int,
    best: int,
    ties: Seq<BoardState>,
) -> (Seq<BoardState>, int)
    decreases depth, 0int, succs.len() - i,
{
    if depth == 0 || i < 0 || i >= succs.len() {
        (ties, best)
    } else {
        let ev = search_result(succs[i], (depth - 1) as u8, !maxing, alpha, beta).1;
        let better = if maxing {
            ev > best
        } else {
            ev < best
        };
        let ties2 = if better {
            seq![succs[i]]
        } else if ev == best {
            ties.push(succs[i])
        } else {
            ties
        };
        let best2 = if better {
            ev
        } else {
            best
        };
        let alpha2 = if maxing && ev > alpha {
            ev
        } else {
            alpha
        };
        let beta2 = if !maxing && ev < beta {
            ev
        } else {
            beta
        };
        if (maxing && beta2 <= alpha2) || (!maxing && alpha2 >= beta2) {
            (ties2, best2)
        } else {
            search_scan(succs, i + 1, depth, maxing, alpha2, beta2, best2, ties2)
        }
    }
}

/// The alpha-beta value of a board: at a terminal its static score with
/// no tied successors, otherwise the scan over its successors starting
/// from the worst possible score for the side searching.
pub open spec fn search_result(b: BoardState, depth: u8, maxing: bool, alpha: int, beta: int) -> (
    Seq<BoardState>,
    int,
)
    decreases depth, 1int, 0int,
{
    if terminal(b, depth) {
        (Seq::<BoardState>::empty(), board_score(b))
    } else {
        search_scan(
            successors(b),
            0,
            depth,
            maxing,
            alpha,
            beta,
            if maxing {
                i32::MIN as int
            } else {
                i32::MAX as int
            },
            Seq::<BoardState>::empty(),
        )
    }
}

/// One plain minimax scan over the successors from index `i` on, with no
/// pruning.
pub open spec fn plain_scan(succs: Seq<BoardState>, i: int, depth: u8, maxing: bool, best: int) -> int
    decreases depth, 0int, succs.len() - i,
{
    if depth == 0 || i < 0 || i >= succs.len() {
        best
    } else {
        let ev = plain_value(succs[i], (depth - 1) as u8, !maxing);
        let best2 = if maxing && ev > best {
            ev
        } else if !maxing && ev < best {
            ev
        } else {
            best
        };
        plain_scan(succs, i + 1, depth, maxing, best2)
    }
}

/// The plain minimax value of a board, with no pruning.
pub open spec fn plain_value(b: BoardState, depth: u8, maxing: bool) -> int
    decreases depth, 1int, 0int,
{
    if terminal(b, depth) {
        board_score(b)
    } else {
        plain_scan(
            successors(b),
            0,
            depth,
            maxing,
            if maxing {
                i32::MIN as int
            } else {
                i32::MAX as int
            },
        )
    }
}

/// Relies on rand::Rng::gen_range with rand::thread_rng: a value sampled
/// from the half-open range below `n`, which must be non-empty since
/// gen_range panics on an empty range. Nothing more is promised of a
/// random draw.
#[verifier::external_body]
fn random_below(n: usize) -> (r: usize)
    requires
        n > 0,
    ensures
        r < n,
{
    rand::Rng::gen_range(&mut rand::thread_rng(), 0..n)
}

/// The number of set squares in a bitboard.
fn popcount(x: u64) -> (r: u32)
    ensures
        r as int == count_upto(x, 64),
        r <= 64,
{
    let mut n: u32 = 0;
    let mut i: u8 = 0;
    while i < 64
        invariant
            i <= 64,
            n as int == count_upto(x, i as int),
            n <= i,
        decreases 64 - i,
    {
        if x & (1u64 << (i as u64)) > 0 {
            n += 1;
        }
        i += 1;
    }
    n
}

/// The static material score of a board: piece counts times the fixed
/// kind weights, positive for white and negative for black.
pub fn evaluate(chess: &Chess) -> (r: i32)
    ensures
        r as int == board_score(chess@),
{
    let mut total: i32 = 0;
    let mut idx: usize = 0;
    while idx < 12
        invariant
            idx <= 12,
            total as int == score_upto(chess@, idx as int),
            -57600 * idx <= total as int <= 57600 * idx,
        decreases 12 - idx,
    {
        let n = popcount(chess.pieces[idx]);
        let w: i32 = if idx == 0 {
            10
        } else if idx == 1 {
            30
        } else if idx == 2 {
            30
        } else if idx == 3 {
            50
        } else if idx == 4 {
            90
        } else if idx == 5 {
            900
        } else if idx == 6 {
            -10
        } else if idx == 7 {
            -30
        } else if idx == 8 {
            -30
        } else if idx == 9 {
            -50
        } else if idx == 10 {
            -90
        } else {
            -900
        };
        proof {
            assert(w as int == piece_weight(idx as int));
            assert((n as int) * (w as int) <= 57600 && (n as int) * (w as int) >= -57600)
                by (nonlinear_arith)
                requires
                    0 <= n <= 64,
                    -900 <= w <= 900,
            ;
        }
        total = total + (n as i32) * w;
        idx += 1;
    }
    total
}

/// The depth-limited alpha-beta search: at a terminal it returns no
/// successor and the static score; otherwise it scans the successor
/// boards, keeps the set of successors tied at the best score seen, and
/// returns one of them uniformly at random together with that score.
pub fn minimax(chess: &Chess, depth: u8, is_maximizing: bool, alpha: i32, beta: i32) -> (r: (
    Option<Chess>,
    i32,
))
    requires
        board_ok(chess@),
    ensures
        ({
            let sr = search_result(chess@, depth, is_maximizing, alpha as int, beta as int);
            &&& r.1 as int == sr.1
            &&& (r.0 is None <==> sr.0.len() == 0)
            &&& (r.0 matches Some(c) ==> board_ok(c@) && exists|i: int|
                0 <= i < sr.0.len() && c@ == sr.0[i])
        }),
    decreases depth,
{
    if depth == 0 || chess.is_checkmate() {
        return (None, evaluate(chess));
    }
    let succs = chess.possible_states();
    let ghost sseq = successors(chess@);
    let ghost goal = search_scan(
        sseq,
        0,
        depth,
        is_maximizing,
        alpha as int,
        beta as int,
        if is_maximizing {
            i32::MIN as int
        } else {
            i32::MAX as int
        },
        Seq::<BoardState>::empty(),
    );
    let mut ties: Vec<Chess> = Vec::new();
    let ghost mut tv = Seq::<BoardState>::empty();
    let mut best: i32 = if is_maximizing {
        i32::MIN
    } else {
        i32::MAX
    };
    let mut cur_alpha: i32 = alpha;
    let mut cur_beta: i32 = beta;
    let mut cut: bool = false;
    let mut i: usize = 0;
    while i < succs.len() && !cut
        invariant
            board_ok(chess@),
            depth > 0,
            sseq == successors(chess@),
            goal == search_scan(
                sseq,
                0,
                depth,
                is_maximizing,
                alpha as int,
                beta as int,
                if is_maximizing {
                    i32::MIN as int
                } else {
                    i32::MAX as int
                },
                Seq::<BoardState>::empty(),
            ),
            succs@.len() == sseq.len(),
            forall|q: int| 0 <= q < succs@.len() ==> (#[trigger] succs@[q])@ == sseq[q],
            forall|q: int| 0 <= q < succs@.len() ==> board_ok((#[trigger] succs@[q])@),
            i <= succs@.len(),
            tv.len() == ties@.len(),
            forall|q: int| 0 <= q < tv.len() ==> (#[trigger] ties@[q])@ == tv[q],
            forall|q: int| 0 <= q < tv.len() ==> board_ok((#[trigger] ties@[q])@),
            if cut {
                goal == (tv, best as int)
            } else {
                goal == search_scan(
                    sseq,
                    i as int,
                    depth,
                    is_maximizing,
                    cur_alpha as int,
                    cur_beta as int,
                    best as int,
                    tv,
                )
            },
        decreases (if cut {
            0int
        } else {
            1int
        }), succs@.len() - i,
    {
        let child = &succs[i];
        let sub = minimax(child, depth - 1, !is_maximizing, cur_alpha, cur_beta);
        let ev = sub.1;
        if is_maximizing {
            if ev > best {
                best = ev;
                ties = Vec::new();
                ties.push(child.clone());
                proof {
                    tv = seq![sseq[i as int]];
                }
            } else if ev == best {
                ties.push(child.clone());
                proof {
                    tv = tv.push(sseq[i as int]);
                }
            }
            if ev > cur_alpha {
                cur_alpha = ev;
            }
            if cur_beta <= cur_alpha {
                cut = true;
            } else {
                i += 1;
            }
        } else {
            if ev < best {
                best = ev;
                ties = Vec::new();
                ties.push(child.clone());
                proof {
                    tv = seq![sseq[i as int]];
                }
            } else if ev == best {
                ties.push(child.clone());
                proof {
                    tv = tv.push(sseq[i as int]);
                }
            }
            if ev < cur_beta {
                cur_beta = ev;
            }
            if cur_alpha >= cur_beta {
                cut = true;
            } else {
                i += 1;
            }
        }
    }
    proof {
        assert(goal == (tv, best as int));
        assert(!terminal(chess@, depth));
        assert(search_result(chess@, depth, is_maximizing, alpha as int, beta as int) == goal);
    }
    if ties.len() == 0 {
        return (None, best);
    }
    let pick = random_below(ties.len());
    let chosen = ties[pick].clone();
    proof {
        assert(chosen@ == tv[pick as int]);
    }
    (Some(chosen), best)
}

/// The plain minimax score with pruning disabled: the same scan as
/// `minimax` but never stopping early, and returning only the score.
pub fn minimax_unpruned(chess: &Chess, depth: u8, is_maximizing: bool) -> (r: i32)
    requires
        board_ok(chess@),
    ensures
        r as int == plain_value(chess@, depth, is_maximizing),
    decreases depth,
{
    if depth == 0 || chess.is_checkmate() {
        return evaluate(chess);
    }
    let succs = chess.possible_states();
    let ghost sseq = successors(chess@);
    let ghost goal = plain_scan(
        sseq,
        0,
        depth,
        is_maximizing,
        if is_maximizing {
            i32::MIN as int
        } else {
            i32::MAX as int
        },
    );
    let mut best: i32 = if is_maximizing {
        i32::MIN
    } else {
        i32::MAX
    };
    let mut i: usize = 0;
    while i < succs.len()
        invariant
            board_ok(chess@),
            depth > 0,
            sseq == successors(chess@),
            goal == plain_scan(
                sseq,
                0,
                depth,
                is_maximizing,
                if is_maximizing {
                    i32::MIN as int
                } else {
                    i32::MAX as int
                },
            ),
            succs@.len() == sseq.len(),
            forall|q: int| 0 <= q < succs@.len() ==> (#[trigger] succs@[q])@ == sseq[q],
            forall|q: int| 0 <= q < succs@.len() ==> board_ok((#[trigger] succs@[q])@),
            i <= succs@.len(),
            goal == plain_scan(sseq, i as int, depth, is_maximizing, best as int),
        decreases succs@.len() - i,
    {
        let child = &succs[i];
        let ev = minimax_unpruned(child, depth - 1, !is_maximizing);
        if is_maximizing {
            if ev > best {
                best = ev;
            }
        } else {
            if ev < best {
                best = ev;
            }
        }
        i += 1;
    }
    best
}

} // verus!
