//! The engine's stated laws, proved against the model: the square-index
//! round trip, the single-occupancy guarantee, the self-check freedom of
//! every offered move, and what an absent search result means.

use vstd::prelude::*;

use crate::bits::{
    has_bit, lemma_bit_ops, lemma_disjoint_pairs, lemma_has_bit_nonzero, lemma_no_bits_zero,
    lemma_shift_single_bit, lemma_single_bit_masks, CLEAR_FILE1, CLEAR_FILE8,
};
use crate::bits::count_upto;
use crate::bot::{
    board_score, piece_weight, plain_scan, plain_value, score_upto, search_result, search_scan,
    terminal,
};
use crate::engine::{index_pos, pos_index, pos_ok, Position};
use crate::lemmas::{lemma_dry_preserves_ok, lemma_occupant};
use crate::model::{
    all_mask, all_saving_upto, apply_move, board_ok, checkmate, color_base, color_mask, diag_shl,
    diag_shr, dry_apply, dry_ok, first_saving_from, in_check, king_index, king_saving,
    no_saving_from, occupant, piece_moves, possible_moves, pruned_upto, ray_shl, ray_shr,
    sim_check, succs_for_sq, succs_kinds_upto, succs_squares_upto, successors, BoardState,
};

verus! {

/// Square indices and board coordinates are exact inverses: converting
/// any index 0..64 to a coordinate and back yields the index again.
pub proof fn lemma_index_roundtrip(i: u64)
    requires
        i < 64,
    ensures
        pos_ok(index_pos(i)),
        pos_index(index_pos(i)) == i,
{
}

/// The converse round trip: converting an on-board coordinate to its
/// index and back yields the coordinate again.
pub proof fn lemma_position_roundtrip(p: Position)
    requires
        pos_ok(p),
    ensures
        index_pos(pos_index(p)) == p,
{
}

/// No square is claimed by two bitboards of a sound board: the bit a
/// board holds for a square is clear in every other board.
pub proof fn lemma_board_consistency(b: BoardState, j: int, k: int, sq: u64)
    requires
        board_ok(b),
        0 <= j < 12,
        0 <= k < 12,
        j != k,
        sq < 64,
        has_bit(b.pieces[j], sq),
    ensures
        !has_bit(b.pieces[k], sq),
{
}

/// Which bits survive the self-check pruning: exactly the destinations of
/// `moves` whose simulation below the scanned bound does not leave the
/// mover in check.
proof fn lemma_pruned_bits(b: BoardState, from: u64, moves: u64, n: int, d: u64)
    requires
        n <= 64,
        d < 64,
    ensures
        has_bit(pruned_upto(b, from, moves, n), d) == (has_bit(moves, d) && !(d < n && sim_check(
            b,
            from,
            d,
        ))),
    decreases n,
{
    lemma_bit_ops();
    if n > 0 {
        lemma_pruned_bits(b, from, moves, n - 1, d);
    }
}

/// Every bit of the first-saving scan is a destination of `moves` whose
/// simulation resolves check.
proof fn lemma_first_saving_bits(b: BoardState, from: u64, moves: u64, lo: u64, d: u64)
    requires
        d < 64,
        has_bit(first_saving_from(b, from, moves, lo), d),
    ensures
        has_bit(moves, d) && !sim_check(b, from, d),
    decreases 64 - lo,
{
    lemma_bit_ops();
    if lo < 64 && !(has_bit(moves, lo) && !sim_check(b, from, lo)) {
        lemma_first_saving_bits(b, from, moves, (lo + 1) as u64, d);
    }
}

/// Self-check-free legality: simulating any destination offered by
/// `possible_moves` never leaves the mover's own king in check.
pub proof fn lemma_self_check_free(b: BoardState, from: u64, d: u64)
    requires
        from < 64,
        d < 64,
        has_bit(possible_moves(b, from), d),
    ensures
        !sim_check(b, from, d),
        has_bit(piece_moves(b, occupant(b, from)->Some_0 as int, from, b.white_turn), d),
        occupant(b, from) is Some,
{
    lemma_bit_ops();
    match occupant(b, from) {
        None => {},
        Some(k) => {
            let moves = piece_moves(b, k as int, from, b.white_turn);
            if in_check(b) {
                if k as int != king_index(b) {
                    lemma_first_saving_bits(b, from, moves, 0, d);
                } else {
                    lemma_all_saving_char(b, from, moves, 64, d);
                }
            } else {
                lemma_pruned_bits(b, from, moves, 64, d);
            }
        },
    }
}

/// The piece on `from` (of bitboard `k`) has some destination whose
/// simulation does not leave the mover in check.
pub open spec fn saveable(b: BoardState, k: int, from: u64) -> bool {
    exists|d: u64|
        d < 64 && (#[trigger] has_bit(piece_moves(b, k, from, b.white_turn), d)) && !sim_check(
            b,
            from,
            d,
        )
}

/// The first-saving scan returns either nothing or the single square of
/// a check-resolving destination.
proof fn lemma_first_saving_form(b: BoardState, from: u64, moves: u64, lo: u64)
    requires
        lo <= 64,
    ensures
        first_saving_from(b, from, moves, lo) == 0 || exists|d: u64|
            d < 64 && first_saving_from(b, from, moves, lo) == 1u64 << d && (#[trigger] has_bit(
                moves,
                d,
            )) && !sim_check(b, from, d),
    decreases 64 - lo,
{
    if lo < 64 && !(has_bit(moves, lo) && !sim_check(b, from, lo)) {
        lemma_first_saving_form(b, from, moves, (lo + 1) as u64);
    }
}

/// The first-saving scan finds something exactly when a check-resolving
/// destination at or above its start exists.
proof fn lemma_first_saving_nonzero(b: BoardState, from: u64, moves: u64, lo: u64)
    requires
        lo <= 64,
    ensures
        (first_saving_from(b, from, moves, lo) != 0) <==> (exists|d: u64|
            lo <= d < 64 && (#[trigger] has_bit(moves, d)) && !sim_check(b, from, d)),
    decreases 64 - lo,
{
    lemma_bit_ops();
    if lo < 64 {
        if has_bit(moves, lo) && !sim_check(b, from, lo) {
            lemma_has_bit_nonzero(1u64 << lo, lo);
        } else {
            lemma_first_saving_nonzero(b, from, moves, (lo + 1) as u64);
        }
    }
}

/// Which bits the all-saving scan holds: exactly the check-resolving
/// destinations below the scanned bound.
proof fn lemma_all_saving_char(b: BoardState, from: u64, moves: u64, n: int, d: u64)
    requires
        n <= 64,
        d < 64,
    ensures
        has_bit(all_saving_upto(b, from, moves, n), d) == (d < n && has_bit(moves, d)
            && !sim_check(b, from, d)),
    decreases n,
{
    lemma_bit_ops();
    if n > 0 {
        lemma_all_saving_char(b, from, moves, n - 1, d);
    }
}

/// The all-saving scan finds something exactly when a check-resolving
/// destination below its bound exists.
proof fn lemma_all_saving_nonzero(b: BoardState, from: u64, moves: u64, n: int)
    requires
        n <= 64,
    ensures
        (all_saving_upto(b, from, moves, n) != 0) <==> (exists|d: u64|
            d < n && (#[trigger] has_bit(moves, d)) && !sim_check(b, from, d)),
{
    let s = all_saving_upto(b, from, moves, n);
    if exists|d: u64| d < n && (#[trigger] has_bit(moves, d)) && !sim_check(b, from, d) {
        let d = choose|d: u64| d < n && (#[trigger] has_bit(moves, d)) && !sim_check(b, from, d);
        lemma_all_saving_char(b, from, moves, n, d);
        lemma_has_bit_nonzero(s, d);
    } else {
        assert forall|i: u64| i < 64 implies !has_bit(s, i) by {
            lemma_all_saving_char(b, from, moves, n, i);
        }
        lemma_no_bits_zero(s);
    }
}

/// The pruning filter keeps something exactly when a check-resolving
/// destination exists.
proof fn lemma_pruned_nonzero(b: BoardState, from: u64, moves: u64)
    ensures
        (pruned_upto(b, from, moves, 64) != 0) <==> (exists|d: u64|
            d < 64 && (#[trigger] has_bit(moves, d)) && !sim_check(b, from, d)),
{
    let p = pruned_upto(b, from, moves, 64);
    if exists|d: u64| d < 64 && (#[trigger] has_bit(moves, d)) && !sim_check(b, from, d) {
        let d = choose|d: u64| d < 64 && (#[trigger] has_bit(moves, d)) && !sim_check(b, from, d);
        lemma_pruned_bits(b, from, moves, 64, d);
        lemma_has_bit_nonzero(p, d);
    } else {
        assert forall|i: u64| i < 64 implies !has_bit(p, i) by {
            lemma_pruned_bits(b, from, moves, 64, i);
        }
        lemma_no_bits_zero(p);
    }
}

/// On a sound board, the board holding a square is the occupant the scan
/// reports.
proof fn lemma_occupant_is(b: BoardState, k: int, sq: u64)
    requires
        board_ok(b),
        0 <= k < 12,
        sq < 64,
        has_bit(b.pieces[k], sq),
    ensures
        occupant(b, sq) == Some(k as u8),
{
    lemma_occupant(b, sq);
}

/// A piece has a check-resolving destination exactly when its king-saving
/// scan reports one.
proof fn lemma_king_saving_nonzero(b: BoardState, k: int, from: u64)
    requires
        from < 64,
    ensures
        (king_saving(b, k, from) != 0) <==> saveable(b, k, from),
{
    let moves = piece_moves(b, k, from, b.white_turn);
    if k != king_index(b) {
        lemma_first_saving_nonzero(b, from, moves, 0);
    } else {
        lemma_all_saving_nonzero(b, from, moves, 64);
    }
}

/// A square offers a legal destination exactly when it is occupied and
/// its piece has a check-resolving destination.
proof fn lemma_possible_nonzero(b: BoardState, from: u64)
    requires
        from < 64,
    ensures
        (possible_moves(b, from) != 0) <==> (occupant(b, from) is Some && saveable(
            b,
            occupant(b, from)->Some_0 as int,
            from,
        )),
{
    match occupant(b, from) {
        None => {},
        Some(k) => {
            let moves = piece_moves(b, k as int, from, b.white_turn);
            if in_check(b) {
                lemma_king_saving_nonzero(b, k as int, from);
            } else {
                lemma_pruned_nonzero(b, from, moves);
            }
        },
    }
}

/// On a sound board, the two colors occupy disjoint squares.
proof fn lemma_color_masks_disjoint(b: BoardState)
    requires
        board_ok(b),
    ensures
        color_mask(b, true) & color_mask(b, false) == 0,
        color_mask(b, false) & color_mask(b, true) == 0,
{
    lemma_bit_ops();
    let w = color_mask(b, true);
    let bl = color_mask(b, false);
    assert forall|i: u64| i < 64 implies !has_bit(w & bl, i) by {}
    lemma_no_bits_zero(w & bl);
    assert forall|i: u64| i < 64 implies !has_bit(bl & w, i) by {}
    lemma_no_bits_zero(bl & w);
}

/// No square of a left-shift ray is held by the scanning side.
proof fn lemma_ray_shl_own_free(own: u64, opp: u64, p: u64, sh: u64, steps: nat, d: u64)
    requires
        p < 64,
        sh < 64,
        d < 64,
        opp & own == 0,
        has_bit(ray_shl(own, opp, 1u64 << p, sh, steps), d),
    ensures
        !has_bit(own, d),
    decreases steps,
{
    lemma_bit_ops();
    lemma_single_bit_masks();
    lemma_disjoint_pairs();
    lemma_shift_single_bit(p, sh);
    let ptr = 1u64 << p;
    let next = ptr << sh;
    if steps == 0 {
    } else if next & !own == 0 {
    } else {
        assert(next != 0);
        assert(p + sh < 64);
        let q = (p + sh) as u64;
        if next & !opp == 0 {
            assert(has_bit(opp, q));
            assert(d == q);
        } else {
            if has_bit(next, d) {
                assert(d == q);
            } else {
                lemma_ray_shl_own_free(own, opp, q, sh, (steps - 1) as nat, d);
            }
        }
    }
}

/// No square of a right-shift ray is held by the scanning side.
proof fn lemma_ray_shr_own_free(own: u64, opp: u64, p: u64, sh: u64, steps: nat, d: u64)
    requires
        p < 64,
        sh < 64,
        d < 64,
        opp & own == 0,
        has_bit(ray_shr(own, opp, 1u64 << p, sh, steps), d),
    ensures
        !has_bit(own, d),
    decreases steps,
{
    lemma_bit_ops();
    lemma_single_bit_masks();
    lemma_disjoint_pairs();
    lemma_shift_single_bit(p, sh);
    let ptr = 1u64 << p;
    let next = ptr >> sh;
    if steps == 0 {
    } else if next & !own == 0 {
    } else {
        assert(next != 0);
        assert(p >= sh);
        let q = (p - sh) as u64;
        if next & !opp == 0 {
            assert(has_bit(opp, q));
            assert(d == q);
        } else {
            if has_bit(next, d) {
                assert(d == q);
            } else {
                lemma_ray_shr_own_free(own, opp, q, sh, (steps - 1) as nat, d);
            }
        }
    }
}

/// No square of a left-shift diagonal ray is held by the scanning side.
proof fn lemma_diag_shl_own_free(own: u64, opp: u64, p: u64, sh: u64, edge: u64, fuel: nat, d: u64)
    requires
        p < 64,
        sh < 64,
        d < 64,
        opp & own == 0,
        has_bit(diag_shl(own, opp, 1u64 << p, sh, edge, fuel), d),
    ensures
        !has_bit(own, d),
    decreases fuel,
{
    lemma_bit_ops();
    lemma_single_bit_masks();
    lemma_disjoint_pairs();
    lemma_shift_single_bit(p, sh);
    let ptr = 1u64 << p;
    let next = ptr << sh;
    if fuel == 0 {
    } else if ptr & edge == 0 {
    } else if next & !own == 0 {
    } else {
        assert(next != 0);
        assert(p + sh < 64);
        let q = (p + sh) as u64;
        if next & !opp == 0 {
            assert(has_bit(opp, q));
            assert(d == q);
        } else {
            if has_bit(next, d) {
                assert(d == q);
            } else {
                lemma_diag_shl_own_free(own, opp, q, sh, edge, (fuel - 1) as nat, d);
            }
        }
    }
}

/// No square of a right-shift diagonal ray is held by the scanning side.
proof fn lemma_diag_shr_own_free(own: u64, opp: u64, p: u64, sh: u64, edge: u64, fuel: nat, d: u64)
    requires
        p < 64,
        sh < 64,
        d < 64,
        opp & own == 0,
        has_bit(diag_shr(own, opp, 1u64 << p, sh, edge, fuel), d),
    ensures
        !has_bit(own, d),
    decreases fuel,
{
    lemma_bit_ops();
    lemma_single_bit_masks();
    lemma_disjoint_pairs();
    lemma_shift_single_bit(p, sh);
    let ptr = 1u64 << p;
    let next = ptr >> sh;
    if fuel == 0 {
    } else if ptr & edge == 0 {
    } else if next & !own == 0 {
    } else {
        assert(next != 0);
        assert(p >= sh);
        let q = (p - sh) as u64;
        if next & !opp == 0 {
            assert(has_bit(opp, q));
            assert(d == q);
        } else {
            if has_bit(next, d) {
                assert(d == q);
            } else {
                lemma_diag_shr_own_free(own, opp, q, sh, edge, (fuel - 1) as nat, d);
            }
        }
    }
}

/// No pseudo-legal destination of any piece is a square its own side
/// holds.
pub proof fn lemma_piece_moves_own_free(b: BoardState, k: int, sq: u64, white: bool, d: u64)
    requires
        board_ok(b),
        sq < 64,
        d < 64,
        has_bit(piece_moves(b, k, sq, white), d),
    ensures
        !has_bit(color_mask(b, white), d),
{
    lemma_bit_ops();
    lemma_single_bit_masks();
    lemma_disjoint_pairs();
    lemma_color_masks_disjoint(b);
    let own = color_mask(b, white);
    let opp = color_mask(b, !white);
    let loc = 1u64 << sq;
    let file = sq % 8;
    let rank = sq / 8;
    assert(opp & own == 0);
    if k == 0 || k == 6 {
        assert(has_bit(own, d) ==> has_bit(all_mask(b), d));
    } else if k == 1 || k == 7 {
        if has_bit(ray_shl(own, opp, loc, 1, (7 - file) as nat), d) {
            lemma_ray_shl_own_free(own, opp, sq, 1, (7 - file) as nat, d);
        } else if has_bit(ray_shr(own, opp, loc, 1, file as nat), d) {
            lemma_ray_shr_own_free(own, opp, sq, 1, file as nat, d);
        } else if has_bit(ray_shl(own, opp, loc, 8, (7 - rank) as nat), d) {
            lemma_ray_shl_own_free(own, opp, sq, 8, (7 - rank) as nat, d);
        } else {
            lemma_ray_shr_own_free(own, opp, sq, 8, rank as nat, d);
        }
    } else if k == 3 || k == 9 {
        if has_bit(diag_shl(own, opp, loc, 9, CLEAR_FILE8, 8), d) {
            lemma_diag_shl_own_free(own, opp, sq, 9, CLEAR_FILE8, 8, d);
        } else if has_bit(diag_shl(own, opp, loc, 7, CLEAR_FILE1, 8), d) {
            lemma_diag_shl_own_free(own, opp, sq, 7, CLEAR_FILE1, 8, d);
        } else if has_bit(diag_shr(own, opp, loc, 7, CLEAR_FILE8, 8), d) {
            lemma_diag_shr_own_free(own, opp, sq, 7, CLEAR_FILE8, 8, d);
        } else {
            lemma_diag_shr_own_free(own, opp, sq, 9, CLEAR_FILE1, 8, d);
        }
    } else if k == 4 || k == 10 {
        if has_bit(ray_shl(own, opp, loc, 1, (7 - file) as nat), d) {
            lemma_ray_shl_own_free(own, opp, sq, 1, (7 - file) as nat, d);
        } else if has_bit(ray_shr(own, opp, loc, 1, file as nat), d) {
            lemma_ray_shr_own_free(own, opp, sq, 1, file as nat, d);
        } else if has_bit(ray_shl(own, opp, loc, 8, (7 - rank) as nat), d) {
            lemma_ray_shl_own_free(own, opp, sq, 8, (7 - rank) as nat, d);
        } else if has_bit(ray_shr(own, opp, loc, 8, rank as nat), d) {
            lemma_ray_shr_own_free(own, opp, sq, 8, rank as nat, d);
        } else if has_bit(diag_shl(own, opp, loc, 9, CLEAR_FILE8, 8), d) {
            lemma_diag_shl_own_free(own, opp, sq, 9, CLEAR_FILE8, 8, d);
        } else if has_bit(diag_shl(own, opp, loc, 7, CLEAR_FILE1, 8), d) {
            lemma_diag_shl_own_free(own, opp, sq, 7, CLEAR_FILE1, 8, d);
        } else if has_bit(diag_shr(own, opp, loc, 7, CLEAR_FILE8, 8), d) {
            lemma_diag_shr_own_free(own, opp, sq, 7, CLEAR_FILE8, 8, d);
        } else {
            lemma_diag_shr_own_free(own, opp, sq, 9, CLEAR_FILE1, 8, d);
        }
    } else {
    }
}

/// A legal destination can always be handed to the unchecked move
/// application: the from-square is occupied and the destination is not
/// held by the mover.
pub proof fn lemma_possible_implies_dry_ok(b: BoardState, from: u64, d: u64)
    requires
        board_ok(b),
        from < 64,
        d < 64,
        has_bit(possible_moves(b, from), d),
    ensures
        dry_ok(b, from, d),
{
    lemma_self_check_free(b, from, d);
    let k = occupant(b, from)->Some_0 as int;
    lemma_piece_moves_own_free(b, k, from, b.white_turn, d);
}

/// A square's successor block is empty exactly when no destination below
/// the bound is accepted.
proof fn lemma_succs_for_sq_len(b: BoardState, from: u64, moves: u64, n: int)
    requires
        n <= 64,
    ensures
        (succs_for_sq(b, from, moves, n).len() == 0) <==> (forall|d: u64|
            d < n ==> !((#[trigger] has_bit(moves, d)) && !sim_check(b, from, d) && dry_ok(
                b,
                from,
                d,
            ))),
    decreases n,
{
    if n > 0 {
        lemma_succs_for_sq_len(b, from, moves, n - 1);
    }
}

/// The successor blocks of one bitboard are all empty exactly when each
/// occupied square of it contributes nothing.
proof fn lemma_succs_squares_len(b: BoardState, k: int, n: int)
    requires
        n <= 64,
    ensures
        (succs_squares_upto(b, k, n).len() == 0) <==> (forall|sq: u64|
            sq < n ==> ((#[trigger] has_bit(b.pieces[k], sq)) ==> succs_for_sq(
                b,
                sq,
                possible_moves(b, sq),
                64,
            ).len() == 0)),
    decreases n,
{
    if n > 0 {
        lemma_succs_squares_len(b, k, n - 1);
    }
}

/// The whole successor list is empty exactly when every board of the
/// side to move contributes nothing.
proof fn lemma_succs_kinds_len(b: BoardState, j: int)
    requires
        j <= 6,
    ensures
        (succs_kinds_upto(b, j).len() == 0) <==> (forall|j2: int|
            0 <= j2 < j ==> (#[trigger] succs_squares_upto(
                b,
                color_base(b.white_turn) + j2,
                64,
            ).len()) == 0),
    decreases j,
{
    if j > 0 {
        lemma_succs_kinds_len(b, j - 1);
    }
}

/// What the mate scan from a given point means: no piece at or after it
/// has a check-resolving destination.
proof fn lemma_no_saving_char(b: BoardState, j: int, sq: u64)
    requires
        0 <= j <= 6,
        sq <= 64,
    ensures
        no_saving_from(b, j, sq) <==> (forall|j2: int, sq2: u64|
            (j <= j2 < 6 && sq2 < 64 && (j2 > j || sq2 >= sq)) ==> !((#[trigger] has_bit(
                b.pieces[color_base(b.white_turn) + j2],
                sq2,
            )) && king_saving(b, color_base(b.white_turn) + j2, sq2) != 0)),
    decreases 6 - j, 64 - sq,
{
    if j < 6 {
        if sq >= 64 {
            lemma_no_saving_char(b, j + 1, 0);
        } else {
            lemma_no_saving_char(b, j, (sq + 1) as u64);
        }
    }
}

/// The mate scan and the successor enumeration agree: the side to move
/// has no check-resolving destination exactly when it has no successor
/// board.
pub proof fn lemma_checkmate_iff_no_successors(b: BoardState)
    requires
        board_ok(b),
    ensures
        checkmate(b) <==> successors(b).len() == 0,
{
    lemma_no_saving_char(b, 0, 0);
    lemma_succs_kinds_len(b, 6);
    let base = color_base(b.white_turn);
    assert forall|j2: int, sq2: u64| 0 <= j2 < 6 && sq2 < 64 implies (((#[trigger] has_bit(
        b.pieces[base + j2],
        sq2,
    )) && king_saving(b, base + j2, sq2) != 0) <==> (has_bit(b.pieces[base + j2], sq2)
        && succs_for_sq(b, sq2, possible_moves(b, sq2), 64).len() != 0)) by {
        if has_bit(b.pieces[base + j2], sq2) {
            let k = base + j2;
            lemma_occupant_is(b, k, sq2);
            lemma_king_saving_nonzero(b, k, sq2);
            lemma_possible_nonzero(b, sq2);
            lemma_succs_for_sq_len(b, sq2, possible_moves(b, sq2), 64);
            if king_saving(b, k, sq2) != 0 {
                assert(saveable(b, k, sq2));
                assert(possible_moves(b, sq2) != 0);
                let moves = piece_moves(b, k, sq2, b.white_turn);
                if in_check(b) {
                    if k != king_index(b) {
                        lemma_first_saving_form(b, sq2, moves, 0);
                        let d = choose|d: u64|
                            d < 64 && first_saving_from(b, sq2, moves, 0) == 1u64 << d && (
                            #[trigger] has_bit(moves, d)) && !sim_check(b, sq2, d);
                        lemma_bit_ops();
                        assert(has_bit(possible_moves(b, sq2), d));
                        lemma_possible_implies_dry_ok(b, sq2, d);
                        assert(!(succs_for_sq(b, sq2, possible_moves(b, sq2), 64).len() == 0));
                    } else {
                        let d = choose|d: u64|
                            d < 64 && (#[trigger] has_bit(moves, d)) && !sim_check(b, sq2, d);
                        lemma_all_saving_char(b, sq2, moves, 64, d);
                        assert(has_bit(possible_moves(b, sq2), d));
                        lemma_possible_implies_dry_ok(b, sq2, d);
                        assert(!(succs_for_sq(b, sq2, possible_moves(b, sq2), 64).len() == 0));
                    }
                } else {
                    let d = choose|d: u64|
                        d < 64 && (#[trigger] has_bit(moves, d)) && !sim_check(b, sq2, d);
                    lemma_pruned_bits(b, sq2, moves, 64, d);
                    assert(has_bit(possible_moves(b, sq2), d));
                    lemma_possible_implies_dry_ok(b, sq2, d);
                    assert(!(succs_for_sq(b, sq2, possible_moves(b, sq2), 64).len() == 0));
                }
            } else {
                assert(!saveable(b, k, sq2));
                assert forall|d: u64| d < 64 implies !((#[trigger] has_bit(
                    possible_moves(b, sq2),
                    d,
                )) && !sim_check(b, sq2, d) && dry_ok(b, sq2, d)) by {
                    if has_bit(possible_moves(b, sq2), d) {
                        lemma_self_check_free(b, sq2, d);
                    }
                }
            }
        }
    }
    assert forall|j2: int| 0 <= j2 < 6 implies ((#[trigger] succs_squares_upto(
        b,
        base + j2,
        64,
    ).len()) == 0 <==> (forall|sq2: u64|
        sq2 < 64 ==> !((#[trigger] has_bit(b.pieces[base + j2], sq2)) && king_saving(
            b,
            base + j2,
            sq2,
        ) != 0))) by {
        lemma_succs_squares_len(b, base + j2, 64);
    }
    if checkmate(b) {
        assert forall|j2: int| 0 <= j2 < 6 implies (#[trigger] succs_squares_upto(
            b,
            base + j2,
            64,
        ).len()) == 0 by {
            assert forall|sq2: u64| sq2 < 64 implies !((#[trigger] has_bit(
                b.pieces[base + j2],
                sq2,
            )) && king_saving(b, base + j2, sq2) != 0) by {}
        }
        assert(successors(b).len() == 0);
    }
    if successors(b).len() == 0 {
        assert forall|j2: int, sq2: u64|
            (0 <= j2 < 6 && sq2 < 64 && (j2 > 0 || sq2 >= 0)) implies !((#[trigger] has_bit(
            b.pieces[base + j2],
            sq2,
        )) && king_saving(b, base + j2, sq2) != 0) by {
            assert(succs_squares_upto(b, base + j2, 64).len() == 0);
        }
        assert(checkmate(b));
    }
}

/// A successor board of a sound board is sound.
proof fn lemma_succs_for_sq_ok(b: BoardState, from: u64, moves: u64, n: int)
    requires
        board_ok(b),
        from < 64,
        n <= 64,
    ensures
        forall|i: int|
            0 <= i < succs_for_sq(b, from, moves, n).len() ==> board_ok(
                #[trigger] succs_for_sq(b, from, moves, n)[i],
            ),
    decreases n,
{
    if n > 0 {
        lemma_succs_for_sq_ok(b, from, moves, n - 1);
        let dd = (n - 1) as u64;
        let s = succs_for_sq(b, from, moves, n);
        let prev = succs_for_sq(b, from, moves, n - 1);
        if has_bit(moves, dd) && !sim_check(b, from, dd) && dry_ok(b, from, dd) {
            lemma_dry_preserves_ok(b, from, dd);
            assert(board_ok(apply_move(b, from, dd)));
            assert forall|i: int| 0 <= i < s.len() implies board_ok(#[trigger] s[i]) by {
                if i < prev.len() {
                    assert(s[i] == prev[i]);
                } else {
                    assert(s[i] == apply_move(b, from, dd));
                }
            }
        }
    }
}

proof fn lemma_succs_squares_ok(b: BoardState, k: int, n: int)
    requires
        board_ok(b),
        n <= 64,
    ensures
        forall|i: int|
            0 <= i < succs_squares_upto(b, k, n).len() ==> board_ok(
                #[trigger] succs_squares_upto(b, k, n)[i],
            ),
    decreases n,
{
    if n > 0 {
        lemma_succs_squares_ok(b, k, n - 1);
        let sq = (n - 1) as u64;
        let s = succs_squares_upto(b, k, n);
        let prev = succs_squares_upto(b, k, n - 1);
        if has_bit(b.pieces[k], sq) {
            lemma_succs_for_sq_ok(b, sq, possible_moves(b, sq), 64);
            let block = succs_for_sq(b, sq, possible_moves(b, sq), 64);
            assert forall|i: int| 0 <= i < s.len() implies board_ok(#[trigger] s[i]) by {
                if i < prev.len() {
                    assert(s[i] == prev[i]);
                } else {
                    assert(s[i] == block[i - prev.len()]);
                }
            }
        }
    }
}

proof fn lemma_succs_kinds_ok(b: BoardState, j: int)
    requires
        board_ok(b),
        j <= 6,
    ensures
        forall|i: int|
            0 <= i < succs_kinds_upto(b, j).len() ==> board_ok(#[trigger] succs_kinds_upto(b, j)[i]),
    decreases j,
{
    if j > 0 {
        lemma_succs_kinds_ok(b, j - 1);
        lemma_succs_squares_ok(b, color_base(b.white_turn) + (j - 1), 64);
        let s = succs_kinds_upto(b, j);
        let prev = succs_kinds_upto(b, j - 1);
        let block = succs_squares_upto(b, color_base(b.white_turn) + (j - 1), 64);
        assert forall|i: int| 0 <= i < s.len() implies board_ok(#[trigger] s[i]) by {
            if i < prev.len() {
                assert(s[i] == prev[i]);
            } else {
                assert(s[i] == block[i - prev.len()]);
            }
        }
    }
}

/// Every successor of a sound board is sound.
pub proof fn lemma_successors_ok(b: BoardState)
    requires
        board_ok(b),
    ensures
        forall|i: int|
            0 <= i < successors(b).len() ==> board_ok(#[trigger] successors(b)[i]),
{
    lemma_succs_kinds_ok(b, 6);
}

proof fn lemma_count_upto_bound(x: u64, n: int)
    requires
        n >= 0,
    ensures
        0 <= count_upto(x, n) <= n,
    decreases n,
{
    if n > 0 {
        lemma_count_upto_bound(x, n - 1);
    }
}

proof fn lemma_score_upto_bound(b: BoardState, n: int)
    requires
        0 <= n <= 12,
    ensures
        -57600 * n <= score_upto(b, n) <= 57600 * n,
    decreases n,
{
    if n > 0 {
        lemma_score_upto_bound(b, n - 1);
        lemma_count_upto_bound(b.pieces[n - 1], 64);
        let c = count_upto(b.pieces[n - 1], 64);
        let w = piece_weight(n - 1);
        assert(-900 <= w <= 900);
        assert(-57600 <= c * w <= 57600) by (nonlinear_arith)
            requires
                0 <= c <= 64,
                -900 <= w <= 900,
        ;
    }
}

/// The material score of any board is bounded by the value of a board
/// saturated with kings.
pub proof fn lemma_score_bounds(b: BoardState)
    ensures
        -691200 <= board_score(b) <= 691200,
{
    lemma_score_upto_bound(b, 12);
}

proof fn lemma_scan_props(
    succs: Seq<BoardState>,
    i: int,
    depth: u8,
    maxing: bool,
    alpha: int,
    beta: int,
    best: int,
    ties: Seq<BoardState>,
)
    requires
        depth > 0,
        0 <= i <= succs.len(),
        forall|q: int| 0 <= q < succs.len() ==> board_ok(#[trigger] succs[q]),
        (ties.len() > 0 && -691200 <= best <= 691200) || (ties.len() == 0 && i < succs.len() && (
        (maxing && best == i32::MIN as int) || (!maxing && best == i32::MAX as int))),
    ensures
        search_scan(succs, i, depth, maxing, alpha, beta, best, ties).0.len() > 0,
        -691200 <= search_scan(succs, i, depth, maxing, alpha, beta, best, ties).1 <= 691200,
    decreases depth, 0int, succs.len() - i,
{
    if i < succs.len() {
        lemma_value_bounds(succs[i], (depth - 1) as u8, !maxing, alpha, beta);
        let ev = search_result(succs[i], (depth - 1) as u8, !maxing, alpha, beta).1;
        let better = if maxing {
            ev > best
        } else {
            ev < best
        };
        let ties2 = if better {
            seq![succs[i]]
        } else if ev == best {
            ties.push(succs[i])
        } else {
            ties
        };
        let best2 = if better {
            ev
        } else {
            best
        };
        let alpha2 = if maxing && ev > alpha {
            ev
        } else {
            alpha
        };
        let beta2 = if !maxing && ev < beta {
            ev
        } else {
            beta
        };
        if (maxing && beta2 <= alpha2) || (!maxing && alpha2 >= beta2) {
        } else {
            lemma_scan_props(succs, i + 1, depth, maxing, alpha2, beta2, best2, ties2);
        }
    }
}

proof fn lemma_value_bounds(b: BoardState, depth: u8, maxing: bool, alpha: int, beta: int)
    requires
        board_ok(b),
    ensures
        -691200 <= search_result(b, depth, maxing, alpha, beta).1 <= 691200,
        !terminal(b, depth) ==> search_result(b, depth, maxing, alpha, beta).0.len() > 0,
    decreases depth, 1int, 0int,
{
    if terminal(b, depth) {
        lemma_score_bounds(b);
    } else {
        lemma_checkmate_iff_no_successors(b);
        lemma_successors_ok(b);
        lemma_scan_props(
            successors(b),
            0,
            depth,
            maxing,
            alpha,
            beta,
            if maxing {
                i32::MIN as int
            } else {
                i32::MAX as int
            },
            Seq::<BoardState>::empty(),
        );
    }
}

/// The plain scan only moves its running best toward the scanning side:
/// up when maximizing, down when minimizing.
proof fn lemma_plain_scan_monotone(succs: Seq<BoardState>, i: int, depth: u8, maxing: bool, p: int)
    requires
        0 <= i <= succs.len(),
    ensures
        maxing ==> plain_scan(succs, i, depth, maxing, p) >= p,
        !maxing ==> plain_scan(succs, i, depth, maxing, p) <= p,
    decreases succs.len() - i,
{
    if depth > 0 && i < succs.len() {
        let ev = plain_value(succs[i], (depth - 1) as u8, !maxing);
        let p2 = if maxing && ev > p {
            ev
        } else if !maxing && ev < p {
            ev
        } else {
            p
        };
        lemma_plain_scan_monotone(succs, i + 1, depth, maxing, p2);
    }
}

proof fn lemma_plain_scan_bounds(succs: Seq<BoardState>, i: int, depth: u8, maxing: bool, p: int)
    requires
        depth > 0,
        0 <= i <= succs.len(),
        forall|q: int| 0 <= q < succs.len() ==> board_ok(#[trigger] succs[q]),
        (-691200 <= p <= 691200) || (i < succs.len() && ((maxing && p == i32::MIN as int) || (
        !maxing && p == i32::MAX as int))),
    ensures
        -691200 <= plain_scan(succs, i, depth, maxing, p) <= 691200,
    decreases depth, 0int, succs.len() - i,
{
    if i < succs.len() {
        lemma_plain_value_bounds(succs[i], (depth - 1) as u8, !maxing);
        let ev = plain_value(succs[i], (depth - 1) as u8, !maxing);
        let p2 = if maxing && ev > p {
            ev
        } else if !maxing && ev < p {
            ev
        } else {
            p
        };
        lemma_plain_scan_bounds(succs, i + 1, depth, maxing, p2);
    }
}

proof fn lemma_plain_value_bounds(b: BoardState, depth: u8, maxing: bool)
    requires
        board_ok(b),
    ensures
        -691200 <= plain_value(b, depth, maxing) <= 691200,
    decreases depth, 1int, 0int,
{
    if terminal(b, depth) {
        lemma_score_bounds(b);
    } else {
        lemma_checkmate_iff_no_successors(b);
        lemma_successors_ok(b);
        lemma_plain_scan_bounds(
            successors(b),
            0,
            depth,
            maxing,
            if maxing {
                i32::MIN as int
            } else {
                i32::MAX as int
            },
        );
    }
}

/// The fail-hard guarantee of one maximizing alpha-beta scan: inside the
/// window it agrees with the plain scan, and outside it lands on the
/// same side of the window as the plain value.
proof fn lemma_scan_window_max(
    succs: Seq<BoardState>,
    i: int,
    depth: u8,
    alpha: int,
    beta: int,
    best: int,
    p: int,
    ties: Seq<BoardState>,
)
    requires
        depth > 0,
        0 <= i <= succs.len(),
        forall|q: int| 0 <= q < succs.len() ==> board_ok(#[trigger] succs[q]),
        i32::MIN as int <= alpha < beta <= i32::MAX as int,
        p <= alpha,
        best <= alpha,
    ensures
        ({
            let pr = plain_scan(succs, i, depth, true, p);
            let r = search_scan(succs, i, depth, true, alpha, beta, best, ties).1;
            &&& r >= best
            &&& (pr <= alpha ==> r <= alpha)
            &&& (pr >= beta ==> r >= beta)
            &&& (alpha < pr < beta ==> r == pr)
        }),
    decreases depth, 0int, succs.len() - i,
{
    if i < succs.len() {
        lemma_search_window(succs[i], (depth - 1) as u8, false, alpha, beta);
        let v = plain_value(succs[i], (depth - 1) as u8, false);
        let ev = search_result(succs[i], (depth - 1) as u8, false, alpha, beta).1;
        let better = ev > best;
        let ties2 = if better {
            seq![succs[i]]
        } else if ev == best {
            ties.push(succs[i])
        } else {
            ties
        };
        let best2 = if better {
            ev
        } else {
            best
        };
        let alpha2 = if ev > alpha {
            ev
        } else {
            alpha
        };
        let p2 = if v > p {
            v
        } else {
            p
        };
        if v <= alpha {
            assert(ev <= alpha);
            lemma_scan_window_max(succs, i + 1, depth, alpha2, beta, best2, p2, ties2);
        } else if v < beta {
            assert(ev == v);
            lemma_scan_window_max(succs, i + 1, depth, alpha2, beta, best2, p2, ties2);
            lemma_plain_scan_monotone(succs, i + 1, depth, true, p2);
            let pr = plain_scan(succs, i, depth, true, p);
            let r = search_scan(succs, i, depth, true, alpha, beta, best, ties).1;
            assert(pr >= v);
            if pr == v {
                assert(r == v);
            }
        } else {
            assert(ev >= beta);
            assert(beta <= alpha2);
            lemma_plain_scan_monotone(succs, i + 1, depth, true, p2);
        }
    }
}

/// The fail-hard guarantee of one minimizing alpha-beta scan.
proof fn lemma_scan_window_min(
    succs: Seq<BoardState>,
    i: int,
    depth: u8,
    alpha: int,
    beta: int,
    best: int,
    p: int,
    ties: Seq<BoardState>,
)
    requires
        depth > 0,
        0 <= i <= succs.len(),
        forall|q: int| 0 <= q < succs.len() ==> board_ok(#[trigger] succs[q]),
        i32::MIN as int <= alpha < beta <= i32::MAX as int,
        p >= beta,
        best >= beta,
    ensures
        ({
            let pr = plain_scan(succs, i, depth, false, p);
            let r = search_scan(succs, i, depth, false, alpha, beta, best, ties).1;
            &&& r <= best
            &&& (pr <= alpha ==> r <= alpha)
            &&& (pr >= beta ==> r >= beta)
            &&& (alpha < pr < beta ==> r == pr)
        }),
    decreases depth, 0int, succs.len() - i,
{
    if i < succs.len() {
        lemma_search_window(succs[i], (depth - 1) as u8, true, alpha, beta);
        let v = plain_value(succs[i], (depth - 1) as u8, true);
        let ev = search_result(succs[i], (depth - 1) as u8, true, alpha, beta).1;
        let better = ev < best;
        let ties2 = if better {
            seq![succs[i]]
        } else if ev == best {
            ties.push(succs[i])
        } else {
            ties
        };
        let best2 = if better {
            ev
        } else {
            best
        };
        let beta2 = if ev < beta {
            ev
        } else {
            beta
        };
        let p2 = if v < p {
            v
        } else {
            p
        };
        if v >= beta {
            assert(ev >= beta);
            lemma_scan_window_min(succs, i + 1, depth, alpha, beta2, best2, p2, ties2);
        } else if v > alpha {
            assert(ev == v);
            lemma_scan_window_min(succs, i + 1, depth, alpha, beta2, best2, p2, ties2);
            lemma_plain_scan_monotone(succs, i + 1, depth, false, p2);
            let pr = plain_scan(succs, i, depth, false, p);
            let r = search_scan(succs, i, depth, false, alpha, beta, best, ties).1;
            assert(pr <= v);
            if pr == v {
                assert(r == v);
            }
        } else {
            assert(ev <= alpha);
            assert(beta2 <= alpha);
            lemma_plain_scan_monotone(succs, i + 1, depth, false, p2);
        }
    }
}

/// The fail-hard guarantee of the whole search: inside its window it
/// computes the plain minimax value, outside it stays on the correct
/// side of the window.
proof fn lemma_search_window(b: BoardState, depth: u8, maxing: bool, alpha: int, beta: int)
    requires
        board_ok(b),
        i32::MIN as int <= alpha < beta <= i32::MAX as int,
    ensures
        ({
            let v = plain_value(b, depth, maxing);
            let ev = search_result(b, depth, maxing, alpha, beta).1;
            &&& (v <= alpha ==> ev <= alpha)
            &&& (v >= beta ==> ev >= beta)
            &&& (alpha < v < beta ==> ev == v)
        }),
    decreases depth, 1int, 0int,
{
    if !terminal(b, depth) {
        lemma_checkmate_iff_no_successors(b);
        lemma_successors_ok(b);
        if maxing {
            lemma_scan_window_max(
                successors(b),
                0,
                depth,
                alpha,
                beta,
                i32::MIN as int,
                i32::MIN as int,
                Seq::<BoardState>::empty(),
            );
        } else {
            lemma_scan_window_min(
                successors(b),
                0,
                depth,
                alpha,
                beta,
                i32::MAX as int,
                i32::MAX as int,
                Seq::<BoardState>::empty(),
            );
        }
    }
}

/// Pruning is sound: over the full window the alpha-beta search returns
/// exactly the plain minimax value of the board.
pub proof fn lemma_full_window_search_matches_plain(b: BoardState, depth: u8, maxing: bool)
    requires
        board_ok(b),
    ensures
        search_result(b, depth, maxing, i32::MIN as int, i32::MAX as int).1 == plain_value(
            b,
            depth,
            maxing,
        ),
{
    lemma_plain_value_bounds(b, depth, maxing);
    lemma_search_window(b, depth, maxing, i32::MIN as int, i32::MAX as int);
}

/// The search returns no successor exactly at a terminal: when its depth
/// is spent, or the side to move has no legal move.
pub proof fn lemma_search_none_only_at_terminal(
    b: BoardState,
    depth: u8,
    maxing: bool,
    alpha: int,
    beta: int,
)
    requires
        board_ok(b),
    ensures
        (search_result(b, depth, maxing, alpha, beta).0.len() == 0) <==> terminal(b, depth),
{
    if !terminal(b, depth) {
        lemma_value_bounds(b, depth, maxing, alpha, beta);
    }
}

} // verus!
