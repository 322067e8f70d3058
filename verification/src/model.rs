//! The mathematical model of the engine.
//!
//! `BoardState` is the abstract value of a board: the sequence of twelve
//! piece bitboards, the side to move, and the last applied move. Every
//! executable function of the engine is specified against the spec
//! functions defined here.
//!
//! Bitboard index meaning: 0 = white pawns, 1 = white rooks, 2 = white
//! knights, 3 = white bishops, 4 = white queen, 5 = white king, and
//! 6..=11 the same kinds for black.

use vstd::prelude::*;

use crate::bits::{
    has_bit, CLEAR_FILE1, CLEAR_FILE2, CLEAR_FILE7, CLEAR_FILE8, MASK_RANK3, MASK_RANK6,
};

verus! {

/// Abstract board: twelve piece bitboards, side to move, last applied move.
pub struct BoardState {
    /// The twelve piece bitboards.
    pub pieces: Seq<u64>,
    /// True when white is to move.
    pub white_turn: bool,
    /// The most recent applied move as (from, to) square indices.
    pub last_move: Option<(u8, u8)>,
}

/// Structural soundness of a board: twelve bitboards, and no square is
/// claimed by two of them. This is the central data-model invariant.
pub open spec fn board_ok(b: BoardState) -> bool {
    &&& b.pieces.len() == 12
    &&& forall|j: int, k: int, sq: u64|
        0 <= j < k < 12 && sq < 64 ==> !((#[trigger] has_bit(b.pieces[j], sq)) && (#[trigger] has_bit(
            b.pieces[k],
            sq,
        )))
}

/// First bitboard index of the given color's six boards.
pub open spec fn color_base(white: bool) -> int {
    if white {
        0int
    } else {
        6int
    }
}

/// All squares occupied by the given color.
pub open spec fn color_mask(b: BoardState, white: bool) -> u64 {
    if white {
        b.pieces[0] | b.pieces[1] | b.pieces[2] | b.pieces[3] | b.pieces[4] | b.pieces[5]
    } else {
        b.pieces[6] | b.pieces[7] | b.pieces[8] | b.pieces[9] | b.pieces[10] | b.pieces[11]
    }
}

/// All occupied squares.
pub open spec fn all_mask(b: BoardState) -> u64 {
    color_mask(b, true) | color_mask(b, false)
}

/// Bitboard index of the king of the side to move.
pub open spec fn king_index(b: BoardState) -> int {
    if b.white_turn {
        5int
    } else {
        11int
    }
}

/// The first bitboard at or after index `k` that holds square `sq`.
pub open spec fn occupant_from(b: BoardState, sq: u64, k: int) -> Option<u8>
    decreases 12 - k,
{
    if k < 0 || k >= 12 {
        None
    } else if has_bit(b.pieces[k], sq) {
        Some(k as u8)
    } else {
        occupant_from(b, sq, k + 1)
    }
}

/// The bitboard occupying square `sq`, scanning the twelve boards in order.
pub open spec fn occupant(b: BoardState, sq: u64) -> Option<u8> {
    occupant_from(b, sq, 0)
}

/// Pseudo-legal pawn destinations: single push onto an empty square,
/// double push from the home rank through an empty square, and diagonal
/// captures onto opponent pieces, with file masks discarding board-edge
/// wraparound.
pub open spec fn pawn_moves(b: BoardState, sq: u64, white: bool) -> u64 {
    let all = all_mask(b);
    let opp = color_mask(b, !white);
    let loc = 1u64 << sq;
    let one_forward = if white {
        (loc << 8) & !all
    } else {
        (loc >> 8) & !all
    };
    let two_forward = if white {
        ((one_forward & MASK_RANK3) << 8) & !all
    } else {
        ((one_forward & MASK_RANK6) >> 8) & !all
    };
    let right_attack = if white {
        (loc << 9) & CLEAR_FILE1
    } else {
        (loc >> 9) & CLEAR_FILE8
    };
    let left_attack = if white {
        (loc << 7) & CLEAR_FILE8
    } else {
        (loc >> 7) & CLEAR_FILE1
    };
    ((left_attack | right_attack) & opp) | (one_forward | two_forward)
}

/// One rook-style ray scanned with left shifts: include empty squares,
/// include an opponent square and stop, stop short of an own square; at
/// most `steps` squares are scanned.
pub open spec fn ray_shl(own: u64, opp: u64, ptr: u64, sh: u64, steps: nat) -> u64
    decreases steps,
{
    if steps == 0 {
        0u64
    } else if (ptr << sh) & !own == 0 {
        0u64
    } else if (ptr << sh) & !opp == 0 {
        ptr << sh
    } else {
        (ptr << sh) | ray_shl(own, opp, ptr << sh, sh, (steps - 1) as nat)
    }
}

/// The right-shift counterpart of `ray_shl`.
pub open spec fn ray_shr(own: u64, opp: u64, ptr: u64, sh: u64, steps: nat) -> u64
    decreases steps,
{
    if steps == 0 {
        0u64
    } else if (ptr >> sh) & !own == 0 {
        0u64
    } else if (ptr >> sh) & !opp == 0 {
        ptr >> sh
    } else {
        (ptr >> sh) | ray_shr(own, opp, ptr >> sh, sh, (steps - 1) as nat)
    }
}

/// One bishop-style ray scanned with left shifts: as `ray_shl`, but the
/// scan also stops once the current square stands on the board edge that
/// `edge` clears.
pub open spec fn diag_shl(own: u64, opp: u64, ptr: u64, sh: u64, edge: u64, fuel: nat) -> u64
    decreases fuel,
{
    if fuel == 0 {
        0u64
    } else if ptr & edge == 0 {
        0u64
    } else if (ptr << sh) & !own == 0 {
        0u64
    } else if (ptr << sh) & !opp == 0 {
        ptr << sh
    } else {
        (ptr << sh) | diag_shl(own, opp, ptr << sh, sh, edge, (fuel - 1) as nat)
    }
}

/// The right-shift counterpart of `diag_shl`.
pub open spec fn diag_shr(own: u64, opp: u64, ptr: u64, sh: u64, edge: u64, fuel: nat) -> u64
    decreases fuel,
{
    if fuel == 0 {
        0u64
    } else if ptr & edge == 0 {
        0u64
    } else if (ptr >> sh) & !own == 0 {
        0u64
    } else if (ptr >> sh) & !opp == 0 {
        ptr >> sh
    } else {
        (ptr >> sh) | diag_shr(own, opp, ptr >> sh, sh, edge, (fuel - 1) as nat)
    }
}

/// Pseudo-legal rook destinations: four straight rays bounded by the
/// distance to each board edge.
pub open spec fn rook_moves(b: BoardState, sq: u64, white: bool) -> u64 {
    let own = color_mask(b, white);
    let opp = color_mask(b, !white);
    let loc = 1u64 << sq;
    let file = sq % 8;
    let rank = sq / 8;
    ray_shl(own, opp, loc, 1, (7 - file) as nat) | ray_shr(own, opp, loc, 1, file as nat) | ray_shl(
        own,
        opp,
        loc,
        8,
        (7 - rank) as nat,
    ) | ray_shr(own, opp, loc, 8, rank as nat)
}

/// Pseudo-legal bishop destinations: four diagonal rays that stop on the
/// file edges.
pub open spec fn bishop_moves(b: BoardState, sq: u64, white: bool) -> u64 {
    let own = color_mask(b, white);
    let opp = color_mask(b, !white);
    let loc = 1u64 << sq;
    diag_shl(own, opp, loc, 9, CLEAR_FILE8, 8) | diag_shl(own, opp, loc, 7, CLEAR_FILE1, 8)
        | diag_shr(own, opp, loc, 7, CLEAR_FILE8, 8) | diag_shr(own, opp, loc, 9, CLEAR_FILE1, 8)
}

/// Pseudo-legal knight destinations from the single-square board `loc`,
/// excluding squares in `own`.
pub open spec fn knight_moves_of(loc: u64, own: u64) -> u64 {
    let p1 = (loc << 6) & CLEAR_FILE7 & CLEAR_FILE8;
    let p2 = (loc << 10) & CLEAR_FILE1 & CLEAR_FILE2;
    let p3 = (loc << 15) & CLEAR_FILE8;
    let p4 = (loc << 17) & CLEAR_FILE1;
    let p5 = (loc >> 6) & CLEAR_FILE1 & CLEAR_FILE2;
    let p6 = (loc >> 10) & CLEAR_FILE7 & CLEAR_FILE8;
    let p7 = (loc >> 15) & CLEAR_FILE1;
    let p8 = (loc >> 17) & CLEAR_FILE8;
    (p1 | p2 | p3 | p4 | p5 | p6 | p7 | p8) & !own
}

/// Pseudo-legal knight destinations.
pub open spec fn knight_moves(b: BoardState, sq: u64, white: bool) -> u64 {
    knight_moves_of(1u64 << sq, color_mask(b, white))
}

/// Pseudo-legal queen destinations: the union of the rook and bishop rays.
pub open spec fn queen_moves(b: BoardState, sq: u64, white: bool) -> u64 {
    rook_moves(b, sq, white) | bishop_moves(b, sq, white)
}

/// Pseudo-legal king destinations: the eight single-step offsets, masked
/// against wraparound and own pieces. No castling move is generated.
pub open spec fn king_moves(b: BoardState, sq: u64, white: bool) -> u64 {
    let own = color_mask(b, white);
    let loc = 1u64 << sq;
    let north = loc << 8;
    let south = loc >> 8;
    let east = (loc << 1) & CLEAR_FILE1;
    let west = (loc >> 1) & CLEAR_FILE8;
    let ne = (loc << 9) & CLEAR_FILE1;
    let nw = (loc << 7) & CLEAR_FILE8;
    let se = (loc >> 7) & CLEAR_FILE1;
    let sw = (loc >> 9) & CLEAR_FILE8;
    (north | south | east | west | ne | nw | se | sw) & !own
}

/// Pseudo-legal destinations of bitboard `k`'s piece kind from `sq`,
/// moving with color `white`; boards `k` and `k + 6` share a generator.
pub open spec fn piece_moves(b: BoardState, k: int, sq: u64, white: bool) -> u64 {
    if k == 0 || k == 6 {
        pawn_moves(b, sq, white)
    } else if k == 1 || k == 7 {
        rook_moves(b, sq, white)
    } else if k == 2 || k == 8 {
        knight_moves(b, sq, white)
    } else if k == 3 || k == 9 {
        bishop_moves(b, sq, white)
    } else if k == 4 || k == 10 {
        queen_moves(b, sq, white)
    } else if k == 5 || k == 11 {
        king_moves(b, sq, white)
    } else {
        0u64
    }
}

/// Union of bitboard `k`'s pseudo-legal destinations over its squares
/// below `n`.
pub open spec fn attacks_upto(b: BoardState, k: int, n: int, white: bool) -> u64
    decreases n,
{
    if n <= 0 {
        0u64
    } else {
        let prev = attacks_upto(b, k, n - 1, white);
        let sq = (n - 1) as u64;
        if has_bit(b.pieces[k], sq) {
            prev | piece_moves(b, k, sq, white)
        } else {
            prev
        }
    }
}

/// Union of `attacks_upto` over the first `j` boards of a color.
pub open spec fn attacks_kinds_upto(b: BoardState, base: int, j: int, white: bool) -> u64
    decreases j,
{
    if j <= 0 {
        0u64
    } else {
        attacks_kinds_upto(b, base, j - 1, white) | attacks_upto(b, base + (j - 1), 64, white)
    }
}

/// Every square attacked by the side not to move: the union of the
/// pseudo-legal destinations of all its pieces.
pub open spec fn opponent_attacks(b: BoardState) -> u64 {
    attacks_kinds_upto(b, color_base(!b.white_turn), 6, !b.white_turn)
}

/// The mover's king stands on a square attacked by the opponent.
pub open spec fn in_check(b: BoardState) -> bool {
    b.pieces[king_index(b)] & opponent_attacks(b) != 0
}

/// The unchecked move application accepts (from, to): the from-square is
/// occupied, and the to-square is not held by the side to move.
pub open spec fn dry_ok(b: BoardState, from: u64, to: u64) -> bool {
    &&& occupant(b, from) is Some
    &&& (occupant(b, to) is Some ==> color_mask(b, b.white_turn) & (1u64 << to) == 0)
}

/// The bitboards after the unchecked move application: any piece on the
/// to-square is captured, then the from-piece's bit moves from `from` to
/// `to`. Meaningful under `dry_ok`.
pub open spec fn dry_pieces(b: BoardState, from: u64, to: u64) -> Seq<u64> {
    let cleared = match occupant(b, to) {
        Some(t) => b.pieces.update(t as int, b.pieces[t as int] & !(1u64 << to)),
        None => b.pieces,
    };
    match occupant(b, from) {
        Some(f) => cleared.update(f as int, (cleared[f as int] & !(1u64 << from)) | (1u64 << to)),
        None => cleared,
    }
}

/// The board after the unchecked move application; turn and last move are
/// untouched.
pub open spec fn dry_apply(b: BoardState, from: u64, to: u64) -> BoardState {
    BoardState { pieces: dry_pieces(b, from, to), ..b }
}

/// Whether simulating (from, to) on a disposable copy ends with the mover
/// in check. A simulation whose unchecked application is refused leaves
/// the copy unchanged, so the answer is then the current check status.
pub open spec fn sim_check(b: BoardState, from: u64, to: u64) -> bool {
    if dry_ok(b, from, to) {
        in_check(dry_apply(b, from, to))
    } else {
        in_check(b)
    }
}

/// The board after a validated move: the unchecked application, the turn
/// flipped, and the move recorded.
pub open spec fn apply_move(b: BoardState, from: u64, to: u64) -> BoardState {
    BoardState {
        pieces: dry_pieces(b, from, to),
        white_turn: !b.white_turn,
        last_move: Some((from as u8, to as u8)),
    }
}

/// The single lowest destination at or above `d` in `moves` whose
/// simulation resolves check, as a one-square board; zero if none.
pub open spec fn first_saving_from(b: BoardState, from: u64, moves: u64, d: u64) -> u64
    decreases 64 - d,
{
    if d >= 64 {
        0u64
    } else if has_bit(moves, d) && !sim_check(b, from, d) {
        1u64 << d
    } else {
        first_saving_from(b, from, moves, (d + 1) as u64)
    }
}

/// All destinations below `n` in `moves` whose simulation resolves check.
pub open spec fn all_saving_upto(b: BoardState, from: u64, moves: u64, n: int) -> u64
    decreases n,
{
    if n <= 0 {
        0u64
    } else {
        let prev = all_saving_upto(b, from, moves, n - 1);
        let d = (n - 1) as u64;
        if has_bit(moves, d) && !sim_check(b, from, d) {
            prev | (1u64 << d)
        } else {
            prev
        }
    }
}

/// The check-resolving destinations of bitboard `k`'s piece on `from`:
/// the full set for the mover's king, but only the first one found for
/// any other piece.
pub open spec fn king_saving(b: BoardState, k: int, from: u64) -> u64 {
    let moves = piece_moves(b, k, from, b.white_turn);
    if k != king_index(b) {
        first_saving_from(b, from, moves, 0)
    } else {
        all_saving_upto(b, from, moves, 64)
    }
}

/// `moves` with every destination below `n` removed whose simulation
/// leaves the mover in check.
pub open spec fn pruned_upto(b: BoardState, from: u64, moves: u64, n: int) -> u64
    decreases n,
{
    if n <= 0 {
        moves
    } else {
        let prev = pruned_upto(b, from, moves, n - 1);
        let d = (n - 1) as u64;
        if has_bit(moves, d) && sim_check(b, from, d) {
            prev & !(1u64 << d)
        } else {
            prev
        }
    }
}

/// The legal destinations offered from `from`: nothing from an empty
/// square; under check, only the check-resolving destinations; otherwise
/// the pseudo-legal destinations with self-check moves pruned.
pub open spec fn possible_moves(b: BoardState, from: u64) -> u64 {
    match occupant(b, from) {
        None => 0u64,
        Some(k) => if in_check(b) {
            king_saving(b, k as int, from)
        } else {
            pruned_upto(b, from, piece_moves(b, k as int, from, b.white_turn), 64)
        },
    }
}

/// Scanning the mover's boards from kind offset `j` and square `sq`
/// onward, no piece has a check-resolving destination.
pub open spec fn no_saving_from(b: BoardState, j: int, sq: u64) -> bool
    decreases 6 - j, 64 - sq,
{
    if j >= 6 {
        true
    } else if sq >= 64 {
        no_saving_from(b, j + 1, 0)
    } else {
        let k = color_base(b.white_turn) + j;
        if has_bit(b.pieces[k], sq) && king_saving(b, k, sq) != 0 {
            false
        } else {
            no_saving_from(b, j, (sq + 1) as u64)
        }
    }
}

/// The side to move has no check-resolving destination anywhere. By
/// design this does not test for check first, so a stalemate (no legal
/// move, king not attacked) is also reported as mate.
pub open spec fn checkmate(b: BoardState) -> bool {
    no_saving_from(b, 0, 0)
}

/// Successor boards from moving the piece on `from` to each accepted
/// destination below `n` of `moves`, in destination order.
pub open spec fn succs_for_sq(b: BoardState, from: u64, moves: u64, n: int) -> Seq<BoardState>
    decreases n,
{
    if n <= 0 {
        Seq::<BoardState>::empty()
    } else {
        let prev = succs_for_sq(b, from, moves, n - 1);
        let d = (n - 1) as u64;
        if has_bit(moves, d) && !sim_check(b, from, d) && dry_ok(b, from, d) {
            prev.push(apply_move(b, from, d))
        } else {
            prev
        }
    }
}

/// Successor boards contributed by bitboard `k`'s pieces on squares
/// below `n`.
pub open spec fn succs_squares_upto(b: BoardState, k: int, n: int) -> Seq<BoardState>
    decreases n,
{
    if n <= 0 {
        Seq::<BoardState>::empty()
    } else {
        let prev = succs_squares_upto(b, k, n - 1);
        let sq = (n - 1) as u64;
        if has_bit(b.pieces[k], sq) {
            prev + succs_for_sq(b, sq, possible_moves(b, sq), 64)
        } else {
            prev
        }
    }
}

/// Successor boards contributed by the first `j` boards of the side to
/// move.
pub open spec fn succs_kinds_upto(b: BoardState, j: int) -> Seq<BoardState>
    decreases j,
{
    if j <= 0 {
        Seq::<BoardState>::empty()
    } else {
        succs_kinds_upto(b, j - 1) + succs_squares_upto(b, color_base(b.white_turn) + (j - 1), 64)
    }
}

/// Every board reachable by one legal move of the side to move, in
/// piece-kind, then square, then destination order.
pub open spec fn successors(b: BoardState) -> Seq<BoardState> {
    succs_kinds_upto(b, 6)
}

/// The standard starting board: white to move, no move played yet.
pub open spec fn start_board() -> BoardState {
    BoardState {
        pieces: seq![
            65280u64,
            129u64,
            66u64,
            36u64,
            8u64,
            16u64,
            71776119061217280u64,
            9295429630892703744u64,
            4755801206503243776u64,
            2594073385365405696u64,
            576460752303423488u64,
            1152921504606846976u64,
        ],
        white_turn: true,
        last_move: None,
    }
}

/// The starting board satisfies the data-model invariant: its twelve
/// bitboards are pairwise disjoint.
pub proof fn lemma_start_board_ok()
    ensures
        board_ok(start_board()),
{
    let b = start_board();
    assert((65280u64 & 129u64 == 0) && (65280u64 & 66u64 == 0) && (65280u64 & 36u64 == 0)
        && (65280u64 & 8u64 == 0) && (65280u64 & 16u64 == 0) && (65280u64
        & 71776119061217280u64 == 0) && (65280u64 & 9295429630892703744u64 == 0) && (65280u64
        & 4755801206503243776u64 == 0) && (65280u64 & 2594073385365405696u64 == 0) && (65280u64
        & 576460752303423488u64 == 0) && (65280u64 & 1152921504606846976u64 == 0) && (129u64
        & 66u64 == 0) && (129u64 & 36u64 == 0) && (129u64 & 8u64 == 0) && (129u64 & 16u64 == 0)
        && (129u64 & 71776119061217280u64 == 0) && (129u64 & 9295429630892703744u64 == 0) && (
    129u64 & 4755801206503243776u64 == 0) && (129u64 & 2594073385365405696u64 == 0) && (129u64
        & 576460752303423488u64 == 0) && (129u64 & 1152921504606846976u64 == 0) && (66u64 & 36u64
        == 0) && (66u64 & 8u64 == 0) && (66u64 & 16u64 == 0) && (66u64 & 71776119061217280u64 == 0)
        && (66u64 & 9295429630892703744u64 == 0) && (66u64 & 4755801206503243776u64 == 0) && (66u64
        & 2594073385365405696u64 == 0) && (66u64 & 576460752303423488u64 == 0) && (66u64
        & 1152921504606846976u64 == 0) && (36u64 & 8u64 == 0) && (36u64 & 16u64 == 0) && (36u64
        & 71776119061217280u64 == 0) && (36u64 & 9295429630892703744u64 == 0) && (36u64
        & 4755801206503243776u64 == 0) && (36u64 & 2594073385365405696u64 == 0) && (36u64
        & 576460752303423488u64 == 0) && (36u64 & 1152921504606846976u64 == 0) && (8u64 & 16u64
        == 0) && (8u64 & 71776119061217280u64 == 0) && (8u64 & 9295429630892703744u64 == 0) && (
    8u64 & 4755801206503243776u64 == 0) && (8u64 & 2594073385365405696u64 == 0) && (8u64
        & 576460752303423488u64 == 0) && (8u64 & 1152921504606846976u64 == 0) && (16u64
        & 71776119061217280u64 == 0) && (16u64 & 9295429630892703744u64 == 0) && (16u64
        & 4755801206503243776u64 == 0) && (16u64 & 2594073385365405696u64 == 0) && (16u64
        & 576460752303423488u64 == 0) && (16u64 & 1152921504606846976u64 == 0) && (
    71776119061217280u64 & 9295429630892703744u64 == 0) && (71776119061217280u64
        & 4755801206503243776u64 == 0) && (71776119061217280u64 & 2594073385365405696u64 == 0) && (
    71776119061217280u64 & 576460752303423488u64 == 0) && (71776119061217280u64
        & 1152921504606846976u64 == 0) && (9295429630892703744u64 & 4755801206503243776u64 == 0)
        && (9295429630892703744u64 & 2594073385365405696u64 == 0) && (9295429630892703744u64
        & 576460752303423488u64 == 0) && (9295429630892703744u64 & 1152921504606846976u64 == 0)
        && (4755801206503243776u64 & 2594073385365405696u64 == 0) && (4755801206503243776u64
        & 576460752303423488u64 == 0) && (4755801206503243776u64 & 1152921504606846976u64 == 0)
        && (2594073385365405696u64 & 576460752303423488u64 == 0) && (2594073385365405696u64
        & 1152921504606846976u64 == 0) && (576460752303423488u64 & 1152921504606846976u64 == 0))
        by (bit_vector);
    crate::bits::lemma_disjoint_pairs();
    assert forall|j: int, k: int, sq: u64|
        0 <= j < k < 12 && sq < 64 implies !(has_bit(b.pieces[j], sq) && has_bit(
        b.pieces[k],
        sq,
    )) by {
        assert(b.pieces[j] & b.pieces[k] == 0);
    }
}

} // verus!
