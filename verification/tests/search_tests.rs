//! Check and mate detection, evaluation, and the minimax search.

use chess_engine::{evaluate, minimax, minimax_unpruned, Chess};

fn sq(file: u8, rank: u8) -> u8 {
    (rank - 1) * 8 + file - 1
}

fn empty_board(white_turn: bool) -> Chess {
    Chess { pieces: [0u64; 12], white_turn, last_move: None }
}

/// A mirrored fool's mate: white has played the king-pawn out and the
/// queen to the h-file fifth rank; black weakened the king's diagonal
/// with both flank pawns and is mated.
fn fools_mate_board() -> Chess {
    let mut chess = Chess::new();
    chess.pieces[0] = (65280u64 & !(1u64 << sq(5, 2))) | (1u64 << sq(5, 4));
    chess.pieces[4] = 1u64 << sq(8, 5);
    chess.pieces[6] = (71776119061217280u64 & !(1u64 << sq(6, 7)) & !(1u64 << sq(7, 7)))
        | (1u64 << sq(6, 6)) | (1u64 << sq(7, 5));
    chess.white_turn = false;
    chess
}

/// White to move with exactly one capture available: the rook takes the
/// black queen, the only move that changes material.
fn forced_capture_board() -> Chess {
    let mut chess = empty_board(true);
    chess.pieces[5] = 1u64 << sq(1, 1);
    chess.pieces[1] = 1u64 << sq(2, 1);
    chess.pieces[10] = 1u64 << sq(2, 8);
    chess.pieces[11] = 1u64 << sq(8, 8);
    chess
}

#[test]
fn opponent_attack_union_at_start() {
    // With white to move, black's pieces reach exactly ranks 5 and 6:
    // every pawn push and double push, with the knight hops subsumed.
    let chess = Chess::new();
    assert_eq!(chess.opponent_all_valid_moves(), 0x0000_FFFF_0000_0000);
    assert!(!chess.is_in_check());
}

#[test]
fn non_king_piece_under_check_offers_only_the_first_rescue() {
    // Black king on the h-file in check from a rook; the black queen
    // could capture the rook or block the file, but for a piece other
    // than the king only the lowest rescuing destination is offered.
    let mut chess = empty_board(false);
    chess.pieces[11] = 1u64 << sq(8, 8);
    chess.pieces[10] = 1u64 << sq(7, 2);
    chess.pieces[1] = 1u64 << sq(8, 1);
    chess.pieces[5] = 1u64 << sq(1, 1);
    assert!(chess.is_in_check());
    assert_eq!(chess.king_saving_move(10, &chess_engine::Position(7, 2)), 1u64 << sq(8, 1));
    assert_eq!(chess.get_possible_moves(&chess_engine::Position(7, 2)), 1u64 << sq(8, 1));
}

#[test]
fn start_position_is_not_check_or_mate() {
    let chess = Chess::new();
    assert!(!chess.is_in_check());
    assert!(!chess.is_checkmate());
}

#[test]
fn fools_mate_is_check_and_mate() {
    let chess = fools_mate_board();
    assert!(chess.is_in_check());
    assert!(chess.is_checkmate());
}

#[test]
fn attacked_king_with_escape_is_not_mate() {
    // Black king in check from an unprotected adjacent queen: capturing
    // it resolves the check.
    let mut chess = empty_board(false);
    chess.pieces[11] = 1u64 << sq(5, 8);
    chess.pieces[4] = 1u64 << sq(5, 7);
    chess.pieces[5] = 1u64 << sq(8, 1);
    assert!(chess.is_in_check());
    assert!(!chess.is_checkmate());
}

#[test]
fn stalemate_is_reported_as_checkmate() {
    // No legal move and no check: the engine deliberately reports this
    // position as mate as well.
    let mut chess = empty_board(false);
    chess.pieces[11] = 1u64 << sq(1, 8);
    chess.pieces[4] = 1u64 << sq(3, 7);
    chess.pieces[5] = 1u64 << sq(8, 1);
    assert!(!chess.is_in_check());
    assert!(chess.is_checkmate());
}

#[test]
fn evaluate_counts_material_with_fixed_weights() {
    assert_eq!(evaluate(&Chess::new()), 0);
    // King + rook against king + queen: 930 - 990.
    assert_eq!(evaluate(&forced_capture_board()), -60);
    // One lone white pawn.
    let mut chess = empty_board(true);
    chess.pieces[0] = 1u64 << sq(1, 2);
    assert_eq!(evaluate(&chess), 10);
}

#[test]
fn search_returns_the_single_material_winning_capture() {
    let chess = forced_capture_board();
    let (best, score) = minimax(&chess, 1, true, i32::MIN, i32::MAX);
    assert_eq!(score, 30);
    let next = best.expect("a non-terminal search must return a successor");
    assert_eq!(next.last_move, Some((sq(2, 1), sq(2, 8))));
    assert_eq!(next.pieces[1], 1u64 << sq(2, 8));
    assert_eq!(next.pieces[10], 0);
    assert!(!next.white_turn);
}

#[test]
fn search_returns_no_successor_only_when_mated() {
    let (best, score) = minimax(&fools_mate_board(), 3, false, i32::MIN, i32::MAX);
    assert!(best.is_none());
    assert_eq!(score, evaluate(&fools_mate_board()));

    let (best, _) = minimax(&Chess::new(), 1, true, i32::MIN, i32::MAX);
    assert!(best.is_some());
}

#[test]
fn depth_zero_search_evaluates_in_place() {
    let chess = Chess::new();
    let (best, score) = minimax(&chess, 0, true, i32::MIN, i32::MAX);
    assert!(best.is_none());
    assert_eq!(score, 0);
}

#[test]
fn pruned_and_unpruned_search_agree_on_the_score() {
    let chess = forced_capture_board();
    let (_, pruned_score) = minimax(&chess, 2, true, i32::MIN, i32::MAX);
    let unpruned_score = minimax_unpruned(&chess, 2, true);
    assert_eq!(pruned_score, unpruned_score);
}

#[test]
fn successors_cover_every_legal_move_once() {
    let chess = forced_capture_board();
    let states = chess.possible_states();
    // Rook: six squares along the first rank plus seven on the b-file
    // (the capture included); king: only the a-file step, since the
    // b-file is covered by the black queen.
    assert_eq!(states.len(), 14);
    for s in &states {
        assert!(!s.white_turn);
        assert!(s.last_move.is_some());
    }
    assert_eq!(
        states
            .iter()
            .filter(|s| s.pieces[10] == 0)
            .count(),
        1
    );
}
