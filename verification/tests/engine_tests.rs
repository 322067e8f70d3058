//! Board, move-generation and move-execution behavior.

use chess_engine::{get_indices_of_set_bits, Chess, MoveError, Position};

fn sq(file: u8, rank: u8) -> u8 {
    (rank - 1) * 8 + file - 1
}

fn empty_board(white_turn: bool) -> Chess {
    Chess { pieces: [0u64; 12], white_turn, last_move: None }
}

fn assert_no_double_occupancy(chess: &Chess) {
    for j in 0..12 {
        for k in (j + 1)..12 {
            assert_eq!(
                chess.pieces[j] & chess.pieces[k],
                0,
                "boards {} and {} share a square",
                j,
                k
            );
        }
    }
}

#[test]
fn index_roundtrip_all_squares() {
    for i in 0..64u8 {
        let pos = Chess::index_to_position(i);
        assert!(pos.0 >= 1 && pos.0 <= 8);
        assert!(pos.1 >= 1 && pos.1 <= 8);
        assert_eq!(Chess::position_to_index(&pos), i);
    }
}

#[test]
fn position_to_index_corners() {
    assert_eq!(Chess::position_to_index(&Position(1, 1)), 0);
    assert_eq!(Chess::position_to_index(&Position(8, 1)), 7);
    assert_eq!(Chess::position_to_index(&Position(1, 8)), 56);
    assert_eq!(Chess::position_to_index(&Position(8, 8)), 63);
}

#[test]
fn new_board_is_standard_start() {
    let chess = Chess::new();
    assert_eq!(
        chess.pieces,
        [
            65280,
            129,
            66,
            36,
            8,
            16,
            71776119061217280,
            9295429630892703744,
            4755801206503243776,
            2594073385365405696,
            576460752303423488,
            1152921504606846976,
        ]
    );
    assert!(chess.white_turn);
    assert_eq!(chess.last_move, None);
    assert_no_double_occupancy(&chess);
}

#[test]
fn pawn_has_single_and_double_push_from_home_rank() {
    let chess = Chess::new();
    let moves = chess.get_possible_moves(&Position(5, 2));
    assert_eq!(moves, (1u64 << sq(5, 3)) | (1u64 << sq(5, 4)));
    assert_eq!(moves.count_ones(), 2);
}

#[test]
fn knight_moves_from_start() {
    let chess = Chess::new();
    let moves = chess.get_possible_moves(&Position(2, 1));
    assert_eq!(moves, (1u64 << sq(1, 3)) | (1u64 << sq(3, 3)));
}

#[test]
fn rook_is_blocked_at_start() {
    let chess = Chess::new();
    assert_eq!(chess.get_possible_moves(&Position(1, 1)), 0);
}

#[test]
fn empty_square_offers_no_moves() {
    let chess = Chess::new();
    assert_eq!(chess.get_possible_moves(&Position(5, 5)), 0);
}

#[test]
fn pawn_captures_diagonally_only_onto_opponents() {
    let mut chess = empty_board(true);
    chess.pieces[0] = 1u64 << sq(5, 4);
    chess.pieces[5] = 1u64 << sq(8, 1);
    chess.pieces[6] = 1u64 << sq(4, 5);
    chess.pieces[11] = 1u64 << sq(8, 8);
    let moves = chess.get_possible_moves(&Position(5, 4));
    assert_eq!(moves, (1u64 << sq(5, 5)) | (1u64 << sq(4, 5)));
}

#[test]
fn blocked_pawn_cannot_push() {
    let mut chess = empty_board(true);
    chess.pieces[0] = 1u64 << sq(5, 2);
    chess.pieces[5] = 1u64 << sq(8, 1);
    chess.pieces[6] = 1u64 << sq(5, 3);
    chess.pieces[11] = 1u64 << sq(8, 8);
    assert_eq!(chess.get_possible_moves(&Position(5, 2)), 0);
}

#[test]
fn pinned_rook_moves_stay_on_the_pin_line() {
    let mut chess = empty_board(true);
    chess.pieces[5] = 1u64 << sq(5, 1);
    chess.pieces[1] = 1u64 << sq(5, 2);
    chess.pieces[10] = 1u64 << sq(5, 8);
    chess.pieces[11] = 1u64 << sq(8, 8);
    let moves = chess.get_possible_moves(&Position(5, 2));
    let expected = (1u64 << sq(5, 3)) | (1u64 << sq(5, 4)) | (1u64 << sq(5, 5)) | (1u64 << sq(5, 6))
        | (1u64 << sq(5, 7)) | (1u64 << sq(5, 8));
    assert_eq!(moves, expected);
}

#[test]
fn offered_moves_never_leave_own_king_in_check() {
    let mut chess = empty_board(true);
    chess.pieces[5] = 1u64 << sq(5, 1);
    chess.pieces[1] = 1u64 << sq(5, 2);
    chess.pieces[10] = 1u64 << sq(5, 8);
    chess.pieces[11] = 1u64 << sq(8, 8);
    for from_file in 1..=8u8 {
        for from_rank in 1..=8u8 {
            let from = Position(from_file, from_rank);
            let moves = chess.get_possible_moves(&from);
            for d in get_indices_of_set_bits(moves) {
                let mut sim = chess.clone();
                sim.dry_move(&from, &Chess::index_to_position(d));
                assert!(!sim.is_in_check());
            }
        }
    }
}

#[test]
fn selection_queries_follow_side_to_move() {
    let chess = Chess::new();
    assert!(chess.is_valid_selection(&Position(5, 2)));
    assert!(!chess.is_valid_selection(&Position(5, 7)));
    assert!(!chess.is_valid_selection(&Position(5, 5)));
    assert!(!chess.is_touch_valid_for_move(&Position(5, 2)));
    assert!(chess.is_touch_valid_for_move(&Position(5, 7)));
    assert!(chess.is_touch_valid_for_move(&Position(5, 5)));
    assert!(chess.contains_piece(&Position(5, 7)));
    assert!(!chess.contains_piece(&Position(5, 5)));
}

#[test]
fn move_piece_applies_capture_and_flips_turn() {
    let mut chess = Chess::new();
    assert!(chess.move_piece(&Position(5, 2), &Position(5, 4)));
    assert!(!chess.white_turn);
    assert_eq!(chess.last_move, Some((sq(5, 2), sq(5, 4))));
    assert_no_double_occupancy(&chess);

    assert!(chess.move_piece(&Position(4, 7), &Position(4, 5)));
    assert!(chess.white_turn);
    assert_no_double_occupancy(&chess);

    // e4 takes d5.
    assert!(chess.move_piece(&Position(5, 4), &Position(4, 5)));
    assert_eq!(chess.pieces[0] & (1u64 << sq(4, 5)), 1u64 << sq(4, 5));
    assert_eq!(chess.pieces[6] & (1u64 << sq(4, 5)), 0);
    assert_no_double_occupancy(&chess);
}

#[test]
fn refused_moves_leave_the_board_unchanged() {
    let mut chess = Chess::new();
    let before = chess.clone();

    // Empty source square.
    assert!(!chess.move_piece(&Position(5, 3), &Position(5, 4)));
    // Destination out of the pawn's reach.
    assert!(!chess.move_piece(&Position(5, 2), &Position(5, 5)));
    // Destination held by an own piece.
    assert!(!chess.move_piece(&Position(1, 1), &Position(1, 2)));

    assert_eq!(chess.pieces, before.pieces);
    assert_eq!(chess.white_turn, before.white_turn);
    assert_eq!(chess.last_move, before.last_move);
    assert_no_double_occupancy(&chess);
}

#[test]
fn dry_move_reports_empty_source() {
    let mut chess = Chess::new();
    assert!(!chess.dry_move(&Position(5, 5), &Position(5, 6)));
    assert!(chess.dry_move(&Position(5, 2), &Position(5, 4)));
    // The unchecked application does not flip the turn.
    assert!(chess.white_turn);
}

#[test]
fn move_piece_checked_reports_each_refusal() {
    let mut chess = Chess::new();
    assert_eq!(
        chess.move_piece_checked(&Position(5, 3), &Position(5, 4)),
        Err(MoveError::NoPieceAtSource)
    );
    assert_eq!(
        chess.move_piece_checked(&Position(5, 2), &Position(5, 5)),
        Err(MoveError::IllegalDestination)
    );
    assert_eq!(chess.move_piece_checked(&Position(5, 2), &Position(5, 4)), Ok(()));
    assert_eq!(chess.last_move, Some((sq(5, 2), sq(5, 4))));
}

#[test]
fn move_piece_checked_reports_game_over() {
    // A mated configuration: any further attempt is refused as game over.
    let mut chess = Chess::new();
    chess.pieces[0] = (65280u64 & !(1u64 << sq(5, 2))) | (1u64 << sq(5, 4));
    chess.pieces[4] = 1u64 << sq(8, 5);
    chess.pieces[6] = (71776119061217280u64 & !(1u64 << sq(6, 7)) & !(1u64 << sq(7, 7)))
        | (1u64 << sq(6, 6)) | (1u64 << sq(7, 5));
    chess.white_turn = false;
    assert_eq!(
        chess.move_piece_checked(&Position(5, 8), &Position(5, 7)),
        Err(MoveError::GameOver)
    );
}

#[test]
fn get_piece_indices_are_color_blocks() {
    assert_eq!(Chess::get_piece_indices(true), [0, 1, 2, 3, 4, 5]);
    assert_eq!(Chess::get_piece_indices(false), [6, 7, 8, 9, 10, 11]);
}

#[test]
fn king_board_index_follows_turn() {
    let mut chess = Chess::new();
    assert_eq!(chess.get_king_position_idx(), 5);
    chess.white_turn = false;
    assert_eq!(chess.get_king_position_idx(), 11);
}

#[test]
fn set_bit_indices_are_exact_and_ascending() {
    assert_eq!(get_indices_of_set_bits(0), Vec::<u8>::new());
    assert_eq!(get_indices_of_set_bits(0b1011), vec![0, 1, 3]);
    assert_eq!(get_indices_of_set_bits(1u64 << 63), vec![63]);
    assert_eq!(get_indices_of_set_bits(u64::MAX).len(), 64);
}
