//! The board type and its verified operations: construction, square
//! indexing, occupancy queries, move generation, legality filtering and
//! move execution.

use vstd::prelude::*;

use crate::bits::{
    has_bit, lemma_single_bit_masks, CLEAR_FILE1, CLEAR_FILE2, CLEAR_FILE7, CLEAR_FILE8,
    MASK_RANK3, MASK_RANK6,
};
use crate::bits::lemma_bit_ops;
use crate::lemmas::{lemma_dry_preserves_ok, lemma_occupant};
use crate::model::{
    all_mask, all_saving_upto, apply_move, attacks_kinds_upto, attacks_upto, bishop_moves,
    board_ok, checkmate, color_base, color_mask, diag_shl, diag_shr, dry_apply, dry_ok,
    first_saving_from, in_check, king_index, king_moves, king_saving, knight_moves,
    knight_moves_of, lemma_start_board_ok, no_saving_from, occupant, occupant_from,
    opponent_attacks, pawn_moves, piece_moves, possible_moves, pruned_upto, queen_moves, ray_shl,
    ray_shr, rook_moves, sim_check, start_board, succs_for_sq, succs_kinds_upto,
    succs_squares_upto, successors, BoardState,
};

verus! {

/// A board coordinate: file then rank, both 1..=8.
#[derive(Clone, Copy, Debug, PartialEq, Eq, Structural)]
pub struct Position(pub u8, pub u8);

/// The coordinate lies on the board.
pub open spec fn pos_ok(p: Position) -> bool {
    1 <= p.0 <= 8 && 1 <= p.1 <= 8
}

/// The square index 0..64 of an on-board coordinate.
pub open spec fn pos_index(p: Position) -> u64 {
    (((p.1 - 1) * 8 + p.0 - 1)) as u64
}

/// The coordinate of a square index.
pub open spec fn index_pos(i: u64) -> Position {
    Position((i % 8 + 1) as u8, (i / 8 + 1) as u8)
}

/// Why a move attempt was refused. All of these are local, recoverable
/// conditions: the caller is expected to re-prompt or ignore the input.
#[derive(Clone, Copy, Debug, PartialEq, Eq, Structural)]
pub enum MoveError {
    /// The mover has no legal move anywhere, so the game is already over.
    GameOver,
    /// The from-square holds no piece.
    NoPieceAtSource,
    /// The destination is not among the legal destinations of the source.
    IllegalDestination,
    /// The move would leave the mover's own king in check.
    SelfCheckExposure,
}

/// The chess engine's sole mutable entity: twelve piece bitboards, the
/// side to move, and the last applied move for the presentation layer.
#[derive(Clone, Copy, Debug)]
pub struct Chess {
    /// Bitboards 0..=5 are white pawn, rook, knight, bishop, queen, king;
    /// 6..=11 the same kinds for black.
    pub pieces: [u64; 12],
    /// True when white is to move.
    pub white_turn: bool,
    /// The most recent applied move as (from, to) square indices; `None`
    /// until the first successful move.
    pub last_move: Option<(u8, u8)>,
}

impl View for Chess {
    type V = BoardState;

    open spec fn view(&self) -> BoardState {
        BoardState { pieces: self.pieces@, white_turn: self.white_turn, last_move: self.last_move }
    }
}

impl Chess {
    /// A fresh game: the standard starting position, white to move.
    pub fn new() -> (r: Chess)
        ensures
            r@ == start_board(),
            board_ok(r@),
    {
        let c = Chess {
            pieces: [
                65280u64,
                129,
                66,
                36,
                8,
                16,
                71776119061217280,
                9295429630892703744,
                4755801206503243776,
                2594073385365405696,
                576460752303423488,
                1152921504606846976,
            ],
            white_turn: true,
            last_move: None,
        };
        proof {
            assert(c@.pieces =~= start_board().pieces);
            lemma_start_board_ok();
        }
        c
    }

    /// The square index of an on-board coordinate.
    pub fn position_to_index(position: &Position) -> (r: u8)
        requires
            pos_ok(*position),
        ensures
            r as u64 == pos_index(*position),
            r < 64,
    {
        (position.1 - 1) * 8 + position.0 - 1
    }

    /// The coordinate of a square index.
    pub fn index_to_position(index: u8) -> (r: Position)
        requires
            index < 64,
        ensures
            r == index_pos(index as u64),
            pos_ok(r),
            pos_index(r) == index as u64,
    {
        Position(index % 8 + 1, index / 8 + 1)
    }

    /// All squares held by one color, as a bitboard; true means white.
    pub(crate) fn get_color_pieces(&self, piece_color: bool) -> (r: u64)
        ensures
            r == color_mask(self@, piece_color),
    {
        if piece_color {
            self.pieces[0] | self.pieces[1] | self.pieces[2] | self.pieces[3] | self.pieces[4]
                | self.pieces[5]
        } else {
            self.pieces[6] | self.pieces[7] | self.pieces[8] | self.pieces[9] | self.pieces[10]
                | self.pieces[11]
        }
    }

    /// All occupied squares, as a bitboard.
    pub(crate) fn get_all_pieces(&self) -> (r: u64)
        ensures
            r == all_mask(self@),
    {
        self.get_color_pieces(true) | self.get_color_pieces(false)
    }

    /// The index of the bitboard occupying the given square, scanning the
    /// twelve boards in order; `None` for an empty square.
    pub(crate) fn get_piece(&self, position: &Position) -> (r: Option<u8>)
        requires
            pos_ok(*position),
        ensures
            r == occupant(self@, pos_index(*position)),
    {
        let pos_idx = Chess::position_to_index(position);
        let mut k: usize = 0;
        while k < 12
            invariant
                k <= 12,
                pos_idx as u64 == pos_index(*position),
                pos_idx < 64,
                occupant(self@, pos_index(*position)) == occupant_from(
                    self@,
                    pos_index(*position),
                    k as int,
                ),
            decreases 12 - k,
        {
            proof {
                lemma_single_bit_masks();
            }
            if (1u64 << (pos_idx as u64)) & self.pieces[k] > 0 {
                return Some(k as u8);
            }
            k += 1;
        }
        None
    }

    /// Whether any piece stands on the given square.
    pub fn contains_piece(&self, pos: &Position) -> (r: bool)
        requires
            pos_ok(*pos),
        ensures
            r == has_bit(all_mask(self@), pos_index(*pos)),
    {
        let all_pieces = self.get_all_pieces();
        let idx = Chess::position_to_index(pos);
        proof {
            lemma_single_bit_masks();
        }
        ((1u64 << (idx as u64)) & all_pieces) > 0
    }

    /// Whether the given square holds a piece of the side to move: used
    /// to gate piece selection.
    pub fn is_valid_selection(&self, position: &Position) -> (r: bool)
        requires
            pos_ok(*position),
        ensures
            r == has_bit(color_mask(self@, self@.white_turn), pos_index(*position)),
    {
        let bitboard = self.get_color_pieces(self.white_turn);
        let idx = Chess::position_to_index(position);
        proof {
            lemma_single_bit_masks();
        }
        ((1u64 << (idx as u64)) & bitboard) > 0
    }

    /// Whether the given square is free of the mover's own pieces: a
    /// second selection there is a move attempt, not a reselection.
    pub fn is_touch_valid_for_move(&self, pos: &Position) -> (r: bool)
        requires
            pos_ok(*pos),
        ensures
            r == !has_bit(color_mask(self@, self@.white_turn), pos_index(*pos)),
    {
        let own_piece = self.get_color_pieces(self.white_turn);
        let idx = Chess::position_to_index(pos);
        proof {
            lemma_single_bit_masks();
        }
        ((1u64 << (idx as u64)) & own_piece) == 0
    }

    /// The six bitboard indices of one color; true means white.
    pub fn get_piece_indices(for_piece: bool) -> (r: [u8; 6])
        ensures
            forall|i: int| 0 <= i < 6 ==> r@[i] as int == crate::model::color_base(for_piece) + i,
    {
        if for_piece {
            [0, 1, 2, 3, 4, 5]
        } else {
            [6, 7, 8, 9, 10, 11]
        }
    }

    /// The bitboard index of the mover's king.
    pub fn get_king_position_idx(&self) -> (r: u8)
        ensures
            r as int == king_index(self@),
    {
        if self.white_turn {
            5
        } else {
            11
        }
    }

    /// One straight ray scanned with left shifts, at most `steps` squares:
    /// empty squares are included, an opponent square is included and ends
    /// the ray, an own square ends it unincluded.
    fn scan_shl(own: u64, opp: u64, start: u64, sh: u64, steps: u8) -> (r: u64)
        requires
            sh < 64,
        ensures
            r == ray_shl(own, opp, start, sh, steps as nat),
    {
        proof {
            lemma_bit_ops();
        }
        let mut acc: u64 = 0;
        let mut ptr: u64 = start;
        let mut rem: u8 = steps;
        while rem > 0
            invariant
                sh < 64,
                acc | ray_shl(own, opp, ptr, sh, rem as nat) == ray_shl(
                    own,
                    opp,
                    start,
                    sh,
                    steps as nat,
                ),
                forall|x: u64| (#[trigger] (x | 0u64)) == x,
                forall|x: u64| (#[trigger] (0u64 | x)) == x,
                forall|x: u64, y: u64, z: u64| (#[trigger] ((x | y) | z)) == x | (y | z),
            decreases rem,
        {
            let next = ptr << sh;
            if next & !own == 0 {
                rem = 0;
            } else if next & !opp == 0 {
                acc = acc | next;
                rem = 0;
            } else {
                acc = acc | next;
                ptr = next;
                rem = rem - 1;
            }
        }
        acc
    }

    /// The right-shift counterpart of `scan_shl`.
    fn scan_shr(own: u64, opp: u64, start: u64, sh: u64, steps: u8) -> (r: u64)
        requires
            sh < 64,
        ensures
            r == ray_shr(own, opp, start, sh, steps as nat),
    {
        proof {
            lemma_bit_ops();
        }
        let mut acc: u64 = 0;
        let mut ptr: u64 = start;
        let mut rem: u8 = steps;
        while rem > 0
            invariant
                sh < 64,
                acc | ray_shr(own, opp, ptr, sh, rem as nat) == ray_shr(
                    own,
                    opp,
                    start,
                    sh,
                    steps as nat,
                ),
                forall|x: u64| (#[trigger] (x | 0u64)) == x,
                forall|x: u64| (#[trigger] (0u64 | x)) == x,
                forall|x: u64, y: u64, z: u64| (#[trigger] ((x | y) | z)) == x | (y | z),
            decreases rem,
        {
            let next = ptr >> sh;
            if next & !own == 0 {
                rem = 0;
            } else if next & !opp == 0 {
                acc = acc | next;
                rem = 0;
            } else {
                acc = acc | next;
                ptr = next;
                rem = rem - 1;
            }
        }
        acc
    }

    /// One diagonal ray scanned with left shifts: as `scan_shl`, but the
    /// scan also ends once the current square stands on the board edge
    /// that `edge` clears.
    fn scan_diag_shl(own: u64, opp: u64, start: u64, sh: u64, edge: u64) -> (r: u64)
        requires
            sh < 64,
        ensures
            r == diag_shl(own, opp, start, sh, edge, 8),
    {
        proof {
            lemma_bit_ops();
        }
        let mut acc: u64 = 0;
        let mut ptr: u64 = start;
        let mut rem: u8 = 8;
        while rem > 0
            invariant
                sh < 64,
                acc | diag_shl(own, opp, ptr, sh, edge, rem as nat) == diag_shl(
                    own,
                    opp,
                    start,
                    sh,
                    edge,
                    8,
                ),
                forall|x: u64| (#[trigger] (x | 0u64)) == x,
                forall|x: u64| (#[trigger] (0u64 | x)) == x,
                forall|x: u64, y: u64, z: u64| (#[trigger] ((x | y) | z)) == x | (y | z),
            decreases rem,
        {
            if ptr & edge == 0 {
                rem = 0;
            } else {
                let next = ptr << sh;
                if next & !own == 0 {
                    rem = 0;
                } else if next & !opp == 0 {
                    acc = acc | next;
                    rem = 0;
                } else {
                    acc = acc | next;
                    ptr = next;
                    rem = rem - 1;
                }
            }
        }
        acc
    }

    /// The right-shift counterpart of `scan_diag_shl`.
    fn scan_diag_shr(own: u64, opp: u64, start: u64, sh: u64, edge: u64) -> (r: u64)
        requires
            sh < 64,
        ensures
            r == diag_shr(own, opp, start, sh, edge, 8),
    {
        proof {
            lemma_bit_ops();
        }
        let mut acc: u64 = 0;
        let mut ptr: u64 = start;
        let mut rem: u8 = 8;
        while rem > 0
            invariant
                sh < 64,
                acc | diag_shr(own, opp, ptr, sh, edge, rem as nat) == diag_shr(
                    own,
                    opp,
                    start,
                    sh,
                    edge,
                    8,
                ),
                forall|x: u64| (#[trigger] (x | 0u64)) == x,
                forall|x: u64| (#[trigger] (0u64 | x)) == x,
                forall|x: u64, y: u64, z: u64| (#[trigger] ((x | y) | z)) == x | (y | z),
            decreases rem,
        {
            if ptr & edge == 0 {
                rem = 0;
            } else {
                let next = ptr >> sh;
                if next & !own == 0 {
                    rem = 0;
                } else if next & !opp == 0 {
                    acc = acc | next;
                    rem = 0;
                } else {
                    acc = acc | next;
                    ptr = next;
                    rem = rem - 1;
                }
            }
        }
        acc
    }

    /// Pseudo-legal pawn destinations: pushes onto empty squares and
    /// diagonal captures of opponent pieces.
    pub(crate) fn possible_pawn_moves(&self, pawn_position: &Position, for_piece: bool) -> (r: u64)
        requires
            pos_ok(*pawn_position),
        ensures
            r == pawn_moves(self@, pos_index(*pawn_position), for_piece),
    {
        let all_pieces = self.get_all_pieces();
        let opponent_pieces = self.get_color_pieces(!for_piece);
        let position_index = Chess::position_to_index(pawn_position);
        let pawn_location: u64 = 1u64 << (position_index as u64);

        let one_move_forward = if for_piece {
            (pawn_location << 8) & !all_pieces
        } else {
            (pawn_location >> 8) & !all_pieces
        };
        let two_moves_forward = if for_piece {
            ((one_move_forward & MASK_RANK3) << 8) & !all_pieces
        } else {
            ((one_move_forward & MASK_RANK6) >> 8) & !all_pieces
        };

        let right_attack = if for_piece {
            (pawn_location << 9) & CLEAR_FILE1
        } else {
            (pawn_location >> 9) & CLEAR_FILE8
        };
        let left_attack = if for_piece {
            (pawn_location << 7) & CLEAR_FILE8
        } else {
            (pawn_location >> 7) & CLEAR_FILE1
        };

        let pawn_attack = left_attack | right_attack;
        let valid_attacks = pawn_attack & opponent_pieces;
        let valid_moves = one_move_forward | two_moves_forward;
        valid_attacks | valid_moves
    }

    /// Pseudo-legal rook destinations: four straight rays bounded by the
    /// distance to each board edge.
    pub(crate) fn possible_rook_moves(&self, rook_position: &Position, for_piece: bool) -> (r: u64)
        requires
            pos_ok(*rook_position),
        ensures
            r == rook_moves(self@, pos_index(*rook_position), for_piece),
    {
        let own_pieces = self.get_color_pieces(for_piece);
        let opposition_pieces = self.get_color_pieces(!for_piece);
        let position_idx = Chess::position_to_index(rook_position);
        let rl: u64 = 1u64 << (position_idx as u64);
        let file: u8 = position_idx % 8;
        let rank: u8 = position_idx / 8;

        let right = Chess::scan_shl(own_pieces, opposition_pieces, rl, 1, 7 - file);
        let left = Chess::scan_shr(own_pieces, opposition_pieces, rl, 1, file);
        let top = Chess::scan_shl(own_pieces, opposition_pieces, rl, 8, 7 - rank);
        let bottom = Chess::scan_shr(own_pieces, opposition_pieces, rl, 8, rank);
        right | left | top | bottom
    }

    /// Pseudo-legal bishop destinations: four diagonal rays that stop on
    /// the file edges.
    pub(crate) fn possible_bishop_moves(
        &self,
        bishop_position: &Position,
        for_piece: bool,
    ) -> (r: u64)
        requires
            pos_ok(*bishop_position),
        ensures
            r == bishop_moves(self@, pos_index(*bishop_position), for_piece),
    {
        let own_pieces = self.get_color_pieces(for_piece);
        let opposition_pieces = self.get_color_pieces(!for_piece);
        let position_idx = Chess::position_to_index(bishop_position);
        let bl: u64 = 1u64 << (position_idx as u64);

        let up_right = Chess::scan_diag_shl(own_pieces, opposition_pieces, bl, 9, CLEAR_FILE8);
        let up_left = Chess::scan_diag_shl(own_pieces, opposition_pieces, bl, 7, CLEAR_FILE1);
        let down_right = Chess::scan_diag_shr(own_pieces, opposition_pieces, bl, 7, CLEAR_FILE8);
        let down_left = Chess::scan_diag_shr(own_pieces, opposition_pieces, bl, 9, CLEAR_FILE1);
        up_right | up_left | down_right | down_left
    }

    /// Pseudo-legal knight destinations from the single-square board
    /// `nl`, excluding squares in `own_pieces`.
    pub(crate) fn possible_knight_moves_by_location(&self, nl: u64, own_pieces: u64) -> (r: u64)
        ensures
            r == knight_moves_of(nl, own_pieces),
    {
        let p1 = (nl << 6) & CLEAR_FILE7 & CLEAR_FILE8;
        let p2 = (nl << 10) & CLEAR_FILE1 & CLEAR_FILE2;
        let p3 = (nl << 15) & CLEAR_FILE8;
        let p4 = (nl << 17) & CLEAR_FILE1;

        let p5 = (nl >> 6) & CLEAR_FILE1 & CLEAR_FILE2;
        let p6 = (nl >> 10) & CLEAR_FILE7 & CLEAR_FILE8;
        let p7 = (nl >> 15) & CLEAR_FILE1;
        let p8 = (nl >> 17) & CLEAR_FILE8;

        (p1 | p2 | p3 | p4 | p5 | p6 | p7 | p8) & !own_pieces
    }

    /// Pseudo-legal knight destinations.
    pub(crate) fn possible_knight_moves(
        &self,
        knight_position: &Position,
        for_piece: bool,
    ) -> (r: u64)
        requires
            pos_ok(*knight_position),
        ensures
            r == knight_moves(self@, pos_index(*knight_position), for_piece),
    {
        let own_pieces = self.get_color_pieces(for_piece);
        let position_idx = Chess::position_to_index(knight_position);
        let nl: u64 = 1u64 << (position_idx as u64);
        self.possible_knight_moves_by_location(nl, own_pieces)
    }

    /// Pseudo-legal queen destinations: the union of the rook and bishop
    /// rays.
    pub(crate) fn possible_queen_moves(
        &self,
        queen_position: &Position,
        for_piece: bool,
    ) -> (r: u64)
        requires
            pos_ok(*queen_position),
        ensures
            r == queen_moves(self@, pos_index(*queen_position), for_piece),
    {
        self.possible_rook_moves(queen_position, for_piece) | self.possible_bishop_moves(
            queen_position,
            for_piece,
        )
    }

    /// Pseudo-legal king destinations: the eight single-step offsets,
    /// masked against wraparound and own pieces; no castling move.
    pub(crate) fn possible_king_moves(&self, king_position: &Position, for_piece: bool) -> (r: u64)
        requires
            pos_ok(*king_position),
        ensures
            r == king_moves(self@, pos_index(*king_position), for_piece),
    {
        let own_pieces = self.get_color_pieces(for_piece);
        let position_idx = Chess::position_to_index(king_position);
        let king_location: u64 = 1u64 << (position_idx as u64);

        let north = king_location << 8;
        let south = king_location >> 8;
        let east = (king_location << 1) & CLEAR_FILE1;
        let west = (king_location >> 1) & CLEAR_FILE8;

        let ne = (king_location << 9) & CLEAR_FILE1;
        let nw = (king_location << 7) & CLEAR_FILE8;
        let se = (king_location >> 7) & CLEAR_FILE1;
        let sw = (king_location >> 9) & CLEAR_FILE8;

        (north | south | east | west | ne | nw | se | sw) & !own_pieces
    }

    /// Pseudo-legal destinations of bitboard `piece_idx`'s kind from the
    /// given square, moving with color `for_piece`; boards `k` and
    /// `k + 6` share a generator.
    pub fn get_possible_moves_by_piece_idx(
        &self,
        piece_idx: u8,
        position: &Position,
        for_piece: bool,
    ) -> (r: u64)
        requires
            pos_ok(*position),
        ensures
            r == piece_moves(self@, piece_idx as int, pos_index(*position), for_piece),
    {
        if piece_idx == 0 || piece_idx == 6 {
            self.possible_pawn_moves(position, for_piece)
        } else if piece_idx == 1 || piece_idx == 7 {
            self.possible_rook_moves(position, for_piece)
        } else if piece_idx == 2 || piece_idx == 8 {
            self.possible_knight_moves(position, for_piece)
        } else if piece_idx == 3 || piece_idx == 9 {
            self.possible_bishop_moves(position, for_piece)
        } else if piece_idx == 4 || piece_idx == 10 {
            self.possible_queen_moves(position, for_piece)
        } else if piece_idx == 5 || piece_idx == 11 {
            self.possible_king_moves(position, for_piece)
        } else {
            0
        }
    }

    /// The unchecked move application: refuse an empty from-square or a
    /// to-square held by the side to move; otherwise capture whatever
    /// stands on the to-square and move the from-piece's bit. The turn
    /// flag and last-move record are untouched.
    pub fn dry_move(&mut self, from: &Position, to: &Position) -> (r: bool)
        requires
            pos_ok(*from),
            pos_ok(*to),
        ensures
            r == dry_ok(old(self)@, pos_index(*from), pos_index(*to)),
            r ==> final(self)@ == dry_apply(old(self)@, pos_index(*from), pos_index(*to)),
            !r ==> final(self)@ == old(self)@,
    {
        let to_idx = Chess::position_to_index(to);
        let from_idx = Chess::position_to_index(from);
        proof {
            lemma_occupant(old(self)@, pos_index(*from));
            lemma_occupant(old(self)@, pos_index(*to));
        }
        if let Some(from_piece_idx) = self.get_piece(from) {
            if let Some(to_piece_idx) = self.get_piece(to) {
                let my_pieces = self.get_color_pieces(self.white_turn);
                if my_pieces & (1u64 << (to_idx as u64)) > 0 {
                    return false;
                }
                self.pieces[to_piece_idx as usize] = self.pieces[to_piece_idx as usize] & !(1u64
                    << (to_idx as u64));
            }
            self.pieces[from_piece_idx as usize] = self.pieces[from_piece_idx as usize] & !(1u64
                << (from_idx as u64)) | (1u64 << (to_idx as u64));
            return true;
        }
        false
    }

    /// Every square the side not to move attacks: the union of the
    /// pseudo-legal destinations of all its pieces.
    pub fn opponent_all_valid_moves(&self) -> (r: u64)
        ensures
            r == opponent_attacks(self@),
    {
        let white = !self.white_turn;
        let indices = Chess::get_piece_indices(white);
        let mut valid_moves: u64 = 0;
        let mut j: usize = 0;
        while j < 6
            invariant
                j <= 6,
                white == !self@.white_turn,
                forall|i: int| 0 <= i < 6 ==> indices@[i] as int == color_base(white) + i,
                valid_moves == attacks_kinds_upto(self@, color_base(white), j as int, white),
            decreases 6 - j,
        {
            let i = indices[j];
            let mut acc: u64 = 0;
            let mut sq: u8 = 0;
            while sq < 64
                invariant
                    sq <= 64,
                    i as int == color_base(white) + j,
                    j < 6,
                    acc == attacks_upto(self@, i as int, sq as int, white),
                decreases 64 - sq,
            {
                if self.pieces[i as usize] & (1u64 << (sq as u64)) > 0 {
                    let position = Chess::index_to_position(sq);
                    let vm = self.get_possible_moves_by_piece_idx(i, &position, white);
                    acc = acc | vm;
                }
                sq += 1;
            }
            valid_moves = valid_moves | acc;
            j += 1;
        }
        valid_moves
    }

    /// Whether the mover's king stands on a square the opponent attacks.
    pub fn is_in_check(&self) -> (r: bool)
        ensures
            r == in_check(self@),
    {
        let king_piece = if self.white_turn {
            self.pieces[5]
        } else {
            self.pieces[11]
        };
        let opponent_valid_moves = self.opponent_all_valid_moves();
        (king_piece & opponent_valid_moves) > 0
    }

    /// The check-resolving destinations of bitboard `piece_idx`'s piece
    /// on the given square: for the mover's king every such destination,
    /// for any other piece only the first one found.
    pub fn king_saving_move(&self, piece_idx: u8, position: &Position) -> (r: u64)
        requires
            pos_ok(*position),
        ensures
            r == king_saving(self@, piece_idx as int, pos_index(*position)),
    {
        let possible_moves_bb = self.get_possible_moves_by_piece_idx(
            piece_idx,
            position,
            self.white_turn,
        );
        let king_idx = self.get_king_position_idx();
        let ghost b = self@;
        let ghost fi = pos_index(*position);
        if piece_idx != king_idx {
            let mut d: u8 = 0;
            while d < 64
                invariant
                    d <= 64,
                    fi == pos_index(*position),
                    pos_ok(*position),
                    b == self@,
                    possible_moves_bb == piece_moves(b, piece_idx as int, fi, b.white_turn),
                    piece_idx as int != king_index(b),
                    first_saving_from(b, fi, possible_moves_bb, 0) == first_saving_from(
                        b,
                        fi,
                        possible_moves_bb,
                        d as u64,
                    ),
                decreases 64 - d,
            {
                if possible_moves_bb & (1u64 << (d as u64)) > 0 {
                    let mut new_chess = self.clone();
                    let new_position = Chess::index_to_position(d);
                    let dry_worked = new_chess.dry_move(position, &new_position);
                    if !new_chess.is_in_check() {
                        proof {
                            assert(first_saving_from(b, fi, possible_moves_bb, d as u64) == 1u64
                                << (d as u64));
                        }
                        return 1u64 << (d as u64);
                    }
                }
                d += 1;
            }
            0
        } else {
            let mut saving_moves: u64 = 0;
            let mut d: u8 = 0;
            while d < 64
                invariant
                    d <= 64,
                    fi == pos_index(*position),
                    pos_ok(*position),
                    b == self@,
                    possible_moves_bb == piece_moves(b, piece_idx as int, fi, b.white_turn),
                    piece_idx as int == king_index(b),
                    saving_moves == all_saving_upto(b, fi, possible_moves_bb, d as int),
                decreases 64 - d,
            {
                if possible_moves_bb & (1u64 << (d as u64)) > 0 {
                    let mut new_chess = self.clone();
                    let new_position = Chess::index_to_position(d);
                    new_chess.dry_move(position, &new_position);
                    if !new_chess.is_in_check() {
                        saving_moves = saving_moves | (1u64 << (d as u64));
                    }
                }
                d += 1;
            }
            saving_moves
        }
    }

    /// The legal destinations offered from the given square: nothing from
    /// an empty square; under check only the check-resolving
    /// destinations; otherwise the pseudo-legal destinations with every
    /// self-check move pruned.
    pub fn get_possible_moves(&self, position: &Position) -> (r: u64)
        requires
            pos_ok(*position),
        ensures
            r == possible_moves(self@, pos_index(*position)),
    {
        if let Some(piece_idx) = self.get_piece(position) {
            if self.is_in_check() {
                return self.king_saving_move(piece_idx, position);
            }
            let moves0 = self.get_possible_moves_by_piece_idx(piece_idx, position, self.white_turn);
            let ghost b = self@;
            let ghost fi = pos_index(*position);
            let mut location = moves0;
            let mut d: u8 = 0;
            while d < 64
                invariant
                    d <= 64,
                    fi == pos_index(*position),
                    pos_ok(*position),
                    b == self@,
                    location == pruned_upto(b, fi, moves0, d as int),
                decreases 64 - d,
            {
                if moves0 & (1u64 << (d as u64)) > 0 {
                    let mut new_chess = self.clone();
                    let new_position = Chess::index_to_position(d);
                    new_chess.dry_move(position, &new_position);
                    if new_chess.is_in_check() {
                        location = location & !(1u64 << (d as u64));
                    }
                }
                d += 1;
            }
            location
        } else {
            0
        }
    }

    /// Whether the side to move has no check-resolving destination
    /// anywhere. By design this is not gated on being in check, so a
    /// stalemate is also reported as mate.
    pub fn is_checkmate(&self) -> (r: bool)
        ensures
            r == checkmate(self@),
    {
        let indices = Chess::get_piece_indices(self.white_turn);
        let mut j: usize = 0;
        while j < 6
            invariant
                j <= 6,
                forall|i: int|
                    0 <= i < 6 ==> indices@[i] as int == color_base(self@.white_turn) + i,
                checkmate(self@) == no_saving_from(self@, j as int, 0),
            decreases 6 - j,
        {
            let i = indices[j];
            let mut sq: u8 = 0;
            while sq < 64
                invariant
                    sq <= 64,
                    j < 6,
                    i as int == color_base(self@.white_turn) + j,
                    checkmate(self@) == no_saving_from(self@, j as int, sq as u64),
                decreases 64 - sq,
            {
                if self.pieces[i as usize] & (1u64 << (sq as u64)) > 0 {
                    let pos = Chess::index_to_position(sq);
                    let vm = self.king_saving_move(i, &pos);
                    if vm > 0 {
                        return false;
                    }
                }
                sq += 1;
            }
            j += 1;
        }
        true
    }

    /// Whether the to-square is among the legal destinations offered from
    /// the from-square.
    fn is_move_valid(&self, from: &Position, to: &Position) -> (r: bool)
        requires
            pos_ok(*from),
            pos_ok(*to),
        ensures
            r == has_bit(possible_moves(self@, pos_index(*from)), pos_index(*to)),
    {
        let possible_moves_bb = self.get_possible_moves(from);
        let idx = Chess::position_to_index(to);
        proof {
            lemma_single_bit_masks();
        }
        ((1u64 << (idx as u64)) & possible_moves_bb) > 0
    }

    /// The public mutation entry point: refuse a destination that is not
    /// offered, or a move whose simulation leaves the mover in check;
    /// otherwise apply the move, flip the turn and record the move. A
    /// sound board stays sound.
    pub fn move_piece(&mut self, from: &Position, to: &Position) -> (r: bool)
        requires
            pos_ok(*from),
            pos_ok(*to),
        ensures
            ({
                let b = old(self)@;
                let fi = pos_index(*from);
                let ti = pos_index(*to);
                let allowed = has_bit(possible_moves(b, fi), ti) && !sim_check(b, fi, ti) && dry_ok(
                    b,
                    fi,
                    ti,
                );
                &&& r == allowed
                &&& r ==> final(self)@ == apply_move(b, fi, ti)
                &&& !r ==> final(self)@ == b
                &&& board_ok(b) ==> board_ok(final(self)@)
            }),
    {
        let ghost b = old(self)@;
        let ghost fi = pos_index(*from);
        let ghost ti = pos_index(*to);
        if !self.is_move_valid(from, to) {
            return false;
        }
        let mut new_chess = self.clone();
        new_chess.dry_move(from, to);
        if new_chess.is_in_check() {
            return false;
        }
        let move_successful = self.dry_move(from, to);
        if move_successful {
            self.white_turn = !self.white_turn;
            self.last_move = Some(
                (Chess::position_to_index(from), Chess::position_to_index(to)),
            );
            proof {
                if board_ok(b) {
                    lemma_dry_preserves_ok(b, fi, ti);
                }
                assert(final(self)@ == apply_move(b, fi, ti));
            }
        }
        move_successful
    }

    /// As `move_piece`, but saying why a refused move was refused: the
    /// game being over, an empty source, a destination that is not
    /// offered, or a move that would expose the mover's own king.
    pub fn move_piece_checked(&mut self, from: &Position, to: &Position) -> (r: Result<
        (),
        MoveError,
    >)
        requires
            pos_ok(*from),
            pos_ok(*to),
            board_ok(old(self)@),
        ensures
            ({
                let b = old(self)@;
                let fi = pos_index(*from);
                let ti = pos_index(*to);
                &&& (r is Ok <==> (!checkmate(b) && occupant(b, fi) is Some && has_bit(
                    possible_moves(b, fi),
                    ti,
                ) && !sim_check(b, fi, ti)))
                &&& (r == Result::<(), MoveError>::Err(MoveError::GameOver) <==> checkmate(b))
                &&& (r == Result::<(), MoveError>::Err(MoveError::NoPieceAtSource) <==> (!checkmate(
                    b,
                ) && occupant(b, fi) is None))
                &&& (r == Result::<(), MoveError>::Err(MoveError::IllegalDestination) <==> (
                !checkmate(b) && occupant(b, fi) is Some && !has_bit(possible_moves(b, fi), ti)))
                &&& (r == Result::<(), MoveError>::Err(MoveError::SelfCheckExposure) <==> (
                !checkmate(b) && occupant(b, fi) is Some && has_bit(possible_moves(b, fi), ti)
                    && sim_check(b, fi, ti)))
                &&& (r is Ok ==> final(self)@ == apply_move(b, fi, ti))
                &&& (r is Err ==> final(self)@ == b)
                &&& board_ok(final(self)@)
            }),
    {
        let ghost b = old(self)@;
        let ghost fi = pos_index(*from);
        let ghost ti = pos_index(*to);
        if self.is_checkmate() {
            return Err(MoveError::GameOver);
        }
        if self.get_piece(from).is_none() {
            return Err(MoveError::NoPieceAtSource);
        }
        if !self.is_move_valid(from, to) {
            return Err(MoveError::IllegalDestination);
        }
        let mut new_chess = self.clone();
        new_chess.dry_move(from, to);
        if new_chess.is_in_check() {
            return Err(MoveError::SelfCheckExposure);
        }
        proof {
            crate::laws::lemma_possible_implies_dry_ok(b, fi, ti);
        }
        self.dry_move(from, to);
        self.white_turn = !self.white_turn;
        self.last_move = Some((Chess::position_to_index(from), Chess::position_to_index(to)));
        proof {
            lemma_dry_preserves_ok(b, fi, ti);
            assert(final(self)@ == apply_move(b, fi, ti));
        }
        Ok(())
    }

    /// Every board reachable by one legal move of the side to move, in
    /// piece-kind, then square, then destination order; each is produced
    /// by `move_piece` on a fresh copy. Sound boards yield sound
    /// successors.
    pub fn possible_states(&self) -> (r: Vec<Chess>)
        ensures
            r@.len() == successors(self@).len(),
            forall|i: int| 0 <= i < r@.len() ==> (#[trigger] r@[i])@ == successors(self@)[i],
            board_ok(self@) ==> forall|i: int| 0 <= i < r@.len() ==> board_ok((#[trigger] r@[i])@),
    {
        let ghost b = self@;
        let indices = Chess::get_piece_indices(self.white_turn);
        let mut result: Vec<Chess> = Vec::new();
        let mut j: usize = 0;
        while j < 6
            invariant
                j <= 6,
                b == self@,
                forall|i: int| 0 <= i < 6 ==> indices@[i] as int == color_base(b.white_turn) + i,
                result@.len() == succs_kinds_upto(b, j as int).len(),
                forall|i: int|
                    0 <= i < result@.len() ==> (#[trigger] result@[i])@ == succs_kinds_upto(
                        b,
                        j as int,
                    )[i],
                board_ok(b) ==> forall|i: int|
                    0 <= i < result@.len() ==> board_ok((#[trigger] result@[i])@),
            decreases 6 - j,
        {
            let k = indices[j];
            let ghost done_kinds = succs_kinds_upto(b, j as int);
            let mut sq: u8 = 0;
            while sq < 64
                invariant
                    sq <= 64,
                    j < 6,
                    b == self@,
                    k as int == color_base(b.white_turn) + j,
                    done_kinds == succs_kinds_upto(b, j as int),
                    result@.len() == done_kinds.len() + succs_squares_upto(
                        b,
                        k as int,
                        sq as int,
                    ).len(),
                    forall|i: int|
                        0 <= i < result@.len() ==> (#[trigger] result@[i])@ == (done_kinds
                            + succs_squares_upto(b, k as int, sq as int))[i],
                    board_ok(b) ==> forall|i: int|
                        0 <= i < result@.len() ==> board_ok((#[trigger] result@[i])@),
                decreases 64 - sq,
            {
                if self.pieces[k as usize] & (1u64 << (sq as u64)) > 0 {
                    let from = Chess::index_to_position(sq);
                    let moves = self.get_possible_moves(&from);
                    let ghost done_squares = done_kinds + succs_squares_upto(
                        b,
                        k as int,
                        sq as int,
                    );
                    let mut d: u8 = 0;
                    while d < 64
                        invariant
                            d <= 64,
                            sq < 64,
                            b == self@,
                            pos_ok(from),
                            pos_index(from) == sq as u64,
                            moves == possible_moves(b, sq as u64),
                            done_squares == done_kinds + succs_squares_upto(
                                b,
                                k as int,
                                sq as int,
                            ),
                            result@.len() == done_squares.len() + succs_for_sq(
                                b,
                                sq as u64,
                                moves,
                                d as int,
                            ).len(),
                            forall|i: int|
                                0 <= i < result@.len() ==> (#[trigger] result@[i])@ == (
                                done_squares + succs_for_sq(b, sq as u64, moves, d as int))[i],
                            board_ok(b) ==> forall|i: int|
                                0 <= i < result@.len() ==> board_ok((#[trigger] result@[i])@),
                        decreases 64 - d,
                    {
                        if moves & (1u64 << (d as u64)) > 0 {
                            let to = Chess::index_to_position(d);
                            let mut new_chess = self.clone();
                            if new_chess.move_piece(&from, &to) {
                                proof {
                                    if board_ok(b) {
                                        lemma_dry_preserves_ok(b, sq as u64, d as u64);
                                    }
                                }
                                result.push(new_chess);
                            }
                        }
                        d += 1;
                    }
                    proof {
                        assert(succs_squares_upto(b, k as int, (sq + 1) as int)
                            == succs_squares_upto(b, k as int, sq as int) + succs_for_sq(
                            b,
                            sq as u64,
                            moves,
                            64,
                        ));
                        assert forall|i: int|
                            0 <= i < result@.len() implies (#[trigger] result@[i])@ == (done_kinds
                            + succs_squares_upto(b, k as int, (sq + 1) as int))[i] by {
                            assert((done_kinds + succs_squares_upto(b, k as int, (sq + 1) as int))[i]
                                == (done_squares + succs_for_sq(b, sq as u64, moves, 64))[i]);
                        }
                    }
                }
                sq += 1;
            }
            j += 1;
        }
        result
    }
}

} // verus!
