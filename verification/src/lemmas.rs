//! Structural proofs about the board model: what the occupant scan
//! returns, and that the unchecked move application preserves the
//! data-model invariant.

use vstd::prelude::*;

use crate::bits::{has_bit, lemma_bit_ops};
use crate::model::{board_ok, dry_apply, dry_ok, dry_pieces, occupant, occupant_from, BoardState};

verus! {

proof fn lemma_occupant_from(b: BoardState, sq: u64, k: int)
    requires
        0 <= k <= 12,
    ensures
        match occupant_from(b, sq, k) {
            Some(t) => k <= t < 12 && has_bit(b.pieces[t as int], sq),
            None => forall|j: int| k <= j < 12 ==> !has_bit(b.pieces[j], sq),
        },
    decreases 12 - k,
{
    if k < 12 && !has_bit(b.pieces[k], sq) {
        lemma_occupant_from(b, sq, k + 1);
    }
}

/// What the occupant of a square means: a `Some` names a board that holds
/// the square, a `None` means no board does.
pub proof fn lemma_occupant(b: BoardState, sq: u64)
    ensures
        match occupant(b, sq) {
            Some(t) => 0 <= t < 12 && has_bit(b.pieces[t as int], sq),
            None => forall|j: int| 0 <= j < 12 ==> !has_bit(b.pieces[j], sq),
        },
{
    lemma_occupant_from(b, sq, 0);
}

/// The unchecked move application keeps the twelve bitboards free of
/// double occupancy.
pub proof fn lemma_dry_preserves_ok(b: BoardState, from: u64, to: u64)
    requires
        board_ok(b),
        from < 64,
        to < 64,
        dry_ok(b, from, to),
    ensures
        board_ok(dry_apply(b, from, to)),
{
    lemma_bit_ops();
    lemma_occupant(b, from);
    lemma_occupant(b, to);
    let p2 = dry_pieces(b, from, to);
    let f = match occupant(b, from) {
        Some(t) => t as int,
        None => 0int,
    };
    assert(p2.len() == 12);
    assert forall|j: int, k: int, sq: u64|
        0 <= j < k < 12 && sq < 64 implies !(has_bit(p2[j], sq) && has_bit(p2[k], sq)) by {
        match occupant(b, to) {
            Some(t) => {
                assert(forall|i: int|
                    0 <= i < 12 && i != t ==> !has_bit(b.pieces[i], to));
            },
            None => {},
        }
        assert(has_bit(p2[f], sq) ==> (sq == to || (has_bit(b.pieces[f], sq) && sq != from)));
        assert(forall|i: int|
            0 <= i < 12 && i != f ==> (has_bit(#[trigger] p2[i], sq) ==> has_bit(
                b.pieces[i],
                sq,
            ) && sq != to));
    }
}

} // verus!
