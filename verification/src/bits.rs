//! Bit-level foundation: square masks and the lemmas about `u64` bit
//! operations that the rest of the engine builds on.
//!
//! Square `i` (0..64) of a bitboard is bit `i`; square numbering is
//! `(rank - 1) * 8 + (file - 1)` for file and rank in 1..=8, so file `f`
//! occupies the bits `i` with `i % 8 == f - 1`.

use vstd::prelude::*;

verus! {

/// All squares except file 1 (the a-file): used to discard shifts that
/// wrap around onto file 1 from the other edge.
pub const CLEAR_FILE1: u64 = 0xFEFE_FEFE_FEFE_FEFE;

/// All squares except file 2.
pub const CLEAR_FILE2: u64 = 0xFDFD_FDFD_FDFD_FDFD;

/// All squares except file 7.
pub const CLEAR_FILE7: u64 = 0xBFBF_BFBF_BFBF_BFBF;

/// All squares except file 8 (the h-file).
pub const CLEAR_FILE8: u64 = 0x7F7F_7F7F_7F7F_7F7F;

/// Exactly the squares of rank 3: a white pawn whose single push lands here
/// started on its home rank and may also try the double push.
pub const MASK_RANK3: u64 = 0x0000_0000_00FF_0000;

/// Exactly the squares of rank 6: the black counterpart of `MASK_RANK3`.
pub const MASK_RANK6: u64 = 0x0000_FF00_0000_0000;

/// Square `i` is set in the bitboard `b`.
pub open spec fn has_bit(b: u64, i: u64) -> bool {
    b & (1u64 << i) != 0
}

/// How many squares below `n` are set in the bitboard `x`.
pub open spec fn count_upto(x: u64, n: int) -> int
    decreases n,
{
    if n <= 0 {
        0int
    } else {
        count_upto(x, n - 1) + if has_bit(x, (n - 1) as u64) {
            1int
        } else {
            0int
        }
    }
}

/// How `|`, `&`, `& !` and a single set bit act square by square, and the
/// identities with zero.
pub proof fn lemma_bit_ops()
    by (bit_vector)
    ensures
        forall|x: u64, y: u64, i: u64|
            i < 64 ==> (#[trigger] has_bit(x | y, i)) == (has_bit(x, i) || has_bit(y, i)),
        forall|x: u64, y: u64, i: u64|
            i < 64 ==> (#[trigger] has_bit(x & y, i)) == (has_bit(x, i) && has_bit(y, i)),
        forall|x: u64, y: u64, i: u64|
            i < 64 ==> (#[trigger] has_bit(x & !y, i)) == (has_bit(x, i) && !has_bit(y, i)),
        forall|i: u64, j: u64|
            i < 64 && j < 64 ==> (#[trigger] has_bit(1u64 << j, i)) == (i == j),
        forall|i: u64| i < 64 ==> !(#[trigger] has_bit(0u64, i)),
        forall|x: u64| (#[trigger] (x | 0u64)) == x,
        forall|x: u64| (#[trigger] (0u64 | x)) == x,
        forall|x: u64| (#[trigger] (x & 0u64)) == 0,
        forall|x: u64| (#[trigger] (0u64 & x)) == 0,
        forall|x: u64, y: u64, z: u64| (#[trigger] ((x | y) | z)) == x | (y | z),
{
}

/// Two bitboards with an empty intersection share no set square.
pub proof fn lemma_disjoint_pairs()
    by (bit_vector)
    ensures
        forall|x: u64, y: u64, sq: u64|
            sq < 64 && (#[trigger] (x & y)) == 0 ==> !((#[trigger] has_bit(x, sq)) && has_bit(
                y,
                sq,
            )),
{
}

/// A board with a set square is not the zero board.
pub proof fn lemma_has_bit_nonzero(x: u64, i: u64)
    by (bit_vector)
    requires
        i < 64,
        has_bit(x, i),
    ensures
        x != 0,
{
}

proof fn lemma_shr_step(x: u64, k: u64)
    by (bit_vector)
    requires
        k < 64,
    ensures
        ((x >> k) & 1 == 1) == has_bit(x, k),
        (x >> k) & 1 <= 1,
        k < 63 ==> (x >> k) >> 1 == x >> ((k + 1) as u64),
        k == 63 ==> (x >> k) <= 1,
        (x >> k) <= 1 ==> (x >> k) & 1 == (x >> k),
        ((x >> k) != 0 && (x >> k) & 1 == 0) ==> (x >> k) >> 1 != 0,
{
}

proof fn lemma_nonzero_bit_from(x: u64, k: u64)
    requires
        k < 64,
        x >> k != 0,
    ensures
        exists|i: u64| k <= i < 64 && #[trigger] has_bit(x, i),
    decreases 64 - k,
{
    lemma_shr_step(x, k);
    if (x >> k) & 1 == 1 {
        assert(has_bit(x, k));
    } else {
        assert(k < 63);
        assert(x >> ((k + 1) as u64) != 0);
        lemma_nonzero_bit_from(x, (k + 1) as u64);
    }
}

/// A non-zero board has a set square.
pub proof fn lemma_nonzero_has_bit(x: u64)
    requires
        x != 0,
    ensures
        exists|i: u64| i < 64 && #[trigger] has_bit(x, i),
{
    lemma_shr_scan();
    assert(x >> 0u64 == x);
    lemma_nonzero_bit_from(x, 0);
}

/// A board with every square clear is the zero board.
pub proof fn lemma_no_bits_zero(x: u64)
    requires
        forall|i: u64| i < 64 ==> !has_bit(x, i),
    ensures
        x == 0,
{
    if x != 0 {
        lemma_nonzero_has_bit(x);
    }
}

/// Membership in a single-square board, stated on the raw masks that the
/// executable ray scans test.
pub proof fn lemma_single_bit_masks()
    by (bit_vector)
    ensures
        forall|y: u64, q: u64|
            q < 64 ==> ((#[trigger] ((1u64 << q) & !y)) != 0) == (!has_bit(y, q)),
        forall|y: u64, q: u64|
            q < 64 ==> ((#[trigger] ((1u64 << q) & y)) != 0) == (has_bit(y, q)),
{
}

/// Shifting a single set square moves it, or pushes it off the board.
pub proof fn lemma_shift_single_bit(p: u64, sh: u64)
    by (bit_vector)
    requires
        p < 64,
        sh < 64,
    ensures
        (1u64 << p) << sh == if p + sh < 64 {
            1u64 << ((p + sh) as u64)
        } else {
            0u64
        },
        (1u64 << p) >> sh == if p >= sh {
            1u64 << ((p - sh) as u64)
        } else {
            0u64
        },
{
}

/// Facts about scanning a board with repeated right shifts: the shifted
/// value mirrors the remaining bits, halving strictly shrinks a non-zero
/// value, and an exhausted scan means every remaining square is clear.
pub proof fn lemma_shr_scan()
    by (bit_vector)
    ensures
        forall|b: u64| (#[trigger] (b >> 0u64)) == b,
        forall|b: u64, i: u64|
            i < 64 ==> (((#[trigger] (b >> i)) & 1) == 1) == has_bit(b, i),
        forall|b: u64, i: u64| i < 63 ==> (#[trigger] (b >> i)) >> 1 == b >> (i + 1) as u64,
        forall|b: u64| (#[trigger] (b >> 63u64)) >> 1 == 0,
        forall|x: u64| x > 0 ==> #[trigger] (x >> 1) < x,
        forall|b: u64, i: u64, j: u64|
            i <= j < 64 && (#[trigger] (b >> i)) == 0 ==> !(#[trigger] has_bit(b, j)),
{
}

} // verus!
