//! Bitboard helpers shared with the presentation layer.

use vstd::prelude::*;

use crate::bits::{has_bit, lemma_shr_scan};

verus! {

/// The indices of the set bits of `value`, in strictly increasing order:
/// every listed index is set, and every set index is listed.
pub fn get_indices_of_set_bits(value: u64) -> (r: Vec<u8>)
    ensures
        forall|j: int| 0 <= j < r@.len() ==> (#[trigger] r@[j]) < 64 && has_bit(value, r@[j] as u64),
        forall|j: int, k: int| 0 <= j < k < r@.len() ==> r@[j] < r@[k],
        forall|i: u64| i < 64 && has_bit(value, i) ==> exists|j: int|
            0 <= j < r@.len() && (#[trigger] r@[j]) as u64 == i,
{
    let mut number = value;
    let mut indices: Vec<u8> = Vec::new();
    let mut index: u8 = 0;

    proof {
        lemma_shr_scan();
    }
    while number > 0
        invariant
            index <= 64,
            index < 64 ==> number == value >> (index as u64),
            index == 64 ==> number == 0,
            forall|j: int|
                0 <= j < indices@.len() ==> (#[trigger] indices@[j]) < index && has_bit(
                    value,
                    indices@[j] as u64,
                ),
            forall|j: int, k: int| 0 <= j < k < indices@.len() ==> indices@[j] < indices@[k],
            forall|i: u64|
                i < index && has_bit(value, i) ==> exists|j: int|
                    0 <= j < indices@.len() && (#[trigger] indices@[j]) as u64 == i,
        decreases number,
    {
        proof {
            lemma_shr_scan();
        }
        let ghost pre = indices@;
        if number & 1 == 1 {
            indices.push(index);
        }
        proof {
            assert forall|i: u64| i < index + 1 && has_bit(value, i) implies exists|j: int|
                0 <= j < indices@.len() && (#[trigger] indices@[j]) as u64 == i by {
                if i < index as u64 {
                    let j = choose|j: int| 0 <= j < pre.len() && (#[trigger] pre[j]) as u64 == i;
                    assert(indices@[j] as u64 == i);
                } else {
                    assert(indices@[indices@.len() - 1] as u64 == i);
                }
            }
        }
        number >>= 1;
        index += 1;
    }
    proof {
        lemma_shr_scan();
    }
    indices
}

} // verus!
