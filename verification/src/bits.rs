//! Single bits of 64-bit words.
use vstd::prelude::*;

verus! {

/// Bit `i` of `word` is set.
pub open spec fn bit(word: u64, i: int) -> bool {
    (word >> (i as u64)) & 1 != 0
}

/// Setting bit `i` changes that bit only.
pub proof fn lemma_set(word: u64, i: u64, j: u64)
    requires
        i < 64,
        j < 64,
    ensures
        bit(word | (1u64 << i), j as int) == (i == j || bit(word, j as int)),
{
    assert((((word | (1u64 << i)) >> j) & 1 != 0) == (i == j || (word >> j) & 1 != 0))
        by (bit_vector)
        requires
            i < 64,
            j < 64,
    ;
}

/// Clearing bit `i` changes that bit only.
pub proof fn lemma_clear(word: u64, i: u64, j: u64)
    requires
        i < 64,
        j < 64,
    ensures
        bit(word & !(1u64 << i), j as int) == (i != j && bit(word, j as int)),
{
    assert((((word & !(1u64 << i)) >> j) & 1 != 0) == (i != j && (word >> j) & 1 != 0))
        by (bit_vector)
        requires
            i < 64,
            j < 64,
    ;
}

/// A word of ones has every bit set, a word of zeros none.
pub proof fn lemma_ones_and_zeros(j: u64)
    requires
        j < 64,
    ensures
        bit(u64::MAX, j as int),
        !bit(0, j as int),
{
    assert((0xFFFF_FFFF_FFFF_FFFFu64 >> j) & 1 != 0 && (0u64 >> j) & 1 == 0) by (bit_vector)
        requires
            j < 64,
    ;
}

} // verus!
