//! Facts about setting one bit of a `u128`.
use vstd::arithmetic::power2::{
    lemma2_to64, lemma2_to64_rest, lemma_pow2_adds, lemma_pow2_unfold, pow2,
};
use vstd::prelude::*;

verus! {

/// `1 << i` is 2^i.
pub proof fn lemma_one_shl(i: u32)
    requires
        i < 128,
    ensures
        (1u128 << i) as nat == pow2(i as nat),
    decreases i,
{
    if i == 0 {
        assert(1u128 << 0u32 == 1u128) by (bit_vector);
        lemma2_to64();
    } else {
        let j: u32 = (i - 1) as u32;
        assert((1u128 << i) == (1u128 << j) + (1u128 << j)) by (bit_vector)
            requires
                j < 127u32,
                i == j + 1,
        ;
        lemma_one_shl(j);
        lemma_pow2_unfold(i as nat);
    }
}

/// Or-ing a bit into a free position above every set bit adds its weight.
pub proof fn lemma_set_bit(v: u128, b: u128, i: u32)
    requires
        i < 128,
        b <= 1,
        (v as nat) < pow2(i as nat),
    ensures
        (v | (b << i)) as nat == v as nat + b as nat * pow2(i as nat),
        ((v | (b << i)) as nat) < pow2(i as nat + 1),
{
    lemma_one_shl(i);
    lemma_pow2_unfold(i as nat + 1);
    if b == 0 {
        assert(v | (0u128 << i) == v) by (bit_vector);
    } else {
        assert(v | (1u128 << i) == v + (1u128 << i)) by (bit_vector)
            requires
                i < 128u32,
                v < (1u128 << i),
        ;
    }
}

/// The powers of two at the top of a `u128`.
pub proof fn lemma_pow2_128()
    ensures
        pow2(127) == 0x8000_0000_0000_0000_0000_0000_0000_0000,
        pow2(128) == 0x1_0000_0000_0000_0000_0000_0000_0000_0000,
{
    lemma2_to64();
    lemma2_to64_rest();
    lemma_pow2_adds(64, 63);
    lemma_pow2_adds(64, 64);
}

} // verus!
