//! Single bits, runs of bits and population counts of 64-bit words.
use vstd::prelude::*;
use vstd::std_specs::bits::{axiom_u64_trailing_zeros, u64_trailing_zeros};

verus! {

/// Bit `index` of `bits` is one.
pub open spec fn bit_set(bits: u64, index: int) -> bool {
    0 <= index < 64 && (bits >> (index as u64)) & 1 == 1
}

/// The number of ones in the binary representation of `bits`.
pub open spec fn popcount(bits: u64) -> nat
    decreases bits,
{
    if bits == 0 {
        0
    } else {
        (bits % 2) as nat + popcount(bits / 2)
    }
}

/// `len` consecutive ones whose lowest sits at bit `low`.
pub open spec fn run(low: u64, len: u64) -> u64 {
    (((1u64 << len) - 1) as u64) << low
}

/// `u64::count_ones` is documented to return the number of ones in the binary
/// representation of its argument; that number is [`popcount`].
pub assume_specification[ u64::count_ones ](bits: u64) -> (ones: u32)
    ensures
        ones == popcount(bits),
;

/// A word that is not zero has a bit that is set.
pub proof fn lemma_nonzero_has_bit(bits: u64) -> (index: int)
    requires
        bits != 0,
    ensures
        bit_set(bits, index),
{
    axiom_u64_trailing_zeros(bits);
    u64_trailing_zeros(bits) as int
}

/// A word with a set bit is not zero.
pub proof fn lemma_bit_set_nonzero(bits: u64, index: int)
    requires
        bit_set(bits, index),
    ensures
        bits != 0,
{
    let i: u64 = index as u64;
    assert(bits != 0) by (bit_vector)
        requires
            (bits >> i) & 1 == 1,
    ;
}

/// The ones of two words that share no bit add up.
pub proof fn lemma_popcount_disjoint(a: u64, b: u64)
    requires
        a & b == 0,
    ensures
        popcount(a | b) == popcount(a) + popcount(b),
    decreases a + b,
{
    assert({
        &&& (a | b == 0 <==> a == 0 && b == 0)
        &&& (a | b) % 2 == a % 2 + b % 2
        &&& (a | b) / 2 == (a / 2) | (b / 2)
        &&& (a / 2) & (b / 2) == 0
    }) by (bit_vector)
        requires
            a & b == 0,
    ;
    if a != 0 || b != 0 {
        lemma_popcount_disjoint(a / 2, b / 2);
    }
}

/// A run of `len` ones holds `len` ones, wherever it starts.
pub proof fn lemma_popcount_run(low: u64, len: u64)
    requires
        len < 64,
        low + len <= 64,
    ensures
        popcount(run(low, len)) == len,
    decreases low + len,
{
    if len == 0 {
        assert(run(low, 0) == 0) by (bit_vector);
    } else if low > 0 {
        let lower: u64 = (low - 1) as u64;
        assert({
            &&& run(low, len) != 0
            &&& run(low, len) % 2 == 0
            &&& run(low, len) / 2 == run(lower, len)
        }) by (bit_vector)
            requires
                0 < len < 64,
                0 < low,
                low + len <= 64,
                lower == low - 1,
        ;
        lemma_popcount_run(lower, len);
    } else {
        let shorter: u64 = (len - 1) as u64;
        assert({
            &&& run(0, len) != 0
            &&& run(0, len) % 2 == 1
            &&& run(0, len) / 2 == run(0, shorter)
        }) by (bit_vector)
            requires
                0 < len < 64,
                shorter == len - 1,
        ;
        lemma_popcount_run(0, shorter);
    }
}

} // verus!
