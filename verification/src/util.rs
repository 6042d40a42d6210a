//! Bit-error counting: the Hamming distance between two 32-bit words.

use vstd::arithmetic::power2::{lemma2_to64, lemma_pow2_unfold, pow2};
use vstd::prelude::*;

verus! {

/// Number of set bits in the binary representation of a non-negative
/// integer (zero for non-positive arguments).
pub open spec fn pop_count(x: int) -> nat
    decreases x,
{
    if x <= 0 {
        0
    } else {
        ((x % 2) + pop_count(x / 2)) as nat
    }
}

/// Hamming distance between two 32-bit words: the number of bit
/// positions in which they differ.
pub open spec fn hamming(x: u32, y: u32) -> nat {
    pop_count((x ^ y) as int)
}

/// A positive integer has at least one set bit.
pub proof fn lemma_pop_count_pos(x: int)
    requires
        x > 0,
    ensures
        pop_count(x) >= 1,
    decreases x,
{
    if x % 2 == 0 {
        lemma_pop_count_pos(x / 2);
    }
}

/// An integer below `pow2(n)` has at most `n` set bits.
pub proof fn lemma_pop_count_bound(x: int, n: nat)
    requires
        0 <= x < pow2(n),
    ensures
        pop_count(x) <= n,
    decreases n,
{
    if n == 0 {
        lemma2_to64();
    } else {
        lemma_pow2_unfold(n);
        assert(x / 2 < pow2((n - 1) as nat));
        lemma_pop_count_bound(x / 2, (n - 1) as nat);
    }
}

/// Two 32-bit words differ in at most 32 bit positions.
pub proof fn lemma_hamming_le_32(x: u32, y: u32)
    ensures
        hamming(x, y) <= 32,
{
    lemma2_to64();
    lemma_pop_count_bound((x ^ y) as int, 32);
}

/// A word is at Hamming distance zero from itself.
pub proof fn lemma_hamming_self(x: u32)
    ensures
        hamming(x, x) == 0,
{
    assert(x ^ x == 0) by (bit_vector);
}

/// Distinct words are at positive Hamming distance.
pub proof fn lemma_hamming_pos(x: u32, y: u32)
    requires
        x != y,
    ensures
        hamming(x, y) >= 1,
{
    assert(x ^ y != 0) by (bit_vector)
        requires
            x != y,
    ;
    lemma_pop_count_pos((x ^ y) as int);
}

/// Count the bit positions in which `x` and `y` differ.
pub fn count_bit_errors(x: u32, y: u32) -> (r: u32)
    ensures
        r == hamming(x, y),
{
    let mut rest: u32 = x ^ y;
    let mut count: u32 = 0;
    proof {
        lemma_hamming_le_32(x, y);
    }
    while rest > 0
        invariant
            count + pop_count(rest as int) == hamming(x, y),
            hamming(x, y) <= 32,
        decreases rest,
    {
        count = count + rest % 2;
        rest = rest / 2;
    }
    count
}

} // verus!
