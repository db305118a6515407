//! Small bit-level facts shared by the pitch and interval sets.
use vstd::prelude::*;

verus! {

/// Whether bit `k` of `b` is set.
pub open spec fn has_bit(b: u32, k: u32) -> bool {
    b & (1u32 << k) != 0
}

pub broadcast proof fn lemma_bit_or_single(b: u32, k: u32, j: u32)
    requires
        k < 32,
        j < 32,
    ensures
        #[trigger] has_bit(b | (1u32 << k), j) == (has_bit(b, j) || j == k),
{
    assert((b | (1u32 << k)) & (1u32 << j) != 0 <==> (b & (1u32 << j) != 0 || j == k))
        by (bit_vector)
        requires
            k < 32,
            j < 32,
    ;
}

pub broadcast proof fn lemma_bit_clear_single(b: u32, k: u32, j: u32)
    requires
        k < 32,
        j < 32,
    ensures
        #[trigger] has_bit(b & !(1u32 << k), j) == (has_bit(b, j) && j != k),
{
    assert((b & !(1u32 << k)) & (1u32 << j) != 0 <==> (b & (1u32 << j) != 0 && j != k))
        by (bit_vector)
        requires
            k < 32,
            j < 32,
    ;
}

pub broadcast proof fn lemma_bit_and(a: u32, b: u32, j: u32)
    requires
        j < 32,
    ensures
        #[trigger] has_bit(a & b, j) == (has_bit(a, j) && has_bit(b, j)),
{
    assert((a & b) & (1u32 << j) != 0 <==> (a & (1u32 << j) != 0 && b & (1u32 << j) != 0))
        by (bit_vector)
        requires
            j < 32,
    ;
}

pub broadcast proof fn lemma_bit_or(a: u32, b: u32, j: u32)
    requires
        j < 32,
    ensures
        #[trigger] has_bit(a | b, j) == (has_bit(a, j) || has_bit(b, j)),
{
    assert((a | b) & (1u32 << j) != 0 <==> (a & (1u32 << j) != 0 || b & (1u32 << j) != 0))
        by (bit_vector)
        requires
            j < 32,
    ;
}

pub broadcast proof fn lemma_bit_and_not(a: u32, b: u32, j: u32)
    requires
        j < 32,
    ensures
        #[trigger] has_bit(a & !b, j) == (has_bit(a, j) && !has_bit(b, j)),
{
    assert((a & !b) & (1u32 << j) != 0 <==> (a & (1u32 << j) != 0 && b & (1u32 << j) == 0))
        by (bit_vector)
        requires
            j < 32,
    ;
}

pub broadcast proof fn lemma_bit_zero(j: u32)
    requires
        j < 32,
    ensures
        !#[trigger] has_bit(0u32, j),
{
    assert(0u32 & (1u32 << j) == 0) by (bit_vector);
}

/// Every bit of `b` at index `n` or above is clear exactly when `b < 2^n`.
pub open spec fn below(b: u32, n: u32) -> bool {
    b < (1u32 << n)
}

pub proof fn lemma_below_or_single(b: u32, k: u32, n: u32)
    requires
        k < n,
        n < 32,
        below(b, n),
    ensures
        below(b | (1u32 << k), n),
{
    assert(b < (1u32 << n) && k < n && n < 32 ==> (b | (1u32 << k)) < (1u32 << n)) by (bit_vector);
}

pub proof fn lemma_below_and(a: u32, b: u32, n: u32)
    requires
        n < 32,
        below(a, n),
    ensures
        below(a & b, n),
        below(a & !b, n),
{
    assert(a < (1u32 << n) && n < 32 ==> (a & b) < (1u32 << n)) by (bit_vector);
    assert(a < (1u32 << n) && n < 32 ==> (a & !b) < (1u32 << n)) by (bit_vector);
}

pub proof fn lemma_below_or(a: u32, b: u32, n: u32)
    requires
        n < 32,
        below(a, n),
        below(b, n),
    ensures
        below(a | b, n),
{
    assert(a < (1u32 << n) && b < (1u32 << n) && n < 32 ==> (a | b) < (1u32 << n)) by (bit_vector);
}

/// A value below `2^n` has no bit set at `n` or above.
pub proof fn lemma_below_high_clear(b: u32, n: u32, j: u32)
    requires
        n <= j < 32,
        below(b, n),
    ensures
        !has_bit(b, j),
{
    assert(b < (1u32 << n) && n <= j && j < 32 ==> b & (1u32 << j) == 0) by (bit_vector);
}

/// Two values below `2^n` with the same bits are equal.
pub proof fn lemma_bits_ext(a: u32, b: u32, n: u32)
    requires
        n < 32,
        below(a, n),
        below(b, n),
        forall|j: u32| j < n ==> has_bit(a, j) == has_bit(b, j),
    ensures
        a == b,
{
    assert forall|j: u32| j < 32 implies has_bit(a, j) == has_bit(b, j) by {
        if j >= n {
            lemma_below_high_clear(a, n, j);
            lemma_below_high_clear(b, n, j);
        }
    }
    assert(a == b) by {
        lemma_bits_ext32(a, b);
    }
}

proof fn lemma_bits_ext32(a: u32, b: u32)
    requires
        forall|j: u32| j < 32 ==> has_bit(a, j) == has_bit(b, j),
    ensures
        a == b,
{
    assert(has_bit(a, 0) == has_bit(b, 0));
    assert(has_bit(a, 1) == has_bit(b, 1));
    assert(has_bit(a, 2) == has_bit(b, 2));
    assert(has_bit(a, 3) == has_bit(b, 3));
    assert(has_bit(a, 4) == has_bit(b, 4));
    assert(has_bit(a, 5) == has_bit(b, 5));
    assert(has_bit(a, 6) == has_bit(b, 6));
    assert(has_bit(a, 7) == has_bit(b, 7));
    assert(has_bit(a, 8) == has_bit(b, 8));
    assert(has_bit(a, 9) == has_bit(b, 9));
    assert(has_bit(a, 10) == has_bit(b, 10));
    assert(has_bit(a, 11) == has_bit(b, 11));
    assert(has_bit(a, 12) == has_bit(b, 12));
    assert(has_bit(a, 13) == has_bit(b, 13));
    assert(has_bit(a, 14) == has_bit(b, 14));
    assert(has_bit(a, 15) == has_bit(b, 15));
    assert(has_bit(a, 16) == has_bit(b, 16));
    assert(has_bit(a, 17) == has_bit(b, 17));
    assert(has_bit(a, 18) == has_bit(b, 18));
    assert(has_bit(a, 19) == has_bit(b, 19));
    assert(has_bit(a, 20) == has_bit(b, 20));
    assert(has_bit(a, 21) == has_bit(b, 21));
    assert(has_bit(a, 22) == has_bit(b, 22));
    assert(has_bit(a, 23) == has_bit(b, 23));
    assert(has_bit(a, 24) == has_bit(b, 24));
    assert(has_bit(a, 25) == has_bit(b, 25));
    assert(has_bit(a, 26) == has_bit(b, 26));
    assert(has_bit(a, 27) == has_bit(b, 27));
    assert(has_bit(a, 28) == has_bit(b, 28));
    assert(has_bit(a, 29) == has_bit(b, 29));
    assert(has_bit(a, 30) == has_bit(b, 30));
    assert(has_bit(a, 31) == has_bit(b, 31));
    assert((a & 1u32 << 0u32 != 0) == (b & 1u32 << 0u32 != 0) && (a & 1u32 << 1u32 != 0) == (b & 1u32 << 1u32 != 0)
        && (a & 1u32 << 2u32 != 0) == (b & 1u32 << 2u32 != 0) && (a & 1u32 << 3u32 != 0) == (b & 1u32 << 3u32 != 0)
        && (a & 1u32 << 4u32 != 0) == (b & 1u32 << 4u32 != 0) && (a & 1u32 << 5u32 != 0) == (b & 1u32 << 5u32 != 0)
        && (a & 1u32 << 6u32 != 0) == (b & 1u32 << 6u32 != 0) && (a & 1u32 << 7u32 != 0) == (b & 1u32 << 7u32 != 0)
        && (a & 1u32 << 8u32 != 0) == (b & 1u32 << 8u32 != 0) && (a & 1u32 << 9u32 != 0) == (b & 1u32 << 9u32 != 0)
        && (a & 1u32 << 10u32 != 0) == (b & 1u32 << 10u32 != 0) && (a & 1u32 << 11u32 != 0) == (b & 1u32 << 11u32 != 0)
        && (a & 1u32 << 12u32 != 0) == (b & 1u32 << 12u32 != 0) && (a & 1u32 << 13u32 != 0) == (b & 1u32 << 13u32 != 0)
        && (a & 1u32 << 14u32 != 0) == (b & 1u32 << 14u32 != 0) && (a & 1u32 << 15u32 != 0) == (b & 1u32 << 15u32 != 0)
        && (a & 1u32 << 16u32 != 0) == (b & 1u32 << 16u32 != 0) && (a & 1u32 << 17u32 != 0) == (b & 1u32 << 17u32 != 0)
        && (a & 1u32 << 18u32 != 0) == (b & 1u32 << 18u32 != 0) && (a & 1u32 << 19u32 != 0) == (b & 1u32 << 19u32 != 0)
        && (a & 1u32 << 20u32 != 0) == (b & 1u32 << 20u32 != 0) && (a & 1u32 << 21u32 != 0) == (b & 1u32 << 21u32 != 0)
        && (a & 1u32 << 22u32 != 0) == (b & 1u32 << 22u32 != 0) && (a & 1u32 << 23u32 != 0) == (b & 1u32 << 23u32 != 0)
        && (a & 1u32 << 24u32 != 0) == (b & 1u32 << 24u32 != 0) && (a & 1u32 << 25u32 != 0) == (b & 1u32 << 25u32 != 0)
        && (a & 1u32 << 26u32 != 0) == (b & 1u32 << 26u32 != 0) && (a & 1u32 << 27u32 != 0) == (b & 1u32 << 27u32 != 0)
        && (a & 1u32 << 28u32 != 0) == (b & 1u32 << 28u32 != 0) && (a & 1u32 << 29u32 != 0) == (b & 1u32 << 29u32 != 0)
        && (a & 1u32 << 30u32 != 0) == (b & 1u32 << 30u32 != 0) && (a & 1u32 << 31u32 != 0) == (b & 1u32 << 31u32 != 0)
        ==> a == b) by (bit_vector);
}

pub broadcast group group_bits {
    lemma_bit_or_single,
    lemma_bit_clear_single,
    lemma_bit_and,
    lemma_bit_or,
    lemma_bit_and_not,
    lemma_bit_zero,
}

} // verus!
