//! What holds of the factorial engine as a whole, proved from the contracts
//! and definitions of the other modules.

use crate::bignum::{fits, max_bit_len};
use crate::decimal::{
    decimal_digits, decimal_value, is_canonical_decimal, lemma_decimal_digits_canonical,
    lemma_decimal_round_trip,
};
use crate::engine::{factorial_text, parallel_value, sequential_value};
use crate::math::{
    factorial_value, lemma_factorial_below_pow2, lemma_factorial_positive,
    lemma_factorial_strictly_increasing, seq_product,
};
use crate::partition::{
    chunk_products, lemma_chunk_products_in_any_order, lemma_partition_of_is_partition,
    lemma_partition_product, partition_of,
};
use vstd::arithmetic::power2::{lemma2_to64, lemma_pow2_strictly_increases};
use vstd::prelude::*;

verus! {

/// The largest input whose factorial is known, by a simple estimate, to be
/// short enough for the accumulator on every target.
pub const SAFE_INPUT_LIMIT: u64 = 134_217_727;

/// The factorial of every input up to [`SAFE_INPUT_LIMIT`] is short enough
/// for the accumulator: it has fewer than `27 * n` bits.
pub proof fn lemma_safe_input_fits(n: u64)
    requires
        n <= SAFE_INPUT_LIMIT,
    ensures
        fits(factorial_value(n as nat)),
{
    lemma2_to64();
    lemma_factorial_below_pow2(n as nat, 27);
    assert(27 * (n as nat) < max_bit_len());
    lemma_pow2_strictly_increases(27 * (n as nat), max_bit_len());
}

/// The parallel algorithm and the sequential algorithm give the same text,
/// whatever the chunk size by which `1..=n` is cut: the text of `n!`.
pub proof fn lemma_parallel_matches_sequential(n: u64, chunk_size: u64)
    requires
        1 <= chunk_size <= n,
    ensures
        parallel_value(n, chunk_size) == sequential_value(n as nat),
        decimal_digits(parallel_value(n, chunk_size)) == decimal_digits(
            sequential_value(n as nat),
        ),
        decimal_digits(parallel_value(n, chunk_size)) == factorial_text(n),
{
    lemma_partition_of_is_partition(n, chunk_size);
    lemma_partition_product(partition_of(n, chunk_size), n as nat);
}

/// However `1..=n` is cut by a chunk size, and in whatever order the chunk
/// products are multiplied, the product is the number that the sequential
/// algorithm computes.
pub proof fn lemma_chunk_order_is_irrelevant(n: u64, chunk_size: u64, products: Seq<nat>)
    requires
        1 <= chunk_size <= n,
        products.to_multiset() == chunk_products(partition_of(n, chunk_size)).to_multiset(),
    ensures
        seq_product(products) == parallel_value(n, chunk_size),
        seq_product(products) == sequential_value(n as nat),
{
    lemma_partition_of_is_partition(n, chunk_size);
    lemma_chunk_products_in_any_order(partition_of(n, chunk_size), n as nat, products);
    lemma_parallel_matches_sequential(n, chunk_size);
}

/// From 1 on, a larger input has a factorial whose text denotes a strictly
/// larger number.
pub proof fn lemma_factorial_text_increases(smaller: u64, larger: u64)
    requires
        1 <= smaller < larger,
    ensures
        decimal_value(factorial_text(smaller)) < decimal_value(factorial_text(larger)),
{
    lemma_factorial_strictly_increasing(smaller as nat, larger as nat);
    lemma_decimal_round_trip(factorial_value(smaller as nat));
    lemma_decimal_round_trip(factorial_value(larger as nat));
}

/// The text of a factorial is determined by the input alone: two results for
/// the same input are the same string.
pub proof fn lemma_factorial_text_is_determined(n: u64, first: Seq<char>, second: Seq<char>)
    requires
        first == factorial_text(n),
        second == factorial_text(n),
    ensures
        first == second,
{
}

/// The text of a factorial holds decimal digits only, at least one, and does
/// not start with a zero.
pub proof fn lemma_factorial_text_canonical(n: u64)
    ensures
        is_canonical_decimal(factorial_text(n)),
        factorial_text(n)[0] != '0',
        decimal_value(factorial_text(n)) == factorial_value(n as nat),
{
    lemma_factorial_positive(n as nat);
    lemma_decimal_digits_canonical(factorial_value(n as nat));
    lemma_decimal_round_trip(factorial_value(n as nat));
}

} // verus!
