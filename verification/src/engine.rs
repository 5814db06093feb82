//! The factorial engine: the sequential algorithm, the parallel algorithm
//! over a partition of `1..=n`, and the choice between them.

use crate::bignum::{fits, Accumulator};
use crate::decimal::{decimal_digits, is_canonical_decimal, lemma_decimal_digits_canonical};
use crate::math::{
    factorial_value, lemma_factorial_monotonic, lemma_factorial_positive, lemma_seq_product_positive,
    range_product, seq_product,
};
use crate::partition::{
    choose_strategy, chunk_products, effective_parallelism, lemma_chunk_products_in_any_order,
    lemma_partition_chunk_bounds, lemma_partition_of_is_partition, lemma_partition_product,
    partition, partition_of, Chunk, Strategy,
};
use rayon::iter::{ParallelBridge, ParallelIterator};
use vstd::prelude::*;

verus! {

/// The values that a sequence of accumulators holds, in the same order.
pub open spec fn accumulator_values(accumulators: Seq<Accumulator>) -> Seq<nat> {
    accumulators.map_values(|acc: Accumulator| acc@)
}

/// What the sequential algorithm computes for `n`: `n` times the product of
/// the integers from 1 up to, but excluding, `n`. From 1 on that is `n!`; for
/// 0 it is 0.
pub open spec fn sequential_value(n: nat) -> nat {
    if n == 0 {
        0
    } else {
        factorial_value(n)
    }
}

/// What the parallel algorithm computes for `n` and a chunk size: the product
/// of the products of the chunks into which `1..=n` is cut.
pub open spec fn parallel_value(n: u64, chunk_size: u64) -> nat {
    seq_product(chunk_products(partition_of(n, chunk_size)))
}

/// The text of `n!`: its decimal representation.
pub open spec fn factorial_text(n: u64) -> Seq<char> {
    decimal_digits(factorial_value(n as nat))
}

/// `rayon::current_num_threads`: the number of threads in the pool that
/// parallel work started here runs on. It depends on the machine and on how
/// the pool was set up, so nothing is claimed of it.
#[verifier::external_body]
fn pool_threads() -> usize {
    rayon::current_num_threads()
}

/// Rayon's `ParallelBridge::par_bridge`, `ParallelIterator::map` and
/// `ParallelIterator::collect`: every chunk is handed to
/// [`apply_factorial_to_range`] exactly once, on some thread of the pool, and
/// every result is collected. Rayon does not keep the results in the order of
/// the chunks, so the claim is of the products as a multiset: the same
/// values, each as often, in any order.
#[verifier::external_body]
fn parallel_chunk_products(chunks: Vec<Chunk>) -> (products: Vec<Accumulator>)
    requires
        forall|i: int|
            0 <= i < chunks@.len() ==> (#[trigger] chunks@[i]).wf() && fits(chunks@[i].product()),
    ensures
        accumulator_values(products@).to_multiset() == chunk_products(chunks@).to_multiset(),
{
    chunks.into_iter().par_bridge().map(apply_factorial_to_range).collect::<Vec<Accumulator>>()
}

/// The product of the integers of one chunk, in a fresh accumulator.
pub fn apply_factorial_to_range(range: Chunk) -> (acc: Accumulator)
    requires
        range.wf(),
        fits(range.product()),
    ensures
        acc@ == range.product(),
{
    let mut acc = Accumulator::from_u64(1);
    let mut number = range.first;
    while number < range.last
        invariant
            range.wf(),
            fits(range.product()),
            range.first <= number <= range.last,
            acc@ == range_product(range.first as nat, (number - 1) as nat),
        decreases range.last - number,
    {
        proof {
            lemma_range_product_grows(range.first as nat, number as nat, range.last as nat);
        }
        acc.multiply_by_u64(number);
        number = number + 1;
    }
    acc.multiply_by_u64(number);
    acc
}

/// Inside a range of positive integers, the product up to `mid` is at most
/// the product of the whole range.
proof fn lemma_range_product_grows(lo: nat, mid: nat, hi: nat)
    requires
        1 <= lo <= mid <= hi,
    ensures
        range_product(lo, mid) <= range_product(lo, hi),
    decreases hi,
{
    if mid < hi {
        lemma_range_product_grows(lo, mid, (hi - 1) as nat);
        let below = range_product(lo, (hi - 1) as nat);
        assert(below * hi >= below) by (nonlinear_arith)
            requires
                hi >= 1,
        ;
    }
}

/// Multiplies the partial products together into one accumulator.
///
/// There has to be at least one product: an empty list has no first
/// accumulator to multiply into.
pub fn reduce_products(products: Vec<Accumulator>) -> (total: Accumulator)
    requires
        products@.len() >= 1,
        forall|i: int| 0 <= i < products@.len() ==> (#[trigger] products@[i])@ >= 1,
        fits(seq_product(accumulator_values(products@))),
    ensures
        total@ == seq_product(accumulator_values(products@)),
{
    let ghost all = accumulator_values(products@);
    let mut rest = products;
    proof {
        lemma_values_drop_last(rest@);
        lemma_seq_product_positive(accumulator_values(rest@.drop_last()));
        let head = seq_product(accumulator_values(rest@.drop_last()));
        let tail = rest@.last()@;
        assert(head * tail == tail * head) by (nonlinear_arith);
    }
    let mut total = rest.pop().unwrap();
    while rest.len() > 0
        invariant
            forall|i: int| 0 <= i < rest@.len() ==> (#[trigger] rest@[i])@ >= 1,
            total@ * seq_product(accumulator_values(rest@)) == seq_product(all),
            fits(seq_product(all)),
        decreases rest@.len(),
    {
        proof {
            lemma_values_drop_last(rest@);
            lemma_seq_product_positive(accumulator_values(rest@.drop_last()));
            let so_far = total@;
            let head = seq_product(accumulator_values(rest@.drop_last()));
            let tail = rest@.last()@;
            assert(so_far * (head * tail) == (so_far * tail) * head && so_far * tail <= (so_far
                * tail) * head) by (nonlinear_arith)
                requires
                    head >= 1,
            ;
        }
        let next = rest.pop().unwrap();
        total.multiply_by(next);
    }
    proof {
        assert(total@ * 1 == total@) by (nonlinear_arith);
    }
    total
}

/// Dropping the last accumulator drops the last value, and what is left is
/// still made of values of at least 1 where the whole was.
proof fn lemma_values_drop_last(accumulators: Seq<Accumulator>)
    requires
        accumulators.len() >= 1,
        forall|i: int| 0 <= i < accumulators.len() ==> (#[trigger] accumulators[i])@ >= 1,
    ensures
        accumulator_values(accumulators.drop_last()) == accumulator_values(
            accumulators,
        ).drop_last(),
        accumulator_values(accumulators).last() == accumulators.last()@,
        forall|i: int|
            0 <= i < accumulators.len() - 1 ==> #[trigger] accumulator_values(
                accumulators.drop_last(),
            )[i] >= 1,
        accumulators.drop_last() == accumulators.subrange(0, accumulators.len() - 1),
{
    assert(accumulator_values(accumulators.drop_last()) =~= accumulator_values(
        accumulators,
    ).drop_last());
    assert forall|i: int| 0 <= i < accumulators.len() - 1 implies #[trigger] accumulator_values(
        accumulators.drop_last(),
    )[i] >= 1 by {
        assert(accumulators.drop_last()[i] == accumulators[i]);
    }
}

/// The sequential algorithm: one accumulator that starts at `n` and is
/// multiplied by each integer from 1 up to, but excluding, `n`.
///
/// From 1 on the result is `n!` in decimal. For 0 it is `"0"`: the special
/// value of `0!` is the business of [`factorial`].
pub fn single_threaded_factorial(n: u64) -> (result: String)
    requires
        fits(sequential_value(n as nat)),
    ensures
        result@ == decimal_digits(sequential_value(n as nat)),
{
    let mut acc = Accumulator::from_u64(n);
    let mut index: u64 = 1;
    proof {
        assert(n * 1 == n) by (nonlinear_arith);
    }
    while index < n
        invariant
            1 <= index,
            n >= 1 ==> index <= n,
            acc@ == n * factorial_value((index - 1) as nat),
            fits(sequential_value(n as nat)),
        decreases n - index,
    {
        proof {
            let before = factorial_value((index - 1) as nat);
            let after = factorial_value(index as nat);
            let whole = factorial_value((n - 1) as nat);
            lemma_factorial_monotonic(index as nat, (n - 1) as nat);
            assert((n * before) * index == n * (index * before) && n * after <= n * whole)
                by (nonlinear_arith)
                requires
                    after <= whole,
                    n >= 0,
            ;
        }
        acc.multiply_by_u64(index);
        index = index + 1;
    }
    proof {
        if n == 0 {
            assert(0 * factorial_value(0) == 0) by (nonlinear_arith);
        }
    }
    acc.to_decimal_string()
}

/// The parallel algorithm: `1..=n` is cut into chunks of `chunk_size`, the
/// product of each chunk is formed on the thread pool, and the products are
/// multiplied together in whatever order they arrive.
pub fn multi_threaded_factorial(n: u64, chunk_size: u64) -> (result: String)
    requires
        1 <= chunk_size <= n,
        fits(factorial_value(n as nat)),
    ensures
        result@ == decimal_digits(parallel_value(n, chunk_size)),
{
    let chunks = partition(n, chunk_size);
    let ghost cut = chunks@;
    proof {
        lemma_partition_of_is_partition(n, chunk_size);
        assert forall|i: int| 0 <= i < cut.len() implies (#[trigger] cut[i]).wf() && fits(
            cut[i].product(),
        ) by {
            lemma_partition_chunk_bounds(cut, n as nat, i);
        }
    }
    let products = parallel_chunk_products(chunks);
    proof {
        lemma_partition_product(cut, n as nat);
        lemma_chunk_products_in_any_order(cut, n as nat, accumulator_values(products@));
        assert forall|i: int| 0 <= i < products@.len() implies (#[trigger] products@[i])@
            >= 1 by {
            assert(accumulator_values(products@)[i] == products@[i]@);
        }
    }
    reduce_products(products).to_decimal_string()
}

/// `n!` in decimal, computed for a given number of parallel execution units.
///
/// 0 and 1 give `"1"` at once. Otherwise the strategy is chosen by
/// [`choose_strategy`] for `parallelism`, which counts as 1 where it is 0. The
/// result does not depend on it: whichever algorithm runs, and in whatever
/// order the chunk products arrive, the string is the same.
pub fn factorial_with_parallelism(n: u64, parallelism: usize) -> (result: String)
    requires
        fits(factorial_value(n as nat)),
    ensures
        result@ == factorial_text(n),
        is_canonical_decimal(result@),
        result@[0] != '0',
{
    proof {
        lemma_factorial_positive(n as nat);
        lemma_decimal_digits_canonical(factorial_value(n as nat));
    }
    if n <= 1 {
        proof {
            reveal_strlit("1");
            assert(factorial_value(1) == 1 && factorial_value(0) == 1) by {
                reveal_with_fuel(factorial_value, 2);
            }
            assert("1"@ =~= decimal_digits(1));
        }
        return "1".to_owned();
    }
    match choose_strategy(n, effective_parallelism(parallelism)) {
        Strategy::Sequential => single_threaded_factorial(n),
        Strategy::Parallel { chunk_size } => {
            proof {
                lemma_partition_of_is_partition(n, chunk_size);
                lemma_partition_product(partition_of(n, chunk_size), n as nat);
            }
            multi_threaded_factorial(n, chunk_size)
        },
    }
}

/// `n!` in decimal: no sign, no separators, no leading zero.
///
/// The number of execution units is read once, from the pool that parallel
/// work runs on, and everything else is [`factorial_with_parallelism`].
///
/// The factorial has to be short enough for the accumulator. It is for every
/// input up to `SAFE_INPUT_LIMIT`, as `lemma_safe_input_fits` shows.
pub fn factorial(n: u64) -> (result: String)
    requires
        fits(factorial_value(n as nat)),
    ensures
        result@ == factorial_text(n),
        is_canonical_decimal(result@),
        result@[0] != '0',
{
    factorial_with_parallelism(n, pool_threads())
}

} // verus!
