//! How the work is laid out: the choice between the sequential and the
//! parallel algorithm, and the division of `1..=n` into contiguous chunks.

use crate::math::{
    factorial_value, lemma_range_product_at_most_factorial, lemma_range_product_from_one,
    lemma_range_product_positive, lemma_range_product_split, lemma_seq_product_permutation,
    range_product, seq_product,
};
use vstd::prelude::*;
use vstd::seq_lib::{to_multiset_contains, to_multiset_len};

verus! {

/// A contiguous run `first..=last` of the integers `1..=n`, the share of one
/// parallel task.
#[derive(Clone, Copy, Debug, PartialEq, Eq, Structural)]
pub struct Chunk {
    pub first: u64,
    pub last: u64,
}

impl Chunk {
    /// A chunk holds at least one integer, and only positive ones.
    pub open spec fn wf(self) -> bool {
        1 <= self.first <= self.last
    }

    /// The product of the integers of the chunk.
    pub open spec fn product(self) -> nat {
        range_product(self.first as nat, self.last as nat)
    }
}

/// The products of the chunks of `chunks`, in the same order.
pub open spec fn chunk_products(chunks: Seq<Chunk>) -> Seq<nat> {
    chunks.map_values(|chunk: Chunk| chunk.product())
}

/// Whether `chunks`, read in order, covers `1..=n` without gap or overlap,
/// each chunk holding at least one integer.
pub open spec fn is_partition(chunks: Seq<Chunk>, n: nat) -> bool {
    &&& chunks.len() >= 1
    &&& chunks[0].first == 1
    &&& chunks[chunks.len() - 1].last == n
    &&& forall|i: int| 0 <= i < chunks.len() ==> (#[trigger] chunks[i]).wf()
    &&& forall|i: int|
        0 <= i < chunks.len() - 1 ==> (#[trigger] chunks[i + 1]).first == chunks[i].last + 1
}

/// The chunk with index `index` when `1..=n` is cut into chunks of
/// `chunk_size`: chunk `index` starts right after `index` full chunks, and the
/// last of the `n / chunk_size` chunks runs on to `n`, so that it takes up
/// what is left over when `chunk_size` does not divide `n`.
pub open spec fn chunk_at(n: u64, chunk_size: u64, index: int) -> Chunk {
    Chunk {
        first: (index * chunk_size + 1) as u64,
        last: if index + 1 == n / chunk_size {
            n
        } else {
            ((index + 1) * chunk_size) as u64
        },
    }
}

/// The chunks into which `1..=n` is cut for a given chunk size: `n /
/// chunk_size` of them, all of that size but the last, which may be longer.
pub open spec fn partition_of(n: u64, chunk_size: u64) -> Seq<Chunk> {
    Seq::new((n / chunk_size) as nat, |index: int| chunk_at(n, chunk_size, index))
}

/// Which algorithm computes a factorial.
#[derive(Clone, Copy, Debug, PartialEq, Eq, Structural)]
pub enum Strategy {
    /// One accumulator, multiplied by each integer in turn.
    Sequential,
    /// One accumulator for each chunk of `chunk_size` integers, then one
    /// product of them all.
    Parallel { chunk_size: u64 },
}

/// The strategy for `n` on `parallelism` execution units: sequential below
/// two integers for each unit, and otherwise parallel, with as many integers
/// to a chunk as every unit can have.
pub open spec fn strategy_for(n: u64, parallelism: u64) -> Strategy {
    if n < 2 * parallelism {
        Strategy::Sequential
    } else {
        Strategy::Parallel { chunk_size: n / parallelism }
    }
}

/// The number of execution units to plan for, given what the runtime reports:
/// the same number, but never less than 1.
pub fn effective_parallelism(reported: usize) -> (parallelism: u64)
    ensures
        parallelism == if reported == 0 {
            1
        } else {
            reported as int
        },
{
    if reported == 0 {
        1
    } else {
        reported as u64
    }
}

/// Chooses the algorithm for `n` on `parallelism` execution units.
///
/// A parallel strategy always comes with a chunk size of at least 2 and at
/// most `n`, so that cutting `1..=n` by it gives at least one chunk and no
/// empty one.
pub fn choose_strategy(n: u64, parallelism: u64) -> (strategy: Strategy)
    requires
        parallelism >= 1,
    ensures
        strategy == strategy_for(n, parallelism),
        strategy matches Strategy::Parallel { chunk_size } ==> 2 <= chunk_size <= n,
{
    if n / 2 < parallelism {
        Strategy::Sequential
    } else {
        let chunk_size = n / parallelism;
        assert(2 <= n / parallelism <= n) by (nonlinear_arith)
            requires
                parallelism >= 1,
                n >= 2 * parallelism,
        ;
        Strategy::Parallel { chunk_size }
    }
}

/// Cuts `1..=n` into chunks of `chunk_size`, the last one running on to `n`.
pub fn partition(n: u64, chunk_size: u64) -> (chunks: Vec<Chunk>)
    requires
        1 <= chunk_size <= n,
    ensures
        chunks@ == partition_of(n, chunk_size),
{
    let ghost count = (n / chunk_size) as int;
    let mut chunks: Vec<Chunk> = Vec::new();
    let mut first: u64 = 1;
    proof {
        assert(n / chunk_size >= 1) by (nonlinear_arith)
            requires
                1 <= chunk_size <= n,
        ;
        assert(0 * chunk_size == 0);
    }
    while n - first + 1 - chunk_size >= chunk_size
        invariant
            1 <= chunk_size <= n,
            count == n / chunk_size,
            chunks@.len() < count,
            first == chunks@.len() * chunk_size + 1,
            first + chunk_size - 1 <= n,
            forall|i: int| 0 <= i < chunks@.len() ==> chunks@[i] == chunk_at(n, chunk_size, i),
        decreases n - first,
    {
        let ghost done = chunks@.len() as int;
        let last = first + (chunk_size - 1);
        proof {
            assert((done + 1) * chunk_size == done * chunk_size + chunk_size)
                by (nonlinear_arith);
            assert((done + 2) * chunk_size == done * chunk_size + 2 * chunk_size)
                by (nonlinear_arith);
            assert(done + 2 <= n / chunk_size) by (nonlinear_arith)
                requires
                    (done + 2) * chunk_size <= n,
                    chunk_size >= 1,
            ;
        }
        chunks.push(Chunk { first, last });
        first = last + 1;
    }
    proof {
        let done = chunks@.len() as int;
        assert((done + 2) * chunk_size == done * chunk_size + 2 * chunk_size)
            by (nonlinear_arith);
        assert(n / chunk_size < done + 2) by (nonlinear_arith)
            requires
                n < (done + 2) * chunk_size,
                chunk_size >= 1,
                n >= 0,
        ;
    }
    chunks.push(Chunk { first, last: n });
    assert(chunks@ =~= partition_of(n, chunk_size));
    chunks
}

/// Cutting `1..=n` by any chunk size from 1 to `n` gives a partition of it.
pub proof fn lemma_partition_of_is_partition(n: u64, chunk_size: u64)
    requires
        1 <= chunk_size <= n,
    ensures
        is_partition(partition_of(n, chunk_size), n as nat),
{
    let chunks = partition_of(n, chunk_size);
    let count = (n / chunk_size) as int;
    assert(1 <= count && count * chunk_size <= n) by (nonlinear_arith)
        requires
            1 <= chunk_size <= n,
            count == n / chunk_size,
    ;
    assert(0 * chunk_size + 1 == 1);
    assert forall|i: int| 0 <= i < chunks.len() implies (#[trigger] chunks[i]).wf() by {
        lemma_chunk_bounds(n, chunk_size, i);
    }
    assert forall|i: int| 0 <= i < chunks.len() - 1 implies (#[trigger] chunks[i + 1]).first
        == chunks[i].last + 1 by {
        lemma_chunk_bounds(n, chunk_size, i);
        lemma_chunk_bounds(n, chunk_size, i + 1);
    }
}

/// Where each chunk of a cut begins and ends, as plain integers.
proof fn lemma_chunk_bounds(n: u64, chunk_size: u64, index: int)
    requires
        1 <= chunk_size <= n,
        0 <= index < n / chunk_size,
    ensures
        chunk_at(n, chunk_size, index).first == index * chunk_size + 1,
        index + 1 < n / chunk_size ==> chunk_at(n, chunk_size, index).last == (index + 1)
            * chunk_size,
        index + 1 == n / chunk_size ==> chunk_at(n, chunk_size, index).last == n,
        chunk_at(n, chunk_size, index).wf(),
{
    let count = (n / chunk_size) as int;
    assert(count * chunk_size <= n) by (nonlinear_arith)
        requires
            1 <= chunk_size,
            0 <= n,
            count == n / chunk_size,
    ;
    assert(0 <= index * chunk_size && (index + 1) * chunk_size == index * chunk_size + chunk_size
        && (index + 1) * chunk_size <= count * chunk_size) by (nonlinear_arith)
        requires
            0 <= index < count,
            1 <= chunk_size,
    ;
}

/// The chunks of a partition of `1..=n` have products that multiply to `n!`.
pub proof fn lemma_partition_product(chunks: Seq<Chunk>, n: nat)
    requires
        is_partition(chunks, n),
    ensures
        seq_product(chunk_products(chunks)) == factorial_value(n),
    decreases chunks.len(),
{
    let products = chunk_products(chunks);
    let last = chunks[chunks.len() - 1];
    assert(products.last() == last.product());
    if chunks.len() == 1 {
        assert(products.drop_last() =~= Seq::<nat>::empty());
        assert(seq_product(products.drop_last()) == 1);
        assert(1 * last.product() == last.product()) by (nonlinear_arith);
        lemma_range_product_from_one(n);
    } else {
        let shorter = chunks.drop_last();
        let mid = (last.first - 1) as nat;
        assert(shorter[shorter.len() - 1] == chunks[chunks.len() - 2]);
        assert(chunks[chunks.len() - 2 + 1].first == chunks[chunks.len() - 2].last + 1);
        assert forall|i: int| 0 <= i < shorter.len() - 1 implies (#[trigger] shorter[i + 1]).first
            == shorter[i].last + 1 by {
            assert(shorter[i + 1] == chunks[i + 1]);
        }
        assert(is_partition(shorter, mid));
        lemma_partition_product(shorter, mid);
        assert(products.drop_last() =~= chunk_products(shorter));
        lemma_range_product_split(1, mid, n);
        lemma_range_product_from_one(mid);
        lemma_range_product_from_one(n);
    }
}

/// Every chunk of a partition of `1..=n` ends at `n` or before, and its
/// product is at least 1 and at most `n!`.
pub proof fn lemma_partition_chunk_bounds(chunks: Seq<Chunk>, n: nat, index: int)
    requires
        is_partition(chunks, n),
        0 <= index < chunks.len(),
    ensures
        chunks[index].last <= n,
        1 <= chunks[index].product() <= factorial_value(n),
    decreases chunks.len() - index,
{
    if index < chunks.len() - 1 {
        lemma_partition_chunk_bounds(chunks, n, index + 1);
        assert(chunks[index + 1].first == chunks[index].last + 1);
        assert(chunks[index + 1].wf());
    }
    assert(chunks[index].wf());
    lemma_range_product_positive(chunks[index].first as nat, chunks[index].last as nat);
    lemma_range_product_at_most_factorial(
        chunks[index].first as nat,
        chunks[index].last as nat,
        n,
    );
}

/// However `1..=n` is cut into chunks, and in whatever order the products of
/// the chunks are taken, there is one product for each chunk, none is zero,
/// and together they multiply to `n!`.
pub proof fn lemma_chunk_products_in_any_order(chunks: Seq<Chunk>, n: nat, products: Seq<nat>)
    requires
        is_partition(chunks, n),
        products.to_multiset() == chunk_products(chunks).to_multiset(),
    ensures
        products.len() == chunks.len(),
        forall|i: int| 0 <= i < products.len() ==> 1 <= #[trigger] products[i] <= factorial_value(n),
        seq_product(products) == factorial_value(n),
{
    let in_order = chunk_products(chunks);
    to_multiset_len(products);
    to_multiset_len(in_order);
    assert forall|i: int| 0 <= i < products.len() implies 1 <= #[trigger] products[i]
        <= factorial_value(n) by {
        to_multiset_contains(products, products[i]);
        to_multiset_contains(in_order, products[i]);
        assert(products.contains(products[i]));
        let j = choose|j: int| 0 <= j < in_order.len() && in_order[j] == products[i];
        lemma_partition_chunk_bounds(chunks, n, j);
    }
    lemma_seq_product_permutation(products, in_order);
    lemma_partition_product(chunks, n);
}

} // verus!
