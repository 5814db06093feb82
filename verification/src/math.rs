//! The mathematical model: factorials and products of integer ranges and of
//! sequences, with the lemmas that relate them.

use vstd::arithmetic::power2::{lemma2_to64, lemma_pow2_adds, pow2};
use vstd::prelude::*;
use vstd::seq_lib::{to_multiset_build, to_multiset_contains, to_multiset_len, to_multiset_remove};

verus! {

/// `n!`, with `0! == 1`.
pub open spec fn factorial_value(n: nat) -> nat
    decreases n,
{
    if n == 0 {
        1
    } else {
        n * factorial_value((n - 1) as nat)
    }
}

/// The product of the integers `lo, lo + 1, ..., hi`; the empty product, 1,
/// where `hi < lo`.
pub open spec fn range_product(lo: nat, hi: nat) -> nat
    decreases hi,
{
    if hi < lo {
        1
    } else if hi == 0 {
        0
    } else {
        range_product(lo, (hi - 1) as nat) * hi
    }
}

/// The product of all the elements of `factors`; 1 for the empty sequence.
pub open spec fn seq_product(factors: Seq<nat>) -> nat
    decreases factors.len(),
{
    if factors.len() == 0 {
        1
    } else {
        seq_product(factors.drop_last()) * factors.last()
    }
}

/// A factorial is never zero.
pub proof fn lemma_factorial_positive(n: nat)
    ensures
        factorial_value(n) >= 1,
    decreases n,
{
    if n > 0 {
        lemma_factorial_positive((n - 1) as nat);
        let rest = factorial_value((n - 1) as nat);
        assert(n * rest >= 1) by (nonlinear_arith)
            requires
                n >= 1,
                rest >= 1,
        ;
    }
}

/// Factorials do not decrease as the argument grows.
pub proof fn lemma_factorial_monotonic(a: nat, b: nat)
    requires
        a <= b,
    ensures
        factorial_value(a) <= factorial_value(b),
    decreases b,
{
    if a < b {
        lemma_factorial_monotonic(a, (b - 1) as nat);
        lemma_factorial_positive((b - 1) as nat);
        let rest = factorial_value((b - 1) as nat);
        assert(b * rest >= rest) by (nonlinear_arith)
            requires
                b >= 1,
        ;
    }
}

/// From 1 on, factorials grow strictly.
pub proof fn lemma_factorial_strictly_increasing(a: nat, b: nat)
    requires
        1 <= a < b,
    ensures
        factorial_value(a) < factorial_value(b),
{
    lemma_factorial_monotonic(a, (b - 1) as nat);
    lemma_factorial_positive((b - 1) as nat);
    let rest = factorial_value((b - 1) as nat);
    assert(b * rest > rest) by (nonlinear_arith)
        requires
            b >= 2,
            rest >= 1,
    ;
}

/// `n!` stays below `2^(bits * n)` while `n` stays below `2^bits`.
pub proof fn lemma_factorial_below_pow2(n: nat, bits: nat)
    requires
        n < pow2(bits),
    ensures
        factorial_value(n) <= pow2(bits * n),
    decreases n,
{
    if n == 0 {
        assert(bits * 0 == 0);
        lemma2_to64();
    } else {
        let m = (n - 1) as nat;
        lemma_factorial_below_pow2(m, bits);
        lemma_pow2_adds(bits, bits * m);
        assert(bits + bits * m == bits * n) by (nonlinear_arith)
            requires
                m + 1 == n,
        ;
        let rest = factorial_value(m);
        let word = pow2(bits);
        let bound = pow2(bits * m);
        assert(n * rest <= word * bound) by (nonlinear_arith)
            requires
                n < word,
                rest <= bound,
        ;
    }
}

/// A range of positive integers has a positive product.
pub proof fn lemma_range_product_positive(lo: nat, hi: nat)
    requires
        lo >= 1,
    ensures
        range_product(lo, hi) >= 1,
    decreases hi,
{
    if hi >= lo {
        lemma_range_product_positive(lo, (hi - 1) as nat);
        let rest = range_product(lo, (hi - 1) as nat);
        assert(rest * hi >= 1) by (nonlinear_arith)
            requires
                rest >= 1,
                hi >= 1,
        ;
    }
}

/// A range splits into two adjacent ranges, and its product into theirs.
pub proof fn lemma_range_product_split(lo: nat, mid: nat, hi: nat)
    requires
        lo <= mid + 1,
        mid <= hi,
    ensures
        range_product(lo, hi) == range_product(lo, mid) * range_product(mid + 1, hi),
    decreases hi,
{
    if hi == mid {
        assert(range_product(mid + 1, hi) == 1);
        assert(range_product(lo, mid) * 1 == range_product(lo, mid)) by (nonlinear_arith);
    } else {
        let below = (hi - 1) as nat;
        lemma_range_product_split(lo, mid, below);
        let left = range_product(lo, mid);
        let right = range_product(mid + 1, below);
        assert(range_product(lo, hi) == range_product(lo, below) * hi);
        assert(range_product(mid + 1, hi) == right * hi);
        assert((left * right) * hi == left * (right * hi)) by (nonlinear_arith);
    }
}

/// The range that starts at 1 has the factorial of its end as its product.
pub proof fn lemma_range_product_from_one(n: nat)
    ensures
        range_product(1, n) == factorial_value(n),
    decreases n,
{
    if n > 0 {
        lemma_range_product_from_one((n - 1) as nat);
        let rest = factorial_value((n - 1) as nat);
        assert(rest * n == n * rest) by (nonlinear_arith);
    }
}

/// A range of positive integers inside `1..=n` has a product of at most `n!`.
pub proof fn lemma_range_product_at_most_factorial(lo: nat, hi: nat, n: nat)
    requires
        1 <= lo,
        hi <= n,
    ensures
        range_product(lo, hi) <= factorial_value(n),
{
    if hi < lo {
        lemma_factorial_positive(n);
    } else {
        let before = range_product(1, (lo - 1) as nat);
        let inside = range_product(lo, hi);
        let after = range_product(hi + 1, n);
        lemma_range_product_split(1, (lo - 1) as nat, hi);
        lemma_range_product_split(1, hi, n);
        lemma_range_product_from_one(n);
        lemma_range_product_positive(1, (lo - 1) as nat);
        lemma_range_product_positive(hi + 1, n);
        assert((before * inside) * after >= inside) by (nonlinear_arith)
            requires
                before >= 1,
                after >= 1,
        ;
    }
}

/// A sequence of positive factors has a positive product.
pub proof fn lemma_seq_product_positive(factors: Seq<nat>)
    requires
        forall|i: int| 0 <= i < factors.len() ==> factors[i] >= 1,
    ensures
        seq_product(factors) >= 1,
    decreases factors.len(),
{
    if factors.len() > 0 {
        lemma_seq_product_positive(factors.drop_last());
        let rest = seq_product(factors.drop_last());
        let last = factors.last();
        assert(rest * last >= 1) by (nonlinear_arith)
            requires
                rest >= 1,
                last >= 1,
        ;
    }
}

/// Taking one factor out of a sequence divides the product by that factor.
pub proof fn lemma_seq_product_remove(factors: Seq<nat>, k: int)
    requires
        0 <= k < factors.len(),
    ensures
        seq_product(factors) == seq_product(factors.remove(k)) * factors[k],
    decreases factors.len(),
{
    if k == factors.len() - 1 {
        assert(factors.remove(k) =~= factors.drop_last());
    } else {
        let shorter = factors.drop_last();
        let without = factors.remove(k);
        lemma_seq_product_remove(shorter, k);
        assert(without.drop_last() =~= shorter.remove(k));
        assert(without.last() == factors.last());
        let core = seq_product(shorter.remove(k));
        let picked = factors[k];
        let last = factors.last();
        assert(seq_product(without) == core * last);
        assert((core * picked) * last == (core * last) * picked) by (nonlinear_arith);
    }
}

/// The product of a sequence depends only on which factors it holds and how
/// often, not on their order.
pub proof fn lemma_seq_product_permutation(a: Seq<nat>, b: Seq<nat>)
    requires
        a.to_multiset() == b.to_multiset(),
    ensures
        seq_product(a) == seq_product(b),
    decreases a.len(),
{
    to_multiset_len(a);
    to_multiset_len(b);
    if a.len() > 0 {
        let last = a.last();
        let shorter = a.drop_last();
        assert(a =~= shorter.push(last));
        to_multiset_build(shorter, last);
        to_multiset_contains(b, last);
        assert(b.to_multiset().count(last) > 0);
        let k = choose|k: int| 0 <= k < b.len() && b[k] == last;
        let without = b.remove(k);
        to_multiset_remove(b, k);
        assert(without.to_multiset() =~= shorter.to_multiset());
        lemma_seq_product_permutation(shorter, without);
        lemma_seq_product_remove(b, k);
    }
}

} // verus!
