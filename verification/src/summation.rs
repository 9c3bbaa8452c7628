//! Finite sums of integer-valued functions, with the lemmas the energy
//! bookkeeping rests on: congruence, one-point updates, negation, bounds,
//! and the evenness of the double sum of a symmetric zero-diagonal matrix.
use vstd::prelude::*;

verus! {

/// `sum(n, f)` is `f(0) + f(1) + ... + f(n - 1)`.
pub open spec fn sum(n: nat, f: spec_fn(int) -> int) -> int
    decreases n,
{
    if n == 0 {
        0
    } else {
        sum((n - 1) as nat, f) + f(n - 1)
    }
}

/// Two functions that agree below `n` have the same sum.
pub proof fn lemma_sum_eq(n: nat, f: spec_fn(int) -> int, g: spec_fn(int) -> int)
    requires
        forall|k: int| 0 <= k < n ==> #[trigger] f(k) == g(k),
    ensures
        sum(n, f) == sum(n, g),
    decreases n,
{
    if n > 0 {
        lemma_sum_eq((n - 1) as nat, f, g);
    }
}

/// Changing a function at one point changes the sum by the difference there.
pub proof fn lemma_sum_update(n: nat, f: spec_fn(int) -> int, g: spec_fn(int) -> int, k: int)
    requires
        0 <= k < n,
        forall|j: int| 0 <= j < n && j != k ==> #[trigger] f(j) == g(j),
    ensures
        sum(n, g) == sum(n, f) + g(k) - f(k),
    decreases n,
{
    if k == n - 1 {
        lemma_sum_eq((n - 1) as nat, f, g);
    } else {
        lemma_sum_update((n - 1) as nat, f, g, k);
    }
}

/// The sum of a pointwise negation is the negated sum.
pub proof fn lemma_sum_neg(n: nat, f: spec_fn(int) -> int, g: spec_fn(int) -> int)
    requires
        forall|k: int| 0 <= k < n ==> #[trigger] g(k) == -f(k),
    ensures
        sum(n, g) == -sum(n, f),
    decreases n,
{
    if n > 0 {
        lemma_sum_neg((n - 1) as nat, f, g);
    }
}

/// The sum of a pointwise addition is the addition of the sums.
pub proof fn lemma_sum_add(n: nat, f: spec_fn(int) -> int, g: spec_fn(int) -> int, h: spec_fn(int) -> int)
    requires
        forall|k: int| 0 <= k < n ==> #[trigger] h(k) == f(k) + g(k),
    ensures
        sum(n, h) == sum(n, f) + sum(n, g),
    decreases n,
{
    if n > 0 {
        lemma_sum_add((n - 1) as nat, f, g, h);
    }
}

/// The sum of a pointwise multiple is the multiple of the sum.
pub proof fn lemma_sum_scale(n: nat, f: spec_fn(int) -> int, g: spec_fn(int) -> int, c: int)
    requires
        forall|k: int| 0 <= k < n ==> #[trigger] g(k) == c * f(k),
    ensures
        sum(n, g) == c * sum(n, f),
    decreases n,
{
    if n > 0 {
        lemma_sum_scale((n - 1) as nat, f, g, c);
        assert(c * sum((n - 1) as nat, f) + c * f(n - 1) == c * (sum((n - 1) as nat, f) + f(n - 1)))
            by (nonlinear_arith);
    }
}

/// A sum of `n` terms, each within `[-b, b]`, lies within `[-n * b, n * b]`.
pub proof fn lemma_sum_bound(n: nat, f: spec_fn(int) -> int, b: int)
    requires
        0 <= b,
        forall|k: int| 0 <= k < n ==> -b <= #[trigger] f(k) <= b,
    ensures
        -(n * b) <= sum(n, f) <= n * b,
    decreases n,
{
    if n == 0 {
    } else {
        let m = (n - 1) as nat;
        lemma_sum_bound(m, f, b);
        assert(m * b + b == n * b) by (nonlinear_arith)
            requires
                m == n - 1,
        ;
    }
}

/// The double sum of a symmetric matrix with a zero diagonal is even:
/// every off-diagonal entry is counted exactly twice.
pub proof fn lemma_symmetric_double_sum_even(n: nat, a: spec_fn(int, int) -> int)
    requires
        forall|i: int, j: int| 0 <= i < n && 0 <= j < n ==> #[trigger] a(i, j) == a(j, i),
        forall|i: int| 0 <= i < n ==> #[trigger] a(i, i) == 0,
    ensures
        sum(n, |i: int| sum(n, |j: int| a(i, j))) % 2 == 0,
    decreases n,
{
    if n == 0 {
    } else {
        let m = (n - 1) as nat;
        lemma_symmetric_double_sum_even(m, a);
        let outer_m = |i: int| sum(m, |j: int| a(i, j));
        let outer_n = |i: int| sum(n, |j: int| a(i, j));
        let col = |i: int| a(i, n - 1);
        let row = |j: int| a(n - 1, j);
        // Each outer row of width n splits into its width-m prefix plus the
        // last column entry.
        assert forall|i: int| 0 <= i < m implies #[trigger] outer_n(i) == outer_m(i) + col(i) by {
            reveal(sum);
        }
        lemma_sum_add(m, outer_m, col, outer_n);
        // The sum over the last row equals the sum over the last column.
        lemma_sum_eq(m, row, col);
        assert(outer_n(n - 1) == sum(m, row) + a(n - 1, n - 1)) by {
            reveal(sum);
        }
        assert(sum(n, outer_n) == sum(m, outer_n) + outer_n(n - 1));
        assert(sum(n, outer_n) == sum(m, outer_m) + 2 * sum(m, col));
    }
}

} // verus!
