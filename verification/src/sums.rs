//! Sums of a function over an initial range of the integers.

use vstd::prelude::*;

verus! {

/// `f(0) + f(1) + ... + f(n - 1)`.
pub open spec fn sum_below(f: spec_fn(int) -> int, n: int) -> int
    decreases n,
{
    if n <= 0 {
        0
    } else {
        sum_below(f, n - 1) + f(n - 1)
    }
}

/// A sum over nothing is zero, and one more term adds that term.
pub proof fn law_sum_goes_term_by_term(f: spec_fn(int) -> int, n: int)
    ensures
        n <= 0 ==> sum_below(f, n) == 0,
        n >= 0 ==> sum_below(f, n + 1) == sum_below(f, n) + f(n),
{
}

/// Two functions that agree below `n` have the same sum.
pub proof fn lemma_sum_same(f: spec_fn(int) -> int, g: spec_fn(int) -> int, n: int)
    requires
        forall|i: int| 0 <= i < n ==> #[trigger] f(i) == g(i),
    ensures
        sum_below(f, n) == sum_below(g, n),
    decreases n,
{
    if n > 0 {
        lemma_sum_same(f, g, n - 1);
        assert(f(n - 1) == g(n - 1));
    }
}

/// A function that is nowhere larger has no larger sum.
pub proof fn lemma_sum_le(f: spec_fn(int) -> int, g: spec_fn(int) -> int, n: int)
    requires
        forall|i: int| 0 <= i < n ==> #[trigger] f(i) <= g(i),
    ensures
        sum_below(f, n) <= sum_below(g, n),
    decreases n,
{
    if n > 0 {
        lemma_sum_le(f, g, n - 1);
        assert(f(n - 1) <= g(n - 1));
    }
}

/// Changing a function at one point changes the sum by the difference there.
pub proof fn lemma_sum_update(f: spec_fn(int) -> int, g: spec_fn(int) -> int, k: int, n: int)
    requires
        0 <= k < n,
        forall|i: int| 0 <= i < n && i != k ==> #[trigger] f(i) == g(i),
    ensures
        sum_below(g, n) == sum_below(f, n) - f(k) + g(k),
    decreases n,
{
    if k == n - 1 {
        lemma_sum_same(f, g, n - 1);
    } else {
        lemma_sum_update(f, g, k, n - 1);
        assert(f(n - 1) == g(n - 1));
    }
}

/// The sum of two functions is the sum of their sums.
pub proof fn lemma_sum_add(
    f: spec_fn(int) -> int,
    g: spec_fn(int) -> int,
    h: spec_fn(int) -> int,
    n: int,
)
    requires
        forall|i: int| 0 <= i < n ==> #[trigger] h(i) == f(i) + g(i),
    ensures
        sum_below(h, n) == sum_below(f, n) + sum_below(g, n),
    decreases n,
{
    if n > 0 {
        lemma_sum_add(f, g, h, n - 1);
        assert(h(n - 1) == f(n - 1) + g(n - 1));
    }
}

/// A function scaled by a constant has its sum scaled by it.
pub proof fn lemma_sum_scale(f: spec_fn(int) -> int, g: spec_fn(int) -> int, c: int, n: int)
    requires
        forall|i: int| 0 <= i < n ==> #[trigger] g(i) == f(i) * c,
    ensures
        sum_below(g, n) == sum_below(f, n) * c,
    decreases n,
{
    if n > 0 {
        lemma_sum_scale(f, g, c, n - 1);
        assert(g(n - 1) == f(n - 1) * c);
        assert((sum_below(f, n - 1) + f(n - 1)) * c == sum_below(f, n - 1) * c + f(n - 1) * c)
            by (nonlinear_arith);
    }
}

/// A sum of non-negative terms is no smaller than any one of them.
pub proof fn lemma_sum_member(f: spec_fn(int) -> int, k: int, n: int)
    requires
        0 <= k < n,
        forall|i: int| 0 <= i < n ==> #[trigger] f(i) >= 0,
    ensures
        0 <= f(k) <= sum_below(f, n),
    decreases n,
{
    let zero = |i: int| 0int;
    lemma_sum_zero(zero, n - 1);
    lemma_sum_le(zero, f, n - 1);
    assert(f(n - 1) >= 0);
    if k < n - 1 {
        lemma_sum_member(f, k, n - 1);
    }
}

/// A function that is zero everywhere has the sum zero.
pub proof fn lemma_sum_zero(f: spec_fn(int) -> int, n: int)
    requires
        forall|i: int| 0 <= i < n ==> #[trigger] f(i) == 0,
    ensures
        sum_below(f, n) == 0,
    decreases n,
{
    if n > 0 {
        lemma_sum_zero(f, n - 1);
        assert(f(n - 1) == 0);
    }
}

} // verus!
