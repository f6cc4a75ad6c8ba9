//! Finite sums of integer-valued functions, and their algebra.
//!
//! `sum_fn(n, f)` is `f(0) + f(1) + ... + f(n - 1)`. Polynomial convolution
//! is a family of such sums; the lemmas here (congruence, padding, shifting,
//! reversal, exchange of double sums) carry the convolution laws. Derived
//! functions (shifts, reversals, scalings) are built by named constructors,
//! so that every statement about them names the same function term.

use vstd::prelude::*;
use vstd::arithmetic::mul::lemma_mul_is_distributive_add;
use vstd::arithmetic::mul::lemma_mul_is_distributive_sub_other_way;

verus! {

/// Sum of the first `n` values of `f`.
pub open spec fn sum_fn(n: nat, f: spec_fn(int) -> int) -> int
    decreases n,
{
    if n == 0 {
        0
    } else {
        sum_fn((n - 1) as nat, f) + f(n - 1)
    }
}

/// `f` displaced by `d`: the value at `i` is `f(i + d)`.
pub open spec fn shift_fn(f: spec_fn(int) -> int, d: int) -> spec_fn(int) -> int {
    |i: int| f(i + d)
}

/// `f` read backwards over `0..n`: the value at `i` is `f(n - 1 - i)`.
pub open spec fn rev_fn(n: int, f: spec_fn(int) -> int) -> spec_fn(int) -> int {
    |i: int| f(n - 1 - i)
}

/// `f` scaled by the constant `c`.
pub open spec fn scale_fn(c: int, f: spec_fn(int) -> int) -> spec_fn(int) -> int {
    |i: int| c * f(i)
}

/// Pointwise sum of `f` and `g`.
pub open spec fn add_fn(f: spec_fn(int) -> int, g: spec_fn(int) -> int) -> spec_fn(int) -> int {
    |i: int| f(i) + g(i)
}

/// Row `i` of a two-argument function: `j` maps to `h(i, j)`.
pub open spec fn row_fn(h: spec_fn(int, int) -> int, i: int) -> spec_fn(int) -> int {
    |j: int| h(i, j)
}

/// Column `j` of a two-argument function: `i` maps to `h(i, j)`.
pub open spec fn col_fn(h: spec_fn(int, int) -> int, j: int) -> spec_fn(int) -> int {
    |i: int| h(i, j)
}

/// Each row of `h` summed over its first `m` entries.
pub open spec fn row_sums_fn(m: nat, h: spec_fn(int, int) -> int) -> spec_fn(int) -> int {
    |i: int| sum_fn(m, row_fn(h, i))
}

/// Each column of `h` summed over its first `n` entries.
pub open spec fn col_sums_fn(n: nat, h: spec_fn(int, int) -> int) -> spec_fn(int) -> int {
    |j: int| sum_fn(n, col_fn(h, j))
}

/// Functions that agree on `0..n` have the same sum.
pub proof fn lemma_sum_ext(n: nat, f: spec_fn(int) -> int, g: spec_fn(int) -> int)
    requires
        forall|i: int| 0 <= i < n ==> #[trigger] f(i) == g(i),
    ensures
        sum_fn(n, f) == sum_fn(n, g),
    decreases n,
{
    if n > 0 {
        lemma_sum_ext((n - 1) as nat, f, g);
    }
}

/// A sum of zeros is zero.
pub proof fn lemma_sum_zero(n: nat, f: spec_fn(int) -> int)
    requires
        forall|i: int| 0 <= i < n ==> #[trigger] f(i) == 0,
    ensures
        sum_fn(n, f) == 0,
    decreases n,
{
    if n > 0 {
        lemma_sum_zero((n - 1) as nat, f);
    }
}

/// Trailing zero terms do not change a sum.
pub proof fn lemma_sum_extend(n: nat, m: nat, f: spec_fn(int) -> int)
    requires
        n <= m,
        forall|i: int| n <= i < m ==> #[trigger] f(i) == 0,
    ensures
        sum_fn(m, f) == sum_fn(n, f),
    decreases m,
{
    if m > n {
        lemma_sum_extend(n, (m - 1) as nat, f);
    }
}

/// A sum can be peeled from the front as well as from the back.
pub proof fn lemma_sum_front(n: nat, f: spec_fn(int) -> int)
    requires
        n >= 1,
    ensures
        sum_fn(n, f) == f(0) + sum_fn((n - 1) as nat, shift_fn(f, 1)),
    decreases n,
{
    if n == 1 {
        assert(sum_fn(0, f) == 0);
        assert(sum_fn(1, f) == sum_fn(0, f) + f(0));
        assert(sum_fn(0, shift_fn(f, 1)) == 0);
    } else {
        lemma_sum_front((n - 1) as nat, f);
        assert(sum_fn((n - 1) as nat, shift_fn(f, 1)) == sum_fn((n - 2) as nat, shift_fn(f, 1))
            + shift_fn(f, 1)(n - 2));
        assert(shift_fn(f, 1)(n - 2) == f(n - 1));
    }
}

/// Sums distribute over pointwise addition.
pub proof fn lemma_sum_add(n: nat, f: spec_fn(int) -> int, g: spec_fn(int) -> int)
    ensures
        sum_fn(n, add_fn(f, g)) == sum_fn(n, f) + sum_fn(n, g),
    decreases n,
{
    if n > 0 {
        lemma_sum_add((n - 1) as nat, f, g);
        assert(add_fn(f, g)(n - 1) == f(n - 1) + g(n - 1));
    }
}

/// A common factor moves out of a sum.
pub proof fn lemma_sum_scale(n: nat, c: int, f: spec_fn(int) -> int)
    ensures
        sum_fn(n, scale_fn(c, f)) == c * sum_fn(n, f),
    decreases n,
{
    if n == 0 {
        assert(c * 0 == 0);
    } else {
        lemma_sum_scale((n - 1) as nat, c, f);
        assert(scale_fn(c, f)(n - 1) == c * f(n - 1));
        lemma_mul_is_distributive_add(c, sum_fn((n - 1) as nat, f), f(n - 1));
    }
}

/// Summing a function backwards gives the same total.
pub proof fn lemma_sum_reverse(n: nat, f: spec_fn(int) -> int)
    ensures
        sum_fn(n, f) == sum_fn(n, rev_fn(n as int, f)),
    decreases n,
{
    if n > 0 {
        let shifted = shift_fn(f, 1);
        lemma_sum_front(n, f);
        lemma_sum_reverse((n - 1) as nat, shifted);
        assert forall|i: int| 0 <= i < n - 1 implies #[trigger] rev_fn((n - 1) as int, shifted)(i)
            == rev_fn(n as int, f)(i) by {
            assert(rev_fn((n - 1) as int, shifted)(i) == shifted(n - 2 - i));
            assert(shifted(n - 2 - i) == f(n - 1 - i));
            assert(rev_fn(n as int, f)(i) == f(n - 1 - i));
        }
        lemma_sum_ext((n - 1) as nat, rev_fn((n - 1) as int, shifted), rev_fn(n as int, f));
        assert(sum_fn(n, rev_fn(n as int, f)) == sum_fn((n - 1) as nat, rev_fn(n as int, f))
            + rev_fn(n as int, f)(n - 1));
        assert(rev_fn(n as int, f)(n - 1) == f(0));
    }
}

/// A function that vanishes on negative arguments can be summed from a
/// shifted start: `f(0 - d) + ... + f(n - 1 - d)` is `f(0) + ... + f(n - d - 1)`.
pub proof fn lemma_sum_offset(n: nat, d: nat, f: spec_fn(int) -> int)
    requires
        d <= n,
        forall|i: int| i < 0 ==> #[trigger] f(i) == 0,
    ensures
        sum_fn(n, shift_fn(f, -(d as int))) == sum_fn((n - d) as nat, f),
    decreases d,
{
    let s = shift_fn(f, -(d as int));
    if d == 0 {
        assert forall|i: int| 0 <= i < n implies #[trigger] s(i) == f(i) by {
            assert(s(i) == f(i + 0));
        }
        lemma_sum_ext(n, s, f);
    } else {
        lemma_sum_front(n, s);
        assert(s(0) == f(-(d as int)));
        let stepped = shift_fn(s, 1);
        let next = shift_fn(f, -((d - 1) as int));
        assert forall|i: int| 0 <= i < n - 1 implies #[trigger] stepped(i) == next(i) by {
            assert(stepped(i) == s(i + 1));
            assert(s(i + 1) == f(i + 1 - d));
            assert(next(i) == f(i + (-((d - 1) as int))));
        }
        lemma_sum_ext((n - 1) as nat, stepped, next);
        lemma_sum_offset((n - 1) as nat, (d - 1) as nat, f);
    }
}

/// A double sum can be taken in either order.
pub proof fn lemma_sum_exchange(n: nat, m: nat, h: spec_fn(int, int) -> int)
    ensures
        sum_fn(n, row_sums_fn(m, h)) == sum_fn(m, col_sums_fn(n, h)),
    decreases n,
{
    if n == 0 {
        assert forall|j: int| 0 <= j < m implies #[trigger] col_sums_fn(0, h)(j) == 0 by {
            assert(col_sums_fn(0, h)(j) == sum_fn(0, col_fn(h, j)));
        }
        lemma_sum_zero(m, col_sums_fn(0, h));
    } else {
        let prev: nat = (n - 1) as nat;
        lemma_sum_exchange(prev, m, h);
        lemma_sum_add(m, col_sums_fn(prev, h), row_fn(h, n - 1));
        assert forall|j: int| 0 <= j < m implies #[trigger] add_fn(
            col_sums_fn(prev, h),
            row_fn(h, n - 1),
        )(j) == col_sums_fn(n, h)(j) by {
            assert(add_fn(col_sums_fn(prev, h), row_fn(h, n - 1))(j) == col_sums_fn(prev, h)(j)
                + row_fn(h, n - 1)(j));
            assert(col_sums_fn(prev, h)(j) == sum_fn(prev, col_fn(h, j)));
            assert(col_sums_fn(n, h)(j) == sum_fn(n, col_fn(h, j)));
            assert(sum_fn(n, col_fn(h, j)) == sum_fn(prev, col_fn(h, j)) + col_fn(h, j)(n - 1));
            assert(col_fn(h, j)(n - 1) == h(n - 1, j));
            assert(row_fn(h, n - 1)(j) == h(n - 1, j));
        }
        lemma_sum_ext(m, add_fn(col_sums_fn(prev, h), row_fn(h, n - 1)), col_sums_fn(n, h));
        assert(sum_fn(n, row_sums_fn(m, h)) == sum_fn(prev, row_sums_fn(m, h)) + row_sums_fn(m, h)(
            n - 1,
        ));
        assert(row_sums_fn(m, h)(n - 1) == sum_fn(m, row_fn(h, n - 1)));
    }
}

/// Pointwise-bounded terms give a bounded sum.
pub proof fn lemma_sum_bound(n: nat, f: spec_fn(int) -> int, b: int)
    requires
        b >= 0,
        forall|i: int| 0 <= i < n ==> -b <= #[trigger] f(i) <= b,
    ensures
        -((n as int) * b) <= sum_fn(n, f) <= (n as int) * b,
    decreases n,
{
    if n > 0 {
        lemma_sum_bound((n - 1) as nat, f, b);
        lemma_mul_is_distributive_sub_other_way(b, n as int, 1);
        assert((n as int) * b - 1 * b == (n - 1) as int * b);
    }
}

} // verus!
