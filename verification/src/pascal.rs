//! Pascal's triangle and binomial expansions.
//!
//! `(x + 1)^n` and `(x - 1)^n` expand to binomial-coefficient rows; the
//! bilinear transform builds its basis polynomials from them. The triangle
//! is built up to a fixed maximum order; asking for a higher order is a
//! contract violation.

use vstd::prelude::*;
use vstd::arithmetic::power2::pow2;
use vstd::arithmetic::power2::lemma_pow2_unfold;
use vstd::arithmetic::power2::lemma_pow2_pos;
use vstd::arithmetic::power2::lemma2_to64;

verus! {

/// Largest supported polynomial order.
pub const MAX_ORDER: usize = 20;

/// Binomial coefficient, by Pascal's rule.
pub open spec fn binom(n: int, k: int) -> int
    decreases n,
{
    if k == 0 {
        1
    } else if k < 0 || k > n {
        0
    } else {
        binom(n - 1, k - 1) + binom(n - 1, k)
    }
}

/// Every binomial coefficient of row `n` lies in `[0, 2^n]`.
pub proof fn lemma_binom_bounds(n: int, k: int)
    requires
        0 <= n,
    ensures
        0 <= binom(n, k) <= pow2(n as nat),
    decreases n,
{
    lemma_pow2_pos(n as nat);
    if k == 0 || k < 0 || k > n {
    } else {
        lemma_binom_bounds(n - 1, k - 1);
        lemma_binom_bounds(n - 1, k);
        lemma_pow2_unfold(n as nat);
    }
}

/// Row `n` of the triangle never exceeds `2^20 = 0x10_0000` while `n` stays
/// within `MAX_ORDER`.
pub proof fn lemma_binom_max_order_bounds(n: int, k: int)
    requires
        0 <= n <= MAX_ORDER,
    ensures
        0 <= binom(n, k) <= 0x10_0000,
{
    lemma_binom_bounds(n, k);
    lemma2_to64();
    if n < 20 {
        vstd::arithmetic::power2::lemma_pow2_strictly_increases(n as nat, 20);
    }
}

/// Sign of the `j`-th coefficient of `(x - 1)^n`: odd-order entries of the
/// binomial row are negated.
pub open spec fn alt_sign(j: int) -> int {
    if j % 2 == 0 {
        1
    } else {
        -1
    }
}

/// Coefficients of `(x + 1)^n`, highest order first.
pub open spec fn binom_row(n: int) -> Seq<int> {
    Seq::new((n + 1) as nat, |j: int| binom(n, j))
}

/// Coefficients of `(x - 1)^n`, highest order first.
pub open spec fn alt_binom_row(n: int) -> Seq<int> {
    Seq::new((n + 1) as nat, |j: int| alt_sign(j) * binom(n, j))
}

/// The two binomial expansions differ exactly in the sign of the odd
/// entries: the row of `(x - 1)^n` is the row of `(x + 1)^n` — row `n` of
/// Pascal's triangle — with every odd-indexed entry negated.
pub proof fn lemma_neg_expansion_negates_odd_terms(n: int, j: int)
    requires
        0 <= j <= n,
    ensures
        j % 2 == 0 ==> alt_binom_row(n)[j] == binom_row(n)[j],
        j % 2 == 1 ==> alt_binom_row(n)[j] == -binom_row(n)[j],
{
    assert(alt_binom_row(n)[j] == alt_sign(j) * binom(n, j));
    assert(binom_row(n)[j] == binom(n, j));
}

/// Pascal's triangle as a square table: `t[i][j]` is `binom(i, j)` for every
/// row `i` up to `max_pow`; rows beyond `max_pow` stay zero, except that row
/// zero is always present.
pub fn build_pascal_triangle(max_pow: usize) -> (t: Vec<Vec<i64>>)
    requires
        max_pow <= MAX_ORDER,
    ensures
        t@.len() == MAX_ORDER + 1,
        forall|i: int| 0 <= i <= MAX_ORDER ==> (#[trigger] t@[i])@.len() == MAX_ORDER + 1,
        forall|i: int, j: int|
            0 <= i <= max_pow && 0 <= j <= MAX_ORDER ==> #[trigger] t@[i]@[j] == binom(i, j),
        forall|i: int, j: int|
            max_pow < i <= MAX_ORDER && 0 <= j <= MAX_ORDER ==> #[trigger] t@[i]@[j] == 0,
{
    let mut t: Vec<Vec<i64>> = Vec::new();
    let mut row0: Vec<i64> = vec![0i64; MAX_ORDER + 1];
    row0[0] = 1;
    t.push(row0);

    let mut i: usize = 1;
    while i <= max_pow
        invariant
            max_pow <= MAX_ORDER,
            1 <= i <= max_pow + 1,
            t@.len() == i,
            forall|r: int| 0 <= r < i ==> (#[trigger] t@[r])@.len() == MAX_ORDER + 1,
            forall|r: int, j: int|
                0 <= r < i && 0 <= j <= MAX_ORDER ==> #[trigger] t@[r]@[j] == binom(r, j),
        decreases max_pow + 1 - i,
    {
        let mut row: Vec<i64> = vec![0i64; MAX_ORDER + 1];
        row[0] = 1;
        let mut j: usize = 1;
        while j <= i
            invariant
                1 <= i <= max_pow <= MAX_ORDER,
                1 <= j <= i + 1,
                t@.len() == i,
                forall|r: int| 0 <= r < i ==> (#[trigger] t@[r])@.len() == MAX_ORDER + 1,
                forall|r: int, c: int|
                    0 <= r < i && 0 <= c <= MAX_ORDER ==> #[trigger] t@[r]@[c] == binom(r, c),
                row@.len() == MAX_ORDER + 1,
                forall|c: int| 0 <= c < j ==> #[trigger] row@[c] == binom(i as int, c),
                forall|c: int| j <= c <= MAX_ORDER ==> #[trigger] row@[c] == 0,
            decreases i + 1 - j,
        {
            proof {
                lemma_binom_max_order_bounds(i - 1, j - 1);
                lemma_binom_max_order_bounds(i - 1, j as int);
            }
            row[j] = t[i - 1][j - 1] + t[i - 1][j];
            j += 1;
        }
        proof {
            assert forall|c: int| 0 <= c <= MAX_ORDER implies #[trigger] row@[c] == binom(
                i as int,
                c,
            ) by {
                if c > i {
                    assert(binom(i as int, c) == 0);
                }
            }
        }
        t.push(row);
        i += 1;
    }

    while i <= MAX_ORDER
        invariant
            max_pow < i <= MAX_ORDER + 1,
            max_pow <= MAX_ORDER,
            t@.len() == i,
            forall|r: int| 0 <= r < i ==> (#[trigger] t@[r])@.len() == MAX_ORDER + 1,
            forall|r: int, j: int|
                0 <= r <= max_pow && r < i && 0 <= j <= MAX_ORDER ==> #[trigger] t@[r]@[j]
                    == binom(r, j),
            forall|r: int, j: int|
                max_pow < r < i && 0 <= j <= MAX_ORDER ==> #[trigger] t@[r]@[j] == 0,
        decreases MAX_ORDER + 1 - i,
    {
        let zero_row: Vec<i64> = vec![0i64; MAX_ORDER + 1];
        t.push(zero_row);
        i += 1;
    }
    t
}

/// Pascal's triangle with every odd column negated: `t[i][j]` is
/// `alt_sign(j) * binom(i, j)` for rows up to `max_pow`, so row `n` holds
/// the coefficients of `(x - 1)^n`.
pub fn build_neg_pascal_triangle(max_pow: usize) -> (t: Vec<Vec<i64>>)
    requires
        max_pow <= MAX_ORDER,
    ensures
        t@.len() == MAX_ORDER + 1,
        forall|i: int| 0 <= i <= MAX_ORDER ==> (#[trigger] t@[i])@.len() == MAX_ORDER + 1,
        forall|i: int, j: int|
            0 <= i <= max_pow && 0 <= j <= MAX_ORDER ==> #[trigger] t@[i]@[j] == alt_sign(j)
                * binom(i, j),
        forall|i: int, j: int|
            max_pow < i <= MAX_ORDER && 0 <= j <= MAX_ORDER ==> #[trigger] t@[i]@[j] == 0,
{
    let mut t = build_pascal_triangle(max_pow);
    let mut c: usize = 1;
    while c <= max_pow
        invariant
            max_pow <= MAX_ORDER,
            1 <= c <= max_pow + 1,
            t@.len() == MAX_ORDER + 1,
            forall|i: int| 0 <= i <= MAX_ORDER ==> (#[trigger] t@[i])@.len() == MAX_ORDER + 1,
            forall|i: int, j: int|
                0 <= i <= max_pow && 0 <= j < c ==> #[trigger] t@[i]@[j] == alt_sign(j) * binom(
                    i,
                    j,
                ),
            forall|i: int, j: int|
                0 <= i <= max_pow && c <= j <= MAX_ORDER ==> #[trigger] t@[i]@[j] == binom(i, j),
            forall|i: int, j: int|
                max_pow < i <= MAX_ORDER && 0 <= j <= MAX_ORDER ==> #[trigger] t@[i]@[j] == 0,
        decreases max_pow + 1 - c,
    {
        if c % 2 != 0 {
            let mut r: usize = 0;
            while r <= max_pow
                invariant
                    max_pow <= MAX_ORDER,
                    1 <= c <= max_pow,
                    c % 2 != 0,
                    0 <= r <= max_pow + 1,
                    t@.len() == MAX_ORDER + 1,
                    forall|i: int| 0 <= i <= MAX_ORDER ==> (#[trigger] t@[i])@.len() == MAX_ORDER
                        + 1,
                    forall|i: int, j: int|
                        0 <= i <= max_pow && 0 <= j < c ==> #[trigger] t@[i]@[j] == alt_sign(j)
                            * binom(i, j),
                    forall|i: int, j: int|
                        0 <= i <= max_pow && c < j <= MAX_ORDER ==> #[trigger] t@[i]@[j] == binom(
                            i,
                            j,
                        ),
                    forall|i: int| 0 <= i < r ==> #[trigger] t@[i]@[c as int] == alt_sign(c as int)
                        * binom(i, c as int),
                    forall|i: int| r <= i <= max_pow ==> #[trigger] t@[i]@[c as int] == binom(
                        i,
                        c as int,
                    ),
                    forall|i: int, j: int|
                        max_pow < i <= MAX_ORDER && 0 <= j <= MAX_ORDER ==> #[trigger] t@[i]@[j]
                            == 0,
                decreases max_pow + 1 - r,
            {
                proof {
                    lemma_binom_max_order_bounds(r as int, c as int);
                }
                t[r][c] = -1 * t[r][c];
                r += 1;
            }
        }
        c += 1;
    }
    proof {
        assert forall|i: int, j: int|
            0 <= i <= max_pow && 0 <= j <= MAX_ORDER implies #[trigger] t@[i]@[j] == alt_sign(j)
            * binom(i, j) by {
            if j > max_pow && j > i {
                assert(binom(i, j) == 0);
            }
        }
    }
    t
}

/// Coefficients of `(x + 1)^pow` (or of `(x - 1)^pow` when
/// `negate_odd_terms` is set), highest order first: row `pow` of the
/// corresponding triangle.
pub fn binomial_expansion(pow: usize, negate_odd_terms: bool) -> (r: Vec<i64>)
    requires
        pow <= MAX_ORDER,
    ensures
        r@.len() == pow + 1,
        !negate_odd_terms ==> forall|j: int| 0 <= j <= pow ==> r@[j] == binom_row(pow as int)[j],
        negate_odd_terms ==> forall|j: int| 0 <= j <= pow ==> r@[j] == alt_binom_row(pow as int)[j],
{
    let t = if negate_odd_terms {
        build_neg_pascal_triangle(pow)
    } else {
        build_pascal_triangle(pow)
    };
    let mut r: Vec<i64> = Vec::new();
    let mut j: usize = 0;
    while j <= pow
        invariant
            pow <= MAX_ORDER,
            0 <= j <= pow + 1,
            t@.len() == MAX_ORDER + 1,
            forall|i: int| 0 <= i <= MAX_ORDER ==> (#[trigger] t@[i])@.len() == MAX_ORDER + 1,
            !negate_odd_terms ==> forall|i: int, k: int|
                0 <= i <= pow && 0 <= k <= MAX_ORDER ==> #[trigger] t@[i]@[k] == binom(i, k),
            negate_odd_terms ==> forall|i: int, k: int|
                0 <= i <= pow && 0 <= k <= MAX_ORDER ==> #[trigger] t@[i]@[k] == alt_sign(k)
                    * binom(i, k),
            r@.len() == j,
            !negate_odd_terms ==> forall|k: int| 0 <= k < j ==> r@[k] == binom(pow as int, k),
            negate_odd_terms ==> forall|k: int| 0 <= k < j ==> r@[k] == alt_sign(k) * binom(
                pow as int,
                k,
            ),
        decreases pow + 1 - j,
    {
        r.push(t[pow][j]);
        j += 1;
    }
    r
}

} // verus!
