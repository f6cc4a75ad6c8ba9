//! Integer basis polynomials of the bilinear (Tustin) transform.
//!
//! The transform approximates `s = (2/T) * (z - 1) / (z + 1)`. Collected
//! over the common denominator `(z + 1)^max_ord`, a source coefficient of
//! order `ord` contributes `coeff * (2/T)^ord` times the basis polynomial
//! `(z - 1)^ord * (z + 1)^(max_ord - ord)`. The basis polynomials are exact
//! integers and are computed here; the floating-point scaling, accumulation
//! and final normalization stay with the caller.

use vstd::prelude::*;
use crate::pascal::MAX_ORDER;
use crate::pascal::binom;
use crate::pascal::alt_sign;
use crate::pascal::binom_row;
use crate::pascal::alt_binom_row;
use crate::pascal::binomial_expansion;
use crate::pascal::lemma_binom_max_order_bounds;
use crate::poly::COEFF_BOUND;
use crate::poly::coeff;
use crate::poly::conv_term;
use crate::poly::conv_at;
use crate::poly::convolve_seq;
use crate::poly::convolve;
use crate::poly::to_ints;
use crate::sums::sum_fn;

verus! {

/// The polynomial `(z - 1)^ord * (z + 1)^(max_ord - ord)`, highest order
/// first: what a source coefficient of order `ord` multiplies once the
/// bilinear transform is collected over `(z + 1)^max_ord`. Its leading
/// coefficient is always one.
pub fn bilinear_basis(ord: usize, max_ord: usize) -> (r: Vec<i64>)
    requires
        ord <= max_ord,
        max_ord <= MAX_ORDER,
    ensures
        r@.len() == max_ord + 1,
        to_ints(r@) == convolve_seq(alt_binom_row(ord as int), binom_row((max_ord - ord) as int)),
        r@[0] == 1,
{
    let pa = binomial_expansion(ord, true);
    let pb = binomial_expansion(max_ord - ord, false);
    proof {
        assert forall|i: int| 0 <= i < pa@.len() implies -COEFF_BOUND <= #[trigger] pa@[i]
            <= COEFF_BOUND by {
            lemma_binom_max_order_bounds(ord as int, i);
            assert(pa@[i] == alt_sign(i) * binom(ord as int, i));
        }
        assert forall|i: int| 0 <= i < pb@.len() implies -COEFF_BOUND <= #[trigger] pb@[i]
            <= COEFF_BOUND by {
            lemma_binom_max_order_bounds((max_ord - ord) as int, i);
            assert(pb@[i] == binom((max_ord - ord) as int, i));
        }
    }
    let r = convolve(&pa, &pb);
    proof {
        let a = alt_binom_row(ord as int);
        let b = binom_row((max_ord - ord) as int);
        assert(to_ints(pa@) =~= a);
        assert(to_ints(pb@) =~= b);
        assert(to_ints(r@) == convolve_seq(a, b));
        assert(to_ints(r@)[0] == conv_at(a, b, 0));
        assert(conv_at(a, b, 0) == sum_fn(1, conv_term(a, b, 0)));
        assert(sum_fn(1, conv_term(a, b, 0)) == sum_fn(0, conv_term(a, b, 0)) + conv_term(
            a,
            b,
            0,
        )(0));
        assert(sum_fn(0, conv_term(a, b, 0)) == 0);
        assert(conv_term(a, b, 0)(0) == coeff(a, 0) * coeff(b, 0));
        assert(binom(ord as int, 0) == 1);
        assert(binom((max_ord - ord) as int, 0) == 1);
        assert(coeff(a, 0) == 1);
        assert(coeff(b, 0) == 1);
        assert(r@[0] as int == to_ints(r@)[0]);
    }
    r
}

} // verus!
