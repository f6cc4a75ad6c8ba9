//! Polynomial coefficient arithmetic.
//!
//! A polynomial is an ordered sequence of coefficients, highest order first,
//! of length degree + 1. `convolve` multiplies two polynomials; `poly_add`
//! adds two coefficient vectors of possibly different lengths, aligning them
//! at the lowest-order end (the shorter one is padded with leading zeros).
//! Constructors do not trim leading zeros: callers must normalize before
//! treating vector length as the authoritative degree.

use vstd::prelude::*;
use vstd::arithmetic::mul::lemma_mul_inequality;
use crate::sums::sum_fn;
use crate::sums::lemma_sum_bound;
use crate::sums::lemma_sum_extend;
use crate::sums::lemma_sum_ext;
use crate::sums::lemma_sum_zero;
use crate::sums::lemma_sum_front;
use crate::sums::lemma_sum_scale;
use crate::sums::lemma_sum_reverse;
use crate::sums::lemma_sum_offset;
use crate::sums::lemma_sum_exchange;
use crate::sums::shift_fn;
use crate::sums::rev_fn;
use crate::sums::scale_fn;
use crate::sums::row_fn;
use crate::sums::col_fn;
use crate::sums::row_sums_fn;
use crate::sums::col_sums_fn;

verus! {

/// The mathematical (unbounded) values of a coefficient vector.
pub open spec fn to_ints(s: Seq<i64>) -> Seq<int> {
    s.map_values(|x: i64| x as int)
}

/// Coefficient `i` of a sequence, zero outside its range.
pub open spec fn coeff(s: Seq<int>, i: int) -> int {
    if 0 <= i < s.len() {
        s[i]
    } else {
        0
    }
}

/// The `j`-th term of coefficient `k` of the product of `f` and `g`.
pub open spec fn conv_term(f: Seq<int>, g: Seq<int>, k: int) -> spec_fn(int) -> int {
    |j: int| coeff(f, j) * coeff(g, k - j)
}

/// Coefficient `k` of the product, summed over the first `m` terms only.
pub open spec fn conv_prefix(f: Seq<int>, g: Seq<int>, k: int, m: nat) -> int {
    sum_fn(m, conv_term(f, g, k))
}

/// Coefficient `k` of the product of `f` and `g`:
/// the sum of `f[j] * g[k - j]` over all valid `j`.
pub open spec fn conv_at(f: Seq<int>, g: Seq<int>, k: int) -> int {
    if k < 0 {
        0
    } else {
        conv_prefix(f, g, k, (k + 1) as nat)
    }
}

/// The product of two coefficient sequences: length
/// `f.len() + g.len() - 1`, or empty if either factor is empty.
pub open spec fn convolve_seq(f: Seq<int>, g: Seq<int>) -> Seq<int> {
    if f.len() == 0 || g.len() == 0 {
        Seq::empty()
    } else {
        Seq::new((f.len() + g.len() - 1) as nat, |k: int| conv_at(f, g, k))
    }
}

/// All inputs to `convolve` must keep every intermediate sum inside `i64`:
/// with at most `LEN_BOUND` coefficients, each bounded by `COEFF_BOUND`,
/// every partial sum stays below `2^60`.
pub const COEFF_BOUND: i64 = 0x10_0000;

/// Longest coefficient vector `convolve` accepts.
pub const LEN_BOUND: usize = 0x10_0000;

/// Coefficient vectors `poly_add` accepts must leave headroom for one
/// addition.
pub const ADD_BOUND: i64 = 0x3fff_ffff_ffff_ffff;

proof fn lemma_conv_prefix_bound(f: Seq<int>, g: Seq<int>, k: int, m: nat, b: int)
    requires
        b >= 0,
        forall|i: int| 0 <= i < f.len() ==> -b <= #[trigger] f[i] <= b,
        forall|i: int| 0 <= i < g.len() ==> -b <= #[trigger] g[i] <= b,
    ensures
        -((m as int) * (b * b)) <= conv_prefix(f, g, k, m) <= (m as int) * (b * b),
{
    let t = conv_term(f, g, k);
    assert forall|j: int| 0 <= j < m implies -(b * b) <= #[trigger] t(j) <= b * b by {
        let x = coeff(f, j);
        let y = coeff(g, k - j);
        assert(-b <= x <= b);
        assert(-b <= y <= b);
        assert(-(b * b) <= x * y <= b * b) by (nonlinear_arith)
            requires
                -b <= x <= b,
                -b <= y <= b,
                b >= 0,
        ;
    }
    lemma_sum_bound(m, t, b * b);
}

/// Polynomial multiplication: coefficient `k` of the result is the sum of
/// `f[j] * g[k - j]` over all valid `j`. The result is empty when either
/// input is empty.
pub fn convolve(f: &Vec<i64>, g: &Vec<i64>) -> (r: Vec<i64>)
    requires
        f@.len() <= LEN_BOUND,
        g@.len() <= LEN_BOUND,
        forall|i: int| 0 <= i < f@.len() ==> -COEFF_BOUND <= #[trigger] f@[i] <= COEFF_BOUND,
        forall|i: int| 0 <= i < g@.len() ==> -COEFF_BOUND <= #[trigger] g@[i] <= COEFF_BOUND,
    ensures
        r@.len() == (if f@.len() == 0 || g@.len() == 0 {
            0int
        } else {
            f@.len() + g@.len() - 1
        }),
        to_ints(r@) == convolve_seq(to_ints(f@), to_ints(g@)),
{
    let ghost fs = to_ints(f@);
    let ghost gs = to_ints(g@);
    let ghost b: int = COEFF_BOUND as int;
    proof {
        assert forall|i: int| 0 <= i < fs.len() implies -b <= #[trigger] fs[i] <= b by {
            assert(fs[i] == f@[i] as int);
        }
        assert forall|i: int| 0 <= i < gs.len() implies -b <= #[trigger] gs[i] <= b by {
            assert(gs[i] == g@[i] as int);
        }
    }
    if f.len() == 0 || g.len() == 0 {
        let r: Vec<i64> = Vec::new();
        proof {
            assert(to_ints(r@) =~= convolve_seq(fs, gs));
        }
        return r;
    }
    let n = f.len() + g.len() - 1;
    let mut r: Vec<i64> = vec![0i64; n];
    proof {
        assert forall|k: int| 0 <= k < n implies r@[k] as int == conv_prefix(fs, gs, k, 0) by {
            assert(sum_fn(0, conv_term(fs, gs, k)) == 0);
        }
    }
    let mut i: usize = 0;
    while i < f.len()
        invariant
            i <= f@.len(),
            f@.len() >= 1,
            g@.len() >= 1,
            f@.len() <= LEN_BOUND,
            g@.len() <= LEN_BOUND,
            n == f@.len() + g@.len() - 1,
            r@.len() == n,
            fs == to_ints(f@),
            gs == to_ints(g@),
            b == COEFF_BOUND as int,
            forall|x: int| 0 <= x < fs.len() ==> -b <= #[trigger] fs[x] <= b,
            forall|x: int| 0 <= x < gs.len() ==> -b <= #[trigger] gs[x] <= b,
            forall|i2: int| 0 <= i2 < f@.len() ==> -COEFF_BOUND <= #[trigger] f@[i2] <= COEFF_BOUND,
            forall|i2: int| 0 <= i2 < g@.len() ==> -COEFF_BOUND <= #[trigger] g@[i2] <= COEFF_BOUND,
            forall|k: int| 0 <= k < n ==> #[trigger] r@[k] as int == conv_prefix(
                fs,
                gs,
                k,
                i as nat,
            ),
        decreases f@.len() - i,
    {
        let mut j: usize = 0;
        while j < g.len()
            invariant
                i < f@.len(),
                j <= g@.len(),
                f@.len() >= 1,
                g@.len() >= 1,
                f@.len() <= LEN_BOUND,
                g@.len() <= LEN_BOUND,
                n == f@.len() + g@.len() - 1,
                r@.len() == n,
                fs == to_ints(f@),
                gs == to_ints(g@),
                b == COEFF_BOUND as int,
                forall|x: int| 0 <= x < fs.len() ==> -b <= #[trigger] fs[x] <= b,
                forall|x: int| 0 <= x < gs.len() ==> -b <= #[trigger] gs[x] <= b,
                forall|i2: int|
                    0 <= i2 < f@.len() ==> -COEFF_BOUND <= #[trigger] f@[i2] <= COEFF_BOUND,
                forall|i2: int|
                    0 <= i2 < g@.len() ==> -COEFF_BOUND <= #[trigger] g@[i2] <= COEFF_BOUND,
                forall|k: int| 0 <= k < n ==> #[trigger] r@[k] as int == conv_prefix(
                    fs,
                    gs,
                    k,
                    i as nat,
                ) + (if i <= k < i + j {
                    coeff(fs, i as int) * coeff(gs, k - i)
                } else {
                    0
                }),
            decreases g@.len() - j,
        {
            let p = i + j;
            proof {
                lemma_conv_prefix_bound(fs, gs, p as int, i as nat, b);
                lemma_mul_inequality(i as int, LEN_BOUND as int, b * b);
                assert(fs[i as int] == f@[i as int] as int);
                assert(gs[j as int] == g@[j as int] as int);
                assert(-(b * b) <= (f@[i as int] as int) * (g@[j as int] as int) <= b * b)
                    by (nonlinear_arith)
                    requires
                        -b <= f@[i as int] as int <= b,
                        -b <= g@[j as int] as int <= b,
                        b >= 0,
                ;
            }
            r[p] = r[p] + f[i] * g[j];
            proof {
                assert(coeff(fs, i as int) == fs[i as int]);
                assert(coeff(gs, p - i) == gs[j as int]);
            }
            j += 1;
        }
        proof {
            assert forall|k: int| 0 <= k < n implies #[trigger] r@[k] as int == conv_prefix(
                fs,
                gs,
                k,
                (i + 1) as nat,
            ) by {
                let t = conv_term(fs, gs, k);
                assert(conv_prefix(fs, gs, k, (i + 1) as nat) == sum_fn(i as nat, t) + t(i as int));
                assert(t(i as int) == coeff(fs, i as int) * coeff(gs, k - i));
                if !(i <= k < i + g@.len()) {
                    assert(coeff(gs, k - i) == 0);
                }
            }
        }
        i += 1;
    }
    proof {
        assert forall|k: int| 0 <= k < n implies #[trigger] r@[k] as int == conv_at(fs, gs, k) by {
            let t = conv_term(fs, gs, k);
            if f@.len() <= k + 1 {
                assert forall|j: int| f@.len() <= j < k + 1 implies #[trigger] t(j) == 0 by {
                    assert(coeff(fs, j) == 0);
                }
                lemma_sum_extend(f@.len() as nat, (k + 1) as nat, t);
            } else {
                assert forall|j: int| k + 1 <= j < f@.len() implies #[trigger] t(j) == 0 by {
                    assert(coeff(gs, k - j) == 0);
                }
                lemma_sum_extend((k + 1) as nat, f@.len() as nat, t);
            }
        }
        assert(to_ints(r@) =~= convolve_seq(fs, gs));
    }
    r
}

/// Value at position `k` of `a` once it is right-aligned inside a vector of
/// length `len` (leading positions padded with zeros).
pub open spec fn aligned_coeff(a: Seq<int>, len: int, k: int) -> int {
    coeff(a, k - (len - a.len()))
}

/// The aligned sum of two coefficient sequences: both are padded with
/// leading zeros to the longer length, then added elementwise. Alignment is
/// at the lowest-order end, since coefficients are highest order first.
pub open spec fn poly_add_seq(a: Seq<int>, b: Seq<int>) -> Seq<int> {
    let len = if a.len() >= b.len() {
        a.len() as int
    } else {
        b.len() as int
    };
    Seq::new(len as nat, |k: int| aligned_coeff(a, len, k) + aligned_coeff(b, len, k))
}

/// Aligned polynomial addition: the shorter input is padded with leading
/// zeros (right-aligned at the lowest-order end) before elementwise
/// addition.
pub fn poly_add(a: &Vec<i64>, b: &Vec<i64>) -> (r: Vec<i64>)
    requires
        forall|i: int| 0 <= i < a@.len() ==> -ADD_BOUND <= #[trigger] a@[i] <= ADD_BOUND,
        forall|i: int| 0 <= i < b@.len() ==> -ADD_BOUND <= #[trigger] b@[i] <= ADD_BOUND,
    ensures
        r@.len() == (if a@.len() >= b@.len() {
            a@.len()
        } else {
            b@.len()
        }),
        to_ints(r@) == poly_add_seq(to_ints(a@), to_ints(b@)),
{
    let ghost as_ = to_ints(a@);
    let ghost bs = to_ints(b@);
    let len = if a.len() >= b.len() {
        a.len()
    } else {
        b.len()
    };
    let mut r: Vec<i64> = vec![0i64; len];
    let offset_a = len - a.len();
    let offset_b = len - b.len();
    let mut i: usize = 0;
    while i < a.len()
        invariant
            i <= a@.len(),
            len >= a@.len(),
            len >= b@.len(),
            len == (if a@.len() >= b@.len() {
                a@.len()
            } else {
                b@.len()
            }),
            offset_a == len - a@.len(),
            r@.len() == len,
            as_ == to_ints(a@),
            forall|x: int| 0 <= x < a@.len() ==> -ADD_BOUND <= #[trigger] a@[x] <= ADD_BOUND,
            forall|k: int|
                0 <= k < offset_a + i ==> #[trigger] r@[k] as int == aligned_coeff(
                    as_,
                    len as int,
                    k,
                ),
            forall|k: int| offset_a + i <= k < len ==> #[trigger] r@[k] == 0,
        decreases a@.len() - i,
    {
        proof {
            assert(as_[i as int] == a@[i as int] as int);
        }
        r[offset_a + i] = r[offset_a + i] + a[i];
        i += 1;
    }
    proof {
        assert forall|k: int| 0 <= k < len implies #[trigger] r@[k] as int == aligned_coeff(
            as_,
            len as int,
            k,
        ) by {
            if k < offset_a {
                assert(coeff(as_, k - (len - as_.len())) == 0);
            }
        }
    }
    let mut j: usize = 0;
    while j < b.len()
        invariant
            j <= b@.len(),
            len >= a@.len(),
            len >= b@.len(),
            len == (if a@.len() >= b@.len() {
                a@.len()
            } else {
                b@.len()
            }),
            offset_b == len - b@.len(),
            r@.len() == len,
            as_ == to_ints(a@),
            bs == to_ints(b@),
            forall|x: int| 0 <= x < a@.len() ==> -ADD_BOUND <= #[trigger] a@[x] <= ADD_BOUND,
            forall|x: int| 0 <= x < b@.len() ==> -ADD_BOUND <= #[trigger] b@[x] <= ADD_BOUND,
            forall|k: int|
                0 <= k < offset_b + j ==> #[trigger] r@[k] as int == aligned_coeff(
                    as_,
                    len as int,
                    k,
                ) + aligned_coeff(bs, len as int, k),
            forall|k: int|
                offset_b + j <= k < len ==> #[trigger] r@[k] as int == aligned_coeff(
                    as_,
                    len as int,
                    k,
                ),
        decreases b@.len() - j,
    {
        proof {
            assert(bs[j as int] == b@[j as int] as int);
            assert(aligned_coeff(as_, len as int, offset_b + j) == coeff(
                as_,
                offset_b + j - (len - as_.len()),
            ));
        }
        r[offset_b + j] = r[offset_b + j] + b[j];
        proof {
            assert(coeff(bs, (offset_b + j) - (len - bs.len())) == bs[j as int]);
        }
        j += 1;
    }
    proof {
        assert forall|k: int| 0 <= k < len implies #[trigger] r@[k] as int == aligned_coeff(
            as_,
            len as int,
            k,
        ) + aligned_coeff(bs, len as int, k) by {
            if k < offset_b {
                assert(coeff(bs, k - (len - bs.len())) == 0);
            }
        }
        assert(to_ints(r@) =~= poly_add_seq(as_, bs));
    }
    r
}

proof fn lemma_conv_at_beyond(f: Seq<int>, g: Seq<int>, k: int)
    requires
        k >= 0,
        f.len() == 0 || g.len() == 0 || k >= f.len() + g.len() - 1,
    ensures
        conv_at(f, g, k) == 0,
{
    let t = conv_term(f, g, k);
    assert forall|i: int| 0 <= i < k + 1 implies #[trigger] t(i) == 0 by {
        if 0 <= i < f.len() {
            assert(coeff(g, k - i) == 0);
        } else {
            assert(coeff(f, i) == 0);
        }
    }
    lemma_sum_zero((k + 1) as nat, t);
}

/// Every coefficient of the product, in or out of range, is `conv_at`.
proof fn lemma_conv_coeff(f: Seq<int>, g: Seq<int>, k: int)
    ensures
        coeff(convolve_seq(f, g), k) == conv_at(f, g, k),
{
    if k < 0 {
    } else if f.len() == 0 || g.len() == 0 || k >= f.len() + g.len() - 1 {
        lemma_conv_at_beyond(f, g, k);
    }
}

proof fn lemma_conv_at_comm(f: Seq<int>, g: Seq<int>, k: int)
    requires
        k >= 0,
    ensures
        conv_at(f, g, k) == conv_at(g, f, k),
{
    let n = (k + 1) as nat;
    let t = conv_term(f, g, k);
    let u = conv_term(g, f, k);
    lemma_sum_reverse(n, t);
    assert forall|i: int| 0 <= i < n implies #[trigger] rev_fn(n as int, t)(i) == u(i) by {
        assert(rev_fn(n as int, t)(i) == t(k - i));
        assert(t(k - i) == coeff(f, k - i) * coeff(g, i));
        assert(u(i) == coeff(g, i) * coeff(f, k - i));
        vstd::arithmetic::mul::lemma_mul_is_commutative(coeff(f, k - i), coeff(g, i));
    }
    lemma_sum_ext(n, rev_fn(n as int, t), u);
}

/// Polynomial multiplication is commutative:
/// `convolve(f, g)` and `convolve(g, f)` have the same coefficients.
pub proof fn lemma_convolve_commutative(f: Seq<int>, g: Seq<int>)
    ensures
        convolve_seq(f, g) == convolve_seq(g, f),
{
    if f.len() == 0 || g.len() == 0 {
        assert(convolve_seq(f, g) =~= convolve_seq(g, f));
    } else {
        assert forall|k: int| 0 <= k < f.len() + g.len() - 1 implies conv_at(f, g, k) == conv_at(
            g,
            f,
            k,
        ) by {
            lemma_conv_at_comm(f, g, k);
        }
        assert(convolve_seq(f, g) =~= convolve_seq(g, f));
    }
}

/// The constant polynomial `[1]` is the identity of polynomial
/// multiplication: `convolve([1], x)` equals `x` for every `x`.
pub proof fn lemma_convolve_identity(x: Seq<int>)
    ensures
        convolve_seq(seq![1int], x) == x,
{
    let one = seq![1int];
    if x.len() == 0 {
        assert(convolve_seq(one, x) =~= x);
    } else {
        assert forall|k: int| 0 <= k < x.len() implies conv_at(one, x, k) == x[k] by {
            let n = (k + 1) as nat;
            let t = conv_term(one, x, k);
            lemma_sum_front(n, t);
            assert forall|i: int| 0 <= i < n - 1 implies #[trigger] shift_fn(t, 1)(i) == 0 by {
                assert(shift_fn(t, 1)(i) == t(i + 1));
                assert(coeff(one, i + 1) == 0);
            }
            lemma_sum_zero((n - 1) as nat, shift_fn(t, 1));
            assert(t(0) == coeff(one, 0) * coeff(x, k));
            assert(one[0] == 1);
        }
        assert(convolve_seq(one, x) =~= x);
    }
}

proof fn lemma_conv_at_assoc(f: Seq<int>, g: Seq<int>, h: Seq<int>, k: int)
    requires
        k >= 0,
    ensures
        conv_at(convolve_seq(f, g), h, k) == conv_at(f, convolve_seq(g, h), k),
{
    let n = (k + 1) as nat;
    let fg = convolve_seq(f, g);
    let gh = convolve_seq(g, h);
    let lhs_t = conv_term(fg, h, k);
    let rhs_t = conv_term(f, gh, k);
    // The shared double sum: term (j, i) is f[i] * g[j - i] * h[k - j],
    // indexed so that row j collects coefficient j of f * g.
    let dbl = |j: int, i: int| coeff(f, i) * coeff(g, j - i) * coeff(h, k - j);

    // Coefficient k of (f * g) * h: row j of the double sum, summed over i,
    // is (f * g)[j] * h[k - j].
    assert forall|j: int| 0 <= j < n implies #[trigger] lhs_t(j) == row_sums_fn(n, dbl)(j) by {
        lemma_conv_coeff(f, g, j);
        let t = conv_term(f, g, j);
        assert forall|i: int| j + 1 <= i < n implies #[trigger] t(i) == 0 by {
            assert(coeff(g, j - i) == 0);
        }
        lemma_sum_extend((j + 1) as nat, n, t);
        let c = coeff(h, k - j);
        lemma_sum_scale(n, c, t);
        assert forall|i: int| 0 <= i < n implies #[trigger] scale_fn(c, t)(i) == row_fn(dbl, j)(
            i,
        ) by {
            assert(scale_fn(c, t)(i) == c * t(i));
            assert(t(i) == coeff(f, i) * coeff(g, j - i));
            assert(row_fn(dbl, j)(i) == dbl(j, i));
            vstd::arithmetic::mul::lemma_mul_is_commutative(c, coeff(f, i) * coeff(g, j - i));
        }
        lemma_sum_ext(n, scale_fn(c, t), row_fn(dbl, j));
        assert(coeff(fg, j) == sum_fn(n, t));
        assert(lhs_t(j) == coeff(fg, j) * c);
        vstd::arithmetic::mul::lemma_mul_is_commutative(sum_fn(n, t), c);
        assert(row_sums_fn(n, dbl)(j) == sum_fn(n, row_fn(dbl, j)));
    }
    lemma_sum_ext(n, lhs_t, row_sums_fn(n, dbl));
    assert(conv_at(fg, h, k) == sum_fn(n, lhs_t));

    // Exchange the two sums.
    lemma_sum_exchange(n, n, dbl);

    // Coefficient k of f * (g * h): column i of the double sum, summed over
    // j, is f[i] * (g * h)[k - i].
    assert forall|i: int| 0 <= i < n implies #[trigger] rhs_t(i) == col_sums_fn(n, dbl)(i) by {
        lemma_conv_coeff(g, h, k - i);
        let gt = conv_term(g, h, k - i);
        assert forall|x: int| x < 0 implies #[trigger] gt(x) == 0 by {
            assert(coeff(g, x) == 0);
        }
        lemma_sum_offset(n, i as nat, gt);
        let c = coeff(f, i);
        let shifted = shift_fn(gt, -(i as int));
        lemma_sum_scale(n, c, shifted);
        assert forall|j: int| 0 <= j < n implies #[trigger] scale_fn(c, shifted)(j) == col_fn(
            dbl,
            i,
        )(j) by {
            assert(scale_fn(c, shifted)(j) == c * shifted(j));
            assert(shifted(j) == gt(j + (-(i as int))));
            assert(gt(j - i) == coeff(g, j - i) * coeff(h, (k - i) - (j - i)));
            assert((k - i) - (j - i) == k - j);
            assert(col_fn(dbl, i)(j) == dbl(j, i));
            vstd::arithmetic::mul::lemma_mul_is_associative(
                coeff(f, i),
                coeff(g, j - i),
                coeff(h, k - j),
            );
        }
        lemma_sum_ext(n, scale_fn(c, shifted), col_fn(dbl, i));
        assert(conv_at(g, h, k - i) == sum_fn((n - i) as nat, gt));
        assert(rhs_t(i) == c * coeff(gh, k - i));
        assert(col_sums_fn(n, dbl)(i) == sum_fn(n, col_fn(dbl, i)));
    }
    lemma_sum_ext(n, rhs_t, col_sums_fn(n, dbl));
    assert(conv_at(f, gh, k) == sum_fn(n, rhs_t));
}

/// Polynomial multiplication is associative:
/// `convolve(convolve(f, g), h)` equals `convolve(f, convolve(g, h))`.
pub proof fn lemma_convolve_associative(f: Seq<int>, g: Seq<int>, h: Seq<int>)
    ensures
        convolve_seq(convolve_seq(f, g), h) == convolve_seq(f, convolve_seq(g, h)),
{
    let fg = convolve_seq(f, g);
    let gh = convolve_seq(g, h);
    if f.len() == 0 || g.len() == 0 || h.len() == 0 {
        assert(convolve_seq(fg, h) =~= convolve_seq(f, gh));
    } else {
        let n = f.len() + g.len() + h.len() - 2;
        assert(convolve_seq(fg, h).len() == n);
        assert(convolve_seq(f, gh).len() == n);
        assert forall|k: int| 0 <= k < n implies conv_at(fg, h, k) == conv_at(f, gh, k) by {
            lemma_conv_at_assoc(f, g, h, k);
        }
        assert(convolve_seq(fg, h) =~= convolve_seq(f, gh));
    }
}

} // verus!
