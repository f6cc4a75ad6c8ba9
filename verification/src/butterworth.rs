//! Butterworth pole placement.
//!
//! An analog Butterworth lowpass of order `n` has its poles equally spaced
//! on the circle of radius `omega_c`, at polar angles
//! `theta_k = pi/2 + (2k + 1) * pi / (2n)` for `k` in `0..n`; equivalently
//! `theta_k = pi * (n + 2k + 1) / (2n)`. The angles are exact rational
//! multiples of pi and are computed here as fractions; turning them into
//! points of the complex plane is floating point and stays with the caller.

use vstd::prelude::*;

verus! {

/// The Butterworth pole angles for order `n`, as fractions of pi:
/// entry `k` is `(n + 2k + 1, 2n)`, meaning `theta_k = pi * (n + 2k + 1) / (2n)`.
/// Every angle lies strictly between `pi/2` and `3*pi/2` (the numerator is
/// strictly between half the denominator and one and a half times it), so
/// every pole has a strictly negative real part: the filter is stable. The
/// angles grow strictly with `k`.
pub fn butterworth_angles(n: usize) -> (r: Vec<(u64, u64)>)
    requires
        n <= 0x7fff_ffff,
    ensures
        r@.len() == n,
        forall|k: int| 0 <= k < n ==> (#[trigger] r@[k]).0 as int == n + 2 * k + 1,
        forall|k: int| 0 <= k < n ==> (#[trigger] r@[k]).1 as int == 2 * (n as int),
        forall|k: int|
            0 <= k < n ==> (#[trigger] r@[k]).1 < 2 * r@[k].0 && 2 * r@[k].0 < 3 * r@[k].1,
        forall|k: int| 0 <= k && k + 1 < n ==> (#[trigger] r@[k]).0 < r@[k + 1].0,
{
    let mut r: Vec<(u64, u64)> = Vec::new();
    let mut k: usize = 0;
    while k < n
        invariant
            n <= 0x7fff_ffff,
            k <= n,
            r@.len() == k,
            forall|x: int| 0 <= x < k ==> (#[trigger] r@[x]).0 as int == n + 2 * x + 1,
            forall|x: int| 0 <= x < k ==> (#[trigger] r@[x]).1 as int == 2 * (n as int),
        decreases n - k,
    {
        let num = (n as u64) + 2 * (k as u64) + 1;
        let den = 2 * (n as u64);
        r.push((num, den));
        k += 1;
    }
    r
}

} // verus!
