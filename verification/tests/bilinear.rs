use ctrlsys_toolbox::bilinear::bilinear_basis;
use ctrlsys_toolbox::poly::poly_add;

#[test]
fn test_bilinear_basis_first_order() {
    // Order 1 system: the constant term multiplies (z + 1), the s term
    // multiplies (z - 1).
    assert_eq!(bilinear_basis(0, 1), vec![1, 1]);
    assert_eq!(bilinear_basis(1, 1), vec![1, -1]);
}

#[test]
fn test_bilinear_basis_order_zero() {
    assert_eq!(bilinear_basis(0, 0), vec![1]);
}

#[test]
fn test_bilinear_basis_second_order() {
    // (z - 1)(z + 1) == z^2 - 1 and (z - 1)^2 == z^2 - 2z + 1.
    assert_eq!(bilinear_basis(1, 2), vec![1, 0, -1]);
    assert_eq!(bilinear_basis(2, 2), vec![1, -2, 1]);
    assert_eq!(bilinear_basis(0, 2), vec![1, 2, 1]);
}

#[test]
fn test_bilinear_basis_leading_coefficient_is_one() {
    for max_ord in 0..=20usize {
        for ord in 0..=max_ord {
            assert_eq!(bilinear_basis(ord, max_ord)[0], 1);
        }
    }
}

#[test]
fn test_bilinear_accumulation_first_order_lowpass() {
    // H(s) = 1 / (s + 1) at sample time T = 1: the raw (unnormalized)
    // discrete denominator is 1 * (2/T)^1 * (z - 1) + 1 * (z + 1)
    // = [3, -1], and the raw numerator is 1 * (z + 1) = [1, 1]; dividing
    // by the leading 3 gives the textbook [1/3, 1/3] over [1, -1/3].
    let scale: i64 = 2;
    let den_s1: Vec<i64> = bilinear_basis(1, 1).iter().map(|c| c * scale).collect();
    let den_s0 = bilinear_basis(0, 1);
    let den_z = poly_add(&den_s1, &den_s0);
    assert_eq!(den_z, vec![3, -1]);
    let num_z = bilinear_basis(0, 1);
    assert_eq!(num_z, vec![1, 1]);
}
