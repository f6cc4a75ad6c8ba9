use ctrlsys_toolbox::poly::convolve;
use ctrlsys_toolbox::poly::poly_add;

#[test]
fn test_convolve_identity() {
    let one: Vec<i64> = vec![1];
    let x: Vec<i64> = vec![3, -5, 7, 0, 2];
    assert_eq!(convolve(&one, &x), x);
    assert_eq!(convolve(&x, &one), x);
}

#[test]
fn test_convolve_commutative() {
    let f: Vec<i64> = vec![2, -1, 4];
    let g: Vec<i64> = vec![5, 3];
    assert_eq!(convolve(&f, &g), convolve(&g, &f));
}

#[test]
fn test_convolve_associative() {
    let f: Vec<i64> = vec![1, 2];
    let g: Vec<i64> = vec![3, -4, 5];
    let h: Vec<i64> = vec![-2, 6];
    assert_eq!(convolve(&convolve(&f, &g), &h), convolve(&f, &convolve(&g, &h)));
}

#[test]
fn test_convolve_difference_of_squares() {
    // (z + 1)(z - 1) == z^2 - 1
    let a: Vec<i64> = vec![1, 1];
    let b: Vec<i64> = vec![1, -1];
    assert_eq!(convolve(&a, &b), vec![1, 0, -1]);
}

#[test]
fn test_convolve_empty() {
    let e: Vec<i64> = vec![];
    let x: Vec<i64> = vec![1, 2];
    assert_eq!(convolve(&e, &x), e);
    assert_eq!(convolve(&x, &e), e);
    assert_eq!(convolve(&e, &e), e);
}

#[test]
fn test_poly_add_right_aligned() {
    // Alignment is at the lowest-order end: the shorter vector is padded
    // with leading zeros.
    let a: Vec<i64> = vec![1, 2, 3];
    let b: Vec<i64> = vec![1];
    assert_eq!(poly_add(&a, &b), vec![1, 2, 4]);
    assert_eq!(poly_add(&b, &a), vec![1, 2, 4]);
}

#[test]
fn test_poly_add_equal_lengths() {
    let a: Vec<i64> = vec![1, -2, 3];
    let b: Vec<i64> = vec![4, 5, -6];
    assert_eq!(poly_add(&a, &b), vec![5, 3, -3]);
}

#[test]
fn test_poly_add_empty() {
    let a: Vec<i64> = vec![7, 8];
    let e: Vec<i64> = vec![];
    assert_eq!(poly_add(&a, &e), a);
    assert_eq!(poly_add(&e, &e), e);
}
