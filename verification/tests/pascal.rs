use ctrlsys_toolbox::pascal::build_pascal_triangle;
use ctrlsys_toolbox::pascal::build_neg_pascal_triangle;
use ctrlsys_toolbox::pascal::binomial_expansion;
use ctrlsys_toolbox::pascal::MAX_ORDER;

#[test]
fn test_pascal_triangle() {
    let t = build_pascal_triangle(MAX_ORDER);
    assert_eq!(t[0][0], 1);
    assert_eq!(t[1][0], 1);
    assert_eq!(t[1][1], 1);
    assert_eq!(t[2][1], 2);
    assert_eq!(t[4][2], 6);
    assert_eq!(t[5][3], 10);
    assert_eq!(t[6][3], 20);
}

#[test]
fn test_neg_pascal_triangle() {
    let t = build_neg_pascal_triangle(MAX_ORDER);
    assert_eq!(t[0][0], 1);
    assert_eq!(t[1][0], 1);
    assert_eq!(t[1][1], -1);
    assert_eq!(t[2][1], -2);
    assert_eq!(t[4][2], 6);
    assert_eq!(t[5][3], -10);
    assert_eq!(t[6][3], -20);
}

#[test]
fn test_partial_triangle_rows_stay_zero() {
    let t = build_pascal_triangle(2);
    assert_eq!(t.len(), MAX_ORDER + 1);
    assert_eq!(t[2][1], 2);
    assert_eq!(t[3][0], 0);
    assert_eq!(t[3][1], 0);
}

#[test]
fn test_binomial_expansion_row_four() {
    assert_eq!(binomial_expansion(4, false), vec![1, 4, 6, 4, 1]);
    assert_eq!(binomial_expansion(4, true), vec![1, -4, 6, -4, 1]);
}

#[test]
fn test_binomial_expansion_small_rows() {
    assert_eq!(binomial_expansion(0, false), vec![1]);
    assert_eq!(binomial_expansion(0, true), vec![1]);
    assert_eq!(binomial_expansion(1, false), vec![1, 1]);
    assert_eq!(binomial_expansion(1, true), vec![1, -1]);
}

#[test]
fn test_binomial_expansion_largest_row() {
    let row = binomial_expansion(MAX_ORDER, false);
    assert_eq!(row.len(), MAX_ORDER + 1);
    assert_eq!(row[10], 184756);
    assert_eq!(row[0], 1);
    assert_eq!(row[MAX_ORDER], 1);
}
