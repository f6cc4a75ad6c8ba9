use ctrlsys_toolbox::butterworth::butterworth_angles;

#[test]
fn test_butterworth_angles_third_order() {
    // Order 3: angles 120, 180 and 240 degrees, as fractions of pi.
    let angles = butterworth_angles(3);
    assert_eq!(angles, vec![(4, 6), (6, 6), (8, 6)]);
    assert_eq!(180 * 4 / 6, 120);
    assert_eq!(180 * 6 / 6, 180);
    assert_eq!(180 * 8 / 6, 240);
}

#[test]
fn test_butterworth_angles_first_order() {
    // A single pole sits on the negative real axis, at angle pi.
    assert_eq!(butterworth_angles(1), vec![(2, 2)]);
}

#[test]
fn test_butterworth_angles_order_zero() {
    assert_eq!(butterworth_angles(0), Vec::<(u64, u64)>::new());
}

#[test]
fn test_butterworth_angles_left_half_plane() {
    // Every angle lies strictly between pi/2 and 3*pi/2.
    for n in 1..=20usize {
        for &(num, den) in butterworth_angles(n).iter() {
            assert!(den < 2 * num);
            assert!(2 * num < 3 * den);
        }
    }
}
