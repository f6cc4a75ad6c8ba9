use ctrlsys_toolbox::response::ResponseType;

#[test]
fn test_impulse_weights() {
    assert_eq!(ResponseType::Impulse.input_weights(5), vec![1, 0, 0, 0, 0]);
    assert_eq!(ResponseType::Impulse.input_weights(1), vec![1]);
}

#[test]
fn test_step_weights() {
    assert_eq!(ResponseType::Step.input_weights(4), vec![1, 1, 1, 1]);
    assert_eq!(ResponseType::Step.input_weights(0), Vec::<usize>::new());
}

#[test]
fn test_ramp_weights() {
    assert_eq!(ResponseType::Ramp.input_weights(5), vec![0, 1, 2, 3, 4]);
    assert_eq!(ResponseType::Ramp.input_weights(0), Vec::<usize>::new());
}
