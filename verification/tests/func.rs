use nettrain::func::{CompletionFn, ErrorFn, MiniBatchSize};

#[test]
fn stop_after_epoch_stops_from_the_last_epoch_on() {
    let completion = CompletionFn::stop_after_epoch(5);
    for epoch in 0..4 {
        assert!(!completion.should_stop_training(epoch, Some(0), false));
        assert!(!completion.should_stop_training(epoch, None, false));
        assert!(!completion.should_stop_training(epoch, Some(u128::MAX), false));
    }
    for epoch in 4..10 {
        assert!(completion.should_stop_training(epoch, Some(0), false));
    }
    assert!(completion.should_stop_training(usize::MAX, Some(0), false));
    let at_once = CompletionFn::stop_after_epoch(1);
    assert!(at_once.should_stop_training(0, Some(0), false));
    let never_started = CompletionFn::stop_after_epoch(0);
    assert!(never_started.should_stop_training(0, Some(0), false));
}

#[test]
fn stop_after_duration_stops_once_the_time_is_up() {
    let completion = CompletionFn::stop_after_duration(15_000_000_000);
    assert!(!completion.should_stop_training(0, Some(0), false));
    assert!(!completion.should_stop_training(1_000_000, Some(14_999_999_999), false));
    assert!(completion.should_stop_training(0, Some(15_000_000_000), false));
    assert!(completion.should_stop_training(0, Some(15_000_000_001), false));
    // whatever the error is
    assert!(completion.should_stop_training(0, Some(15_000_000_000), true));
    // a clock that went backwards counts as the whole budget
    assert!(completion.should_stop_training(0, None, false));
}

#[test]
fn a_reached_target_stops_training() {
    assert!(CompletionFn::stop_after_epoch(100).should_stop_training(0, Some(0), true));
    assert!(CompletionFn::stop_after_duration(100).should_stop_training(0, Some(0), true));
}

#[test]
fn mini_batch_sizes() {
    let growth = |slope: f32, batch: usize| (slope * batch as f32) as u32;
    let full: MiniBatchSize<f32> = MiniBatchSize::Full;
    assert_eq!(full.get_mini_batch_size(3, growth), None);
    assert_eq!(MiniBatchSize::Constant(8).get_mini_batch_size(0, growth), Some(8));
    assert_eq!(MiniBatchSize::Constant(8).get_mini_batch_size(1000, growth), Some(8));
    assert_eq!(MiniBatchSize::Constant(0).get_mini_batch_size(0, growth), None);

    let linear = MiniBatchSize::Linear { initial: 2, slope: 1.5, max: 10 };
    assert_eq!(linear.get_mini_batch_size(0, growth), Some(2));
    assert_eq!(linear.get_mini_batch_size(1, growth), Some(3));
    assert_eq!(linear.get_mini_batch_size(4, growth), Some(8));
    assert_eq!(linear.get_mini_batch_size(5, growth), Some(9));
    assert_eq!(linear.get_mini_batch_size(6, growth), Some(10));
    assert_eq!(linear.get_mini_batch_size(1_000_000, growth), Some(10));

    let from_nothing = MiniBatchSize::Linear { initial: 0, slope: 1.0, max: 4 };
    assert_eq!(from_nothing.get_mini_batch_size(0, growth), None);
    assert_eq!(from_nothing.get_mini_batch_size(1, growth), Some(1));
    let capped_low = MiniBatchSize::Linear { initial: 7, slope: 1.0, max: 3 };
    assert_eq!(capped_low.get_mini_batch_size(0, growth), Some(3));
    let huge = MiniBatchSize::Linear { initial: u32::MAX, slope: 1.0, max: u32::MAX };
    assert_eq!(huge.get_mini_batch_size(1, |_, _| u32::MAX), Some(u32::MAX));
    let nothing = MiniBatchSize::Linear { initial: 5, slope: 1.0, max: 0 };
    assert_eq!(nothing.get_mini_batch_size(1, growth), None);
}

#[test]
fn the_derivative_of_the_squared_error_is_the_difference() {
    assert_eq!(ErrorFn::SquaredError.get_error_derivative(1.0f32, 0.25f32), -0.75);
    assert_eq!(ErrorFn::SquaredError.get_error_derivative(3i32, 10i32), 7);
}
