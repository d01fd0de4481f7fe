use nettrain::buffer::RowBuffer;
use nettrain::data::PreparedDataSet;
use nettrain::func::{CompletionFn, ErrorFn, MiniBatchSize};
use nettrain::net::{Net, NetConfig};
use nettrain::train::backprop::multithreaded::{
    advance_batch_count, judge_shared_weights, train_round, weight_difference, SharedThreadState,
};
use nettrain::train::backprop::singlethreaded::{
    train_backprop_single_threaded, train_scheduled_pass,
};
use nettrain::train::backprop::{cap_worker_threads, BackpropPlan};
use nettrain::train::trainer::{keep_best, next_action, BestSoFar, TrainerAction};
use nettrain::train::{
    BackpropMultithreadingOptions, BackpropOptions, NetTrainerMode, NetTrainingContext,
};
use std::cell::Cell;

#[derive(Clone, Copy, Debug, PartialEq)]
struct Sigmoid {
    steepness: f32,
    scale: f32,
    y_offset: f32,
}

fn standard_logistic_sigmoid() -> Sigmoid {
    Sigmoid { steepness: 1.0, scale: 1.0, y_offset: 0.0 }
}

fn activate(a: Sigmoid, n: f32) -> f32 {
    a.scale / (1.0 + f32::exp(-a.steepness * n)) + a.y_offset
}

fn slope(a: Sigmoid, n: f32) -> f32 {
    let z = f32::exp(-a.steepness * n);
    a.scale * a.steepness * z / ((z + 1.0) * (z + 1.0))
}

fn squared_error(expected: f32, actual: f32) -> f32 {
    0.5 * (expected - actual) * (expected - actual)
}

fn error_slope(expected: f32, actual: f32) -> f32 {
    ErrorFn::SquaredError.get_error_derivative(expected, actual)
}

fn lines() -> PreparedDataSet<f32> {
    let rows: [[f32; 6]; 11] = [
        [1., 1., 0., 0., 1., 0.],
        [1., 0., 1., 0., 0., 1.],
        [0., 0., 0., 0., 0., 0.],
        [1., 1., 0., 1., 1., 1.],
        [0., 1., 0., 1., 0., 1.],
        [0., 1., 0., 0., 0., 0.],
        [1., 1., 1., 1., 1., 1.],
        [1., 0., 0., 0., 0., 0.],
        [0., 1., 0., 1., 0., 1.],
        [1., 0., 1., 0., 0., 1.],
        [0., 1., 1., 0., 0., 0.],
    ];
    let data: Vec<f32> = rows.iter().flat_map(|row| row.iter().copied()).collect();
    PreparedDataSet::from_vec(data, 4, 2, 11)
}

fn seeded_net(seed: u64) -> Net<f32, Sigmoid> {
    let config = NetConfig::new_fully_connected(4, 2, &[3], standard_logistic_sigmoid());
    let mut net = config.create_net(0.0f32);
    let state = Cell::new(seed | 1);
    let next = || {
        let mut x = state.get();
        x ^= x << 13;
        x ^= x >> 7;
        x ^= x << 17;
        state.set(x);
        ((x >> 40) as f32 / (1u64 << 24) as f32 - 0.5) * 0.02
    };
    net.initialize_weights(&next, &next);
    net
}

fn mean(errors: &[f32]) -> f64 {
    errors.iter().map(|e| *e as f64).sum::<f64>() / errors.len() as f64
}

#[test]
fn a_training_context_fits_its_network() {
    let net = seeded_net(1);
    let mut context = net.get_training_context(0.0);
    let errors = context.compute_error_for_batch(
        &net,
        &lines(),
        0.0,
        &activate,
        &squared_error,
        &error_slope,
    );
    assert_eq!(errors.len(), 11);
    // a network of small weights answers about one half for every output
    assert!(errors[2] > 0.2 && errors[2] < 0.3);
    assert!(errors[6] > 0.2 && errors[6] < 0.3);
    let other = NetTrainingContext::new(&net, 0.0);
    let _ = other;
}

#[test]
fn the_error_of_a_sample_is_the_sum_over_the_outputs() {
    let config = NetConfig::new_fully_connected(2, 2, &[1], 0i64);
    let mut net = config.create_net(0i64);
    net.get_weights_mut().get_row_mut(0).copy_from_slice(&[1, 2, 3]);
    net.get_weights_mut().get_row_mut(1).copy_from_slice(&[2, -1, 0, 5]);
    let mut context = net.get_training_context(0);
    // hidden: 3 + 4*1 + 5*2 = 17; outputs: 34 and -12
    let sum = context.forward_pass_and_compute_error(
        &net,
        &[4, 5],
        &[30, -10],
        0,
        &|_tag: i64, sum: i64| sum,
        &|expected: i64, actual: i64| (expected - actual) * (expected - actual),
        &|expected: i64, actual: i64| actual - expected,
    );
    assert_eq!(sum, 16 + 4);
    let data = PreparedDataSet::from_vec(vec![4, 5, 30, -10, 0, 0, 0, 5], 2, 2, 2);
    let errors = context.compute_error_for_batch(
        &net,
        &data,
        0,
        &|_tag: i64, sum: i64| sum,
        &|expected: i64, actual: i64| (expected - actual) * (expected - actual),
        &|expected: i64, actual: i64| actual - expected,
    );
    // second row: hidden 3; outputs 6 and 2
    assert_eq!(errors, vec![20, 36 + 9]);
}

#[test]
fn one_sample_changes_the_weights_by_its_deltas() {
    // one input, one hidden node, one output; every function is linear
    let config = NetConfig::new_fully_connected(1, 1, &[1], 0i64);
    let mut net = config.create_net(0i64);
    net.get_weights_mut().get_row_mut(0).copy_from_slice(&[2, 1]);
    net.get_weights_mut().get_row_mut(1).copy_from_slice(&[3, 0]);
    let mut context = net.get_training_context(0);
    let data = PreparedDataSet::from_vec(vec![5, 30], 1, 1, 1);
    context.train_backprop_single_batch(
        &mut net,
        &data,
        1,
        0,
        &|_tag: i64, sum: i64| sum,
        &|_tag: i64, _output: i64| 1,
        &|expected: i64, actual: i64| (expected - actual) * (expected - actual),
        &|expected: i64, actual: i64| actual - expected,
        None,
    );
    // forward: hidden = 1 + 5*2 = 11, output = 0 + 11*3 = 33, error gradient 3
    // output layer: weight -= 3 * 11, bias -= 3; hidden error = 3 * 3 = 9
    // hidden layer: weight -= 9 * 5, bias -= 9
    assert_eq!(net.get_weights().get_row(1), &[3 - 33, 0 - 3]);
    assert_eq!(net.get_weights().get_row(0), &[2 - 45, 1 - 9]);
}

#[test]
fn the_samples_of_a_mini_batch_see_the_same_weights() {
    let config = NetConfig::new_fully_connected(1, 1, &[1], 0i64);
    let data = PreparedDataSet::from_vec(vec![5, 30, 5, 30, 5, 30], 1, 1, 3);
    let identity = |_tag: i64, sum: i64| sum;
    let one = |_tag: i64, _output: i64| 1;
    let error = |expected: i64, actual: i64| (expected - actual) * (expected - actual);
    let gradient = |expected: i64, actual: i64| actual - expected;

    let mut together = config.create_net(0i64);
    together.get_weights_mut().get_row_mut(0).copy_from_slice(&[2, 1]);
    together.get_weights_mut().get_row_mut(1).copy_from_slice(&[3, 0]);
    let mut context = together.get_training_context(0);
    context.train_backprop_single_batch(
        &mut together, &data, 1, 0, &identity, &one, &error, &gradient, None,
    );
    // three equal samples against frozen weights: three times the deltas of one
    assert_eq!(together.get_weights().get_row(1), &[3 - 3 * 33, 0 - 3 * 3]);
    assert_eq!(together.get_weights().get_row(0), &[2 - 3 * 45, 1 - 3 * 9]);

    let mut in_twos = config.create_net(0i64);
    in_twos.get_weights_mut().get_row_mut(0).copy_from_slice(&[2, 1]);
    in_twos.get_weights_mut().get_row_mut(1).copy_from_slice(&[3, 0]);
    let mut context = in_twos.get_training_context(0);
    let mut rows = data.iter();
    let count = context.train_mini_batch(
        &mut in_twos, &data, &mut rows, Some(2), 1, 0, &identity, &one, &error, &gradient,
    );
    assert_eq!(count, 2);
    assert!(rows.has_next());
    assert_eq!(in_twos.get_weights().get_row(1), &[3 - 2 * 33, 0 - 2 * 3]);
    assert_eq!(in_twos.get_weights().get_row(0), &[2 - 2 * 45, 1 - 2 * 9]);
    let count = context.train_mini_batch(
        &mut in_twos, &data, &mut rows, Some(2), 1, 0, &identity, &one, &error, &gradient,
    );
    assert_eq!(count, 1);
    assert!(!rows.has_next());
    // the third sample saw the weights that the first two had changed
    assert_ne!(in_twos.get_weights().get_buffer(), together.get_weights().get_buffer());
}

#[test]
fn training_lowers_the_error_on_the_lines() {
    for rate in [0.5f32, 1.0, 3.0, 10.0] {
        let mut net = seeded_net(42);
        let data = lines();
        let mut context = net.get_training_context(0.0);
        let before = mean(&context.compute_error_for_batch(
            &net, &data, 0.0, &activate, &squared_error, &error_slope,
        ));
        let (errors, passes) = train_backprop_single_threaded(
            &mut net,
            &data,
            CompletionFn::stop_after_epoch(301),
            0.0,
            &|_batch| None,
            &|_batch| rate / 11.0,
            &activate,
            &slope,
            &squared_error,
            &error_slope,
            &|| Some(0),
            &|_errors: &Vec<f32>| false,
        );
        assert_eq!(passes, 300);
        assert_eq!(errors.len(), 11);
        assert!(mean(&errors) < before);
        assert!(mean(&errors) < 0.23);
    }
}

#[test]
fn training_stops_when_the_target_is_reached_or_the_time_is_up() {
    let data = lines();
    let mut net = seeded_net(7);
    let (_errors, passes) = train_backprop_single_threaded(
        &mut net,
        &data,
        CompletionFn::stop_after_epoch(1000),
        0.0,
        &|_batch| Some(4),
        &|_batch| 0.5,
        &activate,
        &slope,
        &squared_error,
        &error_slope,
        &|| Some(0),
        &|errors: &Vec<f32>| mean(errors) < 0.2,
    );
    assert!(passes >= 1 && passes < 999);

    let calls = Cell::new(0u128);
    let clock = || {
        calls.set(calls.get() + 1);
        Some(calls.get() * 10)
    };
    let mut net = seeded_net(7);
    let (_errors, passes) = train_backprop_single_threaded(
        &mut net,
        &data,
        CompletionFn::stop_after_duration(35),
        0.0,
        &|_batch| None,
        &|_batch| 0.5,
        &activate,
        &slope,
        &squared_error,
        &error_slope,
        &clock,
        &|_errors: &Vec<f32>| false,
    );
    assert_eq!(passes, 4);
}

#[test]
fn the_schedules_are_asked_for_every_pass() {
    let data = lines();
    let mut net = seeded_net(3);
    let asked_sizes = Cell::new(0usize);
    let asked_rates = Cell::new(0usize);
    let (_errors, passes) = train_backprop_single_threaded(
        &mut net,
        &data,
        CompletionFn::stop_after_epoch(6),
        0.0,
        &|batch| {
            asked_sizes.set(asked_sizes.get() + batch);
            MiniBatchSize::Linear { initial: 1, slope: 2.0f32, max: 6 }
                .get_mini_batch_size(batch, |slope, batch| (slope * batch as f32) as u32)
        },
        &|batch| {
            asked_rates.set(asked_rates.get() + batch);
            0.1
        },
        &activate,
        &slope,
        &squared_error,
        &error_slope,
        &|| None,
        &|_errors: &Vec<f32>| false,
    );
    assert_eq!(passes, 5);
    assert_eq!(asked_sizes.get(), 0 + 1 + 2 + 3 + 4);
    assert_eq!(asked_rates.get(), 0 + 1 + 2 + 3 + 4);
}

#[test]
fn one_worker_on_one_partition_trains_like_a_single_thread() {
    let data = lines();
    let rate = |_batch: usize| 0.3f32;
    let size = |_batch: usize| Some(3u32);

    let mut alone = seeded_net(11);
    let (_errors, passes) = train_backprop_single_threaded(
        &mut alone,
        &data,
        CompletionFn::stop_after_epoch(21),
        0.0,
        &size,
        &rate,
        &activate,
        &slope,
        &squared_error,
        &error_slope,
        &|| Some(0),
        &|_errors: &Vec<f32>| false,
    );
    assert_eq!(passes, 20);

    let net = seeded_net(11);
    let mut shared = SharedThreadState::new(net.get_weights().clone(), 1, 1);
    let partitions = data.partition(1);
    let mut local = net.clone();
    let mut start_weights = local.new_zeroed_weight_buffer(0.0);
    let mut weight_diffs = local.new_zeroed_weight_buffer(0.0);
    let mut context = local.get_training_context(0.0);
    let mut partition_index = 0;
    let mut batch_count = 0;
    for round in 0..20 {
        let batch_num = shared.begin_round(&mut start_weights, &mut local, 1, 1);
        assert_eq!(batch_num, round);
        train_round(
            &mut context,
            &mut local,
            &partitions[partition_index],
            batch_num,
            1,
            0.0,
            &size,
            &rate,
            &activate,
            &slope,
            &squared_error,
            &error_slope,
        );
        weight_difference(&local, &start_weights, &mut weight_diffs);
        let (next, told) = shared.complete_round(&weight_diffs, 1.0 / 1.0);
        assert_eq!(next, 0);
        assert!(told);
        partition_index = next;
        batch_count = advance_batch_count(batch_count, 1, 1);
    }
    assert_eq!(batch_count, 20);
    assert_eq!(shared.worker_done_counter(), 20);
    let trained = shared.get_weights().get_buffer();
    let expected = alone.get_weights().get_buffer();
    assert_eq!(trained.len(), expected.len());
    for (a, b) in trained.iter().zip(expected.iter()) {
        assert!((a - b).abs() < 1e-4);
    }
}

#[test]
fn rounds_hand_out_partitions_in_turn() {
    let weights = RowBuffer::new_with_row_sizes(0i64, &[2]);
    let mut diffs = RowBuffer::new_with_row_sizes(0i64, &[2]);
    diffs.get_buffer_mut().copy_from_slice(&[3, -6]);
    // two workers over three partitions: worker 0 and 1 start on partition 0 and 1
    let mut shared = SharedThreadState::new(weights, 2, 3);
    assert_eq!(shared.worker_done_counter(), 0);
    let next: Vec<(usize, bool)> = (0..7).map(|_| shared.complete_round(&diffs, 2)).collect();
    assert_eq!(
        next,
        vec![
            (2, false),
            (0, false),
            (1, true),
            (2, false),
            (0, false),
            (1, true),
            (2, false)
        ]
    );
    assert_eq!(shared.worker_done_counter(), 7);
    assert_eq!(shared.get_weights().get_buffer(), &[7 * 6, -7 * 12]);

    // more workers than partitions start in the middle
    let mut crowded = SharedThreadState::new(RowBuffer::new_with_row_sizes(0i64, &[2]), 5, 3);
    assert_eq!(crowded.complete_round(&diffs, 1).0, 2);
    assert_eq!(crowded.complete_round(&diffs, 1).0, 0);
}

#[test]
fn a_round_starts_from_the_shared_weights() {
    let mut net = seeded_net(5);
    let mut shared_weights = net.new_zeroed_weight_buffer(0.0);
    for (i, w) in shared_weights.get_buffer_mut().iter_mut().enumerate() {
        *w = i as f32 / 100.0;
    }
    let mut shared = SharedThreadState::new(shared_weights.clone(), 2, 4);
    let mut start_weights = net.new_zeroed_weight_buffer(0.0);
    assert_eq!(shared.begin_round(&mut start_weights, &mut net, 3, 2), 0);
    assert_eq!(start_weights.get_buffer(), shared_weights.get_buffer());
    assert_eq!(net.get_weights().get_buffer(), shared_weights.get_buffer());
    let zero = net.new_zeroed_weight_buffer(0.0);
    for _ in 0..5 {
        shared.complete_round(&zero, 0.25);
    }
    // five rounds of three passes, shared out among two workers
    assert_eq!(shared.begin_round(&mut start_weights, &mut net, 3, 2), 7);

    let mut diffs = net.new_zeroed_weight_buffer(0.0);
    net.get_weights_mut().get_buffer_mut()[4] += 0.5;
    weight_difference(&net, &start_weights, &mut diffs);
    assert_eq!(diffs.get_buffer()[4], 0.5);
    assert!(diffs.get_buffer().iter().enumerate().all(|(i, d)| i == 4 || *d == 0.0));
}

#[test]
fn the_coordinator_judges_the_shared_weights() {
    let data = lines();
    let trained = {
        let mut net = seeded_net(42);
        train_backprop_single_threaded(
            &mut net,
            &data,
            CompletionFn::stop_after_epoch(201),
            0.0,
            &|_batch| None,
            &|_batch| 0.2,
            &activate,
            &slope,
            &squared_error,
            &error_slope,
            &|| Some(0),
            &|_errors: &Vec<f32>| false,
        );
        net
    };
    let mut net = seeded_net(1);
    let mut context = net.get_training_context(0.0);
    let (seen, stop) = judge_shared_weights(
        trained.get_weights(),
        &mut context,
        &mut net,
        &data,
        advance_batch_count(4, 2, 3),
        CompletionFn::stop_after_epoch(12),
        0.0,
        &activate,
        &squared_error,
        &error_slope,
        &|| Some(77),
        &|errors: &Vec<f32>| mean(errors) < 0.0,
    );
    assert_eq!(net.get_weights().get_buffer(), trained.get_weights().get_buffer());
    assert_eq!(seen.errors.len(), 11);
    assert!(mean(&seen.errors) < 0.2);
    assert_eq!(seen.elapsed, Some(77));
    assert!(!seen.target_reached);
    // ten passes are not yet the last of a budget of twelve
    assert!(!stop);
    let (_seen, stop) = judge_shared_weights(
        trained.get_weights(),
        &mut context,
        &mut net,
        &data,
        advance_batch_count(5, 2, 3),
        CompletionFn::stop_after_epoch(12),
        0.0,
        &activate,
        &squared_error,
        &error_slope,
        &|| Some(77),
        &|errors: &Vec<f32>| mean(errors) < 0.0,
    );
    assert!(stop);
}

#[test]
fn a_scheduled_pass_uses_the_rate_of_its_batch() {
    let data = lines();
    let mut slow = seeded_net(9);
    let mut fast = seeded_net(9);
    let start = slow.get_weights().clone();
    let rate = |batch: usize| if batch == 0 { 0.001f32 } else { 1.0 };
    let mut context = slow.get_training_context(0.0);
    train_scheduled_pass(
        &mut context, &mut slow, &data, 0, 0.0, &|_| None, &rate, &activate, &slope,
        &squared_error, &error_slope,
    );
    let mut context = fast.get_training_context(0.0);
    train_scheduled_pass(
        &mut context, &mut fast, &data, 1, 0.0, &|_| None, &rate, &activate, &slope,
        &squared_error, &error_slope,
    );
    let moved = |net: &Net<f32, Sigmoid>| -> f32 {
        net.get_weights()
            .get_buffer()
            .iter()
            .zip(start.get_buffer())
            .map(|(a, b)| (a - b).abs())
            .sum()
    };
    assert!(moved(&slow) > 0.0);
    assert!(moved(&fast) > 100.0 * moved(&slow));
}

#[test]
fn there_are_never_more_workers_than_partitions() {
    assert_eq!(cap_worker_threads(4, 8), 4);
    assert_eq!(cap_worker_threads(8, 8), 8);
    assert_eq!(cap_worker_threads(9, 8), 8);
    assert_eq!(cap_worker_threads(0, 8), 0);
    assert_eq!(cap_worker_threads(3, 0), 0);

    let asked =
        BackpropMultithreadingOptions { worker_threads: Some(6), partitions: 4, batches_per_sync: 2 };
    assert_eq!(asked.effective_worker_threads(), 4);
    let fewer =
        BackpropMultithreadingOptions { worker_threads: Some(3), partitions: 4, batches_per_sync: 2 };
    assert_eq!(fewer.effective_worker_threads(), 3);
    let by_machine =
        BackpropMultithreadingOptions { worker_threads: None, partitions: 2, batches_per_sync: 2 };
    assert!(by_machine.effective_worker_threads() <= 2);
    let one =
        BackpropMultithreadingOptions { worker_threads: None, partitions: 1, batches_per_sync: 2 };
    assert!(one.effective_worker_threads() <= 1);
}

#[test]
fn the_options_choose_the_trainer() {
    let mut options = BackpropOptions {
        completion_fn: CompletionFn::stop_after_duration(15_000_000_000),
        mini_batch_size_fn: MiniBatchSize::<f32>::Full,
        learning_rate_fn: 0.5f32,
        error_fn: ErrorFn::SquaredError,
        multi_threading: None,
    };
    assert_eq!(options.plan(), BackpropPlan::SingleThreaded);
    options.multi_threading = Some(BackpropMultithreadingOptions {
        worker_threads: Some(16),
        partitions: 5,
        batches_per_sync: 3,
    });
    assert_eq!(
        options.plan(),
        BackpropPlan::MultiThreaded { num_workers: 5, num_partitions: 5, batches_per_sync: 3 }
    );
    let copy = options.clone();
    assert_eq!(copy.plan(), options.plan());
}

#[test]
fn the_driving_loop_stops_submits_or_waits() {
    let completion = CompletionFn::stop_after_epoch(1);
    let found = Some(BestSoFar { elapsed: Some(5), target_reached: false });
    assert_eq!(next_action(&completion, 0, found, true), TrainerAction::Stop);
    assert_eq!(next_action(&completion, 0, found, false), TrainerAction::Stop);
    // without a result there is nothing to stop with
    assert_eq!(next_action(&completion, 0, None, true), TrainerAction::Submit);
    assert_eq!(next_action(&completion, 0, None, false), TrainerAction::Wait);

    let patient = CompletionFn::stop_after_duration(1_000);
    let early = Some(BestSoFar { elapsed: Some(999), target_reached: false });
    assert_eq!(next_action(&patient, 0, early, true), TrainerAction::Submit);
    assert_eq!(next_action(&patient, 0, early, false), TrainerAction::Wait);
    let late = Some(BestSoFar { elapsed: Some(1_000), target_reached: false });
    assert_eq!(next_action(&patient, 0, late, true), TrainerAction::Stop);
    let good = Some(BestSoFar { elapsed: Some(1), target_reached: true });
    assert_eq!(next_action(&patient, 0, good, false), TrainerAction::Stop);
}

#[test]
fn the_first_of_two_equal_results_stays_the_best() {
    let lower = |new: &(f64, &str), best: &(f64, &str)| new.0 < best.0;
    assert_eq!(keep_best(None, (0.5, "first"), &lower), (0.5, "first"));
    assert_eq!(keep_best(Some((0.5, "first")), (0.4, "second"), &lower), (0.4, "second"));
    assert_eq!(keep_best(Some((0.5, "first")), (0.5, "second"), &lower), (0.5, "first"));
    assert_eq!(keep_best(Some((0.5, "first")), (0.6, "second"), &lower), (0.5, "first"));
    assert_eq!(keep_best(Some((0.5, "first")), (f64::NAN, "second"), &lower), (0.5, "first"));
}

#[test]
fn trainer_modes() {
    let mode = NetTrainerMode::Evolutionary { trials_per_generation: 4 };
    let copy = mode;
    assert!(matches!(copy, NetTrainerMode::Evolutionary { trials_per_generation: 4 }));
    assert!(matches!(NetTrainerMode::Standard, NetTrainerMode::Standard));
}
