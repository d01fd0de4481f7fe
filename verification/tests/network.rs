use nettrain::buffer::WeightBuffer;
use nettrain::layer::{FullyConnectedNetLayer, NetLayer, NetLayerConfig};
use nettrain::net::NetConfig;
use nettrain::utils::stable_hash_seed;
use std::cell::Cell;

#[derive(Clone, Copy, Debug, PartialEq)]
struct Sigmoid {
    steepness: f32,
    scale: f32,
    y_offset: f32,
}

fn standard_logistic_sigmoid() -> Sigmoid {
    Sigmoid { steepness: 1.0, scale: 1.0, y_offset: 0.0 }
}

fn activate(a: Sigmoid, n: f32) -> f32 {
    a.scale / (1.0 + f32::exp(-a.steepness * n)) + a.y_offset
}

fn seeded(seed: &str) -> impl Fn() -> f32 {
    let bytes = stable_hash_seed(seed);
    let mut start = [0u8; 8];
    start.copy_from_slice(&bytes[..8]);
    let state = Cell::new(u64::from_le_bytes(start) | 1);
    move || {
        let mut x = state.get();
        x ^= x << 13;
        x ^= x >> 7;
        x ^= x << 17;
        state.set(x);
        ((x >> 40) as f32 / (1u64 << 24) as f32 - 0.5) * 0.02
    }
}

#[test]
fn test_weight_buffer() {
    let config = NetConfig::new_fully_connected(4, 2, &[3], standard_logistic_sigmoid());

    let mut net = config.create_net(0.0f32);

    let mut buf = net.new_zeroed_weight_buffer(0.0);
    let mut buf2 = net.new_zeroed_weight_buffer(0.0);

    assert_eq!(buf.num_rows(), 2);
    assert_eq!(buf.get_row(0).len(), 4 * 3 + 3);
    assert_eq!(buf.get_row(1).len(), 3 * 2 + 2);

    for (i, element) in buf.get_buffer_mut().iter_mut().enumerate() {
        *element = i as f32;
    }

    buf.copy_into(net.get_weights_mut());
    net.get_weights().copy_into(&mut buf2);

    for (i, element) in buf2.get_buffer().iter().enumerate() {
        assert_eq!(i as f32, *element);
    }
}

#[test]
fn test_config_round_trip_fully_connected() {
    let config = NetConfig::new_fully_connected(4, 2, &[5, 4, 3], standard_logistic_sigmoid());

    let net = config.create_net(0.0f32);

    let config2 = net.get_config();

    let net2 = config2.create_net(0.0f32);

    let config3 = net2.get_config();

    assert_eq!(config3, config);
}

#[test]
fn a_configuration_lists_hidden_layers_then_the_output_layer() {
    let config = NetConfig::new_fully_connected(7, 2, &[5, 3], 'a');
    assert_eq!(config.input_size(), 7);
    assert_eq!(
        config.layers(),
        &[
            NetLayerConfig::FullyConnected(5, 'a'),
            NetLayerConfig::FullyConnected(3, 'a'),
            NetLayerConfig::FullyConnected(2, 'a'),
        ]
    );
    let net = config.create_net(0i32);
    assert_eq!(net.num_layers(), 3);
    assert_eq!(net.input_size(), 7);
    assert_eq!(net.output_size(), 2);
    assert_eq!(net.first_layer().input_size(), 7);
    assert_eq!(net.layer(1).input_size(), 5);
    assert_eq!(net.layer(1).output_size(), 3);
    assert_eq!(net.last_layer().input_size(), 3);
    assert_eq!(net.last_layer().output_size(), 2);
    assert_eq!(net.layers().len(), 3);
    assert_eq!(net.get_weights().num_rows(), 3);
    assert_eq!(net.get_weights().get_row(0).len(), 7 * 5 + 5);
    assert_eq!(net.get_weights().get_row(1).len(), 5 * 3 + 3);
    assert_eq!(net.get_weights().get_row(2).len(), 3 * 2 + 2);
    assert!(net.get_weights().get_buffer().iter().all(|w| *w == 0));
}

#[test]
fn a_seeded_network_predicts_within_the_range_of_its_activation() {
    let config = NetConfig::new_fully_connected(4, 2, &[3], standard_logistic_sigmoid());
    let mut net = config.create_net(0.0f32);
    let next = seeded("a random string");
    net.initialize_weights(&next, &next);
    assert_eq!(net.get_weights().get_row(0).len(), 15);
    assert_eq!(net.get_weights().get_row(1).len(), 8);
    assert!(net.get_weights().get_buffer().iter().all(|w| w.abs() <= 0.01));
    assert!(net.get_weights().get_buffer().iter().any(|w| *w != 0.0));

    let output = net.predict(&[0.0, 0.0, 0.0, 0.0], 0.0, &activate);
    assert_eq!(output.len(), 2);
    for value in &output {
        assert!(0.0 < *value && *value < 1.0);
    }

    let mut twin = config.create_net(0.0f32);
    let again = seeded("a random string");
    twin.initialize_weights(&again, &again);
    assert_eq!(twin.get_weights().get_buffer(), net.get_weights().get_buffer());
}

#[test]
fn predictions_repeat_for_the_same_weights_and_input() {
    let config = NetConfig::new_fully_connected(3, 2, &[4, 5, 3], standard_logistic_sigmoid());
    let mut net = config.create_net(0.0f32);
    let next = seeded("repeat");
    net.initialize_weights(&next, &next);
    let weights = net.get_weights().clone();
    let input = [0.25, -1.0, 3.5];
    let first = net.predict(&input, 0.0, &activate);
    let second = net.predict(&input, 0.0, &activate);
    let _other = net.predict(&[1.0, 1.0, 1.0], 0.0, &activate);
    let third = net.predict(&input, 0.0, &activate);
    assert_eq!(first.len(), 2);
    assert_eq!(first, second);
    assert_eq!(first, third);
    assert_eq!(net.get_weights().get_buffer(), weights.get_buffer());
    let mut copy = net.clone();
    assert_eq!(copy.predict(&input, 0.0, &activate), first);
}

#[test]
fn a_prediction_chains_the_layers() {
    // 2 inputs, one hidden layer of 2 nodes, 1 output; the activation adds
    // the layer's tag to the weighted input
    let config = NetConfig::new_fully_connected(2, 1, &[2], 100i64);
    let mut net = config.create_net(0i64);
    let first_layer = [1, 2, 3, 4, 10, 20];
    let second_layer = [5, -1, 7];
    net.get_weights_mut().get_row_mut(0).copy_from_slice(&first_layer);
    net.get_weights_mut().get_row_mut(1).copy_from_slice(&second_layer);
    let output = net.predict(&[2, 3], 0, &|tag: i64, sum: i64| sum + tag);
    // hidden 0: 10 + 2*1 + 3*3 + 100 = 121; hidden 1: 20 + 2*2 + 3*4 + 100 = 136
    // output: 7 + 121*5 + 136*(-1) + 100 = 576
    assert_eq!(output, vec![576]);
}

#[test]
fn a_deep_network_passes_through_layers_of_different_sizes() {
    let config = NetConfig::new_fully_connected(1, 1, &[3, 2, 4], 0i64);
    let mut net = config.create_net(0i64);
    for row in 0..net.num_layers() {
        for weight in net.get_weights_mut().get_row_mut(row).iter_mut() {
            *weight = 1;
        }
    }
    // every node adds up its inputs and 1: 2 -> 3 x 3 -> 2 x 10 -> 4 x 21 -> 85
    let output = net.predict(&[2], 0, &|_tag: i64, sum: i64| sum);
    assert_eq!(output, vec![85]);
}

#[test]
fn stored_weights_load_back_to_the_same_network() {
    let config = NetConfig::new_fully_connected(4, 2, &[3], standard_logistic_sigmoid());
    let mut net = config.create_net(0.0f32);
    let next = seeded("round trip");
    net.initialize_weights(&next, &next);
    let input = [1.0, 0.0, 1.0, 1.0];
    let before = net.predict(&input, 0.0, &activate);
    let weights_before = net.get_weights().clone();

    let mut stored = WeightBuffer::new_for_net(&net, 0.0);
    stored.extract_from_net(&net);
    net.get_weights_mut().reset_to(0.5);
    assert_ne!(net.predict(&input, 0.0, &activate), before);
    stored.load_into_net(&mut net);

    assert_eq!(net.get_weights().get_buffer(), weights_before.get_buffer());
    let after = net.predict(&input, 0.0, &activate);
    assert_eq!(before.len(), after.len());
    for (b, a) in before.iter().zip(after.iter()) {
        assert_eq!(b.to_bits(), a.to_bits());
    }
}

#[test]
fn weight_buffers_add_to_a_network() {
    let config = NetConfig::new_fully_connected(1, 1, &[1], 0u8);
    let mut net = config.create_net(1i32);
    let mut deltas = WeightBuffer::new_for_net(&net, 0);
    for (i, delta) in deltas.get_buffer_mut().get_buffer_mut().iter_mut().enumerate() {
        *delta = 10 * i as i32;
    }
    deltas.add_to_net(&mut net);
    assert_eq!(net.get_weights().get_buffer(), &[1, 11, 21, 31]);
    let mut other = WeightBuffer::new_for_net(&net, 2);
    other.add(&deltas);
    other.add_with_multiplier(&deltas, 3);
    other.subtract(&deltas);
    let mut copy = WeightBuffer::new_for_net(&net, 0);
    other.copy_into(&mut copy);
    assert_eq!(copy.get_buffer_mut().get_buffer(), &[2, 32, 62, 92]);
}

#[test]
fn a_layer_knows_its_shape() {
    let layer = FullyConnectedNetLayer::new(4, 3, 'x');
    assert_eq!(layer.input_size(), 4);
    assert_eq!(layer.output_size(), 3);
    assert_eq!(layer.weight_buffer_size(), 4 * 3 + 3);
    assert_eq!(layer.activation(), 'x');
    assert_eq!(layer.get_config(), NetLayerConfig::FullyConnected(3, 'x'));
    let made = NetLayerConfig::FullyConnected(3, 'x').create_layer(4);
    assert_eq!(made.input_size(), 4);
    assert_eq!(made.output_size(), 3);
    assert_eq!(made.weight_buffer_size(), 15);
    assert_eq!(made.get_config(), NetLayerConfig::FullyConnected(3, 'x'));
    assert_eq!(NetLayerConfig::FullyConnected(3, 'x').output_size(), 3);
}

#[test]
fn a_forward_pass_sums_weighted_inputs_and_bias() {
    let layer = FullyConnectedNetLayer::new(3, 2, 1000i64);
    // weights[input * 2 + node], then the biases
    let weights = [1, 2, 3, 4, 5, 6, 70, 80];
    let mut output = [0i64; 2];
    layer.forward_pass(&weights, &[1, 10, 100], &mut output, &|tag: i64, sum: i64| tag + sum);
    assert_eq!(output, [1000 + 70 + 1 + 30 + 500, 1000 + 80 + 2 + 40 + 600]);
}

#[test]
fn a_backward_pass_accumulates_deltas_and_input_errors() {
    let layer = NetLayer::FullyConnected(FullyConnectedNetLayer::new(2, 2, 0i64));
    let weights = [1, 2, 3, 4, 0, 0];
    let output_errors = [5, 7];
    let inputs = [10, 20];
    let outputs = [3, 4];
    let mut input_errors = [99i64, 99];
    let mut deltas = [1i64, 1, 1, 1, 1, 1];
    // the derivative doubles the output: gradients are 6 * 5 = 30 and 8 * 7 = 56
    layer.backprop(
        &weights,
        &output_errors,
        &inputs,
        &outputs,
        2,
        0,
        &mut input_errors,
        &mut deltas,
        &|_tag: i64, output: i64| 2 * output,
    );
    // input error i = sum over nodes of weight[i, node] * gradient[node]
    assert_eq!(input_errors, [1 * 30 + 2 * 56, 3 * 30 + 4 * 56]);
    // weight delta [i, node] += -rate * gradient[node] * input[i]; bias -= rate * gradient
    assert_eq!(
        deltas,
        [
            1 - 2 * 30 * 10,
            1 - 2 * 56 * 10,
            1 - 2 * 30 * 20,
            1 - 2 * 56 * 20,
            1 - 2 * 30,
            1 - 2 * 56
        ]
    );
    // a second sample adds to the same deltas
    layer.backprop(
        &weights,
        &output_errors,
        &inputs,
        &outputs,
        2,
        0,
        &mut input_errors,
        &mut deltas,
        &|_tag: i64, output: i64| 2 * output,
    );
    assert_eq!(input_errors, [142, 314]);
    assert_eq!(deltas[0], 1 - 2 * (2 * 30 * 10));
    assert_eq!(deltas[5], 1 - 2 * (2 * 56));
}

#[test]
fn initialization_fills_weights_then_biases() {
    let layer = FullyConnectedNetLayer::new(2, 3, ());
    let mut weights = [0i32; 9];
    layer.initialize_weights(&mut weights, &|| 7, &|| -1);
    assert_eq!(weights, [7, 7, 7, 7, 7, 7, -1, -1, -1]);
    let counter = Cell::new(0);
    let next = || {
        counter.set(counter.get() + 1);
        counter.get()
    };
    NetLayer::FullyConnected(layer).initialize_weights(&mut weights, &next, &next);
    assert_eq!(weights, [1, 2, 3, 4, 5, 6, 7, 8, 9]);
}
