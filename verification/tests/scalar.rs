use nettrain::buffer::RowBuffer;
use nettrain::layer::FullyConnectedNetLayer;
use nettrain::net::NetConfig;
use nettrain::scalar::Modular;

#[test]
fn modular_arithmetic_wraps_around() {
    assert_eq!(Modular(2) + Modular(3), Modular(5));
    assert_eq!(Modular(i64::MAX) + Modular(1), Modular(i64::MIN));
    assert_eq!(Modular(i64::MIN) - Modular(1), Modular(i64::MAX));
    assert_eq!(Modular(1 << 62) * Modular(4), Modular(0));
    assert_eq!(Modular(1 << 62) * Modular(2), Modular(i64::MIN));
    assert_eq!(-Modular(7), Modular(-7));
    assert_eq!(-Modular(i64::MIN), Modular(i64::MIN));
    assert_eq!(Modular(i64::MAX) + Modular(5) - Modular(5), Modular(i64::MAX));
}

#[test]
fn arenas_of_modular_numbers_add_and_subtract_exactly() {
    let mut a = RowBuffer::new_with_row_sizes(Modular(i64::MAX), &[2, 1]);
    let b = RowBuffer::new_with_row_sizes(Modular(10), &[3]);
    a.add(&b);
    assert_eq!(a.get_row(0), &[Modular(i64::MIN + 9), Modular(i64::MIN + 9)]);
    a.subtract(&b);
    assert_eq!(a.get_buffer(), &[Modular(i64::MAX); 3]);
    a.add_with_multiplier(&b, Modular(-1));
    assert_eq!(a.get_row(1), &[Modular(i64::MAX - 10)]);
}

#[test]
fn a_network_of_modular_numbers_is_exact() {
    let layer = FullyConnectedNetLayer::new(2, 1, ());
    let mut output = [Modular(0)];
    layer.forward_pass(
        &[Modular(3), Modular(i64::MAX), Modular(1)],
        &[Modular(2), Modular(2)],
        &mut output,
        &|_: (), sum: Modular| sum,
    );
    // 1 + 2 * 3 + 2 * (2^63 - 1) = 5 + 2^64
    assert_eq!(output, [Modular(5)]);

    let config = NetConfig::new_fully_connected(1, 1, &[2], 1i64);
    let mut net = config.create_net(Modular(0));
    net.get_weights_mut()
        .get_row_mut(0)
        .copy_from_slice(&[Modular(1), Modular(-1), Modular(0), Modular(0)]);
    net.get_weights_mut()
        .get_row_mut(1)
        .copy_from_slice(&[Modular(10), Modular(100), Modular(1000)]);
    let shift = |by: i64, sum: Modular| sum + Modular(by);
    // hidden: 7 + 1 and -7 + 1; output: 1000 + 80 - 600 + 1
    assert_eq!(net.predict(&[Modular(7)], Modular(0), &shift), vec![Modular(481)]);
}
