use nettrain::utils::stable_hash_seed;
use rand::distributions::StandardNormal;
use rand::{Rng, SeedableRng};
use rand_xorshift::XorShiftRng;

#[test]
fn test_from_seed() {
    let mut rng = XorShiftRng::from_seed(stable_hash_seed("a random string"));
    let weight_std_dev = 0.01f32;
    let bias_std_dev = 0.01f32;
    let first = rng.sample(StandardNormal) as f32 * weight_std_dev;
    assert!((first - 0.0052833073).abs() < 0.0001);
    let second = rng.sample(StandardNormal) as f32 * bias_std_dev;
    assert!((second - 0.0018487974).abs() < 0.0001);
    let third = rng.sample(StandardNormal) as f32 * bias_std_dev;
    assert!((third - 0.0068561565).abs() < 0.0001);
    let fourth = rng.sample(StandardNormal) as f32 * bias_std_dev;
    assert!((fourth - -0.005462957).abs() < 0.0001);
}
