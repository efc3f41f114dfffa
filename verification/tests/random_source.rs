//! The random number handle and the draws built on it.

use path_tracer::fixed::ONE;
use path_tracer::utils::{random_double, random_double_range, Rng};

#[test]
fn unit_draws_stay_in_the_half_open_unit_range() {
    let mut rng = Rng::from_seed(123);
    for _ in 0..200 {
        let x = random_double(&mut rng);
        assert!(0 <= x && x < ONE);
    }
}

#[test]
fn ranged_draws_stay_in_their_half_open_range() {
    let mut rng = Rng::from_seed(321);
    for _ in 0..200 {
        let x = random_double_range(&mut rng, -ONE, ONE);
        assert!(-ONE <= x && x < ONE);
        let y = random_double_range(&mut rng, 250_000, 500_000);
        assert!(250_000 <= y && y < 500_000);
    }
}

#[test]
fn the_generator_yields_varied_values() {
    let mut rng = Rng::from_seed(9);
    let first = random_double(&mut rng);
    let mut saw_different = false;
    for _ in 0..10 {
        if random_double(&mut rng) != first {
            saw_different = true;
        }
    }
    assert!(saw_different);
}

#[test]
fn equal_seeds_give_equal_streams_and_fresh_entropy_works() {
    let mut a = Rng::from_seed(2024);
    let mut b = Rng::from_seed(2024);
    for _ in 0..50 {
        assert_eq!(random_double(&mut a), random_double(&mut b));
    }
    let mut c = Rng::from_entropy();
    let x = random_double(&mut c);
    assert!(0 <= x && x < ONE);
}
