//! Tests for the MT19937 generator.

use fri3d_runtime::random::Random;

#[test]
fn test_deterministic() {
    let mut rng1 = Random::new(12345);
    let mut rng2 = Random::new(12345);

    for _ in 0..100 {
        assert_eq!(rng1.next(), rng2.next());
    }
}

#[test]
fn test_range() {
    let mut rng = Random::new(42);
    for _ in 0..1000 {
        let val = rng.range(10);
        assert!(val < 10);
    }
}

#[test]
fn canonical_first_output_for_default_seed() {
    // the well-known first MT19937 output for seed 5489
    let mut rng = Random::new(5489);
    assert_eq!(rng.get(), 3499211612);
}

#[test]
fn range_zero_returns_zero_without_consuming() {
    let mut rng1 = Random::new(7);
    let mut rng2 = Random::new(7);
    assert_eq!(rng1.range(0), 0);
    assert_eq!(rng1.get(), rng2.get());
}

#[test]
fn reseeding_restarts_the_sequence() {
    let mut rng = Random::new(9);
    let first = rng.get();
    rng.get();
    rng.seed(9);
    assert_eq!(rng.get(), first);
}
