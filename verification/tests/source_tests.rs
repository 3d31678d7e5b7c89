use camp_seed::source::RandomSource;
use proptest::prelude::Rng;
use proptest::test_runner::{RngAlgorithm, TestRng};

fn key(seed: u64, position: u64) -> Vec<u8> {
    let mut key = Vec::new();
    key.extend_from_slice(&seed.to_le_bytes());
    key.extend_from_slice(&position.to_le_bytes());
    key.extend_from_slice(&[0u8; 16]);
    key
}

#[test]
fn draw_is_first_word_of_keyed_generator() {
    let mut source = RandomSource::seeded(0x0102_0304_0506_0708);
    let first = source.next_u64();
    let second = source.next_u64();
    let mut rng = TestRng::from_seed(RngAlgorithm::ChaCha, &key(0x0102_0304_0506_0708, 0));
    assert_eq!(first, rng.next_u64());
    let mut rng = TestRng::from_seed(RngAlgorithm::ChaCha, &key(0x0102_0304_0506_0708, 1));
    assert_eq!(second, rng.next_u64());
    assert_ne!(first, second);
}

#[test]
fn seeded_source_starts_at_zero_and_advances() {
    let mut source = RandomSource::seeded(7);
    assert_eq!(source.seed, 7);
    assert_eq!(source.position, 0);
    source.next_u64();
    source.below(10);
    source.between(3, 5);
    source.chance(50);
    assert_eq!(source.seed, 7);
    assert_eq!(source.position, 4);
}

#[test]
fn position_wraps_at_the_end_of_the_stream() {
    let mut source = RandomSource { seed: 1, position: u64::MAX };
    source.next_u64();
    assert_eq!(source.position, 0);
}

#[test]
fn equal_seeds_give_equal_draws() {
    let mut a = RandomSource::seeded(42);
    let mut b = RandomSource::seeded(42);
    for _ in 0..100 {
        assert_eq!(a.next_u64(), b.next_u64());
    }
    let mut c = RandomSource::seeded(43);
    let mut d = RandomSource::seeded(42);
    let differs = (0..100).any(|_| c.next_u64() != d.next_u64());
    assert!(differs);
}

#[test]
fn below_is_draw_modulo_bound() {
    let mut a = RandomSource::seeded(9);
    let mut b = RandomSource::seeded(9);
    for _ in 0..200 {
        let draw = a.next_u64();
        assert_eq!(b.below(17), draw % 17);
    }
}

#[test]
fn between_is_low_plus_draw_modulo_span() {
    let mut a = RandomSource::seeded(11);
    let mut b = RandomSource::seeded(11);
    for _ in 0..200 {
        let draw = a.next_u64();
        assert_eq!(b.between(20, 100), 20 + draw % 81);
    }
    let draw = a.next_u64();
    assert_eq!(b.between(0, u64::MAX), draw);
    let draw = a.next_u64();
    assert_eq!(b.between(5, 5), 5);
    let _ = draw;
}

#[test]
fn chance_is_draw_modulo_hundred_below_percent() {
    let mut a = RandomSource::seeded(13);
    let mut b = RandomSource::seeded(13);
    for _ in 0..200 {
        let draw = a.next_u64();
        assert_eq!(b.chance(50), draw % 100 < 50);
    }
    let mut never = RandomSource::seeded(5);
    let mut always = RandomSource::seeded(5);
    for _ in 0..100 {
        assert!(!never.chance(0));
        assert!(always.chance(100));
    }
}

#[test]
fn entropy_source_starts_at_zero() {
    let source = RandomSource::from_entropy();
    assert_eq!(source.position, 0);
}
