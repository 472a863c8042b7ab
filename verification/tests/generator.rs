use std::time::{Duration, SystemTime};
use ulid::{Generator, MonotonicError, Ulid};

#[test]
fn test_order_monotonic() {
    let dt = SystemTime::now();
    let mut gen = Generator::new();
    let ulid1 = gen.generate_from_datetime(dt).unwrap();
    let ulid2 = gen.generate_from_datetime(dt).unwrap();
    let ulid3 = Ulid::from_datetime(dt + Duration::from_millis(1));
    assert_eq!(ulid1.0 + 1, ulid2.0);
    assert!(ulid2 < ulid3);
    assert!(ulid2.timestamp_ms() < ulid3.timestamp_ms())
}

#[test]
fn generator_can_display_things() {
    println!("{}", MonotonicError::Overflow.message());
}

#[test]
fn test_generate() {
    let mut gen = Generator::new();
    let ulid1 = gen.generate().unwrap();
    let ulid2 = gen.generate().unwrap();
    assert!(ulid1 < ulid2);
}

#[test]
fn test_same_millisecond_counts_up() {
    // with an unchanging clock the random section counts 0, 1, 2, ...
    let mut gen = Generator::new();
    let u1 = gen.generate_from_millis(5, 0).unwrap();
    assert_eq!(u1.timestamp_ms(), 5);
    assert_eq!(u1.random(), 0);
    let u2 = gen.generate_from_millis(5, 0x1234).unwrap();
    assert_eq!(u2, u1.increment().unwrap());
    assert_eq!(u2.timestamp_ms(), 5);
    assert_eq!(u2.random(), 1);
    let u3 = gen.generate_from_millis(5, 0x9999).unwrap();
    assert_eq!(u3.random(), 2);
}

#[test]
fn test_advancing_clock_draws_fresh() {
    // a later reading takes the new timestamp and the fresh payload,
    // not an increment of the previous random section
    let mut gen = Generator::new();
    let u1 = gen.generate_from_millis(5, 700).unwrap();
    let u2 = gen.generate_from_millis(6, 99).unwrap();
    assert!(u1 < u2);
    assert_eq!(u2.timestamp_ms(), 6);
    assert_eq!(u2.random(), 99);
}

#[test]
fn test_clock_regression_increments() {
    let mut gen = Generator::new();
    let u1 = gen.generate_from_millis(10, 42).unwrap();
    // time went backward: still strictly increasing, by increment
    let u2 = gen.generate_from_millis(3, 0).unwrap();
    assert_eq!(u2.0, u1.0 + 1);
    assert_eq!(u2.timestamp_ms(), 10);
}

#[test]
fn test_overflow_error_and_recovery() {
    let max_random = (1u128 << 80) - 1;
    let mut gen = Generator::new();
    let u1 = gen.generate_from_millis(1, max_random).unwrap();
    assert_eq!(u1.random(), max_random);
    // the random section is saturated: the same millisecond fails...
    assert_eq!(
        gen.generate_from_millis(1, 0),
        Err(MonotonicError::Overflow)
    );
    // ...the state is unchanged, so it fails again...
    assert_eq!(
        gen.generate_from_millis(1, 0),
        Err(MonotonicError::Overflow)
    );
    // ...and once time advances the generator works again
    let u2 = gen.generate_from_millis(2, 0).unwrap();
    assert!(u2 > u1);
    assert_eq!(u2.timestamp_ms(), 2);
}

#[test]
fn test_generate_overflowing() {
    let mut gen = Generator::new();
    let ulid1 = gen.generate_overflowing();
    let ulid2 = gen.generate_overflowing();
    assert!(ulid1 < ulid2);
}

#[test]
fn generator_default_is_fresh() {
    let mut gen = Generator::default();
    let u = gen.generate_from_millis(1, 7).unwrap();
    assert_eq!(u, Ulid::from_parts(1, 7));
}
