use oso_consensus::AseCounter;

#[test]
fn test_ase_counter() {
    let mut counter = AseCounter::new();
    assert_eq!(counter.get(), 0);

    counter.increment(100);
    assert_eq!(counter.get(), 100);

    counter.increment(50);
    assert_eq!(counter.get(), 150);
}

#[test]
fn counter_saturates_at_the_maximum() {
    let mut counter = AseCounter::new();
    counter.increment(u64::MAX);
    assert_eq!(counter.get(), u64::MAX);
    counter.increment(5);
    assert_eq!(counter.get(), u64::MAX);
}
