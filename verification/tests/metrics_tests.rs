use high_performance_server::metrics::Counter;

#[test]
fn test_counter() {
    let mut counter = Counter::new(0);

    counter.increment(1);
    assert_eq!(counter.value(), 1);

    counter.increment(4);
    assert_eq!(counter.value(), 5);

    counter.increment(0);
    assert_eq!(counter.value(), 5);
}

#[test]
fn test_counter_wraps() {
    let mut counter = Counter::new(usize::MAX);
    counter.increment(2);
    assert_eq!(counter.value(), 1);
}

#[test]
fn test_counter_default() {
    let counter = Counter::default();
    assert_eq!(counter.value(), 0);
}
