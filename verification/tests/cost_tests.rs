use sudachi::cost::adjust_cost;

#[test]
fn adjust_cost_pins_negative_to_low_frequency() {
    assert_eq!(adjust_cost(-1), 8000);
    assert_eq!(adjust_cost(-12345), 8000);
}

#[test]
fn adjust_cost_clamps_above_maximum() {
    assert_eq!(adjust_cost(10001), 10000);
    assert_eq!(adjust_cost(i32::MAX), 10000);
}

#[test]
fn adjust_cost_zero_gives_base() {
    assert_eq!(adjust_cost(0), 6000);
}

#[test]
fn adjust_cost_compresses_by_ten() {
    assert_eq!(adjust_cost(100), 6010);
    assert_eq!(adjust_cost(9999), 6999);
    assert_eq!(adjust_cost(10000), 7000);
}
