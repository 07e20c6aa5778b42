use stark17::util::is_power_of_2;

#[test]
fn test_is_power_of_2() {
    assert!(is_power_of_2(1));
    assert!(is_power_of_2(2));
    assert!(is_power_of_2(4));
    assert!(is_power_of_2(8));
    assert!(is_power_of_2(1024));

    assert!(!is_power_of_2(0));
    assert!(!is_power_of_2(3));
    assert!(!is_power_of_2(6));
    assert!(!is_power_of_2(12));
}
