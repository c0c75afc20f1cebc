use make_ten::numbers::GameNumbers;

#[test]
fn test_new_generates_four_digits() {
    let numbers = GameNumbers::new();
    assert_eq!(numbers.digits.len(), 4);
}

#[test]
fn test_digits_are_in_valid_range() {
    let numbers = GameNumbers::new();
    assert!(numbers.is_valid());

    for &digit in &numbers.digits {
        assert!(digit <= 9, "Digit {digit} is out of range");
    }
}

#[test]
fn test_from_seed_is_deterministic() {
    let seed = 12345;
    let numbers1 = GameNumbers::from_seed(seed);
    let numbers2 = GameNumbers::from_seed(seed);

    assert_eq!(numbers1, numbers2);
}

#[test]
fn test_from_digits_creates_correct_numbers() {
    let digits = [1, 2, 3, 4];
    let numbers = GameNumbers::from_digits(digits);

    assert_eq!(numbers.digits, digits);
}

#[test]
fn test_is_valid_with_valid_digits() {
    let numbers = GameNumbers::from_digits([0, 5, 9, 3]);
    assert!(numbers.is_valid());
}

#[test]
fn test_is_valid_with_invalid_digits() {
    let numbers = GameNumbers {
        digits: [0, 5, 10, 3],
    };
    assert!(!numbers.is_valid());
}

#[test]
fn test_is_valid_checks_upper_bound_only() {
    // Validity only caps digits at nine; zeroes pass even though the
    // generators never produce them.
    let numbers = GameNumbers::from_digits([0, 0, 0, 0]);
    assert!(numbers.is_valid());
}

#[test]
fn test_from_seed_digits_stay_in_range() {
    for seed in [0, 1, 42, 65536, u64::MAX] {
        let numbers = GameNumbers::from_seed(seed);
        assert!(numbers.is_valid());
    }
}
