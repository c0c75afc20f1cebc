use make_ten::calculator::Calculator;
use make_ten::numbers::GameNumbers;

#[test]
fn test_can_make_ten_with_solvable_numbers() {
    // 例: [1, 2, 3, 4] -> 4 * (3 - 1) + 2 = 10
    let numbers = GameNumbers::from_digits([1, 2, 3, 4]);

    assert!(Calculator::can_make_ten(&numbers));
}

#[test]
fn test_can_make_ten_with_unsolvable_numbers() {
    let numbers = GameNumbers::from_digits([0, 0, 0, 0]);
    assert!(!Calculator::can_make_ten(&numbers));
}

#[test]
fn test_can_make_ten_with_another_solvable_combination() {
    // 例: [2, 5, 5, 0] -> 2 * 5 + 0 * 5 = 10
    let numbers = GameNumbers::from_digits([2, 5, 5, 0]);
    assert!(Calculator::can_make_ten(&numbers));
}

#[test]
fn test_can_make_ten_with_division() {
    // 例: [8, 2, 1, 5] -> 8 / 2 + 1 + 5 = 10
    let numbers = GameNumbers::from_digits([8, 2, 1, 5]);
    assert!(Calculator::can_make_ten(&numbers));
}

#[test]
fn test_evaluate_simple_expression() {
    let numbers = GameNumbers::from_digits([1, 2, 3, 4]);
    let result = Calculator::evaluate_expression("1 + 2 + 3 + 4", &numbers);

    assert_eq!(result.result.num as f64 / result.result.den as f64, 10.0);
    assert!(result.is_valid);
    assert!(result.used_all_digits);
}

#[test]
fn test_can_make_ten_only_by_nested_division() {
    // 8 / (1 - 1 / 5) = 10 is the only way; no flat left-to-right
    // combination of these digits reaches ten.
    let numbers = GameNumbers::from_digits([1, 1, 5, 8]);
    assert!(Calculator::can_make_ten(&numbers));
}

#[test]
fn test_can_make_ten_only_by_paired_groups() {
    // (1 + 1) * (1 + 4) = 10 needs the two-pair parenthesisation.
    let numbers = GameNumbers::from_digits([1, 1, 1, 4]);
    assert!(Calculator::can_make_ten(&numbers));
}

#[test]
fn test_evaluate_expression_used_all_digits_in_any_order() {
    let numbers = GameNumbers::from_digits([4, 3, 2, 1]);
    let result = Calculator::evaluate_expression("1 + 2 + 3 + 4", &numbers);
    assert!(result.is_valid);
    assert!(result.used_all_digits);
}

#[test]
fn test_evaluate_expression_not_all_digits_used() {
    let numbers = GameNumbers::from_digits([2, 3, 4, 5]);
    let result = Calculator::evaluate_expression("2 + 3", &numbers);
    assert!(result.is_valid);
    assert_eq!(result.result.num as f64 / result.result.den as f64, 5.0);
    assert!(!result.used_all_digits);
}

#[test]
fn test_evaluate_expression_repeated_digit_counts_once() {
    let numbers = GameNumbers::from_digits([2, 2, 2, 3]);
    let result = Calculator::evaluate_expression("2 + 2 + 2 + 2", &numbers);
    assert!(result.is_valid);
    assert!(!result.used_all_digits);
}

#[test]
fn test_evaluate_expression_invalid_yields_zero_result() {
    let numbers = GameNumbers::from_digits([1, 2, 3, 4]);
    let result = Calculator::evaluate_expression("1 + + 2", &numbers);
    assert!(!result.is_valid);
    assert!(!result.used_all_digits);
    assert_eq!(result.result.num, 0);
    assert_eq!(result.result.den, 1);
}

#[test]
fn test_try_combination_addition_chain() {
    assert!(Calculator::try_combination([1, 2, 3, 4], '+', '+', '+'));
    assert!(!Calculator::try_combination([1, 1, 1, 1], '+', '+', '+'));
}

#[test]
fn test_try_combination_rejects_unknown_operator() {
    assert!(!Calculator::try_combination([1, 2, 3, 4], '%', '+', '+'));
}
