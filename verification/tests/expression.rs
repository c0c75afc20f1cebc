use make_ten::expression::evaluate_expression;
use make_ten::rational::Rational;

fn val(expr: &str) -> Option<f64> {
    evaluate_expression(expr).map(|r: Rational| r.num as f64 / r.den as f64)
}

#[test]
fn test_basic_addition() {
    assert_eq!(val("2 + 3"), Some(5.0));
    assert_eq!(val("1 + 9"), Some(10.0));
}

#[test]
fn test_basic_subtraction() {
    assert_eq!(val("5 - 2"), Some(3.0));
    assert_eq!(val("9 - 4"), Some(5.0));
}

#[test]
fn test_basic_multiplication() {
    assert_eq!(val("3 * 4"), Some(12.0));
    assert_eq!(val("2 * 5"), Some(10.0));
}

#[test]
fn test_basic_division() {
    assert_eq!(val("8 / 2"), Some(4.0));
    assert_eq!(val("9 / 3"), Some(3.0));
}

#[test]
fn test_operator_precedence_multiply_first() {
    assert_eq!(val("2 + 3 * 4"), Some(14.0)); // 2 + (3 * 4) = 2 + 12 = 14
    assert_eq!(val("1 + 2 * 3"), Some(7.0)); // 1 + (2 * 3) = 1 + 6 = 7
}

#[test]
fn test_operator_precedence_divide_first() {
    assert_eq!(val("8 + 6 / 2"), Some(11.0)); // 8 + (6 / 2) = 8 + 3 = 11
    assert_eq!(val("1 + 8 / 4"), Some(3.0)); // 1 + (8 / 4) = 1 + 2 = 3
}

#[test]
fn test_operator_precedence_mixed() {
    assert_eq!(val("2 + 3 * 4 - 1"), Some(13.0)); // 2 + (3 * 4) - 1 = 2 + 12 - 1 = 13
    assert_eq!(val("9 - 6 / 2 + 1"), Some(7.0)); // 9 - (6 / 2) + 1 = 9 - 3 + 1 = 7
}

#[test]
fn test_four_operand_expressions() {
    assert_eq!(val("1 + 2 + 3 + 4"), Some(10.0));
    assert_eq!(val("2 * 3 + 4 / 2"), Some(8.0)); // (2 * 3) + (4 / 2) = 6 + 2 = 8
    assert_eq!(val("9 - 3 + 2 * 2"), Some(10.0)); // 9 - 3 + (2 * 2) = 9 - 3 + 4 = 10
}

#[test]
fn test_division_by_zero() {
    assert_eq!(val("5 / 0"), None);
    assert_eq!(val("1 + 8 / 0"), None);
}

#[test]
fn test_invalid_short_expressions() {
    assert_eq!(val("1"), None);
    assert_eq!(val("1 +"), None);
    assert_eq!(val("+ 2"), None);
    assert_eq!(val(""), None);
}

#[test]
fn test_invalid_two_digit_numbers() {
    assert_eq!(val("10 + 5"), None);
    assert_eq!(val("1 + 15"), None);
    assert_eq!(val("12 * 3"), None);
}

#[test]
fn test_invalid_zero_numbers() {
    assert_eq!(val("0 + 5"), None);
    assert_eq!(val("1 + 0"), None);
}

#[test]
fn test_invalid_decimal_numbers() {
    assert_eq!(val("1.5 + 2"), None);
    assert_eq!(val("1 + 2.3"), None);
}

#[test]
fn test_invalid_operators() {
    assert_eq!(val("1 & 2"), None);
    assert_eq!(val("1 ^ 2"), None);
    assert_eq!(val("1 % 2"), None);
}

#[test]
fn test_invalid_consecutive_operators() {
    assert_eq!(val("1 + + 2"), None);
    assert_eq!(val("1 * - 2"), None);
    assert_eq!(val("1 + * 2"), None);
}

#[test]
fn test_invalid_even_number_of_parts() {
    assert_eq!(val("1 + 2 +"), None);
    assert_eq!(val("+ 1 + 2"), None);
}

#[test]
fn test_invalid_alphabetic_input() {
    assert_eq!(val("a + b"), None);
    assert_eq!(val("1 + x"), None);
}

#[test]
fn test_make_10_cases() {
    assert_eq!(val("1 + 2 + 3 + 4"), Some(10.0));
    assert_eq!(val("2 * 5"), Some(10.0));
    assert_eq!(val("3 + 4 + 2 + 1"), Some(10.0));
    assert_eq!(val("6 + 8 / 2"), Some(10.0)); // 6 + (8 / 2) = 6 + 4 = 10
    assert_eq!(val("4 * 3 - 2"), Some(10.0)); // (4 * 3) - 2 = 12 - 2 = 10
}

#[test]
fn test_edge_cases() {
    assert_eq!(val("9 * 1"), Some(9.0));
    assert_eq!(val("1 * 9"), Some(9.0));
    assert_eq!(val("9 / 9"), Some(1.0));
    assert_eq!(val("9 - 9"), Some(0.0));
    assert_eq!(val("1 + 1 + 1 + 1"), Some(4.0));
}

#[test]
fn test_whitespace_handling() {
    assert_eq!(val("  2  +  3  "), Some(5.0));
    assert_eq!(val("2+3"), None); // 空白なしは無効（現在の実装では）
}

#[test]
fn test_fractional_value() {
    assert_eq!(val("9 / 2"), Some(4.5));
}

#[test]
fn test_exact_rational_components() {
    // One third is kept exactly, not rounded.
    let r = evaluate_expression("1 / 3").unwrap();
    assert_eq!(r.num, 1);
    assert_eq!(r.den, 3);
}

#[test]
fn test_division_keeps_denominator_positive() {
    // (1 - 2) is folded left to right, then divides nothing further;
    // 1 - 2 / 2 is 1 - (2 / 2) = 0 by precedence.
    assert_eq!(val("1 - 2 / 2"), Some(0.0));
    let r = evaluate_expression("1 - 2 / 2").unwrap();
    assert!(r.den >= 1);
}

#[test]
fn test_long_chain_within_cap() {
    assert_eq!(val("9 * 9 * 9 * 9 * 9 * 9 * 9"), Some(4782969.0));
}
