use make_ten::calculator::Calculator;
use make_ten::numbers::GameNumbers;

#[test]
fn test_all_generated_numbers_are_solvable() {
    for i in 0..100 {
        let numbers = GameNumbers::new();

        assert!(
            Calculator::can_make_ten(&numbers),
            "生成された数字 {:?} (試行 {}) で10を作ることができません",
            numbers.digits,
            i + 1
        );
    }
}

#[test]
fn test_from_seed_preserves_determinism() {
    for seed in [12345, 67890, 99999, 11111, 55555] {
        let numbers1 = GameNumbers::from_seed(seed);
        let numbers2 = GameNumbers::from_seed(seed);

        assert_eq!(
            numbers1.digits, numbers2.digits,
            "シード {} から生成された数字が一貫していません",
            seed
        );
    }
}

#[test]
fn test_generated_numbers_have_valid_digits() {
    for _ in 0..50 {
        let numbers = GameNumbers::new();

        for &digit in &numbers.digits {
            assert!(
                digit >= 1 && digit <= 9,
                "生成された数字 {} が有効範囲（1-9）外です。数字セット: {:?}",
                digit,
                numbers.digits
            );
        }
    }
}

#[test]
fn test_known_solvable_combinations() {
    let solvable_sets = [
        [1, 2, 3, 4],
        [2, 5, 1, 2],
        [8, 2, 1, 5],
        [3, 3, 3, 1],
        [6, 4, 2, 2],
    ];

    for digits in solvable_sets {
        let numbers = GameNumbers::from_digits(digits);
        assert!(
            Calculator::can_make_ten(&numbers),
            "既知の解ける組み合わせ {:?} で10を作ることができません",
            digits
        );
    }
}

#[test]
fn test_unsolvable_combinations_fail() {
    let unsolvable_sets = [
        [0, 0, 0, 0],
        [1, 1, 1, 1],
    ];

    for digits in unsolvable_sets {
        let numbers = GameNumbers::from_digits(digits);
        assert!(
            !Calculator::can_make_ten(&numbers),
            "解けないはずの組み合わせ {:?} で10が作れてしまいます",
            digits
        );
    }
}
