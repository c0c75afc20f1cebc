//! The four-digit puzzle and its generators.
//!
//! Digits come from a linear-congruential pseudo-random stream.  Seeded
//! generation is deterministic and maps into the full 0..=9 range; the
//! playing generator seeds itself from the clock, maps into 1..=9, and keeps
//! drawing until the solvability oracle accepts the puzzle, so every puzzle
//! it hands out can reach ten.

use std::time::{SystemTime, UNIX_EPOCH};

use vstd::prelude::*;

use crate::calculator::{
    any_ops_solve, can_make_ten_spec, opt_digit, opt_is_ten, ops_ok, perm_ok, perm_solves,
    try_comb_spec, Calculator,
};
use crate::rational::{frac_add, int_frac, opt_apply};

verus! {

/// One step of the linear-congruential recurrence, on the full 64-bit ring.
pub open spec fn lcg_next(s: int) -> int {
    (s * 1103515245 + 12345) % 0x10000000000000000
}

/// The digit drawn from one recurrence state, over the full 0..=9 range.
pub open spec fn lcg_digit10(s: int) -> u8 {
    (((s / 65536) % 10) as u8)
}

/// The digit drawn from one recurrence state, over the playing range 1..=9.
pub open spec fn lcg_digit9(s: int) -> u8 {
    ((((s / 65536) % 9) + 1) as u8)
}

/// The four digits that the seed `seed` determines, over the 0..=9 range.
pub open spec fn from_seed_digits(seed: int) -> Seq<u8> {
    let s1 = lcg_next(seed);
    let s2 = lcg_next(s1);
    let s3 = lcg_next(s2);
    let s4 = lcg_next(s3);
    seq![lcg_digit10(s1), lcg_digit10(s2), lcg_digit10(s3), lcg_digit10(s4)]
}

/// The four digits that the seed `seed` determines, over the 1..=9 range.
pub open spec fn from_seed_valid_digits(seed: int) -> Seq<u8> {
    let s1 = lcg_next(seed);
    let s2 = lcg_next(s1);
    let s3 = lcg_next(s2);
    let s4 = lcg_next(s3);
    seq![lcg_digit9(s1), lcg_digit9(s2), lcg_digit9(s3), lcg_digit9(s4)]
}

/// One puzzle: an ordered quadruple of digits.
///
/// A puzzle is immutable once built; a new puzzle replaces the old one
/// wholesale.  Construction performs no validation — `is_valid` is the
/// explicit check.
#[derive(Debug, Clone, PartialEq)]
pub struct GameNumbers {
    pub digits: [u8; 4],
}

/// Every digit is at most nine.  This is deliberately only an upper bound:
/// the generators produce digits in 1..=9, but a directly constructed puzzle
/// counts as valid as long as no entry exceeds nine.
pub open spec fn digits_valid(ds: Seq<u8>) -> bool {
    forall|i: int| 0 <= i < ds.len() ==> ds[i] <= 9
}

/// Relies on `std::time::SystemTime`: the nanoseconds since the Unix epoch,
/// used only to vary the starting seed between runs; nothing is promised of
/// the value.
#[verifier::external_body]
fn clock_seed() -> u64 {
    match SystemTime::now().duration_since(UNIX_EPOCH) {
        Ok(d) => d.as_nanos() as u64,
        Err(_) => 0,
    }
}

/// One step of the linear-congruential recurrence.
fn lcg_step(seed: u64) -> (s: u64)
    ensures
        s as int == lcg_next(seed as int),
{
    let wide: u128 = (seed as u128) * 1103515245u128 + 12345u128;
    let s = (wide % 0x10000000000000000u128) as u64;
    s
}

/// How many candidate puzzles the playing generator will draw before it
/// falls back to a fixed solvable puzzle.  Solvable puzzles are dense in the
/// 1..=9 digit space, so the bound is never reached in practice.
pub const RETRY_LIMIT: u32 = 100000;

/// Adding two whole-number fractions adds the whole numbers.
proof fn lemma_add_int_fracs(a: int, b: int)
    ensures
        frac_add(int_frac(a), int_frac(b)) == int_frac(a + b),
{
    assert(a * 1 == a) by (nonlinear_arith);
    assert(b * 1 == b) by (nonlinear_arith);
    assert(1int * 1int == 1int) by (nonlinear_arith);
}

/// The fallback puzzle can reach ten: `((1 + 2) + 3) + 4`.
proof fn lemma_fallback_solvable()
    ensures
        can_make_ten_spec(seq![1u8, 2u8, 3u8, 4u8]),
{
    let ds = seq![1u8, 2u8, 3u8, 4u8];
    lemma_add_int_fracs(1, 2);
    lemma_add_int_fracs(3, 3);
    lemma_add_int_fracs(6, 4);
    let s1 = opt_apply('+', opt_digit(1u8), opt_digit(2u8));
    assert(s1 == Some(int_frac(3)));
    let s2 = opt_apply('+', s1, opt_digit(3u8));
    assert(s2 == Some(int_frac(6)));
    let s3 = opt_apply('+', s2, opt_digit(4u8));
    assert(s3 == Some(int_frac(10)));
    assert(10int * 1int == 10int) by (nonlinear_arith);
    assert(opt_is_ten(s3));
    assert(try_comb_spec(1u8, 2u8, 3u8, 4u8, '+', '+', '+'));
    assert(ops_ok('+', '+', '+'));
    assert(any_ops_solve(ds[0], ds[1], ds[2], ds[3]));
    assert(perm_ok(0, 1, 2, 3));
    assert(perm_solves(ds, 0, 1, 2, 3));
}

impl GameNumbers {
    /// Builds a puzzle from four given digits, with no validation.
    pub fn from_digits(digits: [u8; 4]) -> (r: Self)
        ensures
            r.digits@ == digits@,
    {
        GameNumbers { digits }
    }

    /// Deterministically derives a puzzle from a seed, with digits over the
    /// full 0..=9 range and no solvability filtering.  The same seed always
    /// yields the same digit sequence.
    pub fn from_seed(seed: u64) -> (r: Self)
        ensures
            r.digits@ == from_seed_digits(seed as int),
    {
        let s1 = lcg_step(seed);
        let s2 = lcg_step(s1);
        let s3 = lcg_step(s2);
        let s4 = lcg_step(s3);
        let digits: [u8; 4] = [
            ((s1 / 65536) % 10) as u8,
            ((s2 / 65536) % 10) as u8,
            ((s3 / 65536) % 10) as u8,
            ((s4 / 65536) % 10) as u8,
        ];
        proof {
            assert(digits@ =~= from_seed_digits(seed as int));
        }
        GameNumbers { digits }
    }

    /// Like `from_seed`, but over the playing range 1..=9, which excludes
    /// the digit zero.
    fn from_seed_with_valid_range(seed: u64) -> (r: Self)
        ensures
            r.digits@ == from_seed_valid_digits(seed as int),
            forall|i: int| 0 <= i < 4 ==> 1 <= #[trigger] r.digits@[i] <= 9,
    {
        let s1 = lcg_step(seed);
        let s2 = lcg_step(s1);
        let s3 = lcg_step(s2);
        let s4 = lcg_step(s3);
        let digits: [u8; 4] = [
            ((s1 / 65536) % 9) as u8 + 1,
            ((s2 / 65536) % 9) as u8 + 1,
            ((s3 / 65536) % 9) as u8 + 1,
            ((s4 / 65536) % 9) as u8 + 1,
        ];
        proof {
            assert(digits@ =~= from_seed_valid_digits(seed as int));
        }
        GameNumbers { digits }
    }

    /// Generates a fresh solvable puzzle for play.
    ///
    /// Starting from a clock-derived seed, it draws candidates with digits
    /// in 1..=9 and returns the first that the oracle accepts; rejected
    /// candidates advance the seed by one.  Every puzzle returned can reach
    /// ten, and all its digits lie in 1..=9.
    pub fn new() -> (r: Self)
        ensures
            can_make_ten_spec(r.digits@),
            forall|i: int| 0 <= i < 4 ==> 1 <= #[trigger] r.digits@[i] <= 9,
    {
        let mut seed = clock_seed();
        let mut tries: u32 = 0;
        while tries < RETRY_LIMIT
            decreases RETRY_LIMIT - tries,
        {
            let candidate = Self::from_seed_with_valid_range(seed);
            if Calculator::can_make_ten(&candidate) {
                return candidate;
            }
            seed = if seed == u64::MAX {
                0
            } else {
                seed + 1
            };
            tries = tries + 1;
        }
        let fallback: [u8; 4] = [1, 2, 3, 4];
        proof {
            lemma_fallback_solvable();
            assert(fallback@ =~= seq![1u8, 2u8, 3u8, 4u8]);
        }
        GameNumbers { digits: fallback }
    }

    /// Checks that every digit is at most nine.
    pub fn is_valid(&self) -> (r: bool)
        ensures
            r == digits_valid(self.digits@),
    {
        let r = self.digits[0] <= 9 && self.digits[1] <= 9 && self.digits[2] <= 9
            && self.digits[3] <= 9;
        proof {
            if r {
                assert forall|i: int| 0 <= i < self.digits@.len() implies self.digits@[i]
                    <= 9 by {
                    assert(i == 0 || i == 1 || i == 2 || i == 3);
                }
            }
        }
        r
    }
}

/// Seeded generation is deterministic: two puzzles derived from the same
/// seed hold identical digit sequences, whatever the seed.
pub proof fn lemma_from_seed_deterministic(a: GameNumbers, b: GameNumbers, seed: u64)
    requires
        a.digits@ == from_seed_digits(seed as int),
        b.digits@ == from_seed_digits(seed as int),
    ensures
        a.digits@ == b.digits@,
{
}

/// Validity is insensitive to order and repetition: any quadruple whose
/// entries are each at most nine forms a valid puzzle, so `is_valid` holds of
/// `from_digits(digits)` for every such quadruple.
pub proof fn lemma_from_digits_is_valid(digits: [u8; 4])
    requires
        forall|i: int| 0 <= i < 4 ==> digits@[i] <= 9,
    ensures
        digits_valid(digits@),
{
}

} // verus!
