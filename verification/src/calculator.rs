//! The solvability oracle: can four digits be combined into ten?
//!
//! The oracle answers by exhausting the whole search space: every ordering of
//! the four digits, every triple of operators, and every way of
//! parenthesising four operands (there are exactly five binary-tree shapes
//! over four ordered leaves).  A `false` answer therefore means genuine
//! unsolvability, not an incomplete search.

use vstd::prelude::*;

use crate::expression::{
    chars_of, check_valid, eval_parts, eval_spec, operand_digits, split_tokens, tokenize,
    tokens_of, valid_tokens,
};
use crate::numbers::GameNumbers;
use crate::rational::{
    frac_bounded, frac_is_int, frac_wf, int_frac, is_op_char, lemma_apply_bounded, lemma_mul_bound,
    opt_apply, opt_view, Frac, Rational, MAX_MAG,
};

verus! {

/// The calculation engine.  It holds no state; all its operations are pure.
pub struct Calculator;

/// The digit `d` as the leaf of a candidate expression.
pub open spec fn opt_digit(d: u8) -> Option<Frac> {
    Some(int_frac(d as int))
}

/// A candidate result counts only when it exists and is exactly ten.
/// A missing result — some division by zero happened underneath — never
/// matches.
pub open spec fn opt_is_ten(x: Option<Frac>) -> bool {
    x matches Some(f) && frac_is_int(f, 10)
}

/// The five parenthesisations of `n0 o1 n1 o2 n2 o3 n3`: does any of them
/// evaluate to exactly ten?
pub open spec fn try_comb_spec(n0: u8, n1: u8, n2: u8, n3: u8, o1: char, o2: char, o3: char) -> bool {
    let a = opt_digit(n0);
    let b = opt_digit(n1);
    let c = opt_digit(n2);
    let d = opt_digit(n3);
    ||| opt_is_ten(opt_apply(o3, opt_apply(o2, opt_apply(o1, a, b), c), d))
    ||| opt_is_ten(opt_apply(o2, opt_apply(o1, a, b), opt_apply(o3, c, d)))
    ||| opt_is_ten(opt_apply(o1, a, opt_apply(o3, opt_apply(o2, b, c), d)))
    ||| opt_is_ten(opt_apply(o1, a, opt_apply(o2, b, opt_apply(o3, c, d))))
    ||| opt_is_ten(opt_apply(o3, opt_apply(o1, a, opt_apply(o2, b, c)), d))
}

pub open spec fn ops_ok(o1: char, o2: char, o3: char) -> bool {
    is_op_char(o1) && is_op_char(o2) && is_op_char(o3)
}

/// Some triple of operators turns the ordered digits `n0, n1, n2, n3` into
/// ten under one of the five shapes.
pub open spec fn any_ops_solve(n0: u8, n1: u8, n2: u8, n3: u8) -> bool {
    exists|o1: char, o2: char, o3: char|
        ops_ok(o1, o2, o3) && #[trigger] try_comb_spec(n0, n1, n2, n3, o1, o2, o3)
}

/// `a, b, c, d` are four distinct positions of the quadruple, so that
/// together they pick one of the 24 orderings of the digits.
pub open spec fn perm_ok(a: int, b: int, c: int, d: int) -> bool {
    &&& 0 <= a < 4
    &&& 0 <= b < 4
    &&& 0 <= c < 4
    &&& 0 <= d < 4
    &&& a != b && a != c && a != d && b != c && b != d && c != d
}

pub open spec fn perm_solves(digits: Seq<u8>, a: int, b: int, c: int, d: int) -> bool {
    any_ops_solve(digits[a], digits[b], digits[c], digits[d])
}

/// The oracle's answer: some ordering of the digits, some operator triple and
/// some parenthesisation reach exactly ten.
pub open spec fn can_make_ten_spec(digits: Seq<u8>) -> bool {
    exists|a: int, b: int, c: int, d: int|
        perm_ok(a, b, c, d) && #[trigger] perm_solves(digits, a, b, c, d)
}

/// The operator tried at position `k` of the operator loops.
pub open spec fn op_of(k: int) -> char {
    if k == 0 {
        '+'
    } else if k == 1 {
        '-'
    } else if k == 2 {
        '*'
    } else {
        '/'
    }
}

proof fn lemma_opt_small(op: char, a: Option<Frac>, b: Option<Frac>, ma: int, mb: int)
    requires
        a matches Some(x) ==> frac_wf(x) && frac_bounded(x, ma),
        b matches Some(y) ==> frac_wf(y) && frac_bounded(y, mb),
        1 <= ma,
        1 <= mb,
    ensures
        opt_apply(op, a, b) matches Some(f) ==> frac_wf(f) && frac_bounded(f, 2 * ma * mb),
{
    match (a, b) {
        (Some(x), Some(y)) => lemma_apply_bounded(op, x, y, ma, mb),
        _ => {},
    }
}

impl Calculator {
    /// Applies one operator to two optional operands.  A missing operand, an
    /// unknown operator, or a division by an exact zero all yield no result,
    /// and so does a result whose components would leave the magnitude cap.
    pub(crate) fn apply_ops(a: Option<Rational>, op: char, b: Option<Rational>) -> (r: Option<
        Rational,
    >)
        requires
            a matches Some(x) ==> x.wf(),
            b matches Some(y) ==> y.wf(),
        ensures
            r matches Some(v) ==> v.wf() && opt_apply(op, opt_view(a), opt_view(b)) == Some(v@),
            r is None ==> (opt_apply(op, opt_view(a), opt_view(b)) is None || (opt_apply(
                op,
                opt_view(a),
                opt_view(b),
            ) matches Some(f) && !frac_bounded(f, MAX_MAG as int))),
    {
        let (x, y) = match (a, b) {
            (Some(x), Some(y)) => (x, y),
            _ => {
                return None;
            },
        };
        proof {
            let m = MAX_MAG as int;
            lemma_apply_bounded(op, x@, y@, m, m);
            lemma_mul_bound(x.num as int, y.den as int, m, m);
            lemma_mul_bound(y.num as int, x.den as int, m, m);
            lemma_mul_bound(x.num as int, y.num as int, m, m);
            lemma_mul_bound(x.den as int, y.den as int, m, m);
            lemma_mul_bound(x.den as int, y.num as int, m, m);
            lemma_mul_bound(x.den as int, -(y.num as int), m, m);
            assert(m * m + m * m <= 0x2000000000000000000000000000000int) by (nonlinear_arith)
                requires
                    m == 0x1000000000000000int,
            ;
            assert(m * m + m * m < i128::MAX);
        }
        let (num, den): (i128, i128) = if op == '+' {
            (x.num * y.den + y.num * x.den, x.den * y.den)
        } else if op == '-' {
            (x.num * y.den - y.num * x.den, x.den * y.den)
        } else if op == '*' {
            (x.num * y.num, x.den * y.den)
        } else if op == '/' {
            if y.num == 0 {
                return None;
            }
            if y.num > 0 {
                (x.num * y.den, x.den * y.num)
            } else {
                (-(x.num * y.den), x.den * -y.num)
            }
        } else {
            return None;
        };
        if num > MAX_MAG || num < -MAX_MAG || den > MAX_MAG {
            None
        } else {
            Some(Rational { num, den })
        }
    }

    /// `apply_ops` together with the bookkeeping that keeps the search away
    /// from the magnitude cap: with operand bounds `ma` and `mb` whose
    /// doubled product stays within the cap, the result is exact.
    fn apply_b(
        a: Option<Rational>,
        op: char,
        b: Option<Rational>,
        Ghost(ma): Ghost<int>,
        Ghost(mb): Ghost<int>,
    ) -> (r: Option<Rational>)
        requires
            a matches Some(x) ==> x.wf() && frac_bounded(x@, ma),
            b matches Some(y) ==> y.wf() && frac_bounded(y@, mb),
            1 <= ma,
            1 <= mb,
            2 * ma * mb <= MAX_MAG as int,
        ensures
            opt_view(r) == opt_apply(op, opt_view(a), opt_view(b)),
            r matches Some(v) ==> v.wf() && frac_bounded(v@, 2 * ma * mb),
    {
        proof {
            lemma_opt_small(op, opt_view(a), opt_view(b), ma, mb);
        }
        Self::apply_ops(a, op, b)
    }

    /// Is there a result, and is it exactly ten?
    fn is_ten(x: &Option<Rational>) -> (r: bool)
        requires
            *x matches Some(v) ==> v.wf(),
        ensures
            r == opt_is_ten(opt_view(*x)),
    {
        match x {
            Some(v) => v.is_int_value(10),
            None => false,
        }
    }

    /// Evaluates the ordered digits under one fixed operator triple, trying
    /// all five parenthesisations.
    pub fn try_combination(nums: [u8; 4], op1: char, op2: char, op3: char) -> (r: bool)
        ensures
            r == try_comb_spec(nums@[0], nums@[1], nums@[2], nums@[3], op1, op2, op3),
    {
        let fa = Some(Rational::from_u8(nums[0]));
        let fb = Some(Rational::from_u8(nums[1]));
        let fc = Some(Rational::from_u8(nums[2]));
        let fd = Some(Rational::from_u8(nums[3]));

        // ((a op1 b) op2 c) op3 d
        let t1 = Self::apply_b(fa, op1, fb, Ghost(256), Ghost(256));
        let t2 = Self::apply_b(t1, op2, fc, Ghost(131072), Ghost(256));
        let s1 = Self::apply_b(t2, op3, fd, Ghost(67108864), Ghost(256));

        // (a op1 b) op2 (c op3 d)
        let u1 = Self::apply_b(fc, op3, fd, Ghost(256), Ghost(256));
        let s2 = Self::apply_b(t1, op2, u1, Ghost(131072), Ghost(131072));

        // a op1 ((b op2 c) op3 d)
        let v1 = Self::apply_b(fb, op2, fc, Ghost(256), Ghost(256));
        let v2 = Self::apply_b(v1, op3, fd, Ghost(131072), Ghost(256));
        let s3 = Self::apply_b(fa, op1, v2, Ghost(256), Ghost(67108864));

        // a op1 (b op2 (c op3 d)); the inner pair is the same as in shape two
        let w2 = Self::apply_b(fb, op2, u1, Ghost(256), Ghost(131072));
        let s4 = Self::apply_b(fa, op1, w2, Ghost(256), Ghost(67108864));

        // (a op1 (b op2 c)) op3 d; the inner pair is the same as in shape three
        let x1 = Self::apply_b(fa, op1, v1, Ghost(256), Ghost(131072));
        let s5 = Self::apply_b(x1, op3, fd, Ghost(67108864), Ghost(256));

        Self::is_ten(&s1) || Self::is_ten(&s2) || Self::is_ten(&s3) || Self::is_ten(&s4)
            || Self::is_ten(&s5)
    }

    /// The operator at position `k`: the loops below draw each of the three
    /// operators independently from `+ - * /`.
    fn op_at(k: usize) -> (c: char)
        requires
            k < 4,
        ensures
            c == op_of(k as int),
    {
        if k == 0 {
            '+'
        } else if k == 1 {
            '-'
        } else if k == 2 {
            '*'
        } else {
            '/'
        }
    }

    /// Tries all 64 operator triples on one fixed ordering of the digits.
    #[verifier::loop_isolation(false)]
    fn try_all_ops(nums: [u8; 4]) -> (r: bool)
        ensures
            r == any_ops_solve(nums@[0], nums@[1], nums@[2], nums@[3]),
    {
        let ghost g0 = nums@[0];
        let ghost g1 = nums@[1];
        let ghost g2 = nums@[2];
        let ghost g3 = nums@[3];
        let mut k1: usize = 0;
        while k1 < 4
            invariant
                k1 <= 4,
                forall|j: int, o2: char, o3: char|
                    0 <= j < k1 && is_op_char(o2) && is_op_char(o3) ==> !#[trigger] try_comb_spec(
                        g0,
                        g1,
                        g2,
                        g3,
                        op_of(j),
                        o2,
                        o3,
                    ),
            decreases 4 - k1,
        {
            let o1 = Self::op_at(k1);
            let mut k2: usize = 0;
            while k2 < 4
                invariant
                    k2 <= 4,
                    forall|j: int, o3: char|
                        0 <= j < k2 && is_op_char(o3) ==> !#[trigger] try_comb_spec(
                            g0,
                            g1,
                            g2,
                            g3,
                            o1,
                            op_of(j),
                            o3,
                        ),
                decreases 4 - k2,
            {
                let o2 = Self::op_at(k2);
                let mut k3: usize = 0;
                while k3 < 4
                    invariant
                        k3 <= 4,
                        forall|j: int|
                            0 <= j < k3 ==> !#[trigger] try_comb_spec(
                                g0,
                                g1,
                                g2,
                                g3,
                                o1,
                                o2,
                                op_of(j),
                            ),
                    decreases 4 - k3,
                {
                    let o3 = Self::op_at(k3);
                    if Self::try_combination(nums, o1, o2, o3) {
                        proof {
                            assert(ops_ok(o1, o2, o3));
                            assert(any_ops_solve(g0, g1, g2, g3));
                        }
                        return true;
                    }
                    k3 = k3 + 1;
                }
                proof {
                    assert forall|o3: char| is_op_char(o3) implies !try_comb_spec(
                        g0,
                        g1,
                        g2,
                        g3,
                        o1,
                        o2,
                        o3,
                    ) by {
                        if o3 == '+' {
                            assert(!try_comb_spec(g0, g1, g2, g3, o1, o2, op_of(0)));
                        } else if o3 == '-' {
                            assert(!try_comb_spec(g0, g1, g2, g3, o1, o2, op_of(1)));
                        } else if o3 == '*' {
                            assert(!try_comb_spec(g0, g1, g2, g3, o1, o2, op_of(2)));
                        } else {
                            assert(!try_comb_spec(g0, g1, g2, g3, o1, o2, op_of(3)));
                        }
                    }
                }
                k2 = k2 + 1;
            }
            proof {
                assert forall|o2: char, o3: char| is_op_char(o2) && is_op_char(o3)
                    implies !try_comb_spec(g0, g1, g2, g3, o1, o2, o3) by {
                    if o2 == '+' {
                        assert(!try_comb_spec(g0, g1, g2, g3, o1, op_of(0), o3));
                    } else if o2 == '-' {
                        assert(!try_comb_spec(g0, g1, g2, g3, o1, op_of(1), o3));
                    } else if o2 == '*' {
                        assert(!try_comb_spec(g0, g1, g2, g3, o1, op_of(2), o3));
                    } else {
                        assert(!try_comb_spec(g0, g1, g2, g3, o1, op_of(3), o3));
                    }
                }
            }
            k1 = k1 + 1;
        }
        proof {
            assert forall|o1: char, o2: char, o3: char| ops_ok(o1, o2, o3)
                implies !try_comb_spec(g0, g1, g2, g3, o1, o2, o3) by {
                if o1 == '+' {
                    assert(!try_comb_spec(g0, g1, g2, g3, op_of(0), o2, o3));
                } else if o1 == '-' {
                    assert(!try_comb_spec(g0, g1, g2, g3, op_of(1), o2, o3));
                } else if o1 == '*' {
                    assert(!try_comb_spec(g0, g1, g2, g3, op_of(2), o2, o3));
                } else {
                    assert(!try_comb_spec(g0, g1, g2, g3, op_of(3), o2, o3));
                }
            }
        }
        false
    }

    /// Decides whether the four digits of `numbers` can reach exactly ten.
    ///
    /// The search walks all index quadruples and keeps only the pairwise
    /// distinct ones — the 24 orderings — then tries all 64 operator triples
    /// and all five shapes on each.  It answers `true` on the first hit and
    /// `false` only once the whole space is exhausted.
    #[verifier::loop_isolation(false)]
    #[verifier::rlimit(60)]
    pub fn can_make_ten(numbers: &GameNumbers) -> (r: bool)
        ensures
            r == can_make_ten_spec(numbers.digits@),
    {
        let digits = numbers.digits;
        let ghost ds = numbers.digits@;
        let mut a: usize = 0;
        while a < 4
            invariant
                a <= 4,
                forall|w: int, x: int, y: int, z: int|
                    0 <= w < a && perm_ok(w, x, y, z) ==> !#[trigger] perm_solves(ds, w, x, y, z),
            decreases 4 - a,
        {
            let mut b: usize = 0;
            while b < 4
                invariant
                    b <= 4,
                    forall|x: int, y: int, z: int|
                        0 <= x < b && perm_ok(a as int, x, y, z) ==> !#[trigger] perm_solves(
                            ds,
                            a as int,
                            x,
                            y,
                            z,
                        ),
                decreases 4 - b,
            {
                let mut c: usize = 0;
                while c < 4
                    invariant
                        c <= 4,
                        forall|y: int, z: int|
                            0 <= y < c && perm_ok(a as int, b as int, y, z)
                                ==> !#[trigger] perm_solves(ds, a as int, b as int, y, z),
                    decreases 4 - c,
                {
                    let mut d: usize = 0;
                    while d < 4
                        invariant
                            d <= 4,
                            forall|z: int|
                                0 <= z < d && perm_ok(a as int, b as int, c as int, z)
                                    ==> !#[trigger] perm_solves(ds, a as int, b as int, c as int, z),
                        decreases 4 - d,
                    {
                        if a != b && a != c && a != d && b != c && b != d && c != d {
                            let nums: [u8; 4] = [digits[a], digits[b], digits[c], digits[d]];
                            if Self::try_all_ops(nums) {
                                proof {
                                    assert(perm_solves(ds, a as int, b as int, c as int, d as int));
                                    assert(perm_ok(a as int, b as int, c as int, d as int));
                                }
                                return true;
                            }
                        }
                        d = d + 1;
                    }
                    c = c + 1;
                }
                b = b + 1;
            }
            a = a + 1;
        }
        proof {
            if can_make_ten_spec(ds) {
                let (w, x, y, z) = choose|w: int, x: int, y: int, z: int|
                    perm_ok(w, x, y, z) && #[trigger] perm_solves(ds, w, x, y, z);
                assert(!perm_solves(ds, w, x, y, z));
            }
        }
        false
    }
}

/// How often the digit `v` occurs in `s`.
pub open spec fn count_of(s: Seq<u8>, v: u8) -> nat
    decreases s.len(),
{
    if s.len() == 0 {
        0
    } else {
        count_of(s.drop_last(), v) + if s.last() == v {
            1nat
        } else {
            0nat
        }
    }
}

/// Two digit sequences hold the same digits with the same multiplicities,
/// in whatever order.
pub open spec fn same_digit_multiset(a: Seq<u8>, b: Seq<u8>) -> bool {
    a.len() == b.len() && forall|v: u8| #[trigger] count_of(a, v) == count_of(b, v)
}

#[verifier::loop_isolation(false)]
fn count_vec(xs: &Vec<u8>, v: u8) -> (n: usize)
    ensures
        n == count_of(xs@, v),
{
    let mut n: usize = 0;
    let mut i: usize = 0;
    while i < xs.len()
        invariant
            i <= xs@.len(),
            n <= i,
            n == count_of(xs@.take(i as int), v),
        decreases xs@.len() - i,
    {
        proof {
            assert(xs@.take(i as int + 1).drop_last() =~= xs@.take(i as int));
            assert(xs@.take(i as int + 1).last() == xs@[i as int]);
        }
        if xs[i] == v {
            n = n + 1;
        }
        i = i + 1;
    }
    proof {
        assert(xs@.take(xs@.len() as int) =~= xs@);
    }
    n
}

#[verifier::loop_isolation(false)]
fn count_arr(xs: &[u8; 4], v: u8) -> (n: usize)
    ensures
        n == count_of(xs@, v),
{
    let mut n: usize = 0;
    let mut i: usize = 0;
    while i < 4
        invariant
            i <= 4,
            n <= i,
            n == count_of(xs@.take(i as int), v),
        decreases 4 - i,
    {
        proof {
            assert(xs@.take(i as int + 1).drop_last() =~= xs@.take(i as int));
            assert(xs@.take(i as int + 1).last() == xs@[i as int]);
        }
        if xs[i] == v {
            n = n + 1;
        }
        i = i + 1;
    }
    proof {
        assert(xs@.take(4) =~= xs@);
    }
    n
}

/// Do the expression's operands use exactly the four puzzle digits?
#[verifier::loop_isolation(false)]
fn digits_match(expr_digits: &Vec<u8>, digits: &[u8; 4]) -> (b: bool)
    ensures
        b == same_digit_multiset(expr_digits@, digits@),
{
    if expr_digits.len() != 4 {
        return false;
    }
    let mut v: u16 = 0;
    while v < 256
        invariant
            v <= 256,
            forall|w: u8| w < v ==> #[trigger] count_of(expr_digits@, w) == count_of(digits@, w),
        decreases 256 - v,
    {
        if count_vec(expr_digits, v as u8) != count_arr(digits, v as u8) {
            return false;
        }
        v = v + 1;
    }
    true
}

/// The outcome of evaluating a player's expression against a puzzle: the
/// exact value it denotes (zero when invalid), whether the expression was
/// valid and evaluated, and whether it used exactly the puzzle's four
/// digits.
#[derive(Debug, Clone, PartialEq)]
pub struct CalculationResult {
    pub result: Rational,
    pub is_valid: bool,
    pub used_all_digits: bool,
}

impl Calculator {
    /// Evaluates the player's expression and relates it to the puzzle.
    ///
    /// The outcome is valid exactly when the expression passes the game's
    /// rules and its fold stays within the magnitude cap, which it always
    /// does for up to twenty-seven tokens; `used_all_digits` additionally
    /// says that the operands are a rearrangement of the puzzle's digits.
    pub fn evaluate_expression(expression: &str, numbers: &GameNumbers) -> (r: CalculationResult)
        ensures
            r.is_valid ==> r.result.wf() && eval_spec(expression@) == Some(r.result@),
            !valid_tokens(tokens_of(expression@)) ==> !r.is_valid,
            valid_tokens(tokens_of(expression@)) && tokens_of(expression@).len() <= 27
                ==> r.is_valid,
            r.used_all_digits == (r.is_valid && same_digit_multiset(
                operand_digits(tokens_of(expression@)),
                numbers.digits@,
            )),
            !r.is_valid ==> r.result@ == int_frac(0) && !r.used_all_digits,
    {
        let chars = chars_of(expression);
        let toks = tokenize(&chars);
        if !check_valid(&toks) {
            return CalculationResult {
                result: Rational { num: 0, den: 1 },
                is_valid: false,
                used_all_digits: false,
            };
        }
        let (ds, ops) = split_tokens(&toks);
        match eval_parts(&ds, &ops) {
            Some(v) => {
                let used = digits_match(&ds, &numbers.digits);
                CalculationResult { result: v, is_valid: true, used_all_digits: used }
            },
            None => CalculationResult {
                result: Rational { num: 0, den: 1 },
                is_valid: false,
                used_all_digits: false,
            },
        }
    }
}

} // verus!
