//! Exact rational arithmetic for the game engine.
//!
//! Every quantity the engine computes is a quotient of two integers, kept as
//! an explicit numerator/denominator pair.  Working with exact quotients means
//! that "the result equals ten" is a crisp statement (`num == 10 * den`)
//! rather than a tolerance check, and division by zero is simply the absence
//! of a result.

use vstd::prelude::*;

verus! {

/// Executable rationals keep both components within this magnitude so that
/// every product of two components fits comfortably in an `i128`.
pub const MAX_MAG: i128 = 0x1000_0000_0000_0000;

/// A rational number in its mathematical form: `num / den`.
///
/// Well-formed values keep `den >= 1`; the sign lives in the numerator.
/// Pairs are not reduced, so two `Frac` values may denote the same rational
/// without being equal as pairs; contracts that only care about the denoted
/// value say so through `frac_is_int` or cross-multiplication.
pub struct Frac {
    pub num: int,
    pub den: int,
}

/// A well-formed fraction has a positive denominator.
pub open spec fn frac_wf(f: Frac) -> bool {
    f.den >= 1
}

/// The whole number `n` as a fraction.
pub open spec fn int_frac(n: int) -> Frac {
    (Frac { num: n, den: 1 })
}

/// Both components of `f` stay within magnitude `m`.
pub open spec fn frac_bounded(f: Frac, m: int) -> bool {
    -m <= f.num <= m && 1 <= f.den <= m
}

/// The fraction `f` denotes exactly the whole number `n`.
pub open spec fn frac_is_int(f: Frac, n: int) -> bool {
    f.num == n * f.den
}

pub open spec fn frac_add(a: Frac, b: Frac) -> Frac {
    (Frac { num: a.num * b.den + b.num * a.den, den: a.den * b.den })
}

pub open spec fn frac_sub(a: Frac, b: Frac) -> Frac {
    (Frac { num: a.num * b.den - b.num * a.den, den: a.den * b.den })
}

pub open spec fn frac_mul(a: Frac, b: Frac) -> Frac {
    (Frac { num: a.num * b.num, den: a.den * b.den })
}

/// Division keeps the denominator positive by moving the divisor's sign into
/// the numerator.  Meaningful only when `b.num != 0`; callers guard that case.
pub open spec fn frac_div(a: Frac, b: Frac) -> Frac {
    if b.num >= 0 {
        (Frac { num: a.num * b.den, den: a.den * b.num })
    } else {
        (Frac { num: -(a.num * b.den), den: a.den * -b.num })
    }
}

/// The four operators the game knows.
pub open spec fn is_op_char(c: char) -> bool {
    c == '+' || c == '-' || c == '*' || c == '/'
}

/// Applying one operator character to two fractions.  Division by an exact
/// zero has no result, and so does an unknown operator character.
pub open spec fn frac_apply(op: char, a: Frac, b: Frac) -> Option<Frac> {
    if op == '+' {
        Some(frac_add(a, b))
    } else if op == '-' {
        Some(frac_sub(a, b))
    } else if op == '*' {
        Some(frac_mul(a, b))
    } else if op == '/' {
        if b.num == 0 {
            None
        } else {
            Some(frac_div(a, b))
        }
    } else {
        None
    }
}

/// `frac_apply` lifted to absent operands: once a sub-computation has no
/// result, every computation built on top of it has no result either.
pub open spec fn opt_apply(op: char, a: Option<Frac>, b: Option<Frac>) -> Option<Frac> {
    match (a, b) {
        (Some(x), Some(y)) => frac_apply(op, x, y),
        _ => None,
    }
}

/// The numeric value of the magnitude cap, for reasoning in other modules.
pub proof fn lemma_max_mag_value()
    ensures
        MAX_MAG == 0x1000000000000000i128,
{
}

/// The ghost image of an optional executable rational.
pub open spec fn opt_view(a: Option<Rational>) -> Option<Frac> {
    match a {
        Some(x) => Some(x@),
        None => None,
    }
}

/// A product of two bounded factors is bounded by the product of the bounds.
pub proof fn lemma_mul_bound(x: int, y: int, mx: int, my: int)
    by (nonlinear_arith)
    requires
        -mx <= x <= mx,
        -my <= y <= my,
        0 <= mx,
        0 <= my,
    ensures
        -(mx * my) <= x * y <= mx * my,
{
}

proof fn lemma_mul_pos(x: int, y: int)
    by (nonlinear_arith)
    requires
        1 <= x,
        1 <= y,
    ensures
        1 <= x * y,
{
}

/// Applying an operator at most doubles the product of the operand bounds:
/// whenever both operands are well formed and bounded by `ma` and `mb`, any
/// result is well formed and bounded by `2 * ma * mb`.
pub proof fn lemma_apply_bounded(op: char, a: Frac, b: Frac, ma: int, mb: int)
    requires
        frac_wf(a),
        frac_wf(b),
        frac_bounded(a, ma),
        frac_bounded(b, mb),
    ensures
        frac_apply(op, a, b) matches Some(f) ==> frac_wf(f) && frac_bounded(f, 2 * ma * mb),
{
    assert(ma * mb == mb * ma) by (nonlinear_arith);
    assert(2 * ma * mb == 2 * (ma * mb)) by (nonlinear_arith);
    lemma_mul_bound(a.num, b.den, ma, mb);
    lemma_mul_bound(b.num, a.den, mb, ma);
    lemma_mul_bound(a.num, b.num, ma, mb);
    lemma_mul_bound(a.den, b.den, ma, mb);
    lemma_mul_pos(a.den, b.den);
    lemma_mul_pos(ma, mb);
    if op == '/' && b.num != 0 {
        if b.num >= 0 {
            lemma_mul_pos(a.den, b.num);
            lemma_mul_bound(a.den, b.num, ma, mb);
        } else {
            lemma_mul_pos(a.den, -b.num);
            lemma_mul_bound(a.den, -b.num, ma, mb);
        }
    }
}

/// An exact rational number as executable data.
///
/// The well-formedness predicate `wf` keeps both components within `MAX_MAG`,
/// which lets the arithmetic below run in `i128` without overflow.
#[derive(Clone, Copy, Debug, PartialEq, Eq, Structural)]
pub struct Rational {
    pub num: i128,
    pub den: i128,
}

impl View for Rational {
    type V = Frac;

    open spec fn view(&self) -> Frac {
        (Frac { num: self.num as int, den: self.den as int })
    }
}

impl Rational {
    pub open spec fn wf(self) -> bool {
        frac_wf(self@) && frac_bounded(self@, MAX_MAG as int)
    }

    /// The digit `d` as a rational number.
    pub fn from_u8(d: u8) -> (r: Rational)
        ensures
            r@ == int_frac(d as int),
            r.wf(),
    {
        Rational { num: d as i128, den: 1 }
    }

    /// Does this rational denote exactly the whole number `n`?
    pub fn is_int_value(&self, n: i128) -> (r: bool)
        requires
            self.wf(),
            -MAX_MAG <= n <= MAX_MAG,
    ensures
            r == frac_is_int(self@, n as int),
    {
        proof {
            lemma_mul_bound(n as int, self.den as int, MAX_MAG as int, MAX_MAG as int);
            assert((MAX_MAG as int) * (MAX_MAG as int) < i128::MAX) by (nonlinear_arith);
        }
        self.num == n * self.den
    }
}

} // verus!
