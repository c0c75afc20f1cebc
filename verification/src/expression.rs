//! The expression evaluator for the player's typed input.
//!
//! The input line is split on runs of blank characters into tokens, which
//! must alternate operand, operator, operand, … with an odd count of at
//! least three.  Each operand must be a single digit between one and nine;
//! each operator one of `+ - * /`.  A valid expression is then folded with
//! the usual precedence: `*` and `/` bind tighter than `+` and `-`, and
//! operators of equal precedence associate to the left.  Any rule violation
//! yields no result, as does an expression whose exact intermediate values
//! leave the magnitude cap of `Rational`.

use vstd::prelude::*;

use crate::calculator::Calculator;
use crate::rational::{
    frac_add, frac_apply, frac_bounded, frac_div, frac_mul, frac_sub, int_frac, is_op_char,
    lemma_apply_bounded, Frac, Rational,
};

verus! {

/// The separators between tokens: the ASCII blank characters (space,
/// horizontal tab, line feed, vertical tab, form feed, carriage return).
pub open spec fn is_ws(c: char) -> bool {
    c == ' ' || 9 <= c as u32 <= 13
}

/// The blank-separated tokens of `s`, in order.  A trailing blank closes the
/// current token; a non-blank character opens a new token or extends the one
/// it follows.
pub open spec fn tokens_of(s: Seq<char>) -> Seq<Seq<char>>
    decreases s.len(),
{
    if s.len() == 0 {
        Seq::empty()
    } else {
        let c = s.last();
        let pre = tokens_of(s.drop_last());
        if is_ws(c) {
            pre
        } else if s.len() >= 2 && !is_ws(s[s.len() - 2]) {
            pre.update(pre.len() - 1, pre.last().push(c))
        } else {
            pre.push(seq![c])
        }
    }
}

/// The character sequences held by a vector of tokens.
pub open spec fn token_views(toks: Seq<Vec<char>>) -> Seq<Seq<char>> {
    Seq::new(toks.len(), |i: int| toks[i]@)
}

/// A string that ends in a non-blank character has at least one token.
proof fn lemma_tokens_nonempty(s: Seq<char>)
    requires
        s.len() >= 1,
        !is_ws(s.last()),
    ensures
        tokens_of(s).len() >= 1,
    decreases s.len(),
{
    if s.len() >= 2 && !is_ws(s[s.len() - 2]) {
        let pre = s.drop_last();
        assert(pre.last() == s[s.len() - 2]);
        lemma_tokens_nonempty(pre);
    }
}

/// Relies on `str::chars`: the characters of the string, in order.
#[verifier::external_body]
pub(crate) fn chars_of(s: &str) -> (v: Vec<char>)
    ensures
        v@ == s@,
{
    s.chars().collect()
}

fn is_blank(c: char) -> (b: bool)
    ensures
        b == is_ws(c),
{
    c == ' ' || (c as u32 >= 9 && c as u32 <= 13)
}

/// Splits the characters into blank-separated tokens.
#[verifier::loop_isolation(false)]
pub(crate) fn tokenize(v: &Vec<char>) -> (toks: Vec<Vec<char>>)
    ensures
        token_views(toks@) == tokens_of(v@),
{
    let mut toks: Vec<Vec<char>> = Vec::new();
    let mut i: usize = 0;
    while i < v.len()
        invariant
            i <= v.len(),
            token_views(toks@) == tokens_of(v@.take(i as int)),
        decreases v.len() - i,
    {
        let c = v[i];
        let ghost pre = v@.take(i as int);
        let ghost cur = v@.take(i as int + 1);
        proof {
            assert(cur.drop_last() =~= pre);
            assert(cur.last() == v@[i as int]);
        }
        if is_blank(c) {
            proof {
                assert(token_views(toks@) == tokens_of(cur));
            }
        } else if i > 0 && !is_blank(v[i - 1]) {
            proof {
                assert(cur[cur.len() - 2] == v@[i as int - 1]);
                lemma_tokens_nonempty(pre);
            }
            let mut t = toks.pop().unwrap();
            t.push(c);
            toks.push(t);
            proof {
                assert(token_views(toks@) =~~= tokens_of(cur));
            }
        } else {
            let mut t: Vec<char> = Vec::new();
            t.push(c);
            toks.push(t);
            proof {
                assert(token_views(toks@) =~~= tokens_of(cur));
            }
        }
        i = i + 1;
    }
    proof {
        assert(v@.take(v@.len() as int) =~= v@);
    }
    toks
}

/// A digit the game accepts as an operand: one through nine, never zero.
pub open spec fn is_digit_char(c: char) -> bool {
    49 <= c as u32 <= 57
}

/// The numeric value of a digit character.
pub open spec fn digit_val(c: char) -> u8 {
    (c as u32 - 48) as u8
}

pub open spec fn is_digit_token(t: Seq<char>) -> bool {
    t.len() == 1 && is_digit_char(t[0])
}

pub open spec fn is_op_token(t: Seq<char>) -> bool {
    t.len() == 1 && is_op_char(t[0])
}

/// The game's rules for a token sequence: at least three tokens, an odd
/// count (so it begins and ends on an operand), single digits one to nine at
/// the even positions, and one of the four operators at the odd positions.
pub open spec fn valid_tokens(ts: Seq<Seq<char>>) -> bool {
    &&& ts.len() >= 3
    &&& ts.len() % 2 == 1
    &&& forall|i: int| 0 <= i < ts.len() && i % 2 == 0 ==> is_digit_token(#[trigger] ts[i])
    &&& forall|i: int| 0 <= i < ts.len() && i % 2 == 1 ==> is_op_token(#[trigger] ts[i])
}

/// The operand digits of a valid token sequence, in order.
pub open spec fn operand_digits(ts: Seq<Seq<char>>) -> Seq<u8> {
    Seq::new((ts.len() + 1) / 2, |i: int| digit_val(ts[2 * i][0]))
}

/// The operator characters of a valid token sequence, in order.
pub open spec fn operator_chars(ts: Seq<Seq<char>>) -> Seq<char> {
    Seq::new(ts.len() / 2, |i: int| ts[2 * i + 1][0])
}

/// Closing an additive group: fold the finished term into the running sum
/// under the pending additive operator.
pub open spec fn add_step(op: char, sum: Frac, term: Frac) -> Frac {
    if op == '-' {
        frac_sub(sum, term)
    } else {
        frac_add(sum, term)
    }
}

/// One multiplicative step: extend the current term by the next operand.
pub open spec fn mul_step(op: char, term: Frac, d: Frac) -> Frac {
    if op == '/' {
        frac_div(term, d)
    } else {
        frac_mul(term, d)
    }
}

/// The precedence fold.  `sum` holds the additive groups closed so far,
/// `pending` the additive operator waiting to fold in the current `term`,
/// and `ds`/`ops` the operands and operators still to process, where `ds[k]`
/// is the right operand of `ops[k]`.  Multiplicative operators extend the
/// term; additive operators close it and open a new one.
pub open spec fn eval_loop(sum: Frac, pending: char, term: Frac, ds: Seq<u8>, ops: Seq<char>) -> Frac
    recommends
        ds.len() == ops.len(),
    decreases ops.len(),
{
    if ops.len() == 0 {
        add_step(pending, sum, term)
    } else if ops[0] == '*' || ops[0] == '/' {
        eval_loop(
            sum,
            pending,
            mul_step(ops[0], term, int_frac(ds[0] as int)),
            ds.drop_first(),
            ops.drop_first(),
        )
    } else {
        eval_loop(
            add_step(pending, sum, term),
            ops[0],
            int_frac(ds[0] as int),
            ds.drop_first(),
            ops.drop_first(),
        )
    }
}

/// The value of `ds[0] ops[0] ds[1] ops[1] …`, folding `*` and `/` before
/// `+` and `-` and associating equal precedence to the left.  Total because
/// a valid expression only ever divides by a digit, never by zero.
pub open spec fn eval_expr(ds: Seq<u8>, ops: Seq<char>) -> Frac
    recommends
        ds.len() == ops.len() + 1,
{
    eval_loop(int_frac(0), '+', int_frac(ds[0] as int), ds.drop_first(), ops)
}

/// What evaluating an input line means: tokenize it, hold the tokens to the
/// game's rules, and fold the expression with precedence; no result if any
/// rule fails.
pub open spec fn eval_spec(s: Seq<char>) -> Option<Frac> {
    let ts = tokens_of(s);
    if valid_tokens(ts) {
        Some(eval_expr(operand_digits(ts), operator_chars(ts)))
    } else {
        None
    }
}

/// The growth budget of the fold: each processed operator multiplies the
/// bound on the components of the running sum and term by at most eighteen.
spec fn pow18(n: nat) -> int
    decreases n,
{
    if n == 0 {
        1
    } else {
        18 * pow18((n - 1) as nat)
    }
}

proof fn lemma_pow18_pos(n: nat)
    ensures
        pow18(n) >= 1,
    decreases n,
{
    if n > 0 {
        lemma_pow18_pos((n - 1) as nat);
    }
}

proof fn lemma_pow18_mono(i: nat, j: nat)
    requires
        i <= j,
    ensures
        pow18(i) <= pow18(j),
    decreases j,
{
    if i < j {
        lemma_pow18_mono(i, (j - 1) as nat);
        lemma_pow18_pos((j - 1) as nat);
    }
}

proof fn lemma_pow18_14()
    ensures
        pow18(14) == 374813367582081024,
{
    reveal_with_fuel(pow18, 15);
}

proof fn lemma_le_mul(a: int, b: int)
    by (nonlinear_arith)
    requires
        1 <= a,
        1 <= b,
    ensures
        b <= a * b,
        a <= a * b,
        1 <= a * b,
{
}

fn is_digit(c: char) -> (b: bool)
    ensures
        b == is_digit_char(c),
{
    c as u32 >= 49 && c as u32 <= 57
}

fn is_operator(c: char) -> (b: bool)
    ensures
        b == is_op_char(c),
{
    c == '+' || c == '-' || c == '*' || c == '/'
}

fn digit_of(c: char) -> (d: u8)
    requires
        is_digit_char(c),
    ensures
        d == digit_val(c),
        1 <= d <= 9,
{
    (c as u32 - 48) as u8
}

/// Holds the tokens to the game's rules.
#[verifier::loop_isolation(false)]
pub(crate) fn check_valid(toks: &Vec<Vec<char>>) -> (b: bool)
    ensures
        b == valid_tokens(token_views(toks@)),
{
    let n = toks.len();
    if n < 3 || n % 2 == 0 {
        return false;
    }
    let mut i: usize = 0;
    while i < n
        invariant
            i <= n,
            forall|j: int|
                0 <= j < i && j % 2 == 0 ==> is_digit_token(#[trigger] token_views(toks@)[j]),
            forall|j: int|
                0 <= j < i && j % 2 == 1 ==> is_op_token(#[trigger] token_views(toks@)[j]),
        decreases n - i,
    {
        let t = &toks[i];
        proof {
            assert(t@ == token_views(toks@)[i as int]);
        }
        if i % 2 == 0 {
            if !(t.len() == 1 && is_digit(t[0])) {
                proof {
                    assert(!is_digit_token(token_views(toks@)[i as int]));
                }
                return false;
            }
        } else {
            if !(t.len() == 1 && is_operator(t[0])) {
                proof {
                    assert(!is_op_token(token_views(toks@)[i as int]));
                }
                return false;
            }
        }
        i = i + 1;
    }
    true
}

/// Splits valid tokens into the operand digits and the operator characters.
#[verifier::loop_isolation(false)]
pub(crate) fn split_tokens(toks: &Vec<Vec<char>>) -> (parts: (Vec<u8>, Vec<char>))
    requires
        valid_tokens(token_views(toks@)),
    ensures
        parts.0@ == operand_digits(token_views(toks@)),
        parts.1@ == operator_chars(token_views(toks@)),
        parts.0@.len() == parts.1@.len() + 1,
        forall|k: int| 0 <= k < parts.0@.len() ==> 1 <= #[trigger] parts.0@[k] <= 9,
        forall|k: int| 0 <= k < parts.1@.len() ==> is_op_char(#[trigger] parts.1@[k]),
{
    let ghost ts = token_views(toks@);
    let mut ds: Vec<u8> = Vec::new();
    let mut ops: Vec<char> = Vec::new();
    let n = toks.len();
    let mut i: usize = 0;
    while i < n
        invariant
            i <= n,
            ds@.len() == (i + 1) / 2,
            ops@.len() == i / 2,
            forall|k: int| 0 <= k < ds@.len() ==> #[trigger] ds@[k] == digit_val(ts[2 * k][0]),
            forall|k: int| 0 <= k < ops@.len() ==> #[trigger] ops@[k] == ts[2 * k + 1][0],
        decreases n - i,
    {
        let t = &toks[i];
        if i % 2 == 0 {
            proof {
                assert(is_digit_token(ts[i as int]));
                assert(t@ == ts[i as int]);
            }
            ds.push(digit_of(t[0]));
        } else {
            proof {
                assert(is_op_token(ts[i as int]));
                assert(t@ == ts[i as int]);
            }
            ops.push(t[0]);
        }
        i = i + 1;
    }
    proof {
        assert(ds@ =~= operand_digits(ts));
        assert(ops@ =~= operator_chars(ts));
        assert forall|k: int| 0 <= k < ds@.len() implies 1 <= #[trigger] ds@[k] <= 9 by {
            assert(is_digit_token(ts[2 * k]));
        }
        assert forall|k: int| 0 <= k < ops@.len() implies is_op_char(#[trigger] ops@[k]) by {
            assert(is_op_token(ts[2 * k + 1]));
        }
    }
    (ds, ops)
}

/// Folds validated operands and operators with precedence.  The result is
/// absent only when some exact intermediate value leaves the magnitude cap,
/// which cannot happen below fourteen operands.
#[verifier::loop_isolation(false)]
pub(crate) fn eval_parts(ds: &Vec<u8>, ops: &Vec<char>) -> (r: Option<Rational>)
    requires
        ds@.len() == ops@.len() + 1,
        forall|k: int| 0 <= k < ds@.len() ==> 1 <= #[trigger] ds@[k] <= 9,
        forall|k: int| 0 <= k < ops@.len() ==> is_op_char(#[trigger] ops@[k]),
    ensures
        r matches Some(v) ==> v.wf() && v@ == eval_expr(ds@, ops@),
        ops@.len() <= 13 ==> r is Some,
{
    let mut sum = Rational::from_u8(0);
    let mut pending: char = '+';
    let mut term = Rational::from_u8(ds[0]);
    let ghost mut ms: int = 1;
    let ghost mut mt: int = 9;
    proof {
        assert(pow18(0) == 1);
        assert(pow18(1) == 18);
        assert(ds@.drop_first() =~= ds@.skip(1));
        assert(ops@.skip(0) =~= ops@);
    }
    let mut i: usize = 0;
    while i < ops.len()
        invariant
            i <= ops@.len(),
            sum.wf(),
            term.wf(),
            frac_bounded(sum@, ms),
            frac_bounded(term@, mt),
            1 <= ms,
            1 <= mt,
            ms * mt <= pow18((i + 1) as nat),
            pending == '+' || pending == '-',
            eval_loop(sum@, pending, term@, ds@.skip(i as int + 1), ops@.skip(i as int))
                == eval_expr(ds@, ops@),
        decreases ops@.len() - i,
    {
        let op = ops[i];
        let d = Rational::from_u8(ds[i + 1]);
        proof {
            assert(ops@.skip(i as int).drop_first() =~= ops@.skip(i as int + 1));
            assert(ds@.skip(i as int + 1).drop_first() =~= ds@.skip(i as int + 2));
            assert(ops@.skip(i as int)[0] == ops@[i as int]);
            assert(ds@.skip(i as int + 1)[0] == ds@[i as int + 1]);
            lemma_le_mul(ms, mt);
            assert(pow18((i + 2) as nat) == 18 * pow18((i + 1) as nat));
            assert((2 * ms * mt) * 9 == 18 * (ms * mt)) by (nonlinear_arith);
            assert(ms * (18 * mt) == 18 * (ms * mt)) by (nonlinear_arith);
            assert(2 * ms * mt == 2 * (ms * mt)) by (nonlinear_arith);
        }
        if op == '*' || op == '/' {
            proof {
                lemma_apply_bounded(op, term@, d@, mt, 9);
            }
            match Calculator::apply_ops(Some(term), op, Some(d)) {
                Some(t) => {
                    proof {
                        assert(t@ == mul_step(op, term@, int_frac(ds@[i as int + 1] as int)));
                        assert(eval_loop(
                            sum@,
                            pending,
                            t@,
                            ds@.skip(i as int + 2),
                            ops@.skip(i as int + 1),
                        ) == eval_expr(ds@, ops@));
                        mt = 18 * mt;
                    }
                    term = t;
                },
                None => {
                    proof {
                        if ops@.len() <= 13 {
                            lemma_pow18_mono((i + 2) as nat, 14);
                            lemma_pow18_14();
                            crate::rational::lemma_max_mag_value();
                            match frac_apply(op, term@, d@) {
                                Some(f) => {
                                    assert(frac_bounded(f, 2 * mt * 9));
                                    assert(2 * mt * 9 <= pow18(14));
                                    assert(false);
                                },
                                None => {
                                    assert(d@.num >= 1);
                                    assert(false);
                                },
                            }
                        }
                    }
                    return None;
                },
            }
        } else {
            proof {
                lemma_apply_bounded(pending, sum@, term@, ms, mt);
            }
            match Calculator::apply_ops(Some(sum), pending, Some(term)) {
                Some(s) => {
                    proof {
                        assert(s@ == add_step(pending, sum@, term@));
                        assert(eval_loop(
                            s@,
                            op,
                            int_frac(ds@[i as int + 1] as int),
                            ds@.skip(i as int + 2),
                            ops@.skip(i as int + 1),
                        ) == eval_expr(ds@, ops@));
                        ms = 2 * ms * mt;
                        mt = 9;
                    }
                    sum = s;
                    pending = op;
                    term = d;
                },
                None => {
                    proof {
                        if ops@.len() <= 13 {
                            lemma_pow18_mono((i + 2) as nat, 14);
                            lemma_pow18_14();
                            crate::rational::lemma_max_mag_value();
                            match frac_apply(pending, sum@, term@) {
                                Some(f) => {
                                    assert(frac_bounded(f, 2 * ms * mt));
                                    assert(2 * ms * mt <= pow18(14));
                                    assert(false);
                                },
                                None => {
                                    assert(false);
                                },
                            }
                        }
                    }
                    return None;
                },
            }
        }
        i = i + 1;
    }
    proof {
        assert(ops@.skip(ops@.len() as int) =~= Seq::<char>::empty());
        assert(ds@.skip(ds@.len() as int) =~= Seq::<u8>::empty());
        lemma_apply_bounded(pending, sum@, term@, ms, mt);
        lemma_le_mul(ms, mt);
    }
    match Calculator::apply_ops(Some(sum), pending, Some(term)) {
        Some(v) => Some(v),
        None => {
            proof {
                if ops@.len() <= 13 {
                    lemma_pow18_mono((ops@.len() + 1) as nat, 14);
                    lemma_pow18_14();
                    crate::rational::lemma_max_mag_value();
                    assert(2 * ms * mt == 2 * (ms * mt)) by (nonlinear_arith);
                    match frac_apply(pending, sum@, term@) {
                        Some(f) => {
                            assert(frac_bounded(f, 2 * ms * mt));
                            assert(2 * ms * mt <= 2 * pow18(14));
                            assert(false);
                        },
                        None => {
                            assert(false);
                        },
                    }
                }
            }
            None
        },
    }
}

/// Parses and evaluates one input line.
///
/// The result is present exactly when the line satisfies the game's rules —
/// blank-separated tokens alternating digit (one to nine) and operator, odd
/// count of at least three — and the precedence fold stays within the
/// magnitude cap, which it always does for the lines the game produces
/// (up to twenty-seven tokens).  The value is the exact rational the
/// expression denotes.
pub fn evaluate_expression(expression: &str) -> (r: Option<Rational>)
    ensures
        r matches Some(v) ==> v.wf() && eval_spec(expression@) == Some(v@),
        eval_spec(expression@) is Some && tokens_of(expression@).len() <= 27 ==> r is Some,
{
    let chars = chars_of(expression);
    let toks = tokenize(&chars);
    if !check_valid(&toks) {
        return None;
    }
    let (ds, ops) = split_tokens(&toks);
    eval_parts(&ds, &ops)
}

} // verus!
