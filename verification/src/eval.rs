//! Exact evaluation of expression trees.
//!
//! The value of a numeral, and of every arithmetic combination, is computed
//! in exact rational arithmetic. Division by an exact zero, a logarithm of a
//! value at or below zero, a square root of a negative value, and the
//! negation of a group whose value is negative are invalid. A value that the
//! bounded exact arithmetic cannot represent — an irrational logarithm or
//! root, or any quantity outside the signed 64-bit range — is indeterminate.
//!
//! A compound expression is folded in two passes, exactly as the grammar's
//! flat operand list suggests: first every `*` and `/` is collapsed into its
//! left operand, left to right; then the remaining `+` and `-` are folded
//! left to right.

use vstd::prelude::*;

use crate::ast::{BinOp, Compound, CompoundView, Expr, ExprView, Operand, OperandView, ParseError};
use crate::chars::is_digit;
use crate::grammar::{is_numeral, spec_parse, wf_compound, wf_expr, wf_operand};
use crate::parser::parse_expr;
use crate::rational::{
    exact_add, exact_div, exact_log, exact_mul, exact_sqrt, exact_sub, in64, is_square, isqrt64,
    lemma_sqrt_unique, outcome_add, outcome_div, outcome_mul, outcome_sub, outcome_valid,
    sqrt_of, ExactOutcome, Outcome, Rat,
};

verus! {

/// The numeric value of one character between `0` and `9`.
pub open spec fn digit_val(c: char) -> int {
    c as int - '0' as int
}

/// The value of a numeral, read left to right: `acc` is the numerator read
/// so far, `den` the power of ten for the digits after the decimal point.
pub open spec fn numeral_value_rec(s: Seq<char>, acc: int, den: int, seen_dot: bool) -> (int, int)
    decreases s.len(),
{
    if s.len() == 0 {
        (acc, den)
    } else if s[0] == '.' {
        numeral_value_rec(s.drop_first(), acc, den, true)
    } else {
        numeral_value_rec(
            s.drop_first(),
            acc * 10 + digit_val(s[0]),
            if seen_dot {
                den * 10
            } else {
                den
            },
            seen_dot,
        )
    }
}

/// The value of a numeral as an exact fraction: `"12.5"` denotes `125 / 10`.
pub open spec fn numeral_value(s: Seq<char>) -> (int, int) {
    numeral_value_rec(s, 0, 1, false)
}

/// Reading further digits never shrinks the accumulated numerator or
/// denominator.
pub proof fn lemma_numeral_value_rec_monotone(s: Seq<char>, acc: int, den: int, seen_dot: bool)
    requires
        acc >= 0,
        den >= 1,
        forall|m: int| 0 <= m < s.len() ==> is_digit(#[trigger] s[m]) || s[m] == '.',
    ensures
        numeral_value_rec(s, acc, den, seen_dot).0 >= acc,
        numeral_value_rec(s, acc, den, seen_dot).1 >= den,
    decreases s.len(),
{
    if s.len() > 0 {
        if s[0] == '.' {
            lemma_numeral_value_rec_monotone(s.drop_first(), acc, den, true);
        } else {
            assert(is_digit(s[0]));
            assert(acc * 10 >= acc) by (nonlinear_arith)
                requires
                    acc >= 0,
            ;
            assert(den * 10 >= den) by (nonlinear_arith)
                requires
                    den >= 1,
            ;
            lemma_numeral_value_rec_monotone(
                s.drop_first(),
                acc * 10 + digit_val(s[0]),
                if seen_dot {
                    den * 10
                } else {
                    den
                },
                seen_dot,
            );
        }
    }
}

/// The exact outcome of a possibly negated numeral.
pub open spec fn literal_outcome(negated: bool, digits: Seq<char>) -> ExactOutcome {
    let nv = numeral_value(digits);
    if in64(nv.0) && in64(nv.1) {
        ExactOutcome::Rational {
            num: if negated {
                -nv.0
            } else {
                nv.0
            },
            den: nv.1,
        }
    } else {
        ExactOutcome::Indeterminate
    }
}

/// The exact outcome of one operand. Negating a group is invalid when the
/// group's value is negative.
pub open spec fn operand_outcome(o: OperandView) -> ExactOutcome
    decreases o, 2nat,
{
    match o {
        OperandView::Number { negated, digits } => literal_outcome(negated, digits),
        OperandView::Group { negated, inner } => {
            let v = compound_outcome(inner);
            if negated {
                match v {
                    ExactOutcome::Invalid => ExactOutcome::Invalid,
                    ExactOutcome::Indeterminate => ExactOutcome::Indeterminate,
                    ExactOutcome::Rational { num, den } => {
                        if num < 0 {
                            ExactOutcome::Invalid
                        } else {
                            ExactOutcome::Rational { num: -num, den }
                        }
                    },
                }
            } else {
                v
            }
        },
    }
}

/// The exact outcomes of a sequence of operands, element by element.
pub open spec fn operand_outcomes(v: Seq<OperandView>) -> Seq<ExactOutcome>
    decreases v, 0nat,
    via operand_outcomes_decreases
{
    Seq::new(
        v.len(),
        |i: int|
            if 0 <= i < v.len() {
                operand_outcome(v[i])
            } else {
                arbitrary()
            },
    )
}

#[via_fn]
proof fn operand_outcomes_decreases(v: Seq<OperandView>) {
    broadcast use vstd::seq::axiom_seq_index_decreases;

}

/// The multiplicative pass: each `*` or `/` is collapsed into its left
/// operand, left to right; additive operators and their left operands are
/// kept.
pub open spec fn mul_pass(vals: Seq<ExactOutcome>, ops: Seq<BinOp>) -> (
    Seq<ExactOutcome>,
    Seq<BinOp>,
)
    decreases ops.len(),
{
    if ops.len() == 0 || vals.len() <= 1 {
        (vals, ops)
    } else if ops[0] == BinOp::Mul {
        mul_pass(seq![exact_mul(vals[0], vals[1])] + vals.skip(2), ops.drop_first())
    } else if ops[0] == BinOp::Div {
        mul_pass(seq![exact_div(vals[0], vals[1])] + vals.skip(2), ops.drop_first())
    } else {
        let rest = mul_pass(vals.drop_first(), ops.drop_first());
        (seq![vals[0]] + rest.0, seq![ops[0]] + rest.1)
    }
}

/// The additive pass: what remains after the multiplicative pass is folded
/// left to right; only `+` and `-` may remain.
pub open spec fn add_pass(vals: Seq<ExactOutcome>, ops: Seq<BinOp>) -> ExactOutcome
    decreases ops.len(),
{
    if vals.len() == 0 {
        ExactOutcome::Invalid
    } else if ops.len() == 0 {
        vals[0]
    } else if vals.len() == 1 {
        ExactOutcome::Invalid
    } else if ops[0] == BinOp::Add {
        add_pass(seq![exact_add(vals[0], vals[1])] + vals.skip(2), ops.drop_first())
    } else if ops[0] == BinOp::Sub {
        add_pass(seq![exact_sub(vals[0], vals[1])] + vals.skip(2), ops.drop_first())
    } else {
        ExactOutcome::Invalid
    }
}

/// The exact outcome of a compound expression: operand values, then the two
/// folding passes.
pub open spec fn compound_outcome(c: CompoundView) -> ExactOutcome
    decreases c, 1nat,
{
    if c.operands.len() == 0 || c.operands.len() != c.operators.len() + 1 {
        ExactOutcome::Invalid
    } else {
        let folded = mul_pass(operand_outcomes(c.operands), c.operators);
        add_pass(folded.0, folded.1)
    }
}

/// The exact outcome of a whole expression.
pub open spec fn exact_value(e: ExprView) -> ExactOutcome
    decreases e, 2nat,
{
    match e {
        ExprView::Literal { negated, digits } => literal_outcome(negated, digits),
        ExprView::Log { inner } => exact_log(exact_value(*inner)),
        ExprView::Sqrt { inner } => exact_sqrt(exact_value(*inner)),
        ExprView::Compound { compound } => compound_outcome(compound),
    }
}

/// The views of a vector of outcomes.
pub open spec fn outcome_views(v: Seq<Outcome>) -> Seq<ExactOutcome> {
    Seq::new(v.len(), |i: int| v[i]@)
}

/// Every rational in the vector carries a positive denominator.
pub open spec fn all_valid(v: Seq<Outcome>) -> bool {
    forall|m: int| 0 <= m < v.len() ==> outcome_valid(#[trigger] v[m])
}

/// Converts the digits of a numeral to an exact rational, or reports that
/// its numerator or denominator leaves the 64-bit range.
fn numeral_to_rat(digits: &Vec<char>) -> (r: Option<Rat>)
    requires
        is_numeral(digits@),
    ensures
        match r {
            Some(rat) => rat.num as int == numeral_value(digits@).0 && rat.den as int
                == numeral_value(digits@).1 && rat.num >= 0 && rat.den >= 1,
            None => !(in64(numeral_value(digits@).0) && in64(numeral_value(digits@).1)),
        },
{
    let n = digits.len();
    let mut acc: i64 = 0;
    let mut den: i64 = 1;
    let mut dot: bool = false;
    let mut i: usize = 0;
    proof {
        assert(digits@.subrange(0, n as int) =~= digits@);
    }
    while i < n
        invariant
            n == digits@.len(),
            i <= n,
            acc >= 0,
            den >= 1,
            is_numeral(digits@),
            numeral_value(digits@) == numeral_value_rec(
                digits@.subrange(i as int, n as int),
                acc as int,
                den as int,
                dot,
            ),
        decreases n - i,
    {
        let ghost suffix = digits@.subrange(i as int, n as int);
        proof {
            assert(suffix.drop_first() =~= digits@.subrange(i + 1, n as int));
            assert(suffix[0] == digits@[i as int]);
            assert(forall|m: int|
                0 <= m < suffix.len() ==> is_digit(#[trigger] suffix[m]) || suffix[m] == '.');
        }
        let c = digits[i];
        if c == '.' {
            dot = true;
        } else {
            proof {
                assert(is_digit(digits@[i as int]));
            }
            let d = (c as u32 - '0' as u32) as i64;
            let den2: i64 = if dot {
                match den.checked_mul(10) {
                    Some(d2) => d2,
                    None => {
                        proof {
                            lemma_numeral_value_rec_monotone(
                                suffix.drop_first(),
                                acc * 10 + digit_val(digits@[i as int]),
                                den * 10,
                                dot,
                            );
                            assert(acc * 10 >= 0) by (nonlinear_arith)
                                requires
                                    acc >= 0,
                            ;
                        }
                        return None;
                    },
                }
            } else {
                den
            };
            match acc.checked_mul(10) {
                None => {
                    proof {
                        lemma_numeral_value_rec_monotone(
                            suffix.drop_first(),
                            acc * 10 + digit_val(digits@[i as int]),
                            if dot {
                                den * 10
                            } else {
                                den as int
                            },
                            dot,
                        );
                        assert(acc * 10 >= 0 && acc * 10 + digit_val(digits@[i as int]) > i64::MAX)
                            by (nonlinear_arith)
                            requires
                                acc >= 0,
                                acc * 10 > i64::MAX || acc * 10 < i64::MIN,
                                0 <= digit_val(digits@[i as int]),
                        ;
                    }
                    return None;
                },
                Some(t) => match t.checked_add(d) {
                    None => {
                        proof {
                            lemma_numeral_value_rec_monotone(
                                suffix.drop_first(),
                                acc * 10 + digit_val(digits@[i as int]),
                                if dot {
                                    den * 10
                                } else {
                                    den as int
                                },
                                dot,
                            );
                        }
                        return None;
                    },
                    Some(a2) => {
                        acc = a2;
                        den = den2;
                    },
                },
            }
        }
        i = i + 1;
    }
    proof {
        assert(digits@.subrange(n as int, n as int) =~= Seq::<char>::empty());
    }
    Some(Rat { num: acc, den })
}

/// Evaluates a possibly negated numeral.
pub(crate) fn literal_eval(negated: bool, digits: &Vec<char>) -> (r: Outcome)
    requires
        is_numeral(digits@),
    ensures
        r@ == literal_outcome(negated, digits@),
        outcome_valid(r),
{
    match numeral_to_rat(digits) {
        None => Outcome::Indeterminate,
        Some(rat) => Outcome::Rational(
            if negated {
                Rat { num: -rat.num, den: rat.den }
            } else {
                rat
            },
        ),
    }
}

/// Copies the elements of `v` from `start` on into a fresh vector.
fn tail_from<T: Copy>(v: &Vec<T>, start: usize) -> (r: Vec<T>)
    requires
        start <= v@.len(),
    ensures
        r@ == v@.subrange(start as int, v@.len() as int),
{
    let mut r: Vec<T> = Vec::new();
    let mut i: usize = start;
    while i < v.len()
        invariant
            start <= i <= v@.len(),
            r@ == v@.subrange(start as int, i as int),
        decreases v@.len() - i,
    {
        r.push(v[i]);
        proof {
            assert(v@.subrange(start as int, i + 1) =~= v@.subrange(start as int, i as int).push(
                v@[i as int],
            ));
        }
        i = i + 1;
    }
    r
}

/// The executable multiplicative pass.
pub(crate) fn mul_pass_exec(vals: Vec<Outcome>, ops: Vec<BinOp>) -> (r: (Vec<Outcome>, Vec<BinOp>))
    requires
        all_valid(vals@),
    ensures
        outcome_views(r.0@) == mul_pass(outcome_views(vals@), ops@).0,
        r.1@ == mul_pass(outcome_views(vals@), ops@).1,
        all_valid(r.0@),
    decreases ops@.len(),
{
    if ops.len() == 0 || vals.len() <= 1 {
        return (vals, ops);
    }
    let op0 = ops[0];
    let rest_ops = tail_from(&ops, 1);
    proof {
        assert(rest_ops@ =~= ops@.drop_first());
    }
    if op0 == BinOp::Mul || op0 == BinOp::Div {
        let combined = if op0 == BinOp::Mul {
            outcome_mul(vals[0], vals[1])
        } else {
            outcome_div(vals[0], vals[1])
        };
        let mut new_vals: Vec<Outcome> = Vec::new();
        new_vals.push(combined);
        let mut rest_vals = tail_from(&vals, 2);
        new_vals.append(&mut rest_vals);
        proof {
            assert(outcome_views(new_vals@) =~= seq![combined@] + outcome_views(vals@).skip(2));
            assert(seq![combined@] == seq![
                if op0 == BinOp::Mul {
                    exact_mul(outcome_views(vals@)[0], outcome_views(vals@)[1])
                } else {
                    exact_div(outcome_views(vals@)[0], outcome_views(vals@)[1])
                },
            ]);
        }
        mul_pass_exec(new_vals, rest_ops)
    } else {
        let first = vals[0];
        let rest_vals = tail_from(&vals, 1);
        proof {
            assert(outcome_views(rest_vals@) =~= outcome_views(vals@).drop_first());
        }
        let folded = mul_pass_exec(rest_vals, rest_ops);
        let mut out_vals: Vec<Outcome> = Vec::new();
        out_vals.push(first);
        let mut folded_vals = folded.0;
        out_vals.append(&mut folded_vals);
        let mut out_ops: Vec<BinOp> = Vec::new();
        out_ops.push(op0);
        let mut folded_ops = folded.1;
        out_ops.append(&mut folded_ops);
        proof {
            assert(outcome_views(out_vals@) =~= seq![first@] + mul_pass(
                outcome_views(vals@).drop_first(),
                ops@.drop_first(),
            ).0);
            assert(out_ops@ =~= seq![op0] + mul_pass(
                outcome_views(vals@).drop_first(),
                ops@.drop_first(),
            ).1);
        }
        (out_vals, out_ops)
    }
}

/// The executable additive pass.
fn add_pass_exec(vals: Vec<Outcome>, ops: Vec<BinOp>) -> (r: Outcome)
    requires
        all_valid(vals@),
    ensures
        r@ == add_pass(outcome_views(vals@), ops@),
        outcome_valid(r),
    decreases ops@.len(),
{
    if vals.len() == 0 {
        return Outcome::Invalid;
    }
    if ops.len() == 0 {
        return vals[0];
    }
    if vals.len() == 1 {
        return Outcome::Invalid;
    }
    let op0 = ops[0];
    if op0 == BinOp::Add || op0 == BinOp::Sub {
        let combined = if op0 == BinOp::Add {
            outcome_add(vals[0], vals[1])
        } else {
            outcome_sub(vals[0], vals[1])
        };
        let mut new_vals: Vec<Outcome> = Vec::new();
        new_vals.push(combined);
        let mut rest_vals = tail_from(&vals, 2);
        new_vals.append(&mut rest_vals);
        let rest_ops = tail_from(&ops, 1);
        proof {
            assert(rest_ops@ =~= ops@.drop_first());
            assert(outcome_views(new_vals@) =~= seq![combined@] + outcome_views(vals@).skip(2));
        }
        add_pass_exec(new_vals, rest_ops)
    } else {
        Outcome::Invalid
    }
}

/// Evaluates one operand.
pub(crate) fn eval_operand(o: &Operand) -> (r: Outcome)
    requires
        wf_operand(o@),
    ensures
        r@ == operand_outcome(o@),
        outcome_valid(r),
    decreases o, 3nat,
{
    match o {
        Operand::Number { negated, digits } => literal_eval(*negated, digits),
        Operand::Group { negated, inner } => {
            let v = eval_compound(inner);
            if *negated {
                match v {
                    Outcome::Invalid => Outcome::Invalid,
                    Outcome::Indeterminate => Outcome::Indeterminate,
                    Outcome::Rational(rat) => {
                        if rat.num < 0 {
                            Outcome::Invalid
                        } else {
                            Outcome::Rational(Rat { num: -rat.num, den: rat.den })
                        }
                    },
                }
            } else {
                v
            }
        },
    }
}

/// Evaluates a compound expression.
fn eval_compound(c: &Compound) -> (r: Outcome)
    requires
        wf_compound(c@),
    ensures
        r@ == compound_outcome(c@),
        outcome_valid(r),
    decreases c, 2nat,
{
    let mut vals: Vec<Outcome> = Vec::new();
    let mut i: usize = 0;
    while i < c.operands.len()
        invariant
            wf_compound(c@),
            i <= c.operands@.len(),
            vals@.len() == i,
            forall|m: int|
                0 <= m < i ==> (#[trigger] vals@[m])@ == operand_outcome(c@.operands[m])
                    && outcome_valid(vals@[m]),
        decreases c.operands@.len() - i,
    {
        proof {
            broadcast use vstd::std_specs::vec::axiom_vec_index_decreases;

            assert(wf_operand(c@.operands[i as int]));
        }
        let v = eval_operand(&c.operands[i]);
        vals.push(v);
        i = i + 1;
    }
    proof {
        assert(outcome_views(vals@) =~= operand_outcomes(c@.operands));
    }
    let ops = tail_from(&c.operators, 0);
    proof {
        assert(ops@ =~= c@.operators);
    }
    let folded = mul_pass_exec(vals, ops);
    add_pass_exec(folded.0, folded.1)
}

/// Evaluates an expression tree exactly.
pub fn eval_expr(e: &Expr) -> (r: Outcome)
    requires
        wf_expr(e@),
    ensures
        r@ == exact_value(e@),
        outcome_valid(r),
    decreases e, 4nat,
{
    match e {
        Expr::Literal { negated, digits } => literal_eval(*negated, digits),
        Expr::Log { inner } => {
            let v = eval_expr(inner);
            match v {
                Outcome::Invalid => Outcome::Invalid,
                Outcome::Indeterminate => Outcome::Indeterminate,
                Outcome::Rational(rat) => {
                    if rat.num <= 0 {
                        Outcome::Invalid
                    } else if rat.num == rat.den {
                        Outcome::Rational(Rat { num: 0, den: 1 })
                    } else {
                        Outcome::Indeterminate
                    }
                },
            }
        },
        Expr::Sqrt { inner } => {
            let v = eval_expr(inner);
            match v {
                Outcome::Invalid => Outcome::Invalid,
                Outcome::Indeterminate => Outcome::Indeterminate,
                Outcome::Rational(rat) => {
                    if rat.num < 0 {
                        Outcome::Invalid
                    } else {
                        match (isqrt64(rat.num), isqrt64(rat.den)) {
                            (Some(a), Some(b)) => {
                                proof {
                                    assert(is_square(rat.num as int));
                                    assert(is_square(rat.den as int));
                                    let ca = sqrt_of(rat.num as int);
                                    let cb = sqrt_of(rat.den as int);
                                    assert(0 <= ca && ca * ca == rat.num as int);
                                    assert(0 <= cb && cb * cb == rat.den as int);
                                    lemma_sqrt_unique(ca, a as int);
                                    lemma_sqrt_unique(cb, b as int);
                                    assert(b != 0);
                                }
                                Outcome::Rational(Rat { num: a, den: b })
                            },
                            _ => Outcome::Indeterminate,
                        }
                    }
                },
            }
        },
        Expr::Compound { compound } => eval_compound(compound),
    }
}

/// Parses and exactly evaluates expression text. `Err` exactly when the text
/// is rejected by the grammar or the expression asks for an undefined
/// quantity; `Ok(None)` when the expression is valid but its exact value is
/// indeterminate; `Ok(Some(r))` when its exact value is the rational `r`.
pub fn evaluate(s: &str) -> (r: Result<Option<Rat>, ParseError>)
    ensures
        match spec_parse(s@) {
            None => r matches Err(pe) && pe == ParseError::InvalidExpression,
            Some(ev) => match exact_value(ev) {
                ExactOutcome::Invalid => r matches Err(pe) && pe == ParseError::InvalidExpression,
                ExactOutcome::Indeterminate => r matches Ok(o) && o is None,
                ExactOutcome::Rational { num, den } => r matches Ok(o) && o matches Some(rat)
                    && rat.num as int == num && rat.den as int == den && rat.den > 0,
            },
        },
{
    match parse_expr(s) {
        Err(pe) => Err(pe),
        Ok(e) => match eval_expr(&e) {
            Outcome::Invalid => Err(ParseError::InvalidExpression),
            Outcome::Indeterminate => Ok(None),
            Outcome::Rational(rat) => Ok(Some(rat)),
        },
    }
}

} // verus!
