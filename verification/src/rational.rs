//! Exact rational values and their arithmetic, bounded to 64-bit numerators
//! and denominators.
//!
//! An evaluation outcome is `Invalid` (the expression asks for an undefined
//! quantity), `Indeterminate` (the exact value cannot be represented: it is
//! irrational, or some intermediate quantity leaves the 64-bit range), or an
//! exact rational. Rationals are not reduced; the denominator is always
//! positive.

use vstd::prelude::*;

use vstd::arithmetic::mul::{lemma_mul_strictly_positive};

verus! {

/// An exact rational number: `num / den`, with `den > 0`.
#[derive(Debug, Clone, Copy, PartialEq, Eq, Structural)]
pub struct Rat {
    pub num: i64,
    pub den: i64,
}

/// The denominator must be positive.
pub open spec fn rat_valid(r: Rat) -> bool {
    r.den > 0
}

/// Mathematical view of an evaluation outcome.
pub enum ExactOutcome {
    Invalid,
    Indeterminate,
    Rational { num: int, den: int },
}

/// An evaluation outcome.
#[derive(Debug, Clone, Copy, PartialEq, Eq, Structural)]
pub enum Outcome {
    Invalid,
    Indeterminate,
    Rational(Rat),
}

impl View for Outcome {
    type V = ExactOutcome;

    open spec fn view(&self) -> ExactOutcome {
        match self {
            Outcome::Invalid => ExactOutcome::Invalid,
            Outcome::Indeterminate => ExactOutcome::Indeterminate,
            Outcome::Rational(r) => ExactOutcome::Rational { num: r.num as int, den: r.den as int },
        }
    }
}

/// A rational outcome must carry a positive denominator.
pub open spec fn outcome_valid(o: Outcome) -> bool {
    match o {
        Outcome::Rational(r) => rat_valid(r),
        _ => true,
    }
}

/// Whether `x` fits in a signed 64-bit integer.
pub open spec fn in64(x: int) -> bool {
    i64::MIN <= x <= i64::MAX
}

/// Exact addition: `n1/d1 + n2/d2 = (n1 d2 + n2 d1) / (d1 d2)`, indeterminate
/// when any of the products or the sum leaves the 64-bit range.
pub open spec fn exact_add(a: ExactOutcome, b: ExactOutcome) -> ExactOutcome {
    match (a, b) {
        (ExactOutcome::Invalid, _) => ExactOutcome::Invalid,
        (_, ExactOutcome::Invalid) => ExactOutcome::Invalid,
        (ExactOutcome::Indeterminate, _) => ExactOutcome::Indeterminate,
        (_, ExactOutcome::Indeterminate) => ExactOutcome::Indeterminate,
        (
            ExactOutcome::Rational { num: n1, den: d1 },
            ExactOutcome::Rational { num: n2, den: d2 },
        ) => {
            let p = n1 * d2;
            let q = n2 * d1;
            let d = d1 * d2;
            if in64(p) && in64(q) && in64(p + q) && in64(d) {
                ExactOutcome::Rational { num: p + q, den: d }
            } else {
                ExactOutcome::Indeterminate
            }
        },
    }
}

/// Exact subtraction, like `exact_add`.
pub open spec fn exact_sub(a: ExactOutcome, b: ExactOutcome) -> ExactOutcome {
    match (a, b) {
        (ExactOutcome::Invalid, _) => ExactOutcome::Invalid,
        (_, ExactOutcome::Invalid) => ExactOutcome::Invalid,
        (ExactOutcome::Indeterminate, _) => ExactOutcome::Indeterminate,
        (_, ExactOutcome::Indeterminate) => ExactOutcome::Indeterminate,
        (
            ExactOutcome::Rational { num: n1, den: d1 },
            ExactOutcome::Rational { num: n2, den: d2 },
        ) => {
            let p = n1 * d2;
            let q = n2 * d1;
            let d = d1 * d2;
            if in64(p) && in64(q) && in64(p - q) && in64(d) {
                ExactOutcome::Rational { num: p - q, den: d }
            } else {
                ExactOutcome::Indeterminate
            }
        },
    }
}

/// Exact multiplication: `(n1 n2) / (d1 d2)`.
pub open spec fn exact_mul(a: ExactOutcome, b: ExactOutcome) -> ExactOutcome {
    match (a, b) {
        (ExactOutcome::Invalid, _) => ExactOutcome::Invalid,
        (_, ExactOutcome::Invalid) => ExactOutcome::Invalid,
        (ExactOutcome::Indeterminate, _) => ExactOutcome::Indeterminate,
        (_, ExactOutcome::Indeterminate) => ExactOutcome::Indeterminate,
        (
            ExactOutcome::Rational { num: n1, den: d1 },
            ExactOutcome::Rational { num: n2, den: d2 },
        ) => {
            let n = n1 * n2;
            let d = d1 * d2;
            if in64(n) && in64(d) {
                ExactOutcome::Rational { num: n, den: d }
            } else {
                ExactOutcome::Indeterminate
            }
        },
    }
}

/// Exact division: `(n1 d2) / (d1 n2)`, with the sign moved into the
/// numerator. Division by an exact zero is invalid, whatever the left side.
pub open spec fn exact_div(a: ExactOutcome, b: ExactOutcome) -> ExactOutcome {
    match b {
        ExactOutcome::Invalid => ExactOutcome::Invalid,
        ExactOutcome::Rational { num: n2, den: d2 } => {
            if n2 == 0 {
                ExactOutcome::Invalid
            } else {
                match a {
                    ExactOutcome::Invalid => ExactOutcome::Invalid,
                    ExactOutcome::Indeterminate => ExactOutcome::Indeterminate,
                    ExactOutcome::Rational { num: n1, den: d1 } => {
                        let p = n1 * d2;
                        let q = d1 * n2;
                        if n2 < 0 {
                            if in64(p) && in64(q) && in64(-p) && in64(-q) {
                                ExactOutcome::Rational { num: -p, den: -q }
                            } else {
                                ExactOutcome::Indeterminate
                            }
                        } else {
                            if in64(p) && in64(q) {
                                ExactOutcome::Rational { num: p, den: q }
                            } else {
                                ExactOutcome::Indeterminate
                            }
                        }
                    },
                }
            }
        },
        ExactOutcome::Indeterminate => match a {
            ExactOutcome::Invalid => ExactOutcome::Invalid,
            _ => ExactOutcome::Indeterminate,
        },
    }
}

/// Whether `x` is a perfect square.
pub open spec fn is_square(x: int) -> bool {
    exists|r: int| 0 <= r && #[trigger] (r * r) == x
}

/// The nonnegative square root of a perfect square.
pub open spec fn sqrt_of(x: int) -> int {
    choose|r: int| 0 <= r && #[trigger] (r * r) == x
}

/// Natural logarithm of an exact value: invalid for arguments at or below
/// zero, zero at one, and otherwise irrational, so indeterminate.
pub open spec fn exact_log(a: ExactOutcome) -> ExactOutcome {
    match a {
        ExactOutcome::Invalid => ExactOutcome::Invalid,
        ExactOutcome::Indeterminate => ExactOutcome::Indeterminate,
        ExactOutcome::Rational { num, den } => {
            if num <= 0 {
                ExactOutcome::Invalid
            } else if num == den {
                ExactOutcome::Rational { num: 0, den: 1 }
            } else {
                ExactOutcome::Indeterminate
            }
        },
    }
}

/// Square root of an exact value: invalid for negative arguments, exact when
/// numerator and denominator are both perfect squares, and otherwise
/// indeterminate.
pub open spec fn exact_sqrt(a: ExactOutcome) -> ExactOutcome {
    match a {
        ExactOutcome::Invalid => ExactOutcome::Invalid,
        ExactOutcome::Indeterminate => ExactOutcome::Indeterminate,
        ExactOutcome::Rational { num, den } => {
            if num < 0 {
                ExactOutcome::Invalid
            } else if is_square(num) && is_square(den) {
                ExactOutcome::Rational { num: sqrt_of(num), den: sqrt_of(den) }
            } else {
                ExactOutcome::Indeterminate
            }
        },
    }
}

/// Nonnegative square roots are unique.
pub proof fn lemma_sqrt_unique(r1: int, r2: int)
    requires
        0 <= r1,
        0 <= r2,
        r1 * r1 == r2 * r2,
    ensures
        r1 == r2,
{
    assert(r1 == r2) by (nonlinear_arith)
        requires
            0 <= r1,
            0 <= r2,
            r1 * r1 == r2 * r2,
    ;
}

/// Adds two outcomes.
pub fn outcome_add(a: Outcome, b: Outcome) -> (r: Outcome)
    requires
        outcome_valid(a),
        outcome_valid(b),
    ensures
        r@ == exact_add(a@, b@),
        outcome_valid(r),
{
    match (a, b) {
        (Outcome::Rational(x), Outcome::Rational(y)) => {
            let p = x.num.checked_mul(y.den);
            let q = y.num.checked_mul(x.den);
            let d = x.den.checked_mul(y.den);
            match (p, q, d) {
                (Some(pv), Some(qv), Some(dv)) => match pv.checked_add(qv) {
                    Some(n) => {
                        proof {
                            lemma_mul_strictly_positive(x.den as int, y.den as int);
                        }
                        Outcome::Rational(Rat { num: n, den: dv })
                    },
                    None => Outcome::Indeterminate,
                },
                _ => Outcome::Indeterminate,
            }
        },
        (Outcome::Invalid, _) => Outcome::Invalid,
        (_, Outcome::Invalid) => Outcome::Invalid,
        _ => Outcome::Indeterminate,
    }
}

/// Subtracts two outcomes.
pub fn outcome_sub(a: Outcome, b: Outcome) -> (r: Outcome)
    requires
        outcome_valid(a),
        outcome_valid(b),
    ensures
        r@ == exact_sub(a@, b@),
        outcome_valid(r),
{
    match (a, b) {
        (Outcome::Rational(x), Outcome::Rational(y)) => {
            let p = x.num.checked_mul(y.den);
            let q = y.num.checked_mul(x.den);
            let d = x.den.checked_mul(y.den);
            match (p, q, d) {
                (Some(pv), Some(qv), Some(dv)) => match pv.checked_sub(qv) {
                    Some(n) => {
                        proof {
                            lemma_mul_strictly_positive(x.den as int, y.den as int);
                        }
                        Outcome::Rational(Rat { num: n, den: dv })
                    },
                    None => Outcome::Indeterminate,
                },
                _ => Outcome::Indeterminate,
            }
        },
        (Outcome::Invalid, _) => Outcome::Invalid,
        (_, Outcome::Invalid) => Outcome::Invalid,
        _ => Outcome::Indeterminate,
    }
}

/// Multiplies two outcomes.
pub fn outcome_mul(a: Outcome, b: Outcome) -> (r: Outcome)
    requires
        outcome_valid(a),
        outcome_valid(b),
    ensures
        r@ == exact_mul(a@, b@),
        outcome_valid(r),
{
    match (a, b) {
        (Outcome::Rational(x), Outcome::Rational(y)) => {
            let n = x.num.checked_mul(y.num);
            let d = x.den.checked_mul(y.den);
            match (n, d) {
                (Some(nv), Some(dv)) => {
                    proof {
                        lemma_mul_strictly_positive(x.den as int, y.den as int);
                    }
                    Outcome::Rational(Rat { num: nv, den: dv })
                },
                _ => Outcome::Indeterminate,
            }
        },
        (Outcome::Invalid, _) => Outcome::Invalid,
        (_, Outcome::Invalid) => Outcome::Invalid,
        _ => Outcome::Indeterminate,
    }
}

/// Divides two outcomes. Division by an exact zero is invalid, whatever the
/// left side is.
pub fn outcome_div(a: Outcome, b: Outcome) -> (r: Outcome)
    requires
        outcome_valid(a),
        outcome_valid(b),
    ensures
        r@ == exact_div(a@, b@),
        outcome_valid(r),
{
    match b {
        Outcome::Invalid => Outcome::Invalid,
        Outcome::Rational(y) => {
            if y.num == 0 {
                Outcome::Invalid
            } else {
                match a {
                    Outcome::Invalid => Outcome::Invalid,
                    Outcome::Indeterminate => Outcome::Indeterminate,
                    Outcome::Rational(x) => {
                        let p = x.num.checked_mul(y.den);
                        let q = x.den.checked_mul(y.num);
                        match (p, q) {
                            (Some(pv), Some(qv)) => {
                                if y.num < 0 {
                                    if pv == i64::MIN || qv == i64::MIN {
                                        Outcome::Indeterminate
                                    } else {
                                        proof {
                                            lemma_mul_strictly_positive(
                                                x.den as int,
                                                -(y.num as int),
                                            );
                                            assert((x.den as int) * (-(y.num as int)) == -(
                                            (x.den as int) * (y.num as int))) by (nonlinear_arith);
                                        }
                                        Outcome::Rational(Rat { num: -pv, den: -qv })
                                    }
                                } else {
                                    proof {
                                        lemma_mul_strictly_positive(x.den as int, y.num as int);
                                    }
                                    Outcome::Rational(Rat { num: pv, den: qv })
                                }
                            },
                            _ => Outcome::Indeterminate,
                        }
                    },
                }
            }
        },
        Outcome::Indeterminate => match a {
            Outcome::Invalid => Outcome::Invalid,
            _ => Outcome::Indeterminate,
        },
    }
}

/// The nonnegative 64-bit integer square root of a perfect square, or `None`
/// when `x` is not a perfect square.
pub fn isqrt64(x: i64) -> (r: Option<i64>)
    requires
        x >= 0,
    ensures
        match r {
            Some(v) => 0 <= v && v * v == x,
            None => !is_square(x as int),
        },
{
    let mut lo: i64 = 0;
    let mut hi: i64 = 3_037_000_499;
    proof {
        assert forall|r: int| r > 3_037_000_499 implies #[trigger] (r * r) > x as int by {
            assert(r * r >= 3_037_000_500 * 3_037_000_500) by (nonlinear_arith)
                requires
                    r >= 3_037_000_500,
            ;
        }
    }
    while lo <= hi
        invariant
            0 <= lo,
            hi <= 3_037_000_499,
            forall|r: int| 0 <= r < lo ==> #[trigger] (r * r) < x as int,
            forall|r: int| r > hi ==> #[trigger] (r * r) > x as int,
        decreases hi + 1 - lo,
    {
        let mid = lo + (hi - lo) / 2;
        proof {
            assert(mid * mid <= 3_037_000_499 * 3_037_000_499) by (nonlinear_arith)
                requires
                    0 <= mid <= 3_037_000_499,
            ;
        }
        let sq = mid * mid;
        if sq == x {
            return Some(mid);
        } else if sq < x {
            proof {
                assert forall|r: int| 0 <= r < mid + 1 implies #[trigger] (r * r) < x as int by {
                    assert(r * r <= mid * mid) by (nonlinear_arith)
                        requires
                            0 <= r <= mid,
                    ;
                }
            }
            lo = mid + 1;
        } else {
            proof {
                assert forall|r: int| r > mid - 1 implies #[trigger] (r * r) > x as int by {
                    if r <= hi {
                        assert(r * r >= mid * mid) by (nonlinear_arith)
                            requires
                                0 <= mid <= r,
                        ;
                    }
                }
            }
            hi = mid - 1;
        }
    }
    proof {
        assert forall|r: int| 0 <= r implies #[trigger] (r * r) != x as int by {
            if r < lo {
            } else {
                assert(r > hi);
            }
        }
    }
    None
}

} // verus!
