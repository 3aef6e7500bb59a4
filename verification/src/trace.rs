//! The operator trace: the binary operators an evaluation applies after the
//! multiplicative pass, in order — the `+` and `-` of the top-level compound
//! expression. A literal contributes no operators; `log` and `sqrt` pass
//! their interior's trace through; the operators of nested groups are folded
//! away inside their operand.

use vstd::prelude::*;

use crate::ast::{BinOp, Compound, Expr, ExprView, Operand, ParseError};
use crate::eval::{
    all_valid, eval_expr, exact_value, literal_eval, literal_outcome, mul_pass, mul_pass_exec,
    operand_outcome, operand_outcomes, outcome_views, eval_operand,
};
use crate::grammar::{spec_parse, wf_compound, wf_expr, wf_operand};
use crate::parser::parse_expr;
use crate::rational::{outcome_valid, ExactOutcome, Outcome};

verus! {

/// The additive operators of a list, in order, as characters.
pub open spec fn additive_chars(ops: Seq<BinOp>) -> Seq<char>
    decreases ops.len(),
{
    if ops.len() == 0 {
        Seq::empty()
    } else if ops[0] == BinOp::Add {
        seq!['+'] + additive_chars(ops.drop_first())
    } else if ops[0] == BinOp::Sub {
        seq!['-'] + additive_chars(ops.drop_first())
    } else {
        additive_chars(ops.drop_first())
    }
}

/// The operator trace of an expression.
pub open spec fn op_trace(e: ExprView) -> Seq<char>
    decreases e,
{
    match e {
        ExprView::Literal { negated, digits } => Seq::empty(),
        ExprView::Log { inner } => op_trace(*inner),
        ExprView::Sqrt { inner } => op_trace(*inner),
        ExprView::Compound { compound } => additive_chars(compound.operators),
    }
}

/// The character an additive operator denotes.
pub open spec fn char_of_op(op: BinOp) -> char {
    match op {
        BinOp::Add => '+',
        BinOp::Sub => '-',
        BinOp::Mul => '*',
        BinOp::Div => '/',
    }
}

/// The trace is exactly what the multiplicative pass leaves behind: when the
/// operand list is one longer than the operator list, the operators that
/// survive the pass are the additive ones, in order.
pub proof fn lemma_trace_is_mul_pass_remainder(vals: Seq<ExactOutcome>, ops: Seq<BinOp>)
    requires
        vals.len() == ops.len() + 1,
    ensures
        additive_chars(mul_pass(vals, ops).1) == additive_chars(ops),
        mul_pass(vals, ops).1.len() == additive_chars(ops).len(),
        forall|m: int|
            0 <= m < mul_pass(vals, ops).1.len() ==> char_of_op(#[trigger] mul_pass(vals, ops).1[m])
                == additive_chars(ops)[m],
    decreases ops.len(),
{
    if ops.len() == 0 || vals.len() <= 1 {
        assert(additive_chars(mul_pass(vals, ops).1) =~= additive_chars(ops));
    } else if ops[0] == BinOp::Mul || ops[0] == BinOp::Div {
        let vals2 = if ops[0] == BinOp::Mul {
            seq![crate::rational::exact_mul(vals[0], vals[1])] + vals.skip(2)
        } else {
            seq![crate::rational::exact_div(vals[0], vals[1])] + vals.skip(2)
        };
        lemma_trace_is_mul_pass_remainder(vals2, ops.drop_first());
    } else {
        lemma_trace_is_mul_pass_remainder(vals.drop_first(), ops.drop_first());
        let rest = mul_pass(vals.drop_first(), ops.drop_first());
        assert(additive_chars(seq![ops[0]] + rest.1).drop_first() =~= additive_chars(rest.1))
            by {
            assert((seq![ops[0]] + rest.1).drop_first() =~= rest.1);
        }
        assert((seq![ops[0]] + rest.1)[0] == ops[0]);
        assert forall|m: int| 0 <= m < (seq![ops[0]] + rest.1).len() implies char_of_op(
            #[trigger] (seq![ops[0]] + rest.1)[m],
        ) == additive_chars(ops)[m] by {
            if m > 0 {
                assert((seq![ops[0]] + rest.1)[m] == rest.1[m - 1]);
                assert(additive_chars(ops)[m] == additive_chars(ops.drop_first())[m - 1]);
            }
        }
    }
}

/// The operand trace of an expression: the operand values left after the
/// multiplicative pass, in order — one exact value per additive term.
pub open spec fn operand_trace(e: ExprView) -> Seq<ExactOutcome>
    decreases e,
{
    match e {
        ExprView::Literal { negated, digits } => seq![literal_outcome(negated, digits)],
        ExprView::Log { inner } => operand_trace(*inner),
        ExprView::Sqrt { inner } => operand_trace(*inner),
        ExprView::Compound { compound } => mul_pass(
            operand_outcomes(compound.operands),
            compound.operators,
        ).0,
    }
}

/// The character a binary operator denotes.
fn op_char(op: BinOp) -> (c: char)
    ensures
        c == char_of_op(op),
{
    match op {
        BinOp::Add => '+',
        BinOp::Sub => '-',
        BinOp::Mul => '*',
        BinOp::Div => '/',
    }
}

/// Computes both traces of an expression: the operand values left after the
/// multiplicative pass, and the additive operators applied to them.
fn expr_traces(e: &Expr) -> (r: (Vec<Outcome>, Vec<char>))
    requires
        wf_expr(e@),
    ensures
        outcome_views(r.0@) == operand_trace(e@),
        all_valid(r.0@),
        r.1@ == op_trace(e@),
    decreases e,
{
    match e {
        Expr::Literal { negated, digits } => {
            let v = literal_eval(*negated, digits);
            let mut operands: Vec<Outcome> = Vec::new();
            operands.push(v);
            proof {
                assert(outcome_views(operands@) =~= seq![v@]);
            }
            (operands, Vec::new())
        },
        Expr::Log { inner } => expr_traces(inner),
        Expr::Sqrt { inner } => expr_traces(inner),
        Expr::Compound { compound } => {
            let c = compound;
            let mut vals: Vec<Outcome> = Vec::new();
            let mut i: usize = 0;
            while i < c.operands.len()
                invariant
                    wf_compound(c@),
                    i <= c.operands@.len(),
                    vals@.len() == i,
                    forall|m: int|
                        0 <= m < i ==> (#[trigger] vals@[m])@ == operand_outcome(c@.operands[m])
                            && outcome_valid(vals@[m]),
                decreases c.operands@.len() - i,
            {
                proof {
                    broadcast use vstd::std_specs::vec::axiom_vec_index_decreases;

                    assert(wf_operand(c@.operands[i as int]));
                }
                let v = eval_operand(&c.operands[i]);
                vals.push(v);
                i = i + 1;
            }
            proof {
                assert(outcome_views(vals@) =~= operand_outcomes(c@.operands));
                lemma_trace_is_mul_pass_remainder(outcome_views(vals@), c@.operators);
            }
            let mut ops: Vec<BinOp> = Vec::new();
            let mut k: usize = 0;
            while k < c.operators.len()
                invariant
                    k <= c.operators@.len(),
                    ops@ == c.operators@.take(k as int),
                decreases c.operators@.len() - k,
            {
                ops.push(c.operators[k]);
                proof {
                    assert(c.operators@.take(k + 1) =~= c.operators@.take(k as int).push(
                        c.operators@[k as int],
                    ));
                }
                k = k + 1;
            }
            proof {
                assert(c.operators@.take(c.operators@.len() as int) =~= c@.operators);
            }
            let ghost gvals = vals@;
            let ghost gops = ops@;
            let folded = mul_pass_exec(vals, ops);
            let remaining = folded.1;
            let mut chars: Vec<char> = Vec::new();
            let mut m: usize = 0;
            while m < remaining.len()
                invariant
                    m <= remaining@.len(),
                    chars@.len() == m,
                    forall|x: int| 0 <= x < m ==> chars@[x] == char_of_op(#[trigger] remaining@[x]),
                decreases remaining@.len() - m,
            {
                let ch = op_char(remaining[m]);
                chars.push(ch);
                m = m + 1;
            }
            proof {
                assert(remaining@ == mul_pass(outcome_views(gvals), gops).1);
                assert forall|x: int| 0 <= x < chars@.len() implies chars@[x] == additive_chars(
                    c@.operators,
                )[x] by {
                    assert(char_of_op(mul_pass(outcome_views(gvals), gops).1[x])
                        == additive_chars(gops)[x]);
                }
                assert(chars@ =~= additive_chars(c@.operators));
            }
            (folded.0, chars)
        },
    }
}

/// The full outcome of one evaluation: the value, and the operand and
/// operator traces left after the multiplicative pass.
pub struct Evaluation {
    pub value: Outcome,
    pub operands: Vec<Outcome>,
    pub operators: Vec<char>,
}

/// Parses and exactly evaluates expression text, returning the value
/// together with both traces. `Err` exactly when the text is rejected by the
/// grammar or the expression asks for an undefined quantity.
pub fn evaluate_with_trace(s: &str) -> (r: Result<Evaluation, ParseError>)
    ensures
        match spec_parse(s@) {
            None => r matches Err(pe) && pe == ParseError::InvalidExpression,
            Some(ev) => match exact_value(ev) {
                ExactOutcome::Invalid => r matches Err(pe) && pe == ParseError::InvalidExpression,
                _ => r matches Ok(res) && res.value@ == exact_value(ev) && outcome_views(
                    res.operands@,
                ) == operand_trace(ev) && all_valid(res.operands@) && res.operators@ == op_trace(
                    ev,
                ) && outcome_valid(res.value),
            },
        },
{
    match parse_expr(s) {
        Err(pe) => Err(pe),
        Ok(e) => {
            let value = eval_expr(&e);
            if matches!(value, Outcome::Invalid) {
                return Err(ParseError::InvalidExpression);
            }
            let traces = expr_traces(&e);
            Ok(Evaluation { value, operands: traces.0, operators: traces.1 })
        },
    }
}

/// Computes the operator trace of an expression.
pub fn operator_trace(e: &Expr) -> (r: Vec<char>)
    ensures
        r@ == op_trace(e@),
    decreases e,
{
    match e {
        Expr::Literal { negated, digits } => Vec::new(),
        Expr::Log { inner } => operator_trace(inner),
        Expr::Sqrt { inner } => operator_trace(inner),
        Expr::Compound { compound } => {
            let ops = &compound.operators;
            let mut r: Vec<char> = Vec::new();
            let mut i: usize = 0;
            proof {
                assert(ops@.skip(0) =~= ops@);
            }
            while i < ops.len()
                invariant
                    i <= ops@.len(),
                    additive_chars(ops@) == r@ + additive_chars(ops@.skip(i as int)),
                decreases ops@.len() - i,
            {
                let op = ops[i];
                proof {
                    assert(ops@.skip(i as int)[0] == ops@[i as int]);
                    assert(ops@.skip(i as int).drop_first() =~= ops@.skip(i + 1));
                }
                if op == BinOp::Add {
                    r.push('+');
                    proof {
                        assert(additive_chars(ops@) =~= r@ + additive_chars(ops@.skip(i + 1)));
                    }
                } else if op == BinOp::Sub {
                    r.push('-');
                    proof {
                        assert(additive_chars(ops@) =~= r@ + additive_chars(ops@.skip(i + 1)));
                    }
                }
                i = i + 1;
            }
            proof {
                assert(additive_chars(ops@.skip(ops@.len() as int)) =~= Seq::<char>::empty());
                assert(r@ =~= r@ + Seq::<char>::empty());
            }
            r
        },
    }
}

} // verus!
