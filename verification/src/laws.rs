//! General laws of the parser and evaluator, stated and proved once for all
//! inputs: wrapping a valid expression in one more bracket pair never changes
//! its meaning; leading and trailing whitespace is never significant; a
//! trimmed literal parses to itself and denotes its own value and traces; a
//! binary operation on two numerals denotes the exact arithmetic result,
//! with division by zero invalid; re-evaluating a rendered integer result
//! yields the same value; empty and unbalanced inputs always fail; and the
//! domains of `log` and `sqrt`.

use vstd::prelude::*;

use crate::ast::{BinOp, CompoundView, ExprView, OperandView};
use crate::brackets::{balanced, depth, lemma_depth_step, outer_brackets_removable, paren_delta};
use crate::chars::{is_digit, is_operator, is_space, is_special};
use crate::eval::{
    add_pass, compound_outcome, exact_value, literal_outcome, mul_pass, operand_outcome,
    operand_outcomes,
};
use crate::grammar::{
    contains_operator, is_literal, is_numeral, log_shape, op_of_char, operand_end, scan_non_space,
    scan_token_end, spec_parse, spec_parse_compound, spec_parse_operand, spec_parse_tail,
    spec_parse_trimmed, sqrt_shape, trim, trim_back, trim_front, without_spaces,
};
use crate::rational::{exact_add, exact_div, exact_mul, exact_sub, in64, ExactOutcome};
use crate::render::{
    decimal_digits, decimal_text, lemma_decimal_digits_value, lemma_decimal_digits_wf,
    lemma_dot_count_digits,
};
use crate::trace::{op_trace, operand_trace};

verus! {

/// The depth of a concatenation is the sum of the depths.
pub proof fn lemma_depth_concat(a: Seq<char>, b: Seq<char>)
    ensures
        depth(a + b) == depth(a) + depth(b),
    decreases b.len(),
{
    if b.len() == 0 {
        assert(a + b =~= a);
    } else {
        assert((a + b).drop_last() =~= a + b.drop_last());
        assert((a + b).last() == b.last());
        lemma_depth_concat(a, b.drop_last());
    }
}

/// A sequence without parentheses has depth zero, on every prefix.
proof fn lemma_no_paren_prefix(s: Seq<char>, k: int)
    requires
        0 <= k <= s.len(),
        forall|m: int| 0 <= m < s.len() ==> paren_delta(#[trigger] s[m]) == 0,
    ensures
        depth(s.take(k)) == 0,
    decreases k,
{
    if k == 0 {
        assert(s.take(0) =~= Seq::<char>::empty());
    } else {
        lemma_no_paren_prefix(s, k - 1);
        lemma_depth_step(s, k - 1);
    }
}

/// A sequence without parentheses is balanced.
pub proof fn lemma_no_paren_balanced(s: Seq<char>)
    requires
        forall|m: int| 0 <= m < s.len() ==> paren_delta(#[trigger] s[m]) == 0,
    ensures
        balanced(s),
{
    assert forall|k: int| 0 <= k <= s.len() implies depth(#[trigger] s.take(k)) >= 0 by {
        lemma_no_paren_prefix(s, k);
    }
    lemma_no_paren_prefix(s, s.len() as int);
    assert(s.take(s.len() as int) =~= s);
}

/// Between a removable outer bracket pair, the depth stays at one or above.
proof fn lemma_prefix_depths_positive(s: Seq<char>, j: int)
    requires
        s.len() >= 1,
        s[0] == '(',
        forall|i: int| 1 <= i < s.len() ==> depth(#[trigger] s.take(i)) != 0,
        1 <= j <= s.len() - 1,
    ensures
        depth(s.take(j)) >= 1,
    decreases j,
{
    if j == 1 {
        assert(s.take(0) =~= Seq::<char>::empty());
        lemma_depth_step(s, 0);
    } else {
        lemma_prefix_depths_positive(s, j - 1);
        lemma_depth_step(s, j - 1);
    }
}

/// A string wrapped in one removable bracket pair is balanced.
pub proof fn lemma_removable_balanced(s: Seq<char>)
    requires
        outer_brackets_removable(s),
    ensures
        balanced(s),
{
    assert forall|k: int| 0 <= k <= s.len() implies depth(#[trigger] s.take(k)) >= 0 by {
        if k == 0 {
            assert(s.take(0) =~= Seq::<char>::empty());
        } else if k == s.len() {
            assert(s.take(k) =~= s);
        } else {
            lemma_prefix_depths_positive(s, k);
        }
    }
}

/// The depth of a single character is its delta.
proof fn lemma_depth_single(c: char)
    ensures
        depth(seq![c]) == paren_delta(c),
{
    assert(seq![c].len() == 1);
    assert(seq![c].last() == c);
    assert(seq![c].drop_last() =~= Seq::<char>::empty());
    assert(depth(Seq::<char>::empty()) == 0);
    assert(depth(seq![c]) == depth(seq![c].drop_last()) + paren_delta(seq![c].last()));
}

/// Balance is unaffected by leading whitespace.
proof fn lemma_balanced_unpad_front(s: Seq<char>)
    requires
        balanced(trim_front(s)),
    ensures
        balanced(s),
    decreases s.len(),
{
    if s.len() > 0 && is_space(s[0]) {
        lemma_balanced_unpad_front(s.drop_first());
        let rest = s.drop_first();
        assert(s =~= seq![s[0]] + rest);
        lemma_depth_concat(seq![s[0]], rest);
        lemma_depth_single(s[0]);
        assert(depth(seq![s[0]]) == 0);
        assert forall|k: int| 0 <= k <= s.len() implies depth(#[trigger] s.take(k)) >= 0 by {
            if k == 0 {
                assert(s.take(0) =~= Seq::<char>::empty());
            } else {
                assert(s.take(k) =~= seq![s[0]] + rest.take(k - 1));
                lemma_depth_concat(seq![s[0]], rest.take(k - 1));
            }
        }
    }
}

/// Balance is unaffected by trailing whitespace.
proof fn lemma_balanced_unpad_back(s: Seq<char>)
    requires
        balanced(trim_back(s)),
    ensures
        balanced(s),
    decreases s.len(),
{
    if s.len() > 0 && is_space(s.last()) {
        lemma_balanced_unpad_back(s.drop_last());
        assert(depth(s) == depth(s.drop_last()));
        assert forall|k: int| 0 <= k <= s.len() implies depth(#[trigger] s.take(k)) >= 0 by {
            if k < s.len() {
                assert(s.take(k) =~= s.drop_last().take(k));
            } else {
                assert(s.take(k) =~= s);
            }
        }
    }
}

/// Balance is unaffected by surrounding whitespace.
pub proof fn lemma_balanced_untrim(s: Seq<char>)
    requires
        balanced(trim(s)),
    ensures
        balanced(s),
{
    lemma_balanced_unpad_back(trim_front(s));
    lemma_balanced_unpad_front(s);
}

/// Everything the parser accepts is balanced and nonempty.
pub proof fn lemma_valid_balanced(t: Seq<char>)
    requires
        spec_parse_trimmed(t) is Some,
    ensures
        balanced(t),
        t.len() > 0,
{
    if outer_brackets_removable(t) {
        lemma_removable_balanced(t);
    }
}

/// Trimming a string whose ends are not whitespace changes nothing.
pub proof fn lemma_trim_noop(s: Seq<char>)
    requires
        s.len() > 0,
        !is_space(s[0]),
        !is_space(s[s.len() - 1]),
    ensures
        trim(s) == s,
{
    assert(trim_front(s) == s);
    assert(s.last() == s[s.len() - 1]);
    assert(trim_back(s) == s);
}

/// Wrapping a valid expression in one more bracket pair changes nothing: the
/// wrapped text parses, and to the same tree. Applied repeatedly, this holds
/// under any nesting depth.
pub proof fn lemma_redundant_brackets(e: Seq<char>)
    requires
        spec_parse(e) is Some,
    ensures
        spec_parse(seq!['('] + e + seq![')']) == spec_parse(e),
{
    let w = seq!['('] + e + seq![')'];
    lemma_valid_balanced(trim(e));
    lemma_balanced_untrim(e);
    assert(w.len() == e.len() + 2);
    assert(w[0] == '(');
    assert(w[w.len() - 1] == ')');
    lemma_trim_noop(w);
    lemma_depth_concat(seq!['('] + e, seq![')']);
    lemma_depth_concat(seq!['('], e);
    lemma_depth_single('(');
    lemma_depth_single(')');
    assert(depth(seq!['(']) == 1);
    assert(depth(seq![')']) == -1);
    assert(depth(w) == 0);
    assert forall|j: int| 1 <= j < w.len() implies depth(#[trigger] w.take(j)) != 0 by {
        assert(w.take(j) =~= seq!['('] + e.take(j - 1));
        lemma_depth_concat(seq!['('], e.take(j - 1));
        assert(depth(e.take(j - 1)) >= 0);
    }
    assert(outer_brackets_removable(w));
    assert(w.subrange(1, w.len() - 1) =~= e);
}

/// `s` wrapped in `k` redundant bracket pairs.
pub open spec fn wrapped(s: Seq<char>, k: nat) -> Seq<char>
    decreases k,
{
    if k == 0 {
        s
    } else {
        seq!['('] + wrapped(s, (k - 1) as nat) + seq![')']
    }
}

/// Redundant outer brackets are harmless under any nesting depth: a valid
/// expression wrapped in any number of bracket pairs parses to the same tree.
pub proof fn lemma_nested_redundant_brackets(e: Seq<char>, k: nat)
    requires
        spec_parse(e) is Some,
    ensures
        spec_parse(wrapped(e, k)) == spec_parse(e),
    decreases k,
{
    if k > 0 {
        lemma_nested_redundant_brackets(e, (k - 1) as nat);
        lemma_redundant_brackets(wrapped(e, (k - 1) as nat));
    }
}

/// Every character of `s` is whitespace.
pub open spec fn whitespace_only(s: Seq<char>) -> bool {
    forall|m: int| 0 <= m < s.len() ==> is_space(#[trigger] s[m])
}

/// A whitespace-only prefix is trimmed away entirely.
proof fn lemma_trim_front_pad(a: Seq<char>, b: Seq<char>)
    requires
        whitespace_only(a),
    ensures
        trim_front(a + b) == trim_front(b),
    decreases a.len(),
{
    if a.len() == 0 {
        assert(a + b =~= b);
    } else {
        assert((a + b)[0] == a[0]);
        assert((a + b).drop_first() =~= a.drop_first() + b);
        lemma_trim_front_pad(a.drop_first(), b);
    }
}

/// A whitespace-only suffix is trimmed away entirely.
proof fn lemma_trim_back_pad(a: Seq<char>, b: Seq<char>)
    requires
        whitespace_only(b),
    ensures
        trim_back(a + b) == trim_back(a),
    decreases b.len(),
{
    if b.len() == 0 {
        assert(a + b =~= a);
    } else {
        assert((a + b).last() == b.last());
        assert((a + b).drop_last() =~= a + b.drop_last());
        lemma_trim_back_pad(a, b.drop_last());
    }
}

/// When something is left after front trimming, a suffix does not disturb
/// the front trim.
proof fn lemma_trim_front_concat(y: Seq<char>, w: Seq<char>)
    requires
        trim_front(y).len() > 0,
    ensures
        trim_front(y + w) == trim_front(y) + w,
    decreases y.len(),
{
    if y.len() > 0 && is_space(y[0]) {
        assert((y + w)[0] == y[0]);
        assert((y + w).drop_first() =~= y.drop_first() + w);
        lemma_trim_front_concat(y.drop_first(), w);
    } else {
        assert(y.len() > 0);
        assert((y + w)[0] == y[0]);
    }
}

/// A string whose front trim is empty is whitespace throughout.
proof fn lemma_trim_front_empty(s: Seq<char>)
    requires
        trim_front(s).len() == 0,
    ensures
        whitespace_only(s),
    decreases s.len(),
{
    if s.len() > 0 {
        assert(is_space(s[0]));
        lemma_trim_front_empty(s.drop_first());
        assert forall|m: int| 0 <= m < s.len() implies is_space(#[trigger] s[m]) by {
            if m > 0 {
                assert(s[m] == s.drop_first()[m - 1]);
            }
        }
    }
}

/// A whitespace-only string trims from the front to nothing.
proof fn lemma_trim_front_all_space(s: Seq<char>)
    requires
        whitespace_only(s),
    ensures
        trim_front(s).len() == 0,
    decreases s.len(),
{
    if s.len() > 0 {
        lemma_trim_front_all_space(s.drop_first());
    }
}

/// Leading and trailing whitespace is never significant: padding any input
/// with whitespace on either side leaves its parse, and so its meaning,
/// unchanged — valid stays valid with the same tree, invalid stays invalid.
pub proof fn lemma_whitespace_padding(w1: Seq<char>, s: Seq<char>, w2: Seq<char>)
    requires
        whitespace_only(w1),
        whitespace_only(w2),
    ensures
        spec_parse(w1 + s + w2) == spec_parse(s),
{
    let t = w1 + s + w2;
    assert(t =~= w1 + (s + w2));
    lemma_trim_front_pad(w1, s + w2);
    if trim_front(s).len() > 0 {
        lemma_trim_front_concat(s, w2);
        lemma_trim_back_pad(trim_front(s), w2);
    } else {
        lemma_trim_front_empty(s);
        assert forall|m: int| 0 <= m < (s + w2).len() implies is_space(#[trigger] (s + w2)[m]) by {
            if m < s.len() {
                assert((s + w2)[m] == s[m]);
            } else {
                assert((s + w2)[m] == w2[m - s.len()]);
            }
        }
        lemma_trim_front_all_space(s + w2);
        assert(trim_front(s + w2) =~= trim_front(s));
    }
}

/// An input that is empty after trimming is always rejected.
pub proof fn lemma_empty_input_fails(s: Seq<char>)
    requires
        trim(s).len() == 0,
    ensures
        spec_parse(s) is None,
{
}

/// An input whose brackets are unbalanced is always rejected.
pub proof fn lemma_unbalanced_fails(s: Seq<char>)
    requires
        !balanced(trim(s)),
    ensures
        spec_parse(s) is None,
{
    if outer_brackets_removable(trim(s)) {
        lemma_removable_balanced(trim(s));
    }
}

/// `log` is defined exactly on positive arguments: on an exact value it
/// fails if and only if the value is at or below zero, and is zero exactly
/// at one.
pub proof fn lemma_log_domain(e: ExprView, n: int, d: int)
    requires
        exact_value(e) == (ExactOutcome::Rational { num: n, den: d }),
    ensures
        exact_value(ExprView::Log { inner: Box::new(e) }) == (if n <= 0 {
            ExactOutcome::Invalid
        } else if n == d {
            ExactOutcome::Rational { num: 0, den: 1 }
        } else {
            ExactOutcome::Indeterminate
        }),
{
}

/// `sqrt` is defined exactly on nonnegative arguments: on an exact value it
/// fails if and only if the value is negative.
pub proof fn lemma_sqrt_domain(e: ExprView, n: int, d: int)
    requires
        exact_value(e) == (ExactOutcome::Rational { num: n, den: d }),
    ensures
        n < 0 <==> exact_value(ExprView::Sqrt { inner: Box::new(e) })
            == ExactOutcome::Invalid,
{
}

/// The tree a literal parses to, and its value and traces: a trimmed input
/// in literal shape parses to exactly that literal, whose exact value is the
/// signed fraction its digits denote, whose operand trace is that single
/// value, and whose operator trace is empty.
pub proof fn lemma_literal_value(s: Seq<char>)
    requires
        is_literal(trim(s)),
    ensures
        ({
            let t = trim(s);
            let negated = t[0] == '-';
            let digits = if t[0] == '+' || t[0] == '-' {
                t.drop_first()
            } else {
                t
            };
            &&& spec_parse(s) == Some(ExprView::Literal { negated, digits })
            &&& exact_value(ExprView::Literal { negated, digits }) == literal_outcome(
                negated,
                digits,
            )
            &&& operand_trace(ExprView::Literal { negated, digits }) == seq![
                literal_outcome(negated, digits),
            ]
            &&& op_trace(ExprView::Literal { negated, digits }) == Seq::<char>::empty()
        }),
{
    let t = trim(s);
    assert forall|m: int| 0 <= m < t.len() implies paren_delta(#[trigger] t[m]) == 0 by {
        if m == 0 {
            if t[0] == '+' || t[0] == '-' {
            } else {
                assert(is_digit(t[0]) || t[0] == '.');
            }
        } else {
            if t[0] == '+' || t[0] == '-' {
                assert(t.drop_first()[m - 1] == t[m]);
                assert(is_digit(t[m]) || t[m] == '.');
            } else {
                assert(is_digit(t[m]) || t[m] == '.');
            }
        }
    }
    lemma_no_paren_balanced(t);
    assert(!outer_brackets_removable(t)) by {
        if t[0] == '+' || t[0] == '-' {
        } else {
            assert(is_digit(t[0]) || t[0] == '.');
        }
    }
}

/// Re-evaluating the decimal rendering of an integer-valued result yields
/// the same value: the rendered text of any integer in the 64-bit range
/// parses, and evaluates exactly to that integer over one.
pub proof fn lemma_integer_round_trip(n: int)
    requires
        in64(n),
        in64(-n),
    ensures
        spec_parse(decimal_text(n)) is Some,
        exact_value(spec_parse(decimal_text(n)).unwrap()) == (ExactOutcome::Rational {
            num: n,
            den: 1,
        }),
{
    let mag = if n < 0 {
        -n
    } else {
        n
    };
    lemma_decimal_digits_wf(mag);
    lemma_dot_count_digits(decimal_digits(mag));
    lemma_decimal_digits_value(mag);
    let dd = decimal_digits(mag);
    assert(is_numeral(dd)) by {
        assert(is_digit(dd[0]));
    }
    let txt = decimal_text(n);
    if n < 0 {
        assert(txt[0] == '-');
        assert(txt.drop_first() =~= dd);
        assert(is_literal(txt));
        assert(txt[txt.len() - 1] == dd[dd.len() - 1]);
        assert(is_digit(txt[txt.len() - 1]));
        lemma_trim_noop(txt);
        lemma_literal_value(txt);
    } else {
        assert(txt == dd);
        assert(is_digit(txt[0]));
        assert(is_literal(txt));
        assert(is_digit(txt[txt.len() - 1]));
        lemma_trim_noop(txt);
        lemma_literal_value(txt);
    }
}

/// The numeral scan runs to exactly the first operator or parenthesis.
proof fn lemma_scan_token_end_stops(s: Seq<char>, i: nat, j: nat)
    requires
        i <= j <= s.len(),
        forall|m: int| i <= m < j ==> !is_special(#[trigger] s[m]),
        j == s.len() || is_special(s[j as int]),
    ensures
        scan_token_end(s, i) == j,
    decreases j - i,
{
    if i < j {
        lemma_scan_token_end_stops(s, i + 1, j);
    }
}

/// Dropping whitespace from a sequence without whitespace changes nothing.
proof fn lemma_without_spaces_id(s: Seq<char>)
    requires
        forall|m: int| 0 <= m < s.len() ==> !is_space(#[trigger] s[m]),
    ensures
        without_spaces(s) == s,
    decreases s.len(),
{
    if s.len() > 0 {
        lemma_without_spaces_id(s.drop_last());
        assert(s.drop_last().push(s.last()) =~= s);
    } else {
        assert(without_spaces(s) =~= s);
    }
}

/// A binary operation on two numerals denotes the exact arithmetic result:
/// `a + b`, `a - b`, `a * b` and `a / b` evaluate to the corresponding exact
/// rational operation on the values of `a` and `b` — in particular, division
/// by an exact zero is invalid.
pub proof fn lemma_binary_operation(a: Seq<char>, op: char, b: Seq<char>)
    requires
        is_numeral(a),
        is_numeral(b),
        is_operator(op),
    ensures
        ({
            let t = a + seq![op] + b;
            let va = literal_outcome(false, a);
            let vb = literal_outcome(false, b);
            let expected = if op == '+' {
                exact_add(va, vb)
            } else if op == '-' {
                exact_sub(va, vb)
            } else if op == '*' {
                exact_mul(va, vb)
            } else {
                exact_div(va, vb)
            };
            spec_parse(t) matches Some(ev) && exact_value(ev) == expected
        }),
{
    let t = a + seq![op] + b;
    let al = a.len() as int;
    let n = t.len() as int;
    assert(n == al + 1 + b.len());
    assert forall|m: int| 0 <= m < al implies t[m] == a[m] by {}
    assert(t[al] == op);
    assert forall|m: int| al < m < n implies t[m] == b[m - al - 1] by {}
    // character classes
    assert(is_digit(a[0]) || a[0] == '.');
    assert(is_digit(b[0]) || b[0] == '.');
    assert(t[n - 1] == b[b.len() - 1]);
    assert(is_digit(b[b.len() - 1]) || b[b.len() - 1] == '.');
    // trimming changes nothing
    lemma_trim_noop(t);
    // the string is balanced and in no other shape
    assert forall|m: int| 0 <= m < n implies paren_delta(#[trigger] t[m]) == 0 by {
        if m < al {
            assert(is_digit(a[m]) || a[m] == '.');
        } else if m > al {
            assert(is_digit(b[m - al - 1]) || b[m - al - 1] == '.');
        }
    }
    lemma_no_paren_balanced(t);
    assert(!outer_brackets_removable(t));
    assert(!is_literal(t)) by {
        assert(!(is_digit(t[al]) || t[al] == '.'));
        if t[0] == '+' || t[0] == '-' {
        } else {
            if al < t.len() {
                assert(!is_numeral(t));
            }
        }
    }
    assert(!log_shape(t));
    assert(!sqrt_shape(t));
    assert(contains_operator(t)) by {
        assert(is_operator(t[al]));
    }
    // the first operand
    assert(!is_space(t[0]));
    assert(scan_non_space(t, 0nat) == 0);
    assert(t[0] != '-' && t[0] != '(' && !is_special(t[0]));
    lemma_scan_token_end_stops(t, 0nat, a.len());
    assert(t.subrange(0, al) =~= a);
    lemma_without_spaces_id(a);
    let va_node = OperandView::Number { negated: false, digits: a };
    assert(operand_end(t, 0nat) == Some(al));
    assert(spec_parse_operand(t, 0nat) == Some(va_node));
    // the operator
    assert(!is_space(t[al]));
    assert(scan_non_space(t, a.len()) == a.len());
    assert(is_operator(t[al]));
    // the second operand
    assert(!is_space(t[al + 1]));
    assert(scan_non_space(t, (al + 1) as nat) == al + 1);
    assert(t[al + 1] != '-' && t[al + 1] != '(' && !is_special(t[al + 1]));
    assert forall|m: int| al + 1 <= m < n implies !is_special(#[trigger] t[m]) by {
        assert(t[m] == b[m - al - 1]);
        assert(is_digit(b[m - al - 1]) || b[m - al - 1] == '.');
    }
    lemma_scan_token_end_stops(t, (al + 1) as nat, t.len());
    assert(t.subrange(al + 1, n) =~= b);
    lemma_without_spaces_id(b);
    let vb_node = OperandView::Number { negated: false, digits: b };
    assert(operand_end(t, (al + 1) as nat) == Some(n));
    assert(spec_parse_operand(t, (al + 1) as nat) == Some(vb_node));
    // the tail terminates at the end of the string
    assert(scan_non_space(t, t.len()) == t.len());
    let opv = op_of_char(op);
    let cv = CompoundView { operands: seq![va_node, vb_node], operators: seq![opv] };
    assert(spec_parse_tail(t, t.len(), seq![va_node, vb_node], seq![opv]) == Some(cv));
    assert(seq![va_node].push(vb_node) =~= seq![va_node, vb_node]);
    assert(Seq::<BinOp>::empty().push(opv) =~= seq![opv]);
    assert(spec_parse_tail(t, a.len(), seq![va_node], Seq::empty()) == Some(cv));
    assert(spec_parse_compound(t) == Some(cv));
    assert(spec_parse_trimmed(t) == Some(ExprView::Compound { compound: cv }));
    // the exact value
    let va = literal_outcome(false, a);
    let vb = literal_outcome(false, b);
    assert(cv.operands.len() == 2 && cv.operators.len() == 1);
    let vals = operand_outcomes(cv.operands);
    assert(vals =~= seq![va, vb]) by {
        assert(operand_outcome(cv.operands[0]) == va);
        assert(operand_outcome(cv.operands[1]) == vb);
    }
    let expected = if op == '+' {
        exact_add(va, vb)
    } else if op == '-' {
        exact_sub(va, vb)
    } else if op == '*' {
        exact_mul(va, vb)
    } else {
        exact_div(va, vb)
    };
    if opv == BinOp::Mul || opv == BinOp::Div {
        let combined = if opv == BinOp::Mul {
            exact_mul(vals[0], vals[1])
        } else {
            exact_div(vals[0], vals[1])
        };
        assert(seq![combined] + vals.skip(2) =~= seq![combined]);
        assert(seq![opv].drop_first() =~= Seq::<BinOp>::empty());
        assert(mul_pass(seq![combined], Seq::<BinOp>::empty()) == (
            seq![combined],
            Seq::<BinOp>::empty(),
        ));
        assert(mul_pass(vals, cv.operators).0 =~= seq![combined]);
        assert(add_pass(seq![combined], Seq::<BinOp>::empty()) == combined);
        assert(compound_outcome(cv) == expected);
    } else {
        assert(vals.drop_first() =~= seq![vb]);
        assert(seq![opv].drop_first() =~= Seq::<BinOp>::empty());
        assert(mul_pass(seq![vb], Seq::<BinOp>::empty()) == (seq![vb], Seq::<BinOp>::empty()));
        assert(seq![vals[0]] + seq![vb] =~= seq![va, vb]);
        assert(seq![opv] + Seq::<BinOp>::empty() =~= seq![opv]);
        assert(mul_pass(vals, cv.operators).0 =~= seq![va, vb]);
        assert(mul_pass(vals, cv.operators).1 =~= seq![opv]);
        let combined = if opv == BinOp::Add {
            exact_add(va, vb)
        } else {
            exact_sub(va, vb)
        };
        assert(seq![combined] + seq![va, vb].skip(2) =~= seq![combined]);
        assert(add_pass(seq![combined], Seq::<BinOp>::empty()) == combined);
        assert(add_pass(seq![va, vb], seq![opv]) == combined);
        assert(compound_outcome(cv) == expected);
    }
}

} // verus!
