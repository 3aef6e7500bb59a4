//! The grammar, as specification functions: exactly which strings are
//! accepted, and which expression tree each accepted string denotes.
//!
//! An expression is, after trimming and repeated removal of redundant outer
//! brackets, one of: a signed decimal literal; `log(...)` or `sqrt(...)`
//! spanning the whole string, whose interior is again a full expression; or a
//! compound expression, scanned left to right into operands joined by binary
//! operators. An operand is an optionally minus-prefixed numeral or
//! parenthesized group; group interiors are again compound expressions.
//! Whitespace between tokens is skipped, so digits separated only by spaces
//! join into one numeral. A `-` where an operand is expected is a sign
//! prefix; a `+` there, or two operands with no operator between them, make
//! the string invalid.

use vstd::prelude::*;

use crate::ast::{BinOp, CompoundView, ExprView, OperandView};
use crate::brackets::{balanced, depth, outer_brackets_removable, paren_delta};
use crate::chars::{is_digit, is_operator, is_space, is_special};

verus! {

/// `s` with leading whitespace removed.
pub open spec fn trim_front(s: Seq<char>) -> Seq<char>
    decreases s.len(),
{
    if s.len() > 0 && is_space(s[0]) {
        trim_front(s.drop_first())
    } else {
        s
    }
}

/// `s` with trailing whitespace removed.
pub open spec fn trim_back(s: Seq<char>) -> Seq<char>
    decreases s.len(),
{
    if s.len() > 0 && is_space(s.last()) {
        trim_back(s.drop_last())
    } else {
        s
    }
}

/// `s` with leading and trailing whitespace removed.
pub open spec fn trim(s: Seq<char>) -> Seq<char> {
    trim_back(trim_front(s))
}

pub proof fn lemma_trim_front_len(s: Seq<char>)
    ensures
        trim_front(s).len() <= s.len(),
    decreases s.len(),
{
    if s.len() > 0 && is_space(s[0]) {
        lemma_trim_front_len(s.drop_first());
    }
}

pub proof fn lemma_trim_back_len(s: Seq<char>)
    ensures
        trim_back(s).len() <= s.len(),
    decreases s.len(),
{
    if s.len() > 0 && is_space(s.last()) {
        lemma_trim_back_len(s.drop_last());
    }
}

pub proof fn lemma_trim_len(s: Seq<char>)
    ensures
        trim(s).len() <= s.len(),
{
    lemma_trim_front_len(s);
    lemma_trim_back_len(trim_front(s));
}

/// `s` with every whitespace character removed.
pub open spec fn without_spaces(s: Seq<char>) -> Seq<char>
    decreases s.len(),
{
    if s.len() == 0 {
        Seq::empty()
    } else if is_space(s.last()) {
        without_spaces(s.drop_last())
    } else {
        without_spaces(s.drop_last()).push(s.last())
    }
}

/// How many `.` characters `s` holds.
pub open spec fn dot_count(s: Seq<char>) -> nat
    decreases s.len(),
{
    if s.len() == 0 {
        0
    } else {
        dot_count(s.drop_last()) + (if s.last() == '.' {
            1nat
        } else {
            0nat
        })
    }
}

/// An unsigned decimal numeral: only digits and at most one decimal point,
/// with at least one digit.
pub open spec fn is_numeral(s: Seq<char>) -> bool {
    &&& s.len() > 0
    &&& forall|m: int| 0 <= m < s.len() ==> is_digit(#[trigger] s[m]) || s[m] == '.'
    &&& dot_count(s) <= 1
    &&& exists|m: int| 0 <= m < s.len() && is_digit(#[trigger] s[m])
}

/// An optionally signed decimal numeral, the shape a whole expression may
/// take as a literal.
pub open spec fn is_literal(s: Seq<char>) -> bool {
    if s.len() == 0 {
        false
    } else if s[0] == '+' || s[0] == '-' {
        is_numeral(s.drop_first())
    } else {
        is_numeral(s)
    }
}

/// Whether any of the four operator characters occurs in `s`.
pub open spec fn contains_operator(s: Seq<char>) -> bool {
    exists|m: int| 0 <= m < s.len() && is_operator(#[trigger] s[m])
}

/// The first position at or after `i` holding a non-whitespace character, or
/// the length of `s`.
pub open spec fn scan_non_space(s: Seq<char>, i: nat) -> nat
    decreases s.len() - i,
{
    if i >= s.len() || !is_space(s[i as int]) {
        i
    } else {
        scan_non_space(s, i + 1)
    }
}

/// The first position at or after `i` holding an operator or parenthesis, or
/// the length of `s`: the end of a numeral token starting at `i`.
pub open spec fn scan_token_end(s: Seq<char>, i: nat) -> nat
    decreases s.len() - i,
{
    if i >= s.len() || is_special(s[i as int]) {
        i
    } else {
        scan_token_end(s, i + 1)
    }
}

/// The position of the parenthesis that closes a group: scanning from `i`
/// with `d` brackets already open, the first position where the depth
/// returns to zero, or `None` when it never does.
pub open spec fn close_index(s: Seq<char>, i: nat, d: int) -> Option<int>
    decreases s.len() - i,
{
    if i >= s.len() {
        None
    } else if d + paren_delta(s[i as int]) == 0 {
        Some(i as int)
    } else {
        close_index(s, i + 1, d + paren_delta(s[i as int]))
    }
}

pub proof fn lemma_scan_non_space_bounds(s: Seq<char>, i: nat)
    requires
        i <= s.len(),
    ensures
        i <= scan_non_space(s, i) <= s.len(),
        scan_non_space(s, i) < s.len() ==> !is_space(s[scan_non_space(s, i) as int]),
        forall|j: int| i <= j < scan_non_space(s, i) ==> is_space(#[trigger] s[j]),
    decreases s.len() - i,
{
    if i < s.len() && is_space(s[i as int]) {
        lemma_scan_non_space_bounds(s, i + 1);
    }
}

pub proof fn lemma_scan_token_end_bounds(s: Seq<char>, i: nat)
    requires
        i <= s.len(),
    ensures
        i <= scan_token_end(s, i) <= s.len(),
        scan_token_end(s, i) < s.len() ==> is_special(s[scan_token_end(s, i) as int]),
        forall|j: int| i <= j < scan_token_end(s, i) ==> !is_special(#[trigger] s[j]),
    decreases s.len() - i,
{
    if i < s.len() && !is_special(s[i as int]) {
        lemma_scan_token_end_bounds(s, i + 1);
    }
}

pub proof fn lemma_close_index_bounds(s: Seq<char>, i: nat, d: int)
    requires
        i <= s.len(),
        1 <= d,
    ensures
        match close_index(s, i, d) {
            Some(c) => i <= c < s.len() && s[c] == ')',
            None => true,
        },
    decreases s.len() - i,
{
    if i < s.len() {
        let d2 = d + paren_delta(s[i as int]);
        if d2 != 0 {
            lemma_close_index_bounds(s, i + 1, d2);
        }
    }
}

/// The position just past the operand that starts at or after `i`, or `None`
/// when no operand starts there.
pub open spec fn operand_end(s: Seq<char>, i: nat) -> Option<int> {
    let j = scan_non_space(s, i);
    if j >= s.len() {
        None
    } else {
        let k0 = if s[j as int] == '-' {
            scan_non_space(s, j + 1)
        } else {
            j
        };
        if k0 >= s.len() {
            None
        } else if s[k0 as int] == '(' {
            match close_index(s, k0 + 1, 1) {
                None => None,
                Some(c) => Some(c + 1),
            }
        } else if is_special(s[k0 as int]) {
            None
        } else {
            Some(scan_token_end(s, k0) as int)
        }
    }
}

pub proof fn lemma_operand_end_advance(s: Seq<char>, i: nat)
    requires
        i <= s.len(),
    ensures
        match operand_end(s, i) {
            Some(k) => i < k <= s.len(),
            None => true,
        },
{
    lemma_scan_non_space_bounds(s, i);
    let j = scan_non_space(s, i);
    if j < s.len() {
        lemma_scan_non_space_bounds(s, j + 1);
        let k0 = if s[j as int] == '-' {
            scan_non_space(s, j + 1)
        } else {
            j
        };
        if k0 < s.len() {
            if s[k0 as int] == '(' {
                lemma_close_index_bounds(s, k0 + 1, 1);
            } else if !is_special(s[k0 as int]) {
                lemma_scan_token_end_bounds(s, k0);
            }
        }
    }
}

/// The operand starting at or after `i`: an optionally minus-prefixed
/// numeral (whitespace dropped), or an optionally minus-prefixed
/// parenthesized group whose interior is a compound expression.
pub open spec fn spec_parse_operand(s: Seq<char>, i: nat) -> Option<OperandView>
    decreases s.len(), 0nat,
    via spec_parse_operand_decreases
{
    let j = scan_non_space(s, i);
    if j >= s.len() {
        None
    } else {
        let neg = s[j as int] == '-';
        let k0 = if neg {
            scan_non_space(s, j + 1)
        } else {
            j
        };
        if k0 >= s.len() {
            None
        } else if s[k0 as int] == '(' {
            match close_index(s, k0 + 1, 1) {
                None => None,
                Some(c) => match spec_parse_compound(s.subrange(k0 + 1 as int, c)) {
                    None => None,
                    Some(inner) => Some(OperandView::Group { negated: neg, inner }),
                },
            }
        } else if is_special(s[k0 as int]) {
            None
        } else {
            let body = without_spaces(s.subrange(k0 as int, scan_token_end(s, k0) as int));
            if is_numeral(body) {
                Some(OperandView::Number { negated: neg, digits: body })
            } else {
                None
            }
        }
    }
}

#[via_fn]
proof fn spec_parse_operand_decreases(s: Seq<char>, i: nat) {
    if i <= s.len() {
        lemma_scan_non_space_bounds(s, i);
        let j = scan_non_space(s, i);
        if j < s.len() {
            lemma_scan_non_space_bounds(s, j + 1);
            let k0 = if s[j as int] == '-' {
                scan_non_space(s, j + 1)
            } else {
                j
            };
            if k0 < s.len() {
                lemma_close_index_bounds(s, k0 + 1, 1);
            }
        }
    }
}

/// Continues a compound expression after one operand: at each step an
/// operator followed by a further operand, until the end of the string.
pub open spec fn spec_parse_tail(
    s: Seq<char>,
    i: nat,
    operands: Seq<OperandView>,
    operators: Seq<BinOp>,
) -> Option<CompoundView>
    decreases s.len(), s.len() - i,
    via spec_parse_tail_decreases
{
    let j = scan_non_space(s, i);
    if j >= s.len() {
        Some(CompoundView { operands, operators })
    } else if is_operator(s[j as int]) {
        let op = op_of_char(s[j as int]);
        match operand_end(s, j + 1) {
            None => None,
            Some(k) => match spec_parse_operand(s, j + 1) {
                None => None,
                Some(o) => spec_parse_tail(s, k as nat, operands.push(o), operators.push(op)),
            },
        }
    } else {
        None
    }
}

#[via_fn]
proof fn spec_parse_tail_decreases(
    s: Seq<char>,
    i: nat,
    operands: Seq<OperandView>,
    operators: Seq<BinOp>,
) {
    if i <= s.len() {
        lemma_scan_non_space_bounds(s, i);
        let j = scan_non_space(s, i);
        if j < s.len() {
            lemma_operand_end_advance(s, j + 1);
        }
    }
}

/// A whole compound expression: an operand, continued by `spec_parse_tail`.
pub open spec fn spec_parse_compound(s: Seq<char>) -> Option<CompoundView>
    decreases s.len(), s.len() + 1,
    via spec_parse_compound_decreases
{
    match operand_end(s, 0) {
        None => None,
        Some(k) => match spec_parse_operand(s, 0) {
            None => None,
            Some(o) => spec_parse_tail(s, k as nat, seq![o], Seq::empty()),
        },
    }
}

#[via_fn]
proof fn spec_parse_compound_decreases(s: Seq<char>) {
    lemma_operand_end_advance(s, 0);
}

/// The binary operator denoted by one of the four operator characters.
pub open spec fn op_of_char(c: char) -> BinOp {
    if c == '+' {
        BinOp::Add
    } else if c == '-' {
        BinOp::Sub
    } else if c == '*' {
        BinOp::Mul
    } else {
        BinOp::Div
    }
}

/// The whole string is `log(` ... `)`.
pub open spec fn log_shape(s: Seq<char>) -> bool {
    s.len() >= 5 && s[0] == 'l' && s[1] == 'o' && s[2] == 'g' && s[3] == '(' && s[s.len() - 1]
        == ')'
}

/// The whole string is `sqrt(` ... `)`.
pub open spec fn sqrt_shape(s: Seq<char>) -> bool {
    s.len() >= 6 && s[0] == 's' && s[1] == 'q' && s[2] == 'r' && s[3] == 't' && s[4] == '(' && s[
        s.len() - 1] == ')'
}

/// What a trimmed string parses to. Redundant outer brackets are stripped
/// first; an empty or unbalanced string is refused; then the string is a
/// literal, a `log` or `sqrt` application, or a compound expression, which
/// must contain at least one operator character.
pub open spec fn spec_parse_trimmed(t: Seq<char>) -> Option<ExprView>
    decreases t.len(),
    via spec_parse_trimmed_decreases
{
    if outer_brackets_removable(t) {
        spec_parse_trimmed(trim(t.subrange(1, t.len() - 1)))
    } else if t.len() == 0 {
        None
    } else if !balanced(t) {
        None
    } else if is_literal(t) {
        Some(
            ExprView::Literal {
                negated: t[0] == '-',
                digits: if t[0] == '+' || t[0] == '-' {
                    t.drop_first()
                } else {
                    t
                },
            },
        )
    } else if log_shape(t) {
        match spec_parse_trimmed(trim(t.subrange(4, t.len() - 1))) {
            None => None,
            Some(inner) => Some(ExprView::Log { inner: Box::new(inner) }),
        }
    } else if sqrt_shape(t) {
        match spec_parse_trimmed(trim(t.subrange(5, t.len() - 1))) {
            None => None,
            Some(inner) => Some(ExprView::Sqrt { inner: Box::new(inner) }),
        }
    } else if contains_operator(t) {
        match spec_parse_compound(t) {
            None => None,
            Some(compound) => Some(ExprView::Compound { compound }),
        }
    } else {
        None
    }
}

#[via_fn]
proof fn spec_parse_trimmed_decreases(t: Seq<char>) {
    if t.len() >= 2 {
        lemma_trim_len(t.subrange(1, t.len() - 1));
    }
    if t.len() >= 5 {
        lemma_trim_len(t.subrange(4, t.len() - 1));
    }
    if t.len() >= 6 {
        lemma_trim_len(t.subrange(5, t.len() - 1));
    }
}

/// What a string parses to: its trimmed form, parsed.
pub open spec fn spec_parse(s: Seq<char>) -> Option<ExprView> {
    spec_parse_trimmed(trim(s))
}

/// A well-formed operand: numeral text is a numeral, group interiors are
/// well-formed compounds.
pub open spec fn wf_operand(o: OperandView) -> bool
    decreases o, 2nat,
{
    match o {
        OperandView::Number { negated, digits } => is_numeral(digits),
        OperandView::Group { negated, inner } => wf_compound(inner),
    }
}

/// A well-formed compound: one more operand than operators, every operand
/// well-formed.
pub open spec fn wf_compound(c: CompoundView) -> bool
    decreases c, 1nat,
    via wf_compound_decreases
{
    &&& c.operands.len() == c.operators.len() + 1
    &&& forall|m: int| 0 <= m < c.operands.len() ==> wf_operand(#[trigger] c.operands[m])
}

#[via_fn]
proof fn wf_compound_decreases(c: CompoundView) {
    broadcast use vstd::seq::axiom_seq_index_decreases;

}

/// A well-formed expression tree: the shape the parser produces.
pub open spec fn wf_expr(e: ExprView) -> bool
    decreases e, 3nat,
{
    match e {
        ExprView::Literal { negated, digits } => is_numeral(digits),
        ExprView::Log { inner } => wf_expr(*inner),
        ExprView::Sqrt { inner } => wf_expr(*inner),
        ExprView::Compound { compound } => wf_compound(compound),
    }
}

} // verus!
