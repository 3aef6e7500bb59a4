//! The executable parser: proved to accept exactly the strings the grammar
//! accepts, and to build the tree the grammar prescribes.

use vstd::prelude::*;

use crate::ast::{
    lemma_operand_views_push, lemma_operand_views_singleton, operand_views, BinOp, Compound, Expr,
    Operand, ParseError,
};
use crate::brackets::{check_balanced_chars, removable_chars};
use crate::chars::{digit_char, is_digit, operator_char, space_char, special_char, to_chars};
use crate::grammar::{
    close_index, dot_count, is_literal, is_numeral, lemma_close_index_bounds,
    lemma_operand_end_advance, lemma_trim_len, op_of_char, operand_end, scan_non_space,
    scan_token_end, spec_parse,
    spec_parse_compound, spec_parse_operand, spec_parse_tail, spec_parse_trimmed, trim,
    trim_back, trim_front, wf_compound, wf_expr, wf_operand, without_spaces,
};

verus! {

/// Copies the characters of `v` between `a` and `b` into a fresh vector.
fn copy_range(v: &Vec<char>, a: usize, b: usize) -> (r: Vec<char>)
    requires
        a <= b <= v@.len(),
    ensures
        r@ == v@.subrange(a as int, b as int),
{
    let mut r: Vec<char> = Vec::new();
    let mut i: usize = a;
    while i < b
        invariant
            a <= i <= b <= v@.len(),
            r@ == v@.subrange(a as int, i as int),
        decreases b - i,
    {
        r.push(v[i]);
        proof {
            assert(v@.subrange(a as int, i + 1) =~= v@.subrange(a as int, i as int).push(
                v@[i as int],
            ));
        }
        i = i + 1;
    }
    r
}

/// The first position at or after `i` that holds a non-whitespace character.
fn skip_spaces(v: &Vec<char>, i: usize) -> (r: usize)
    requires
        i <= v@.len(),
    ensures
        r as nat == scan_non_space(v@, i as nat),
        i <= r <= v@.len(),
    decreases v@.len() - i,
{
    if i >= v.len() {
        i
    } else if space_char(v[i]) {
        skip_spaces(v, i + 1)
    } else {
        i
    }
}

/// The end of a numeral token starting at `i`: the first position holding an
/// operator or parenthesis.
fn token_end(v: &Vec<char>, i: usize) -> (r: usize)
    requires
        i <= v@.len(),
    ensures
        r as nat == scan_token_end(v@, i as nat),
        i <= r <= v@.len(),
    decreases v@.len() - i,
{
    if i >= v.len() {
        i
    } else if special_char(v[i]) {
        i
    } else {
        token_end(v, i + 1)
    }
}

/// The position of the parenthesis that closes the group: scanning from `i`
/// with `d` brackets open, where the depth first returns to zero.
fn find_close(v: &Vec<char>, i: usize, d: usize) -> (r: Option<usize>)
    requires
        i <= v@.len(),
        1 <= d <= i,
    ensures
        match close_index(v@, i as nat, d as int) {
            Some(c) => r matches Some(u) && u as int == c,
            None => r is None,
        },
    decreases v@.len() - i,
{
    if i >= v.len() {
        None
    } else {
        let c = v[i];
        let d2: usize = if c == '(' {
            d + 1
        } else if c == ')' {
            d - 1
        } else {
            d
        };
        if d2 == 0 {
            Some(i)
        } else {
            find_close(v, i + 1, d2)
        }
    }
}

/// The characters of `v` between `a` and `b`, with whitespace dropped: the
/// text of one numeral token.
fn collect_token(v: &Vec<char>, a: usize, b: usize) -> (r: Vec<char>)
    requires
        a <= b <= v@.len(),
    ensures
        r@ == without_spaces(v@.subrange(a as int, b as int)),
{
    let mut r: Vec<char> = Vec::new();
    let mut i: usize = a;
    proof {
        assert(v@.subrange(a as int, a as int) =~= Seq::<char>::empty());
    }
    while i < b
        invariant
            a <= i <= b <= v@.len(),
            r@ == without_spaces(v@.subrange(a as int, i as int)),
        decreases b - i,
    {
        let c = v[i];
        proof {
            assert(v@.subrange(a as int, i + 1).drop_last() =~= v@.subrange(a as int, i as int));
            assert(v@.subrange(a as int, i + 1).last() == v@[i as int]);
        }
        if !space_char(c) {
            r.push(c);
        }
        i = i + 1;
    }
    r
}

/// Decides whether `v` is an unsigned decimal numeral.
fn numeral_check(v: &Vec<char>) -> (b: bool)
    ensures
        b == is_numeral(v@),
{
    let n: usize = v.len();
    if n == 0 {
        return false;
    }
    let mut dots: usize = 0;
    let mut saw_digit: bool = false;
    let mut i: usize = 0;
    while i < n
        invariant
            n == v@.len(),
            i <= n,
            dots <= i,
            dots as nat == dot_count(v@.take(i as int)),
            saw_digit == exists|m: int| 0 <= m < i && is_digit(#[trigger] v@[m]),
            forall|m: int| 0 <= m < i ==> is_digit(#[trigger] v@[m]) || v@[m] == '.',
        decreases n - i,
    {
        let c = v[i];
        proof {
            assert(v@.take(i + 1).drop_last() =~= v@.take(i as int));
            assert(v@.take(i + 1).last() == v@[i as int]);
        }
        if digit_char(c) {
            saw_digit = true;
        } else if c == '.' {
            dots = dots + 1;
        } else {
            proof {
                assert(!(is_digit(v@[i as int]) || v@[i as int] == '.'));
            }
            return false;
        }
        i = i + 1;
    }
    proof {
        assert(v@.take(n as int) =~= v@);
    }
    dots <= 1 && saw_digit
}

/// Reports whether any of the four operator characters occurs in `v`.
fn find_operator(v: &Vec<char>) -> (b: bool)
    ensures
        b == crate::grammar::contains_operator(v@),
{
    let mut i: usize = 0;
    while i < v.len()
        invariant
            i <= v@.len(),
            forall|m: int| 0 <= m < i ==> !crate::chars::is_operator(#[trigger] v@[m]),
        decreases v@.len() - i,
    {
        if operator_char(v[i]) {
            return true;
        }
        i = i + 1;
    }
    false
}

/// Removes leading and trailing whitespace.
fn trim_chars(v: Vec<char>) -> (r: Vec<char>)
    ensures
        r@ == trim(v@),
{
    let mut v = v;
    let ghost orig = v@;
    while v.len() > 0 && space_char(v[0])
        invariant
            trim_front(v@) == trim_front(orig),
        decreases v@.len(),
    {
        let ghost pre = v@;
        v.remove(0);
        proof {
            assert(v@ =~= pre.drop_first());
        }
    }
    proof {
        assert(trim_front(v@) == v@);
    }
    while v.len() > 0 && space_char(v[v.len() - 1])
        invariant
            trim_back(v@) == trim_back(trim_front(orig)),
        decreases v@.len(),
    {
        let ghost pre = v@;
        v.pop();
        proof {
            assert(v@ =~= pre.drop_last());
        }
    }
    proof {
        assert(trim_back(v@) == v@);
    }
    v
}

/// The binary operator denoted by an operator character.
fn op_from_char(c: char) -> (r: BinOp)
    requires
        crate::chars::is_operator(c),
    ensures
        r == op_of_char(c),
{
    if c == '+' {
        BinOp::Add
    } else if c == '-' {
        BinOp::Sub
    } else if c == '*' {
        BinOp::Mul
    } else {
        BinOp::Div
    }
}

/// Parses one operand starting at or after `i`, returning it together with
/// the position just past it.
fn parse_operand(v: &Vec<char>, i: usize) -> (r: Option<(Operand, usize)>)
    requires
        i <= v@.len(),
    ensures
        match spec_parse_operand(v@, i as nat) {
            Some(ov) => r matches Some(p) && p.0@ == ov && operand_end(v@, i as nat) == Some(
                p.1 as int,
            ) && p.1 <= v@.len() && wf_operand(p.0@),
            None => r is None,
        },
    decreases v@.len(), 0nat,
{
    let j = skip_spaces(v, i);
    if j >= v.len() {
        return None;
    }
    let neg = v[j] == '-';
    let k0 = if neg {
        skip_spaces(v, j + 1)
    } else {
        j
    };
    if k0 >= v.len() {
        return None;
    }
    if v[k0] == '(' {
        proof {
            lemma_close_index_bounds(v@, (k0 + 1) as nat, 1);
        }
        match find_close(v, k0 + 1, 1) {
            None => None,
            Some(c) => {
                let interior = copy_range(v, k0 + 1, c);
                match parse_compound_chars(&interior) {
                    None => None,
                    Some(inner) => Some((Operand::Group { negated: neg, inner }, c + 1)),
                }
            },
        }
    } else if special_char(v[k0]) {
        None
    } else {
        let e = token_end(v, k0);
        let body = collect_token(v, k0, e);
        if numeral_check(&body) {
            Some((Operand::Number { negated: neg, digits: body }, e))
        } else {
            None
        }
    }
}

/// Parses a whole compound expression: an operand, then operator/operand
/// pairs until the end of the string.
fn parse_compound_chars(v: &Vec<char>) -> (r: Option<Compound>)
    ensures
        match spec_parse_compound(v@) {
            Some(cv) => r matches Some(c) && c@ == cv && wf_compound(c@),
            None => r is None,
        },
    decreases v@.len(), v@.len() + 1,
{
    proof {
        lemma_operand_end_advance(v@, 0);
    }
    match parse_operand(v, 0) {
        None => None,
        Some((first, k)) => {
            proof {
                lemma_operand_views_singleton(first);
            }
            let mut operands: Vec<Operand> = Vec::new();
            operands.push(first);
            let mut operators: Vec<BinOp> = Vec::new();
            let mut i: usize = k;
            proof {
                assert(operands@ =~= seq![first]);
            }
            loop
                invariant
                    i <= v@.len(),
                    operands@.len() == operators@.len() + 1,
                    forall|m: int|
                        0 <= m < operands@.len() ==> wf_operand(
                            #[trigger] operand_views(operands@)[m],
                        ),
                    spec_parse_compound(v@) == spec_parse_tail(
                        v@,
                        i as nat,
                        operand_views(operands@),
                        operators@,
                    ),
                decreases v@.len() - i,
            {
                let j = skip_spaces(v, i);
                if j >= v.len() {
                    return Some(Compound { operands, operators });
                }
                let c = v[j];
                if !operator_char(c) {
                    return None;
                }
                let op = op_from_char(c);
                proof {
                    lemma_operand_end_advance(v@, (j + 1) as nat);
                }
                match parse_operand(v, j + 1) {
                    None => {
                        return None;
                    },
                    Some((o, k2)) => {
                        proof {
                            lemma_operand_views_push(operands@, o);
                        }
                        operands.push(o);
                        operators.push(op);
                        i = k2;
                    },
                }
            }
        },
    }
}

/// Parses a trimmed character vector into an expression tree.
fn parse_trimmed(t: Vec<char>) -> (r: Option<Expr>)
    ensures
        match spec_parse_trimmed(t@) {
            Some(ev) => r matches Some(e) && e@ == ev && wf_expr(e@),
            None => r is None,
        },
    decreases t@.len(),
{
    let n = t.len();
    if removable_chars(&t) {
        let interior = copy_range(&t, 1, n - 1);
        proof {
            lemma_trim_len(interior@);
        }
        let inner = trim_chars(interior);
        return parse_trimmed(inner);
    }
    if n == 0 {
        return None;
    }
    if !check_balanced_chars(&t) {
        return None;
    }
    // literal
    let first = t[0];
    if first == '+' || first == '-' {
        let rest = copy_range(&t, 1, n);
        proof {
            assert(t@.subrange(1, t@.len() as int) =~= t@.drop_first());
        }
        if numeral_check(&rest) {
            return Some(Expr::Literal { negated: first == '-', digits: rest });
        }
    } else {
        if numeral_check(&t) {
            let digits = copy_range(&t, 0, n);
            proof {
                assert(t@.subrange(0, t@.len() as int) =~= t@);
            }
            return Some(Expr::Literal { negated: false, digits });
        }
    }
    proof {
        assert(!is_literal(t@));
    }
    // log( ... )
    if n >= 5 && t[0] == 'l' && t[1] == 'o' && t[2] == 'g' && t[3] == '(' && t[n - 1] == ')' {
        let interior = copy_range(&t, 4, n - 1);
        proof {
            lemma_trim_len(interior@);
        }
        let inner = trim_chars(interior);
        return match parse_trimmed(inner) {
            None => None,
            Some(e) => Some(Expr::Log { inner: Box::new(e) }),
        };
    }
    // sqrt( ... )
    if n >= 6 && t[0] == 's' && t[1] == 'q' && t[2] == 'r' && t[3] == 't' && t[4] == '(' && t[n
        - 1] == ')' {
        let interior = copy_range(&t, 5, n - 1);
        proof {
            lemma_trim_len(interior@);
        }
        let inner = trim_chars(interior);
        return match parse_trimmed(inner) {
            None => None,
            Some(e) => Some(Expr::Sqrt { inner: Box::new(e) }),
        };
    }
    if find_operator(&t) {
        return match parse_compound_chars(&t) {
            None => None,
            Some(compound) => Some(Expr::Compound { compound }),
        };
    }
    None
}

/// Parses expression text into an expression tree, or reports that the text
/// is not a well-formed expression. Exactly the strings the grammar accepts
/// are parsed: `parse_expr(s)` is `Ok` if and only if `spec_parse(s@)` is
/// `Some`, and the returned tree is the one the grammar denotes.
pub fn parse_expr(s: &str) -> (r: Result<Expr, ParseError>)
    ensures
        match spec_parse(s@) {
            Some(ev) => r matches Ok(e) && e@ == ev && wf_expr(e@),
            None => r matches Err(pe) && pe == ParseError::InvalidExpression,
        },
{
    let cs = to_chars(s);
    let t = trim_chars(cs);
    match parse_trimmed(t) {
        Some(e) => Ok(e),
        None => Err(ParseError::InvalidExpression),
    }
}

} // verus!
