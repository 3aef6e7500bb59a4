//! Parenthesis bookkeeping: the running nesting depth of a character
//! sequence, the balance check every expression must pass, and the removal of
//! one redundant outer bracket pair.

use vstd::prelude::*;

use crate::chars::to_chars;

verus! {

/// The contribution of one character to the parenthesis nesting depth.
pub open spec fn paren_delta(c: char) -> int {
    if c == '(' {
        1
    } else if c == ')' {
        -1
    } else {
        0
    }
}

/// The parenthesis nesting depth after reading all of `s`: the number of `(`
/// minus the number of `)`.
pub open spec fn depth(s: Seq<char>) -> int
    decreases s.len(),
{
    if s.len() == 0 {
        0
    } else {
        depth(s.drop_last()) + paren_delta(s.last())
    }
}

/// Brackets are balanced when the running depth never goes negative and ends
/// at zero.
pub open spec fn balanced(s: Seq<char>) -> bool {
    depth(s) == 0 && forall|j: int| 0 <= j <= s.len() ==> depth(#[trigger] s.take(j)) >= 0
}

/// The whole of `s` is wrapped in one redundant bracket pair: it starts with
/// `(`, ends with `)`, and the running depth returns to zero only at the very
/// end, never earlier. This is exactly the condition under which stripping
/// the first and last character leaves an equivalent expression.
pub open spec fn outer_brackets_removable(s: Seq<char>) -> bool {
    &&& s.len() >= 2
    &&& s[0] == '('
    &&& s[s.len() - 1] == ')'
    &&& depth(s) == 0
    &&& forall|j: int| 1 <= j < s.len() ==> depth(#[trigger] s.take(j)) != 0
}

/// Reading one more character moves the depth by that character's delta.
pub proof fn lemma_depth_step(s: Seq<char>, j: int)
    requires
        0 <= j < s.len(),
    ensures
        depth(s.take(j + 1)) == depth(s.take(j)) + paren_delta(s[j]),
{
    assert(s.take(j + 1).drop_last() =~= s.take(j));
    assert(s.take(j + 1).last() == s[j]);
}

/// The depth is bounded by the length of the sequence.
pub proof fn lemma_depth_bounds(s: Seq<char>)
    ensures
        -(s.len() as int) <= depth(s) <= s.len() as int,
    decreases s.len(),
{
    if s.len() > 0 {
        lemma_depth_bounds(s.drop_last());
    }
}

/// The balance check, on a character vector.
pub fn check_balanced_chars(v: &Vec<char>) -> (b: bool)
    ensures
        b == balanced(v@),
{
    let n: usize = v.len();
    let mut balance: usize = 0;
    let mut i: usize = 0;
    while i < n
        invariant
            n == v@.len(),
            i <= n,
            balance <= i,
            balance as int == depth(v@.take(i as int)),
            forall|j: int| 0 <= j <= i ==> depth(#[trigger] v@.take(j)) >= 0,
        decreases n - i,
    {
        let c = v[i];
        proof {
            lemma_depth_step(v@, i as int);
        }
        if c == '(' {
            balance = balance + 1;
        } else if c == ')' {
            if balance == 0 {
                proof {
                    assert(depth(v@.take(i + 1)) == -1);
                }
                return false;
            }
            balance = balance - 1;
        }
        i = i + 1;
    }
    proof {
        assert(v@.take(n as int) =~= v@);
    }
    balance == 0
}

/// The removability check, on a character vector.
pub fn removable_chars(v: &Vec<char>) -> (b: bool)
    ensures
        b == outer_brackets_removable(v@),
{
    let n: usize = v.len();
    if n < 2 {
        return false;
    }
    if v[0] != '(' {
        return false;
    }
    if v[n - 1] != ')' {
        return false;
    }
    let mut balance: usize = 0;
    let mut i: usize = 0;
    while i < n
        invariant
            n == v@.len(),
            2 <= n,
            v@[0] == '(',
            i <= n,
            balance <= i,
            balance as int == depth(v@.take(i as int)),
            forall|j: int| 1 <= j <= i && j < n ==> depth(#[trigger] v@.take(j)) != 0,
            1 <= i && i < n ==> balance >= 1,
        decreases n - i,
    {
        let c = v[i];
        proof {
            lemma_depth_step(v@, i as int);
        }
        if c == '(' {
            balance = balance + 1;
        } else if c == ')' {
            balance = balance - 1;
        }
        if balance == 0 && i < n - 1 {
            proof {
                assert(depth(v@.take(i + 1)) == 0);
            }
            return false;
        }
        i = i + 1;
    }
    proof {
        assert(v@.take(n as int) =~= v@);
    }
    balance == 0
}

/// Reports whether the parentheses of `s` are balanced: scanning left to
/// right, the running depth never goes negative and is zero at the end.
pub fn check_balanced_brackets(s: &str) -> (b: bool)
    ensures
        b == balanced(s@),
{
    let v = to_chars(s);
    check_balanced_chars(&v)
}

/// Strips one redundant outer bracket pair, returning the interior, or
/// `None` when the first character's matching bracket is not the final
/// character. The depth must return to zero only at the very end: stripping
/// is refused for text like `(1+2)*(3+4)`, whose first bracket closes early.
pub fn remove_outer_brackets(s: &str) -> (r: Option<&str>)
    ensures
        match r {
            Some(inner) => outer_brackets_removable(s@) && inner@ == s@.subrange(
                1,
                s@.len() - 1,
            ),
            None => !outer_brackets_removable(s@),
        },
{
    let v = to_chars(s);
    if removable_chars(&v) {
        let n: usize = s.unicode_len();
        Some(s.substring_char(1, n - 1))
    } else {
        None
    }
}

} // verus!
