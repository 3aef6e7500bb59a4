//! Decimal rendering of integer-valued results, verified against the
//! numeral grammar: the text a value renders to is a literal that denotes
//! exactly that value, so re-evaluating a rendered integer result gives the
//! same value back.

use vstd::prelude::*;

use crate::chars::is_digit;
use crate::eval::{digit_val, numeral_value, numeral_value_rec};
use crate::grammar::dot_count;
use crate::rational::Rat;

verus! {

/// The character for one decimal digit.
pub open spec fn digit_char_of(d: int) -> char {
    if d == 0 {
        '0'
    } else if d == 1 {
        '1'
    } else if d == 2 {
        '2'
    } else if d == 3 {
        '3'
    } else if d == 4 {
        '4'
    } else if d == 5 {
        '5'
    } else if d == 6 {
        '6'
    } else if d == 7 {
        '7'
    } else if d == 8 {
        '8'
    } else {
        '9'
    }
}

/// The decimal digits of a nonnegative integer, most significant first.
pub open spec fn decimal_digits(n: int) -> Seq<char>
    decreases n,
{
    if n < 10 {
        seq![digit_char_of(n)]
    } else {
        decimal_digits(n / 10).push(digit_char_of(n % 10))
    }
}

/// The decimal text of an integer: a minus sign, then the digits of its
/// magnitude.
pub open spec fn decimal_text(n: int) -> Seq<char> {
    if n < 0 {
        seq!['-'] + decimal_digits(-n)
    } else {
        decimal_digits(n)
    }
}

/// Digit characters denote their digit.
proof fn lemma_digit_char_val(d: int)
    requires
        0 <= d <= 9,
    ensures
        is_digit(digit_char_of(d)),
        digit_val(digit_char_of(d)) == d,
{
}

/// Rendered digits are digit characters throughout.
pub proof fn lemma_decimal_digits_wf(n: int)
    requires
        n >= 0,
    ensures
        decimal_digits(n).len() >= 1,
        forall|m: int| 0 <= m < decimal_digits(n).len() ==> is_digit(#[trigger] decimal_digits(n)[m]),
    decreases n,
{
    if n < 10 {
        lemma_digit_char_val(n);
        assert(decimal_digits(n) =~= seq![digit_char_of(n)]);
    } else {
        lemma_decimal_digits_wf(n / 10);
        lemma_digit_char_val(n % 10);
        let prev = decimal_digits(n / 10);
        assert forall|m: int| 0 <= m < decimal_digits(n).len() implies is_digit(
            #[trigger] decimal_digits(n)[m],
        ) by {
            if m < prev.len() {
                assert(decimal_digits(n)[m] == prev[m]);
            }
        }
    }
}

/// A digit-only sequence holds no decimal point.
pub proof fn lemma_dot_count_digits(s: Seq<char>)
    requires
        forall|m: int| 0 <= m < s.len() ==> is_digit(#[trigger] s[m]),
    ensures
        dot_count(s) == 0,
    decreases s.len(),
{
    if s.len() > 0 {
        assert(is_digit(s.last()));
        lemma_dot_count_digits(s.drop_last());
    }
}

/// Appending one digit multiplies the value read so far by ten and adds the
/// digit, in a dot-free numeral.
proof fn lemma_numeral_rec_append(s: Seq<char>, c: char, acc: int)
    requires
        forall|m: int| 0 <= m < s.len() ==> is_digit(#[trigger] s[m]),
        is_digit(c),
    ensures
        numeral_value_rec(s.push(c), acc, 1, false) == (
            numeral_value_rec(s, acc, 1, false).0 * 10 + digit_val(c),
            1int,
        ),
        numeral_value_rec(s, acc, 1, false).1 == 1,
    decreases s.len(),
{
    if s.len() == 0 {
        assert(s.push(c) =~= seq![c]);
        assert(seq![c][0] == c);
        assert(seq![c].drop_first() =~= Seq::<char>::empty());
        assert(numeral_value_rec(Seq::<char>::empty(), acc * 10 + digit_val(c), 1, false) == (
            acc * 10 + digit_val(c),
            1int,
        ));
    } else {
        assert(s.push(c).drop_first() =~= s.drop_first().push(c));
        assert(s.push(c)[0] == s[0]);
        assert(is_digit(s[0]));
        lemma_numeral_rec_append(s.drop_first(), c, acc * 10 + digit_val(s[0]));
    }
}

/// The rendered digits of `n` denote exactly `n`, as a fraction over one.
pub proof fn lemma_decimal_digits_value(n: int)
    requires
        n >= 0,
    ensures
        numeral_value(decimal_digits(n)) == (n, 1int),
    decreases n,
{
    if n < 10 {
        lemma_digit_char_val(n);
        assert(decimal_digits(n) =~= seq![digit_char_of(n)]);
        assert(seq![digit_char_of(n)][0] == digit_char_of(n));
        assert(seq![digit_char_of(n)].drop_first() =~= Seq::<char>::empty());
        assert(numeral_value_rec(
            Seq::<char>::empty(),
            0 * 10 + digit_val(digit_char_of(n)),
            1,
            false,
        ) == (0 * 10 + digit_val(digit_char_of(n)), 1int));
    } else {
        lemma_decimal_digits_value(n / 10);
        lemma_decimal_digits_wf(n / 10);
        lemma_digit_char_val(n % 10);
        lemma_numeral_rec_append(decimal_digits(n / 10), digit_char_of(n % 10), 0);
        assert((n / 10) * 10 + n % 10 == n);
    }
}

fn digit_char_exec(d: u64) -> (c: char)
    requires
        d <= 9,
    ensures
        c == digit_char_of(d as int),
{
    if d == 0 {
        '0'
    } else if d == 1 {
        '1'
    } else if d == 2 {
        '2'
    } else if d == 3 {
        '3'
    } else if d == 4 {
        '4'
    } else if d == 5 {
        '5'
    } else if d == 6 {
        '6'
    } else if d == 7 {
        '7'
    } else if d == 8 {
        '8'
    } else {
        '9'
    }
}

fn decimal_digits_exec(n: u64) -> (v: Vec<char>)
    ensures
        v@ == decimal_digits(n as int),
    decreases n,
{
    if n < 10 {
        let mut v: Vec<char> = Vec::new();
        v.push(digit_char_exec(n));
        proof {
            assert(v@ =~= seq![digit_char_of(n as int)]);
        }
        v
    } else {
        let mut v = decimal_digits_exec(n / 10);
        v.push(digit_char_exec(n % 10));
        v
    }
}

/// Renders an integer-valued rational as decimal text.
pub fn render_integer(r: Rat) -> (out: Vec<char>)
    requires
        r.den == 1,
    ensures
        out@ == decimal_text(r.num as int),
{
    if r.num < 0 {
        let neg: i128 = -(r.num as i128);
        let mag: u64 = neg as u64;
        let mut out: Vec<char> = Vec::new();
        out.push('-');
        let mut digits = decimal_digits_exec(mag);
        out.append(&mut digits);
        proof {
            assert(out@ =~= seq!['-'] + decimal_digits(-(r.num as int)));
        }
        out
    } else {
        decimal_digits_exec(r.num as u64)
    }
}

} // verus!
