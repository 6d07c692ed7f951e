//! Elements and sequences of elements as text.

use vstd::prelude::*;
use vstd::string::StringExecFns;
use crate::element::Element;

verus! {

/// The character for the digit `d`.
pub open spec fn digit(d: int) -> char {
    if d == 0 {
        '0'
    } else if d == 1 {
        '1'
    } else if d == 2 {
        '2'
    } else if d == 3 {
        '3'
    } else if d == 4 {
        '4'
    } else if d == 5 {
        '5'
    } else if d == 6 {
        '6'
    } else if d == 7 {
        '7'
    } else if d == 8 {
        '8'
    } else {
        '9'
    }
}

/// The decimal digits of `n`, most significant first, without leading zeros.
pub open spec fn decimal(n: nat) -> Seq<char>
    decreases n,
{
    if n < 10 {
        seq![digit(n as int)]
    } else {
        decimal(n / 10).push(digit((n % 10) as int))
    }
}

/// The decimal numeral of `v`, with a minus sign in front of a negative one.
pub open spec fn numeral(v: int) -> Seq<char> {
    if v < 0 {
        seq!['-'] + decimal((-v) as nat)
    } else {
        decimal(v as nat)
    }
}

/// One element, in round brackets.
pub open spec fn bracketed<T: Element>(item: T) -> Seq<char> {
    seq!['('] + numeral(item.value()) + seq![')']
}

/// The elements of `s` from left to right, each in round brackets, joined by
/// ` <-> `; a pair of empty brackets when there is none.
pub open spec fn rendering<T: Element>(s: Seq<T>) -> Seq<char>
    decreases s.len(),
{
    if s.len() == 0 {
        seq!['(', ')']
    } else if s.len() == 1 {
        bracketed(s[0])
    } else {
        rendering(s.drop_last()) + seq![' ', '<', '-', '>', ' '] + bracketed(s.last())
    }
}

/// The text of a single digit.
fn digit_text(d: u128) -> (text: &'static str)
    requires
        d < 10,
    ensures
        text@ == seq![digit(d as int)],
{
    proof {
        reveal_strlit("0");
        reveal_strlit("1");
        reveal_strlit("2");
        reveal_strlit("3");
        reveal_strlit("4");
        reveal_strlit("5");
        reveal_strlit("6");
        reveal_strlit("7");
        reveal_strlit("8");
        reveal_strlit("9");
    }
    if d == 0 {
        "0"
    } else if d == 1 {
        "1"
    } else if d == 2 {
        "2"
    } else if d == 3 {
        "3"
    } else if d == 4 {
        "4"
    } else if d == 5 {
        "5"
    } else if d == 6 {
        "6"
    } else if d == 7 {
        "7"
    } else if d == 8 {
        "8"
    } else {
        "9"
    }
}

/// Appends the decimal digits of `n` to `out`.
fn push_decimal(out: &mut String, n: u128)
    ensures
        final(out)@ == old(out)@ + decimal(n as nat),
    decreases n,
{
    if n >= 10 {
        push_decimal(out, n / 10);
    }
    out.append(digit_text(n % 10));
}

/// Appends `item`, in round brackets, to `out`.
pub fn push_bracketed<T: Element>(out: &mut String, item: &T)
    ensures
        final(out)@ == old(out)@ + bracketed(*item),
{
    proof {
        reveal_strlit("(");
        reveal_strlit(")");
        reveal_strlit("-");
    }
    let (negative, magnitude) = item.sign_and_magnitude();
    out.append("(");
    if negative {
        out.append("-");
    }
    push_decimal(out, magnitude);
    out.append(")");
}

} // verus!
