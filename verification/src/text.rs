//! Numbers as text: decimal digits, padded to a column.

use vstd::prelude::*;

verus! {

/// The character of the decimal digit `d`.
pub open spec fn digit_char(d: int) -> char {
    ('0' as int + d) as char
}

/// The decimal digits of `n`, the most significant first, without leading
/// zeros.
pub open spec fn decimal(n: nat) -> Seq<char>
    decreases n,
{
    if n < 10 {
        seq![digit_char(n as int)]
    } else {
        decimal(n / 10).push(digit_char((n % 10) as int))
    }
}

/// `text`, with as many `fill` characters in front of it as lack to `width`
/// characters.
pub open spec fn padded(text: Seq<char>, width: nat, fill: char) -> Seq<char> {
    if text.len() >= width {
        text
    } else {
        Seq::new((width - text.len()) as nat, |i: int| fill) + text
    }
}

/// `String::push` appends the character to the string.
pub assume_specification[ String::push ](s: &mut String, c: char)
    ensures
        final(s)@ == old(s)@.push(c),
;

/// The decimal digits of `n`.
pub fn decimal_digits(n: usize) -> (digits: Vec<char>)
    ensures
        digits@ == decimal(n as nat),
{
    let mut digits: Vec<char> = Vec::new();
    let mut rest: usize = n;
    while rest >= 10
        invariant
            decimal(n as nat) == decimal(rest as nat) + digits@,
        decreases rest,
    {
        let d: u8 = (rest % 10) as u8;
        let ghost lower = digits@;
        digits.insert(0, (48u8 + d) as char);
        assert(decimal(rest as nat) + lower =~= decimal((rest / 10) as nat) + digits@) by {
            assert(decimal(rest as nat) == decimal((rest / 10) as nat).push(
                digit_char((rest % 10) as int),
            ));
        }
        rest = rest / 10;
    }
    let d: u8 = rest as u8;
    let ghost lower = digits@;
    digits.insert(0, (48u8 + d) as char);
    assert(decimal(rest as nat) + lower =~= digits@);
    digits
}

/// Appends to `out` the decimal digits of `n`, with as many `fill`
/// characters in front of them as lack to `width` characters.
pub fn push_padded(out: &mut String, n: usize, width: usize, fill: char)
    ensures
        final(out)@ == old(out)@ + padded(decimal(n as nat), width as nat, fill),
{
    let digits = decimal_digits(n);
    let ghost start = out@;
    let mut filled: usize = 0;
    if digits.len() < width {
        let lack = width - digits.len();
        while filled < lack
            invariant
                filled <= lack,
                out@ == start + Seq::new(filled as nat, |i: int| fill),
            decreases lack - filled,
        {
            out.push(fill);
            filled = filled + 1;
            assert(out@ =~= start + Seq::new(filled as nat, |i: int| fill));
        }
    }
    let ghost front = out@;
    let mut i: usize = 0;
    while i < digits.len()
        invariant
            i <= digits.len(),
            out@ == front + digits@.take(i as int),
        decreases digits.len() - i,
    {
        out.push(digits[i]);
        i = i + 1;
        assert(out@ =~= front + digits@.take(i as int));
    }
    assert(digits@.take(i as int) =~= digits@);
    assert(out@ =~= start + padded(decimal(n as nat), width as nat, fill));
}

} // verus!
