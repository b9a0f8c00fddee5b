use vstd::prelude::*;
use vstd::string::StringExecFns;

verus! {

/// `String::push` of std: appends one character to the end of the string.
#[verifier::external_body]
pub(crate) fn push_char(s: &mut String, c: char)
    ensures
        final(s)@ == old(s)@.push(c),
{
    s.push(c);
}

/// The character of a decimal digit.
pub open spec fn digit_char(d: nat) -> char {
    if d == 0 {
        '0'
    } else if d == 1 {
        '1'
    } else if d == 2 {
        '2'
    } else if d == 3 {
        '3'
    } else if d == 4 {
        '4'
    } else if d == 5 {
        '5'
    } else if d == 6 {
        '6'
    } else if d == 7 {
        '7'
    } else if d == 8 {
        '8'
    } else {
        '9'
    }
}

/// The decimal digits of `n`, most significant first, without leading zeros.
pub open spec fn decimal(n: nat) -> Seq<char>
    decreases n,
{
    if n < 10 {
        seq![digit_char(n)]
    } else {
        decimal(n / 10).push(digit_char(n % 10))
    }
}

/// The character of the decimal digit `d`.
pub fn digit_to_char(d: u8) -> (c: char)
    requires
        d < 10,
    ensures
        c == digit_char(d as nat),
{
    match d {
        0 => '0',
        1 => '1',
        2 => '2',
        3 => '3',
        4 => '4',
        5 => '5',
        6 => '6',
        7 => '7',
        8 => '8',
        _ => '9',
    }
}

/// Appends the decimal digits of `n` to `s`.
pub fn push_decimal(s: &mut String, n: u32)
    ensures
        final(s)@ == old(s)@ + decimal(n as nat),
{
    let mut digits: Vec<char> = Vec::new();
    let mut rest: u32 = n;
    let ghost start = s@;
    assert(decimal(rest as nat) + digits@.reverse() =~= decimal(n as nat));
    while rest >= 10
        invariant
            decimal(rest as nat) + digits@.reverse() == decimal(n as nat),
        decreases rest,
    {
        let d = digit_to_char((rest % 10) as u8);
        let ghost earlier = digits@;
        let ghost before = rest;
        digits.push(d);
        rest = rest / 10;
        assert(digits@.reverse() =~= seq![d] + earlier.reverse());
        assert(decimal(rest as nat) + digits@.reverse() =~= decimal(before as nat)
            + earlier.reverse());
    }
    push_char(s, digit_to_char(rest as u8));
    let mut i: usize = digits.len();
    assert(s@ + digits@.reverse().skip(0) =~= start + decimal(n as nat));
    while i > 0
        invariant
            i <= digits.len(),
            s@ + digits@.reverse().skip(digits.len() - i) == start + decimal(n as nat),
        decreases i,
    {
        let ghost before = s@;
        i = i - 1;
        push_char(s, digits[i]);
        assert(s@ + digits@.reverse().skip(digits.len() - i) =~= before + digits@.reverse().skip(
            digits.len() - i - 1,
        ));
    }
    assert(s@ + digits@.reverse().skip(digits.len() as int) =~= s@);
}

/// Appends the text `t` to `s`.
pub fn push_text(s: &mut String, t: &str)
    ensures
        final(s)@ == old(s)@ + t@,
{
    s.append(t);
}

} // verus!
