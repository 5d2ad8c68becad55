//! Numbers as text.

use vstd::prelude::*;
use vstd::string::StringExecFns;

verus! {

/// The character for a digit below sixteen; the digits above nine are the
/// lower-case letters `a` to `f`.
pub open spec fn digit(d: nat) -> char {
    if d == 0 {
        '0'
    } else if d == 1 {
        '1'
    } else if d == 2 {
        '2'
    } else if d == 3 {
        '3'
    } else if d == 4 {
        '4'
    } else if d == 5 {
        '5'
    } else if d == 6 {
        '6'
    } else if d == 7 {
        '7'
    } else if d == 8 {
        '8'
    } else if d == 9 {
        '9'
    } else if d == 10 {
        'a'
    } else if d == 11 {
        'b'
    } else if d == 12 {
        'c'
    } else if d == 13 {
        'd'
    } else if d == 14 {
        'e'
    } else {
        'f'
    }
}

/// A number in decimal digits, without leading zeros.
pub open spec fn decimal(n: nat) -> Seq<char>
    decreases n,
{
    if n < 10 {
        seq![digit(n)]
    } else {
        decimal(n / 10).push(digit(n % 10))
    }
}

/// A number in hexadecimal digits, without leading zeros.
pub open spec fn hexadecimal(n: nat) -> Seq<char>
    decreases n,
{
    if n < 16 {
        seq![digit(n)]
    } else {
        hexadecimal(n / 16).push(digit(n % 16))
    }
}

/// The one-character text for a digit below sixteen.
fn digit_text(d: usize) -> (r: &'static str)
    requires
        d < 16,
    ensures
        r@ == seq![digit(d as nat)],
{
    proof {
        reveal_strlit("0");
        reveal_strlit("1");
        reveal_strlit("2");
        reveal_strlit("3");
        reveal_strlit("4");
        reveal_strlit("5");
        reveal_strlit("6");
        reveal_strlit("7");
        reveal_strlit("8");
        reveal_strlit("9");
        reveal_strlit("a");
        reveal_strlit("b");
        reveal_strlit("c");
        reveal_strlit("d");
        reveal_strlit("e");
        reveal_strlit("f");
    }
    let r = if d == 0 {
        "0"
    } else if d == 1 {
        "1"
    } else if d == 2 {
        "2"
    } else if d == 3 {
        "3"
    } else if d == 4 {
        "4"
    } else if d == 5 {
        "5"
    } else if d == 6 {
        "6"
    } else if d == 7 {
        "7"
    } else if d == 8 {
        "8"
    } else if d == 9 {
        "9"
    } else if d == 10 {
        "a"
    } else if d == 11 {
        "b"
    } else if d == 12 {
        "c"
    } else if d == 13 {
        "d"
    } else if d == 14 {
        "e"
    } else {
        "f"
    };
    assert(r@ =~= seq![digit(d as nat)]);
    r
}

/// The decimal digits of `n`.
pub fn decimal_text(n: usize) -> (r: String)
    ensures
        r@ == decimal(n as nat),
{
    let mut text = digit_text(n % 10).to_owned();
    let mut rest: usize = n / 10;
    assert(n >= 10 ==> decimal(n as nat) =~= decimal(rest as nat) + text@);
    while rest > 0
        invariant
            rest > 0 ==> decimal(n as nat) == decimal(rest as nat) + text@,
            rest == 0 ==> decimal(n as nat) == text@,
        decreases rest,
    {
        let ghost low = text@;
        let ghost high = decimal((rest / 10) as nat);
        let head = digit_text(rest % 10).to_owned();
        text = head.concat(text.as_str());
        assert(rest >= 10 ==> decimal(rest as nat) + low =~= high + text@);
        assert(rest < 10 ==> decimal(rest as nat) + low =~= text@);
        rest = rest / 10;
    }
    text
}

/// The hexadecimal digits of `n`.
pub fn hexadecimal_text(n: u32) -> (r: String)
    ensures
        r@ == hexadecimal(n as nat),
{
    let mut text = digit_text((n % 16) as usize).to_owned();
    let mut rest: u32 = n / 16;
    assert(n >= 16 ==> hexadecimal(n as nat) =~= hexadecimal(rest as nat) + text@);
    while rest > 0
        invariant
            rest > 0 ==> hexadecimal(n as nat) == hexadecimal(rest as nat) + text@,
            rest == 0 ==> hexadecimal(n as nat) == text@,
        decreases rest,
    {
        let ghost low = text@;
        let ghost high = hexadecimal((rest / 16) as nat);
        let head = digit_text((rest % 16) as usize).to_owned();
        text = head.concat(text.as_str());
        assert(rest >= 16 ==> hexadecimal(rest as nat) + low =~= high + text@);
        assert(rest < 16 ==> hexadecimal(rest as nat) + low =~= text@);
        rest = rest / 16;
    }
    text
}

} // verus!
