//! Numbers as text.

use vstd::prelude::*;
use vstd::string::StringExecFns;

verus! {

/// The character of a digit, hexadecimal ones in lower case.
pub open spec fn digit(d: nat) -> char {
    if d == 0 {
        '0'
    } else if d == 1 {
        '1'
    } else if d == 2 {
        '2'
    } else if d == 3 {
        '3'
    } else if d == 4 {
        '4'
    } else if d == 5 {
        '5'
    } else if d == 6 {
        '6'
    } else if d == 7 {
        '7'
    } else if d == 8 {
        '8'
    } else if d == 9 {
        '9'
    } else if d == 10 {
        'a'
    } else if d == 11 {
        'b'
    } else if d == 12 {
        'c'
    } else if d == 13 {
        'd'
    } else if d == 14 {
        'e'
    } else {
        'f'
    }
}

/// A number to base `base` in at least `width` digits.
pub open spec fn numeral(n: nat, base: nat, width: nat) -> Seq<char>
    decreases n + width,
    via numeral_shrinks
{
    if base < 2 {
        Seq::empty()
    } else if n < base && width <= 1 {
        seq![digit(n)]
    } else {
        numeral(
            n / base,
            base,
            if width == 0 {
                0
            } else {
                (width - 1) as nat
            },
        ).push(digit(n % base))
    }
}

#[via_fn]
proof fn numeral_shrinks(n: nat, base: nat, width: nat) {
    if base >= 2 {
        shorter(n, base);
    }
}

proof fn shorter(n: nat, base: nat)
    requires
        base >= 2,
    ensures
        n / base <= n,
        n >= base ==> n / base < n,
{
    vstd::arithmetic::div_mod::lemma_div_nonincreasing(n as int, base as int);
    if n >= base {
        vstd::arithmetic::div_mod::lemma_div_decreases(n as int, base as int);
    }
}

/// The text of one digit.
fn digit_text(d: u64) -> (r: &'static str)
    requires
        d < 16,
    ensures
        r@ == seq![digit(d as nat)],
{
    proof {
        reveal_strlit("0");
        reveal_strlit("1");
        reveal_strlit("2");
        reveal_strlit("3");
        reveal_strlit("4");
        reveal_strlit("5");
        reveal_strlit("6");
        reveal_strlit("7");
        reveal_strlit("8");
        reveal_strlit("9");
        reveal_strlit("a");
        reveal_strlit("b");
        reveal_strlit("c");
        reveal_strlit("d");
        reveal_strlit("e");
        reveal_strlit("f");
    }
    let r: &'static str = match d {
        0 => "0",
        1 => "1",
        2 => "2",
        3 => "3",
        4 => "4",
        5 => "5",
        6 => "6",
        7 => "7",
        8 => "8",
        9 => "9",
        10 => "a",
        11 => "b",
        12 => "c",
        13 => "d",
        14 => "e",
        _ => "f",
    };
    assert(r@ =~= seq![digit(d as nat)]);
    r
}

/// Appends a number to base `base`, in at least `width` digits.
pub fn append_numeral(s: &mut String, n: u64, base: u64, width: usize)
    requires
        2 <= base <= 16,
    ensures
        final(s)@ == old(s)@ + numeral(n as nat, base as nat, width as nat),
    decreases n as nat + width as nat,
{
    proof {
        shorter(n as nat, base as nat);
    }
    if n < base && width <= 1 {
        s.append(digit_text(n));
    } else {
        append_numeral(
            s,
            n / base,
            base,
            if width == 0 {
                0
            } else {
                width - 1
            },
        );
        s.append(digit_text(n % base));
        assert(s@ =~= old(s)@ + numeral(n as nat, base as nat, width as nat));
    }
}

/// No number that fits is written in more digits than asked for.
pub proof fn numeral_length(n: nat, base: nat, width: nat, bound: nat)
    requires
        base >= 2,
        width >= 1,
        n < bound,
        bound == vstd::arithmetic::power::pow(base as int, width),
    ensures
        numeral(n, base, width).len() == width,
    decreases width,
{
    vstd::arithmetic::power::lemma_pow1(base as int);
    if width > 1 {
        let rest = vstd::arithmetic::power::pow(base as int, (width - 1) as nat);
        vstd::arithmetic::power::lemma_pow_positive(base as int, (width - 1) as nat);
        reveal(vstd::arithmetic::power::pow);
        assert(bound == base * rest);
        assert(n / base < rest) by (nonlinear_arith)
            requires
                n < base * rest,
                base >= 2,
        ;
        numeral_length(n / base, base, (width - 1) as nat, rest as nat);
    }
}

} // verus!
