use vstd::prelude::*;
use vstd::string::*;

verus! {

/// The decimal digit for `d` in `0..10`.
pub open spec fn digit_char(d: int) -> char {
    if d == 0 {
        '0'
    } else if d == 1 {
        '1'
    } else if d == 2 {
        '2'
    } else if d == 3 {
        '3'
    } else if d == 4 {
        '4'
    } else if d == 5 {
        '5'
    } else if d == 6 {
        '6'
    } else if d == 7 {
        '7'
    } else if d == 8 {
        '8'
    } else {
        '9'
    }
}

/// Decimal digits of `n`, without leading zeros (`"0"` for zero).
pub open spec fn decimal(n: nat) -> Seq<char>
    decreases n,
{
    if n < 10 {
        seq![digit_char(n as int)]
    } else {
        decimal(n / 10).push(digit_char((n % 10) as int))
    }
}

/// The last `k` decimal digits of `n`, with leading zeros.
pub open spec fn padded(n: nat, k: nat) -> Seq<char>
    decreases k,
{
    if k == 0 {
        seq![]
    } else {
        padded(n / 10, (k - 1) as nat).push(digit_char((n % 10) as int))
    }
}

/// `padded(n, k)` without its trailing zeros.
pub open spec fn trimmed(n: nat, k: nat) -> Seq<char>
    decreases k,
{
    if k > 0 && n % 10 == 0 {
        trimmed(n / 10, (k - 1) as nat)
    } else {
        padded(n, k)
    }
}

/// The fractional part `f` (millionths) as `.` and its digits without
/// trailing zeros, or nothing when it is zero.
pub open spec fn fraction_text(f: nat) -> Seq<char> {
    if f == 0 {
        seq![]
    } else {
        seq!['.'] + trimmed(f, 6)
    }
}

/// A fixed-point value (millionths) written as a signed decimal in its
/// shortest form, such as `40`, `-12.5` or `0.000007`.
pub open spec fn fixed_text(v: int) -> Seq<char> {
    let a: nat = if v < 0 {
        (-v) as nat
    } else {
        v as nat
    };
    let sign = if v < 0 {
        seq!['-']
    } else {
        seq![]
    };
    sign + decimal(a / 1_000_000) + fraction_text(a % 1_000_000)
}

fn digit_str(d: u64) -> (r: &'static str)
    requires
        d < 10,
    ensures
        r@ == seq![digit_char(d as int)],
{
    if d == 0 {
        proof {
            reveal_strlit("0");
        }
        "0"
    } else if d == 1 {
        proof {
            reveal_strlit("1");
        }
        "1"
    } else if d == 2 {
        proof {
            reveal_strlit("2");
        }
        "2"
    } else if d == 3 {
        proof {
            reveal_strlit("3");
        }
        "3"
    } else if d == 4 {
        proof {
            reveal_strlit("4");
        }
        "4"
    } else if d == 5 {
        proof {
            reveal_strlit("5");
        }
        "5"
    } else if d == 6 {
        proof {
            reveal_strlit("6");
        }
        "6"
    } else if d == 7 {
        proof {
            reveal_strlit("7");
        }
        "7"
    } else if d == 8 {
        proof {
            reveal_strlit("8");
        }
        "8"
    } else {
        proof {
            reveal_strlit("9");
        }
        "9"
    }
}

fn push_decimal(s: &mut String, n: u64)
    ensures
        final(s)@ == old(s)@ + decimal(n as nat),
    decreases n,
{
    if n >= 10 {
        push_decimal(s, n / 10);
    }
    s.append(digit_str(n % 10));
}

fn push_padded(s: &mut String, n: u64, k: u64)
    ensures
        final(s)@ == old(s)@ + padded(n as nat, k as nat),
    decreases k,
{
    if k > 0 {
        push_padded(s, n / 10, k - 1);
        s.append(digit_str(n % 10));
    }
}

fn push_trimmed(s: &mut String, n: u64, k: u64)
    ensures
        final(s)@ == old(s)@ + trimmed(n as nat, k as nat),
    decreases k,
{
    if k > 0 && n % 10 == 0 {
        push_trimmed(s, n / 10, k - 1);
    } else {
        push_padded(s, n, k);
    }
}

/// Appends `fixed_text(v)` to `s`.
pub fn push_fixed(s: &mut String, v: i64)
    ensures
        final(s)@ == old(s)@ + fixed_text(v as int),
{
    let a: u64 = if v < 0 {
        (-(v as i128)) as u64
    } else {
        v as u64
    };
    if v < 0 {
        proof {
            reveal_strlit("-");
        }
        s.append("-");
    }
    let ghost after_sign = s@;
    push_decimal(s, a / 1_000_000);
    let ghost after_whole = s@;
    let f = a % 1_000_000;
    if f != 0 {
        proof {
            reveal_strlit(".");
        }
        s.append(".");
        push_trimmed(s, f, 6);
        proof {
            assert(s@ =~= after_whole + fraction_text(f as nat));
        }
    } else {
        proof {
            assert(s@ =~= after_whole + fraction_text(f as nat));
        }
    }
    proof {
        let sign = if v < 0 {
            seq!['-']
        } else {
            seq![]
        };
        assert(after_sign == old(s)@ + sign);
        assert(s@ =~= old(s)@ + fixed_text(v as int));
    }
}

} // verus!
