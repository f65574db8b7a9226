//! Text rendering for the table: decimal digits, the `dd.dd%` form used for
//! CPU averages, and the `<n>M` form used for memory.

use vstd::prelude::*;
use vstd::string::StringExecFns;

verus! {

/// The character for one decimal digit.
pub open spec fn digit_char(d: int) -> char {
    if d == 0 {
        '0'
    } else if d == 1 {
        '1'
    } else if d == 2 {
        '2'
    } else if d == 3 {
        '3'
    } else if d == 4 {
        '4'
    } else if d == 5 {
        '5'
    } else if d == 6 {
        '6'
    } else if d == 7 {
        '7'
    } else if d == 8 {
        '8'
    } else {
        '9'
    }
}

/// The decimal digits of `n`, most significant first, no leading zeros
/// (a lone zero for zero).
pub open spec fn dec_digits(n: int) -> Seq<char>
    decreases n,
{
    if n < 10 {
        seq![digit_char(n)]
    } else {
        dec_digits(n / 10).push(digit_char(n % 10))
    }
}

/// A centi-percent value rendered as a percentage with two decimal places
/// and a trailing percent sign: 500 becomes `5.00%`.
pub open spec fn percent_chars(centi: int) -> Seq<char> {
    dec_digits(centi / 100) + seq!['.', digit_char((centi / 10) % 10), digit_char(centi % 10), '%']
}

/// A memory value rendered with the table's `M` suffix: 2 becomes `2M`.
pub open spec fn mega_chars(v: int) -> Seq<char> {
    dec_digits(v) + seq!['M']
}

/// Append the character of one decimal digit.
fn append_digit(out: &mut String, d: u64)
    requires
        d < 10,
    ensures
        final(out)@ == old(out)@ + seq![digit_char(d as int)],
{
    proof {
        reveal_strlit("0");
        reveal_strlit("1");
        reveal_strlit("2");
        reveal_strlit("3");
        reveal_strlit("4");
        reveal_strlit("5");
        reveal_strlit("6");
        reveal_strlit("7");
        reveal_strlit("8");
        reveal_strlit("9");
    }
    if d == 0 {
        out.append("0");
        proof {
            assert("0"@ =~= seq![digit_char(0)]);
        }
    } else if d == 1 {
        out.append("1");
        proof {
            assert("1"@ =~= seq![digit_char(1)]);
        }
    } else if d == 2 {
        out.append("2");
        proof {
            assert("2"@ =~= seq![digit_char(2)]);
        }
    } else if d == 3 {
        out.append("3");
        proof {
            assert("3"@ =~= seq![digit_char(3)]);
        }
    } else if d == 4 {
        out.append("4");
        proof {
            assert("4"@ =~= seq![digit_char(4)]);
        }
    } else if d == 5 {
        out.append("5");
        proof {
            assert("5"@ =~= seq![digit_char(5)]);
        }
    } else if d == 6 {
        out.append("6");
        proof {
            assert("6"@ =~= seq![digit_char(6)]);
        }
    } else if d == 7 {
        out.append("7");
        proof {
            assert("7"@ =~= seq![digit_char(7)]);
        }
    } else if d == 8 {
        out.append("8");
        proof {
            assert("8"@ =~= seq![digit_char(8)]);
        }
    } else {
        out.append("9");
        proof {
            assert("9"@ =~= seq![digit_char(9)]);
        }
    }
}

/// Append the decimal digits of `n`, most significant first.
fn append_digits(out: &mut String, n: u64)
    ensures
        final(out)@ == old(out)@ + dec_digits(n as int),
    decreases n,
{
    if n < 10 {
        append_digit(out, n);
    } else {
        let ghost start = out@;
        append_digits(out, n / 10);
        append_digit(out, n % 10);
        proof {
            assert(out@ =~= start + dec_digits(n as int));
        }
    }
}

/// Render a centi-percent CPU value as `dd.dd%`, two decimal places.
pub fn format_cpu_percent(centi: u64) -> (r: String)
    ensures
        r@ == percent_chars(centi as int),
{
    let mut r = String::new();
    append_digits(&mut r, centi / 100);
    proof {
        reveal_strlit(".");
        reveal_strlit("%");
    }
    r.append(".");
    append_digit(&mut r, (centi / 10) % 10);
    append_digit(&mut r, centi % 10);
    r.append("%");
    proof {
        assert(r@ =~= percent_chars(centi as int));
    }
    r
}

/// Render a memory value with the table's `M` suffix.
pub fn format_mega(v: u64) -> (r: String)
    ensures
        r@ == mega_chars(v as int),
{
    let mut r = String::new();
    append_digits(&mut r, v);
    proof {
        reveal_strlit("M");
    }
    r.append("M");
    proof {
        assert(r@ =~= mega_chars(v as int));
    }
    r
}

} // verus!
