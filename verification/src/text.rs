//! Decimal numbers in text.

use vstd::prelude::*;
use vstd::string::StringExecFns;

verus! {

/// The character for one decimal digit.
pub open spec fn digit(d: int) -> char {
    (48 + d) as char
}

/// A number in decimal, without sign or leading zeros.
pub open spec fn decimal(n: nat) -> Seq<char>
    decreases n,
{
    if n < 10 {
        seq![digit(n as int)]
    } else {
        decimal(n / 10).push(digit((n % 10) as int))
    }
}

/// The number that a string of decimal digits stands for.
pub open spec fn number(s: Seq<char>) -> int
    decreases s.len(),
{
    if s.len() == 0 {
        0
    } else {
        10 * number(s.drop_last()) + (s.last() as int - 48)
    }
}

/// A decimal reads back as the number, and holds nothing but digits.
pub proof fn law_decimal_reads_back(n: nat)
    ensures
        number(decimal(n)) == n,
        decimal(n).len() > 0,
        forall|i: int|
            0 <= i < decimal(n).len() ==> 48 <= (#[trigger] decimal(n)[i]) as int <= 57,
    decreases n,
{
    if n < 10 {
        assert(decimal(n).drop_last() =~= Seq::empty());
        assert(number(decimal(n).drop_last()) == 0);
    } else {
        law_decimal_reads_back(n / 10);
        assert(decimal(n).drop_last() =~= decimal(n / 10));
    }
}

/// Followed by something that is no digit, a decimal is read no further and no
/// less far than it goes.
pub proof fn law_decimal_is_delimited(m: nat, n: nat, s: Seq<char>, t: Seq<char>)
    requires
        decimal(m) + s == decimal(n) + t,
        s.len() > 0 ==> !(48 <= s[0] as int <= 57),
        t.len() > 0 ==> !(48 <= t[0] as int <= 57),
    ensures
        m == n,
        s == t,
{
    law_decimal_reads_back(m);
    law_decimal_reads_back(n);
    let (a, b) = (decimal(m), decimal(n));
    let (k, l) = (a.len() as int, b.len() as int);
    let (x, y) = (a + s, b + t);
    if k < l {
        assert(x[k] == s[0]);
        assert(y[k] == b[k]);
    }
    if l < k {
        assert(y[l] == t[0]);
        assert(x[l] == a[l]);
    }
    assert(x.take(k) =~= a);
    assert(y.take(l) =~= b);
    assert(x.skip(k) =~= s);
    assert(y.skip(l) =~= t);
}

fn digit_text(d: u64) -> (r: &'static str)
    requires
        d < 10,
    ensures
        r@ == seq![digit(d as int)],
{
    proof {
        reveal_strlit("0");
        reveal_strlit("1");
        reveal_strlit("2");
        reveal_strlit("3");
        reveal_strlit("4");
        reveal_strlit("5");
        reveal_strlit("6");
        reveal_strlit("7");
        reveal_strlit("8");
        reveal_strlit("9");
    }
    if d == 0 {
        "0"
    } else if d == 1 {
        "1"
    } else if d == 2 {
        "2"
    } else if d == 3 {
        "3"
    } else if d == 4 {
        "4"
    } else if d == 5 {
        "5"
    } else if d == 6 {
        "6"
    } else if d == 7 {
        "7"
    } else if d == 8 {
        "8"
    } else {
        "9"
    }
}

/// Append a number in decimal.
pub fn push_decimal(out: &mut String, n: u64)
    ensures
        final(out)@ == old(out)@ + decimal(n as nat),
    decreases n,
{
    let ghost before = out@;
    if n >= 10 {
        push_decimal(out, n / 10);
    }
    out.append(digit_text(n % 10));
    proof {
        assert(out@ =~= before + decimal(n as nat));
    }
}

} // verus!
