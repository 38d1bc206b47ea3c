//! Decimal rendering of integers.

use num_format::{Locale, ToFormattedString};
use vstd::prelude::*;

verus! {

/// The character of a decimal digit `d` (0 to 9).
pub open spec fn digit_char(d: nat) -> char {
    if d == 0 { '0' }
    else if d == 1 { '1' }
    else if d == 2 { '2' }
    else if d == 3 { '3' }
    else if d == 4 { '4' }
    else if d == 5 { '5' }
    else if d == 6 { '6' }
    else if d == 7 { '7' }
    else if d == 8 { '8' }
    else { '9' }
}

/// The decimal representation of `n`, most significant digit first, with no
/// leading zero (as `Display` prints an unsigned integer).
pub open spec fn decimal(n: nat) -> Seq<char>
    decreases n,
{
    if n < 10 {
        seq![digit_char(n)]
    } else {
        decimal(n / 10).push(digit_char(n % 10))
    }
}

fn digit_str(d: u64) -> (s: &'static str)
    requires
        d < 10,
    ensures
        s@ == seq![digit_char(d as nat)],
{
    match d {
        0 => { proof { reveal_strlit("0"); } "0" },
        1 => { proof { reveal_strlit("1"); } "1" },
        2 => { proof { reveal_strlit("2"); } "2" },
        3 => { proof { reveal_strlit("3"); } "3" },
        4 => { proof { reveal_strlit("4"); } "4" },
        5 => { proof { reveal_strlit("5"); } "5" },
        6 => { proof { reveal_strlit("6"); } "6" },
        7 => { proof { reveal_strlit("7"); } "7" },
        8 => { proof { reveal_strlit("8"); } "8" },
        _ => { proof { reveal_strlit("9"); } "9" },
    }
}

/// Renders `n` in decimal.
pub fn decimal_string(n: u64) -> (s: String)
    ensures
        s@ == decimal(n as nat),
    decreases n,
{
    if n < 10 {
        String::from_str(digit_str(n))
    } else {
        let mut s = decimal_string(n / 10);
        s.append(digit_str(n % 10));
        s
    }
}

/// Three decimal digits of `m` (below 1000), with leading zeros.
pub open spec fn three_digits(m: nat) -> Seq<char> {
    seq![digit_char(m / 100), digit_char((m / 10) % 10), digit_char(m % 10)]
}

/// The decimal representation of `n` in the English convention: digits in
/// groups of three from the right, separated by commas ("1,234,567").
pub open spec fn grouped_decimal(n: nat) -> Seq<char>
    decreases n,
{
    if n < 1000 {
        decimal(n)
    } else {
        grouped_decimal(n / 1000) + seq![','] + three_digits(n % 1000)
    }
}

/// Calls `num_format::ToFormattedString::to_formatted_string` on `n` with
/// `Locale::en`. Trusted: that locale has the separator "," and the standard
/// grouping, for which the crate writes the decimal digits of `n` in groups
/// of three from the right, joined by the separator, and no sign.
#[verifier::external_body]
pub(crate) fn format_en(n: usize) -> (s: String)
    ensures
        s@ == grouped_decimal(n as nat),
{
    n.to_formatted_string(&Locale::en)
}

/// The number that a string of decimal digits stands for, most significant
/// digit first.
pub open spec fn digits_value(s: Seq<char>) -> int
    decreases s.len(),
{
    if s.len() == 0 {
        0
    } else {
        digits_value(s.drop_last()) * 10 + (s.last() as int - 48)
    }
}

/// `s` with its commas left out.
pub open spec fn without_commas(s: Seq<char>) -> Seq<char>
    decreases s.len(),
{
    if s.len() == 0 {
        s
    } else if s.last() == ',' {
        without_commas(s.drop_last())
    } else {
        without_commas(s.drop_last()).push(s.last())
    }
}

proof fn lemma_digit_char(d: nat)
    requires
        d < 10,
    ensures
        digit_char(d) as int == 48 + d,
{
}

/// The decimal rendering of `n` is a non-empty string of digits '0' to '9'
/// that reads back as `n`, with no leading zero unless `n` is zero.
pub proof fn decimal_reads_back(n: nat)
    ensures
        decimal(n).len() >= 1,
        forall|i: int| 0 <= i < decimal(n).len() ==> 48 <= #[trigger] decimal(n)[i] as int <= 57,
        digits_value(decimal(n)) == n,
        decimal(n)[0] == '0' ==> n == 0,
    decreases n,
{
    lemma_digit_char(n % 10);
    if n < 10 {
        let s = decimal(n);
        assert(s.drop_last() =~= Seq::<char>::empty());
        assert(digits_value(s.drop_last()) == 0);
        assert(s.last() == digit_char(n));
    } else {
        decimal_reads_back(n / 10);
        let s = decimal(n);
        assert(s.drop_last() =~= decimal(n / 10));
        assert(s.last() == digit_char(n % 10));
        assert(digits_value(s) == (n / 10) * 10 + n % 10);
        assert(s[0] == decimal(n / 10)[0]);
        assert forall|i: int| 0 <= i < s.len() implies 48 <= #[trigger] s[i] as int <= 57 by {
            if i < s.len() - 1 {
                assert(s[i] == decimal(n / 10)[i]);
            }
        }
    }
}

proof fn lemma_without_commas_concat(a: Seq<char>, b: Seq<char>)
    ensures
        without_commas(a + b) == without_commas(a) + without_commas(b),
    decreases b.len(),
{
    if b.len() == 0 {
        assert(a + b =~= a);
        assert(without_commas(a) + without_commas(b) =~= without_commas(a));
    } else {
        assert((a + b).drop_last() =~= a + b.drop_last());
        lemma_without_commas_concat(a, b.drop_last());
        if b.last() == ',' {
        } else {
            assert(without_commas(a + b) =~= without_commas(a) + without_commas(b));
        }
    }
}

proof fn lemma_decimal_split(n: nat)
    requires
        n >= 1000,
    ensures
        decimal(n) == decimal(n / 1000) + three_digits(n % 1000),
{
    let m = n % 1000;
    assert(n / 10 / 10 == n / 100) by {
        vstd::arithmetic::div_mod::lemma_div_denominator(n as int, 10, 10);
    }
    assert(n / 100 / 10 == n / 1000) by {
        vstd::arithmetic::div_mod::lemma_div_denominator(n as int, 100, 10);
    }
    assert(m / 100 == (n / 100) % 10 && (m / 10) % 10 == (n / 10) % 10 && m % 10 == n % 10)
        by (nonlinear_arith)
        requires
            m == n % 1000,
            n >= 0,
    {
        let q = n / 1000;
        assert(n == 1000 * q + m);
        assert(n / 100 == 10 * q + m / 100);
        assert(n / 10 == 100 * q + m / 10);
    }
    let d0 = decimal(n / 10);
    let d1 = decimal(n / 100);
    assert(decimal(n) == d0.push(digit_char(n % 10)));
    assert(d0 == d1.push(digit_char((n / 10) % 10)));
    assert(d1 == decimal(n / 1000).push(digit_char((n / 100) % 10)));
    assert(decimal(n) =~= decimal(n / 1000) + three_digits(m));
}

/// The English rendering of `n` is its decimal digits with a comma before
/// each group of three digits counted from the right: leaving out the commas
/// gives the decimal rendering, and a character is a comma exactly when a
/// multiple of four characters, counting it, stand from it to the end.
pub proof fn grouped_decimal_is_decimal_with_commas(n: nat)
    ensures
        without_commas(grouped_decimal(n)) == decimal(n),
        forall|i: int|
            0 <= i < grouped_decimal(n).len() ==> ((#[trigger] grouped_decimal(n)[i] == ',') <==> (
            grouped_decimal(n).len() - i) % 4 == 0),
        grouped_decimal(n).len() % 4 != 0,
    decreases n,
{
    decimal_reads_back(n);
    if n < 1000 {
        let d = decimal(n);
        assert(d.len() <= 3) by {
            if n >= 10 {
                let a = n / 10;
                if a >= 10 {
                    assert(a / 10 < 10);
                    assert(decimal(a / 10).len() == 1);
                    assert(decimal(a).len() == 2);
                } else {
                    assert(decimal(a).len() == 1);
                }
            }
        }
        lemma_no_commas(d);
        assert forall|i: int| 0 <= i < d.len() implies ((#[trigger] d[i] == ',') <==> (d.len()
            - i) % 4 == 0) by {
            assert(48 <= d[i] as int <= 57);
        }
    } else {
        grouped_decimal_is_decimal_with_commas(n / 1000);
        lemma_decimal_split(n);
        let m = n % 1000;
        let g0 = grouped_decimal(n / 1000);
        let t = three_digits(m);
        lemma_digit_char(m / 100);
        lemma_digit_char((m / 10) % 10);
        lemma_digit_char(m % 10);
        let g = grouped_decimal(n);
        assert(g == g0 + seq![','] + t);
        lemma_without_commas_concat(g0 + seq![','], t);
        lemma_without_commas_concat(g0, seq![',']);
        assert(without_commas(seq![',']) =~= Seq::<char>::empty()) by {
            let c = seq![','];
            assert(c.drop_last() =~= Seq::<char>::empty());
            assert(c.last() == ',');
            assert(without_commas(c.drop_last()) =~= Seq::<char>::empty());
        }
        lemma_no_commas(t);
        assert(without_commas(g0) + Seq::<char>::empty() =~= without_commas(g0));
        assert forall|i: int| 0 <= i < g.len() implies ((#[trigger] g[i] == ',') <==> (g.len()
            - i) % 4 == 0) by {
            if i < g0.len() {
                assert(g[i] == g0[i]);
            } else if i == g0.len() {
            } else {
                assert(g[i] == t[i - g0.len() - 1]);
            }
        }
    }
}

proof fn lemma_no_commas(s: Seq<char>)
    requires
        forall|i: int| 0 <= i < s.len() ==> 48 <= #[trigger] s[i] as int <= 57,
    ensures
        without_commas(s) == s,
    decreases s.len(),
{
    if s.len() > 0 {
        assert(s.last() == s[s.len() - 1]);
        lemma_no_commas(s.drop_last());
        assert(s.drop_last().push(s.last()) =~= s);
    }
}

} // verus!
