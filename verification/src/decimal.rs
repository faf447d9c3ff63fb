//! Decimal numerals for fixed-point quantities.
//!
//! A quantity is written with a fixed number of digits after the point, the
//! digits that are dropped rounding it to the nearest value that can be
//! written, and a tie to the one whose last digit is even.  A negative
//! quantity keeps its sign even where it rounds to zero.

use crate::fixed::magnitude;
use vstd::prelude::*;
use vstd::string::StringExecFns;

verus! {

/// The character for the digit `d`.
pub open spec fn digit(d: int) -> char {
    if d == 0 {
        '0'
    } else if d == 1 {
        '1'
    } else if d == 2 {
        '2'
    } else if d == 3 {
        '3'
    } else if d == 4 {
        '4'
    } else if d == 5 {
        '5'
    } else if d == 6 {
        '6'
    } else if d == 7 {
        '7'
    } else if d == 8 {
        '8'
    } else {
        '9'
    }
}

/// The decimal numeral of `n`, without leading zeros.
pub open spec fn numeral(n: nat) -> Seq<char>
    decreases n,
{
    if n < 10 {
        seq![digit(n as int)]
    } else {
        numeral(n / 10).push(digit((n % 10) as int))
    }
}

/// The quotient of `n` by a positive `d`, rounded to the nearest whole
/// number, and to the even one of two that are equally near.
pub open spec fn round_half_even(n: nat, d: nat) -> nat {
    let q: nat = n / d;
    let r: nat = n % d;
    if 2 * r < d || (2 * r == d && q % 2 == 0) {
        q
    } else {
        q + 1
    }
}

/// The sign that a numeral of `v` begins with.
pub open spec fn sign(v: int) -> Seq<char> {
    if v < 0 {
        seq!['-']
    } else {
        Seq::empty()
    }
}

/// The quantity `v`, in millionths, written with one digit after the point.
/// The definition is opaque, to keep it out of proofs that do not look at
/// digits; `reveal(decimal1)` brings it in.
#[verifier::opaque]
pub open spec fn decimal1(v: int) -> Seq<char> {
    let tenths: nat = round_half_even(magnitude(v) as nat, 100_000);
    sign(v) + numeral(tenths / 10) + seq!['.', digit((tenths % 10) as int)]
}

/// The quantity `v`, in millionths, written without a fraction.  Opaque as
/// `decimal1` is.
#[verifier::opaque]
pub open spec fn decimal0(v: int) -> Seq<char> {
    sign(v) + numeral(round_half_even(magnitude(v) as nat, 1_000_000))
}

/// The numeral `s`, filled up with a leading zero to two characters.
pub open spec fn two_wide(s: Seq<char>) -> Seq<char> {
    if s.len() < 2 {
        seq!['0'] + s
    } else {
        s
    }
}

/// Whether `c` is one of the ten digits.
pub open spec fn is_digit(c: char) -> bool {
    c == '0' || c == '1' || c == '2' || c == '3' || c == '4' || c == '5' || c == '6' || c == '7'
        || c == '8' || c == '9'
}

/// How often the character `c` occurs in `s`.
pub open spec fn occurrences(s: Seq<char>, c: char) -> nat
    decreases s.len(),
{
    if s.len() == 0 {
        0
    } else {
        occurrences(s.drop_last(), c) + if s.last() == c {
            1nat
        } else {
            0nat
        }
    }
}

/// Whether `s` is a numeral with exactly one digit after the point: an
/// optional minus sign, one digit or more, the point, and one digit.
pub open spec fn has_one_decimal_place(s: Seq<char>) -> bool {
    let k: int = if s.len() > 0 && s[0] == '-' {
        1
    } else {
        0
    };
    &&& s.len() >= k + 3
    &&& forall|i: int| k <= i < s.len() - 2 ==> is_digit(#[trigger] s[i])
    &&& s[s.len() - 2] == '.'
    &&& is_digit(s[s.len() - 1])
}

/// A character occurs in a sequence of one as often as it is that one.
pub proof fn lemma_occurrences_single(x: char, c: char)
    ensures
        occurrences(seq![x], c) == if x == c {
            1nat
        } else {
            0nat
        },
{
    let s: Seq<char> = seq![x];
    assert(s.drop_last().len() == 0);
    assert(occurrences(s.drop_last(), c) == 0);
}

/// A character occurs in two sequences joined as often as in both together.
pub proof fn lemma_occurrences_concat(s: Seq<char>, t: Seq<char>, c: char)
    ensures
        occurrences(s + t, c) == occurrences(s, c) + occurrences(t, c),
    decreases t.len(),
{
    if t.len() == 0 {
        assert(s + t =~= s);
    } else {
        assert((s + t).drop_last() =~= s + t.drop_last());
        lemma_occurrences_concat(s, t.drop_last(), c);
    }
}

/// A character that is nowhere in a sequence occurs in it no times.
pub proof fn lemma_occurrences_absent(s: Seq<char>, c: char)
    requires
        forall|i: int| 0 <= i < s.len() ==> s[i] != c,
    ensures
        occurrences(s, c) == 0,
    decreases s.len(),
{
    if s.len() > 0 {
        lemma_occurrences_absent(s.drop_last(), c);
    }
}

/// A numeral is made of digits, and of one at least.
pub proof fn lemma_numeral_digits(n: nat)
    ensures
        numeral(n).len() >= 1,
        forall|i: int| 0 <= i < numeral(n).len() ==> is_digit(#[trigger] numeral(n)[i]),
    decreases n,
{
    if n >= 10 {
        lemma_numeral_digits(n / 10);
    }
}

/// A quantity written with one digit after the point has that shape; the
/// point occurs in it once, and no character occurs in it that is neither a
/// digit, nor the point, nor the minus sign.
pub proof fn lemma_decimal1_shape(v: int)
    ensures
        has_one_decimal_place(decimal1(v)),
        occurrences(decimal1(v), '.') == 1,
        forall|c: char|
            !is_digit(c) && c != '.' && c != '-' ==> #[trigger] occurrences(decimal1(v), c) == 0,
{
    reveal(decimal1);
    let tenths: nat = round_half_even(magnitude(v) as nat, 100_000);
    let whole: Seq<char> = numeral(tenths / 10);
    let last: char = digit((tenths % 10) as int);
    let s: Seq<char> = decimal1(v);
    lemma_numeral_digits(tenths / 10);
    assert(s =~= sign(v) + whole + seq!['.'] + seq![last]);
    assert forall|i: int| sign(v).len() <= i < s.len() - 2 implies is_digit(#[trigger] s[i]) by {
        assert(s[i] == whole[i - sign(v).len()]);
    }
    assert(s.len() == sign(v).len() + whole.len() + 2);
    assert(s[s.len() - 2] == '.');
    assert(s[s.len() - 1] == last);
    assert(has_one_decimal_place(s));
    lemma_occurrences_absent(sign(v), '.');
    lemma_occurrences_absent(whole, '.');
    lemma_occurrences_single('.', '.');
    lemma_occurrences_single(last, '.');
    lemma_occurrences_concat(sign(v), whole, '.');
    lemma_occurrences_concat(sign(v) + whole, seq!['.'], '.');
    lemma_occurrences_concat(sign(v) + whole + seq!['.'], seq![last], '.');
    assert forall|c: char| !is_digit(c) && c != '.' && c != '-' implies #[trigger] occurrences(
        s,
        c,
    ) == 0 by {
        lemma_occurrences_absent(s, c);
    }
}

/// The digit `d` as a string of one character.
fn digit_str(d: u8) -> (s: &'static str)
    requires
        d < 10,
    ensures
        s@ == seq![digit(d as int)],
{
    proof {
        reveal_strlit("0");
        reveal_strlit("1");
        reveal_strlit("2");
        reveal_strlit("3");
        reveal_strlit("4");
        reveal_strlit("5");
        reveal_strlit("6");
        reveal_strlit("7");
        reveal_strlit("8");
        reveal_strlit("9");
    }
    let s: &'static str = if d == 0 {
        "0"
    } else if d == 1 {
        "1"
    } else if d == 2 {
        "2"
    } else if d == 3 {
        "3"
    } else if d == 4 {
        "4"
    } else if d == 5 {
        "5"
    } else if d == 6 {
        "6"
    } else if d == 7 {
        "7"
    } else if d == 8 {
        "8"
    } else {
        "9"
    };
    assert(s@ =~= seq![digit(d as int)]);
    s
}

/// Appends the numeral of `n`.
pub(crate) fn push_numeral(out: &mut String, n: u128)
    ensures
        final(out)@ == old(out)@ + numeral(n as nat),
    decreases n,
{
    if n >= 10 {
        push_numeral(out, n / 10);
    }
    out.append(digit_str((n % 10) as u8));
    assert(out@ =~= old(out)@ + numeral(n as nat));
}

/// Divides `n` by `d`, rounding to the nearest whole number and a tie to the
/// even one.
fn rounded(n: u128, d: u128) -> (q: u128)
    requires
        0 < d,
        n < u128::MAX,
    ensures
        q == round_half_even(n as nat, d as nat),
{
    let q: u128 = n / d;
    let r: u128 = n % d;
    if r < d - r || (r == d - r && q % 2 == 0) {
        q
    } else {
        assert(q < u128::MAX) by {
            if d == 1 {
                assert(r == 0);
            } else {
                assert(q <= n / 2) by (nonlinear_arith)
                    requires
                        q == n / d,
                        d >= 2,
                        n >= 0,
                ;
            }
        }
        q + 1
    }
}

/// The magnitude of `v`, and whether `v` is negative.
fn split(v: i128) -> (parts: (bool, u128))
    requires
        v > i128::MIN,
    ensures
        parts.0 == (v < 0),
        parts.1 == magnitude(v as int),
{
    if v < 0 {
        (true, (-v) as u128)
    } else {
        (false, v as u128)
    }
}

/// Appends `v` written with one digit after the point.
pub(crate) fn push_decimal1(out: &mut String, v: i128)
    requires
        v > i128::MIN,
    ensures
        final(out)@ == old(out)@ + decimal1(v as int),
{
    let (negative, m) = split(v);
    let tenths: u128 = rounded(m, 100_000);
    if negative {
        proof {
            reveal_strlit("-");
        }
        out.append("-");
    }
    push_numeral(out, tenths / 10);
    proof {
        reveal_strlit(".");
    }
    out.append(".");
    out.append(digit_str((tenths % 10) as u8));
    assert(out@ =~= old(out)@ + decimal1(v as int)) by {
        reveal(decimal1);
    }
}

/// Appends `v` written without a fraction.
pub(crate) fn push_decimal0(out: &mut String, v: i128)
    requires
        v > i128::MIN,
    ensures
        final(out)@ == old(out)@ + decimal0(v as int),
{
    let (negative, m) = split(v);
    if negative {
        proof {
            reveal_strlit("-");
        }
        out.append("-");
    }
    push_numeral(out, rounded(m, 1_000_000));
    assert(out@ =~= old(out)@ + decimal0(v as int)) by {
        reveal(decimal0);
    }
}

/// Writes the quantity `v` with one digit after the point.
pub fn to_decimal1(v: i64) -> (s: String)
    ensures
        s@ == decimal1(v as int),
{
    let mut s: String = String::new();
    push_decimal1(&mut s, v as i128);
    assert(s@ =~= decimal1(v as int));
    s
}

/// Writes the quantity `v` without a fraction.
pub fn to_decimal0(v: i64) -> (s: String)
    ensures
        s@ == decimal0(v as int),
{
    let mut s: String = String::new();
    push_decimal0(&mut s, v as i128);
    assert(s@ =~= decimal0(v as int));
    s
}

} // verus!
