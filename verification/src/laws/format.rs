//! How numbers are written.
use crate::format::{compact, decimal, digit, end_before, hex_digit, hexadecimal, signed_decimal};
use vstd::prelude::*;
use vstd::string::*;

verus! {

/// The number that a digit stands for.
pub open spec fn digit_value(c: char) -> nat {
    if c == '0' {
        0
    } else if c == '1' {
        1
    } else if c == '2' {
        2
    } else if c == '3' {
        3
    } else if c == '4' {
        4
    } else if c == '5' {
        5
    } else if c == '6' {
        6
    } else if c == '7' {
        7
    } else if c == '8' {
        8
    } else if c == '9' {
        9
    } else if c == 'A' {
        10
    } else if c == 'B' {
        11
    } else if c == 'C' {
        12
    } else if c == 'D' {
        13
    } else if c == 'E' {
        14
    } else if c == 'F' {
        15
    } else {
        16
    }
}

/// The number that the digits stand for in the base.
pub open spec fn reading(s: Seq<char>, base: nat) -> nat
    decreases s.len(),
{
    if s.len() == 0 {
        0
    } else {
        reading(s.drop_last(), base) * base + digit_value(s.last())
    }
}

/// A number reads back from its decimal digits, which have no zero in front.
pub proof fn decimals_read_back(n: nat)
    ensures
        reading(decimal(n), 10) == n,
        decimal(n).len() > 0,
        n > 0 ==> decimal(n)[0] != '0',
        forall|i: int| 0 <= i < decimal(n).len() ==> digit_value(#[trigger] decimal(n)[i]) < 10,
    decreases n,
{
    let s = decimal(n);
    if n >= 10 {
        decimals_read_back(n / 10);
        assert(s.drop_last() =~= decimal(n / 10));
        assert(s.last() == digit(n % 10));
        assert(digit_value(s.last()) == n % 10);
        assert(reading(s, 10) == reading(decimal(n / 10), 10) * 10 + n % 10);
        assert forall|i: int| 0 <= i < s.len() implies digit_value(#[trigger] s[i]) < 10 by {
            if i < s.len() - 1 {
                assert(s[i] == decimal(n / 10)[i]);
            }
        }
    } else {
        assert(s.drop_last() =~= Seq::empty());
        assert(s.last() == digit(n));
        assert(reading(s.drop_last(), 10) == 0);
    }
}

/// A negative number is written as its opposite behind a sign, any other one as it is.
pub proof fn signs_come_in_front(n: int)
    ensures
        n >= 0 ==> reading(signed_decimal(n), 10) == n,
        n < 0 ==> signed_decimal(n).len() > 0 && signed_decimal(n)[0] == '-' && reading(
            signed_decimal(n).skip(1),
            10,
        ) == -n,
{
    if n < 0 {
        reveal_strlit("-");
        decimals_read_back((-n) as nat);
        assert(signed_decimal(n).skip(1) =~= decimal((-n) as nat));
    } else {
        decimals_read_back(n as nat);
    }
}

/// A number reads back from its hexadecimal digits, which have no zero in front.
pub proof fn hexadecimals_read_back(n: nat)
    ensures
        reading(hexadecimal(n), 16) == n,
        hexadecimal(n).len() > 0,
        n > 0 ==> hexadecimal(n)[0] != '0',
    decreases n,
{
    let s = hexadecimal(n);
    if n >= 16 {
        hexadecimals_read_back(n / 16);
        assert(s.drop_last() =~= hexadecimal(n / 16));
        assert(s.last() == hex_digit(n % 16));
        assert(digit_value(s.last()) == n % 16);
        assert(reading(s, 16) == reading(hexadecimal(n / 16), 16) * 16 + n % 16);
    } else {
        assert(s.drop_last() =~= Seq::empty());
        assert(s.last() == hex_digit(n));
        assert(reading(s.drop_last(), 16) == 0);
    }
}

proof fn lemma_end_before(s: Seq<char>, c: char, k: int)
    requires
        0 <= k <= s.len(),
    ensures
        0 <= end_before(s, c, k) <= k,
        end_before(s, c, k) > 0 ==> s[end_before(s, c, k) - 1] != c,
        forall|i: int| end_before(s, c, k) <= i < k ==> s[i] == c,
    decreases k,
{
    if k > 0 && s[k - 1] == c {
        lemma_end_before(s, c, k - 1);
    }
}

/// A number with decimal places is written without the zeros at its end, and without the
/// point where only zeros stand behind it: the whole part, the point and the places up to the
/// last that is not zero.
pub proof fn trailing_zeros_are_dropped(whole: Seq<char>, places: Seq<char>, zeros: nat)
    requires
        whole.len() > 0,
        whole.last() != '.',
        places.len() > 0 ==> places.last() != '0' && places.last() != '.',
    ensures
        compact(whole + "."@ + places + Seq::new(zeros, |i: int| '0')) == (if places.len() > 0 {
            whole + "."@ + places
        } else {
            whole
        }),
{
    reveal_strlit(".");
    let body = whole + "."@ + places;
    let s = body + Seq::new(zeros, |i: int| '0');
    lemma_end_before(s, '0', s.len() as int);
    let k = end_before(s, '0', s.len() as int);
    if k < body.len() {
        assert(s[body.len() - 1] == '0');
        assert(s[body.len() - 1] == body.last());
    }
    if k > body.len() {
        assert(s[k - 1] == '0');
    }
    assert(s.take(k) =~= body);
    lemma_end_before(body, '.', body.len() as int);
    let m = end_before(body, '.', body.len() as int);
    if places.len() > 0 {
        assert(body.last() == places.last());
        if m < body.len() {
            assert(body[body.len() - 1] == '.');
        }
        assert(body.take(m) =~= body);
    } else {
        assert(body.last() == '.');
        if m < whole.len() {
            assert(body[whole.len() - 1] == '.');
        }
        if m > whole.len() {
            assert(body[m - 1] == '.');
        }
        assert(body.take(m) =~= whole);
    }
}

} // verus!
