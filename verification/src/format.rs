//! Numbers as text.
use crate::text::{chars, part, string};
use vstd::prelude::*;
use vstd::string::*;

verus! {

/// The character of a decimal digit.
pub open spec fn digit(d: nat) -> char {
    ((48 + d) as u8) as char
}

/// The character of a hexadecimal digit, in capitals.
pub open spec fn hex_digit(d: nat) -> char {
    if d < 10 {
        digit(d)
    } else {
        ((55 + d) as u8) as char
    }
}

/// `n` in decimal.
pub open spec fn decimal(n: nat) -> Seq<char>
    decreases n,
{
    if n < 10 {
        seq![digit(n)]
    } else {
        decimal(n / 10).push(digit(n % 10))
    }
}

/// `n` in decimal, with its sign where it is negative.
pub open spec fn signed_decimal(n: int) -> Seq<char> {
    if n < 0 {
        "-"@ + decimal((-n) as nat)
    } else {
        decimal(n as nat)
    }
}

/// `n` in hexadecimal, in capitals.
pub open spec fn hexadecimal(n: nat) -> Seq<char>
    decreases n,
{
    if n < 16 {
        seq![hex_digit(n)]
    } else {
        hexadecimal(n / 16).push(hex_digit(n % 16))
    }
}

pub fn decimal_text(n: u64) -> (s: String)
    ensures
        s@ == decimal(n as nat),
    decreases n,
{
    if n < 10 {
        let mut s = String::new();
        s.push((48u8 + n as u8) as char);
        assert(s@ =~= seq![digit(n as nat)]);
        s
    } else {
        let mut s = decimal_text(n / 10);
        s.push((48u8 + (n % 10) as u8) as char);
        s
    }
}

pub fn signed_text(n: i64) -> (s: String)
    ensures
        s@ == signed_decimal(n as int),
{
    if n < 0 {
        let m: u64 = (-(n + 1)) as u64 + 1;
        let mut s = "-".to_string();
        s.append(decimal_text(m).as_str());
        s
    } else {
        decimal_text(n as u64)
    }
}

fn hex_char(d: u8) -> (c: char)
    requires
        d < 16,
    ensures
        c == hex_digit(d as nat),
{
    if d < 10 {
        (48u8 + d) as char
    } else {
        (55u8 + d) as char
    }
}

pub fn hex_text(n: u32) -> (s: String)
    ensures
        s@ == hexadecimal(n as nat),
    decreases n,
{
    if n < 16 {
        let mut s = String::new();
        s.push(hex_char(n as u8));
        assert(s@ =~= seq![hex_digit(n as nat)]);
        s
    } else {
        let mut s = hex_text(n / 16);
        s.push(hex_char((n % 16) as u8));
        s
    }
}

/// The end of `s` up to `k` without the characters `c` in front of `k`.
pub open spec fn end_before(s: Seq<char>, c: char, k: int) -> int
    decreases k,
{
    if 0 < k <= s.len() && s[k - 1] == c {
        end_before(s, c, k - 1)
    } else {
        k
    }
}

/// `s` without the characters `c` at its end.
pub open spec fn without_end(s: Seq<char>, c: char) -> Seq<char> {
    s.take(end_before(s, c, s.len() as int))
}

/// `str::trim_end_matches` for a character.
pub fn trim_end_char(v: &Vec<char>, c: char) -> (r: Vec<char>)
    ensures
        r@ == without_end(v@, c),
{
    let mut k: usize = v.len();
    while k > 0 && v[k - 1] == c
        invariant
            k <= v@.len(),
            end_before(v@, c, v@.len() as int) == end_before(v@, c, k as int),
        decreases k,
    {
        k = k - 1;
    }
    let r = part(v, 0, k);
    assert(r@ =~= v@.take(k as int));
    r
}

/// A number with decimal places, without the zeros at its end: `0.010000` is `0.01`,
/// `60.000000` is `60`.
pub open spec fn compact(fixed: Seq<char>) -> Seq<char> {
    without_end(without_end(fixed, '0'), '.')
}

pub fn compact_text(fixed: &str) -> (s: String)
    ensures
        s@ == compact(fixed@),
{
    string(&trim_end_char(&trim_end_char(&chars(fixed), '0'), '.'))
}

} // verus!
