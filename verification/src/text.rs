//! Text as a sequence of characters, addressed by UTF-8 byte offsets.
//!
//! Every source position in the library is a byte offset into some text. The
//! specifications speak of the text's characters, and [`byte_at`] ties an offset
//! to the character it stands in front of.
use vstd::prelude::*;
use vstd::string::*;

verus! {

// ---------------------------------------------------------------------------
// Byte offsets
// ---------------------------------------------------------------------------

/// The number of bytes `c` takes in UTF-8.
pub open spec fn width(c: char) -> nat {
    if (c as u32) < 0x80 {
        1
    } else if (c as u32) < 0x800 {
        2
    } else if (c as u32) < 0x10000 {
        3
    } else {
        4
    }
}

/// The number of bytes `s` takes in UTF-8.
pub open spec fn byte_len(s: Seq<char>) -> nat
    decreases s.len(),
{
    if s.len() == 0 {
        0
    } else {
        byte_len(s.drop_last()) + width(s.last())
    }
}

/// The byte offset of the `i`-th character of `s` (of its end, for `i == s.len()`).
pub open spec fn byte_at(s: Seq<char>, i: int) -> nat {
    byte_len(s.take(i))
}

/// True when the byte offset `b` stands between two characters of `s`, or at an end.
pub open spec fn is_boundary(s: Seq<char>, b: int) -> bool {
    exists|i: int| 0 <= i <= s.len() && #[trigger] byte_at(s, i) == b
}

/// The index of the character that the boundary `b` stands in front of.
pub open spec fn char_at(s: Seq<char>, b: int) -> int {
    choose|i: int| 0 <= i <= s.len() && #[trigger] byte_at(s, i) == b
}

/// The text between two byte offsets; `None` unless both are boundaries, in order.
pub open spec fn byte_slice(s: Seq<char>, a: int, b: int) -> Option<Seq<char>> {
    if a <= b && is_boundary(s, a) && is_boundary(s, b) {
        Some(s.subrange(char_at(s, a), char_at(s, b)))
    } else {
        None
    }
}

/// Moving past one character moves past its bytes.
pub proof fn lemma_byte_at_step(s: Seq<char>, i: int)
    requires
        0 <= i < s.len(),
    ensures
        byte_at(s, i + 1) == byte_at(s, i) + width(s[i]),
{
    assert(s.take(i + 1).drop_last() =~= s.take(i));
}

/// Offsets grow strictly with the character index.
pub proof fn lemma_byte_at_monotone(s: Seq<char>, i: int, j: int)
    requires
        0 <= i <= j <= s.len(),
    ensures
        byte_at(s, i) + (j - i) <= byte_at(s, j),
    decreases j - i,
{
    if i < j {
        lemma_byte_at_monotone(s, i, j - 1);
        lemma_byte_at_step(s, j - 1);
    }
}

/// The first offset is 0, the last is the text's length in bytes.
pub proof fn lemma_byte_at_ends(s: Seq<char>)
    ensures
        byte_at(s, 0) == 0,
        byte_at(s, s.len() as int) == byte_len(s),
        is_boundary(s, 0),
        is_boundary(s, byte_len(s) as int),
{
    assert(s.take(0) =~= Seq::empty());
    assert(s.take(s.len() as int) =~= s);
    assert(byte_at(s, 0) == 0);
    assert(byte_at(s, s.len() as int) == byte_len(s));
}

/// A boundary stands in front of exactly one character.
pub proof fn lemma_char_at_unique(s: Seq<char>, i: int)
    requires
        0 <= i <= s.len(),
    ensures
        is_boundary(s, byte_at(s, i) as int),
        char_at(s, byte_at(s, i) as int) == i,
{
    let b = byte_at(s, i) as int;
    let j = char_at(s, b);
    assert(0 <= i <= s.len() && byte_at(s, i) == b);
    assert(0 <= j <= s.len() && byte_at(s, j) == b);
    if i < j {
        lemma_byte_at_monotone(s, i, j);
    } else if j < i {
        lemma_byte_at_monotone(s, j, i);
    }
}

/// The bytes of a concatenation are those of its parts.
pub proof fn lemma_byte_len_add(s: Seq<char>, t: Seq<char>)
    ensures
        byte_len(s + t) == byte_len(s) + byte_len(t),
    decreases t.len(),
{
    if t.len() == 0 {
        assert(s + t =~= s);
    } else {
        lemma_byte_len_add(s, t.drop_last());
        assert((s + t).drop_last() =~= s + t.drop_last());
    }
}

/// A part of a text has the bytes between its two ends.
pub proof fn lemma_byte_len_subrange(s: Seq<char>, i: int, j: int)
    requires
        0 <= i <= j <= s.len(),
    ensures
        byte_len(s.subrange(i, j)) == byte_at(s, j) - byte_at(s, i),
{
    lemma_byte_len_add(s.take(i), s.subrange(i, j));
    assert(s.take(i) + s.subrange(i, j) =~= s.take(j));
}

/// No text has fewer bytes than characters.
pub proof fn lemma_byte_len_bounds(s: Seq<char>)
    ensures
        s.len() <= byte_len(s) <= 4 * s.len(),
    decreases s.len(),
{
    if s.len() > 0 {
        lemma_byte_len_bounds(s.drop_last());
    }
}

// ---------------------------------------------------------------------------
// Characters
// ---------------------------------------------------------------------------

/// The Unicode `White_Space` characters.
pub open spec fn is_space(c: char) -> bool {
    let u = c as u32;
    ||| 0x9 <= u <= 0xd
    ||| u == 0x20
    ||| u == 0x85
    ||| u == 0xa0
    ||| u == 0x1680
    ||| 0x2000 <= u <= 0x200a
    ||| u == 0x2028
    ||| u == 0x2029
    ||| u == 0x202f
    ||| u == 0x205f
    ||| u == 0x3000
}

pub open spec fn is_ascii_letter(c: char) -> bool {
    ('a' <= c && c <= 'z') || ('A' <= c && c <= 'Z')
}

pub open spec fn is_ascii_digit(c: char) -> bool {
    '0' <= c && c <= '9'
}

/// `c` with an ASCII capital made small.
pub open spec fn lower(c: char) -> char {
    if 'A' <= c && c <= 'Z' {
        ((c as u32) + 32) as char
    } else {
        c
    }
}

/// `s` with its ASCII capitals made small.
pub open spec fn lowered(s: Seq<char>) -> Seq<char> {
    s.map_values(|c: char| lower(c))
}

pub uninterp spec fn unicode_alphanumeric(c: char) -> bool;

/// `char::is_alphanumeric`: whether the character is alphabetic or numeric by the
/// Unicode tables. On ASCII these are the letters and the digits.
pub assume_specification[ char::is_alphanumeric ](c: char) -> (r: bool)
    ensures
        r == unicode_alphanumeric(c),
        (c as u32) < 0x80 ==> r == (is_ascii_letter(c) || is_ascii_digit(c)),
;

/// `String::push` appends one character at the end.
pub assume_specification[ std::string::String::push ](s: &mut std::string::String, c: char)
    ensures
        final(s)@ == old(s)@.push(c),
;

pub fn char_width(c: char) -> (n: usize)
    ensures
        n == width(c),
{
    let u: u32 = c as u32;
    if u < 0x80 {
        1
    } else if u < 0x800 {
        2
    } else if u < 0x10000 {
        3
    } else {
        4
    }
}

pub fn char_is_space(c: char) -> (r: bool)
    ensures
        r == is_space(c),
{
    let u: u32 = c as u32;
    (0x9 <= u && u <= 0xd) || u == 0x20 || u == 0x85 || u == 0xa0 || u == 0x1680 || (0x2000 <= u
        && u <= 0x200a) || u == 0x2028 || u == 0x2029 || u == 0x202f || u == 0x205f || u == 0x3000
}

pub fn char_is_letter(c: char) -> (r: bool)
    ensures
        r == is_ascii_letter(c),
{
    ('a' <= c && c <= 'z') || ('A' <= c && c <= 'Z')
}

pub fn char_is_digit(c: char) -> (r: bool)
    ensures
        r == is_ascii_digit(c),
{
    '0' <= c && c <= '9'
}

pub fn char_lower(c: char) -> (r: char)
    ensures
        r == lower(c),
{
    if 'A' <= c && c <= 'Z' {
        ((c as u8) + 32) as char
    } else {
        c
    }
}

// ---------------------------------------------------------------------------
// Strings and character vectors
// ---------------------------------------------------------------------------

/// The characters of `s`.
pub fn chars(s: &str) -> (v: Vec<char>)
    ensures
        v@ == s@,
{
    let mut v: Vec<char> = Vec::new();
    for c in it: s.chars()
        invariant
            v@ == it.seq().take(it.index()),
    {
        v.push(c);
    }
    v
}

/// The string of the characters `v`.
pub fn string(v: &Vec<char>) -> (s: String)
    ensures
        s@ == v@,
{
    substring(v, 0, v.len())
}

/// The string of the characters from index `i` up to `j`.
pub fn substring(v: &Vec<char>, i: usize, j: usize) -> (s: String)
    requires
        i <= j <= v@.len(),
    ensures
        s@ == v@.subrange(i as int, j as int),
{
    let mut s: String = String::new();
    let mut k: usize = i;
    while k < j
        invariant
            i <= k <= j <= v@.len(),
            s@ == v@.subrange(i as int, k as int),
        decreases j - k,
    {
        s.push(v[k]);
        k = k + 1;
    }
    s
}

/// The characters from index `i` up to `j`.
pub fn part(v: &Vec<char>, i: usize, j: usize) -> (r: Vec<char>)
    requires
        i <= j <= v@.len(),
    ensures
        r@ == v@.subrange(i as int, j as int),
{
    let mut r: Vec<char> = Vec::new();
    let mut k: usize = i;
    while k < j
        invariant
            i <= k <= j <= v@.len(),
            r@ == v@.subrange(i as int, k as int),
        decreases j - k,
    {
        r.push(v[k]);
        k = k + 1;
    }
    r
}

/// True when `p` stands in `s` at index `i`.
pub open spec fn matches_at(s: Seq<char>, p: Seq<char>, i: int) -> bool {
    0 <= i && i + p.len() <= s.len() && s.subrange(i, i + p.len()) == p
}

pub fn holds_at(v: &Vec<char>, p: &Vec<char>, i: usize) -> (r: bool)
    ensures
        r == matches_at(v@, p@, i as int),
{
    if i > v.len() || p.len() > v.len() - i {
        return false;
    }
    let mut k: usize = 0;
    while k < p.len()
        invariant
            i + p@.len() <= v.len(),
            k <= p@.len(),
            forall|j: int| 0 <= j < k ==> v@[i + j] == p@[j],
        decreases p@.len() - k,
    {
        if v[i + k] != p[k] {
            assert(v@.subrange(i as int, i + p@.len())[k as int] != p@[k as int]);
            return false;
        }
        k = k + 1;
    }
    assert(v@.subrange(i as int, i + p@.len()) =~= p@);
    true
}

pub fn same_chars(a: &Vec<char>, b: &Vec<char>) -> (r: bool)
    ensures
        r == (a@ == b@),
{
    let r = a.len() == b.len() && holds_at(a, b, 0);
    proof {
        assert(a@.len() == b@.len() ==> a@.subrange(0, b@.len() as int) =~= a@);
    }
    r
}

/// Equality of two strings.
pub fn same(a: &str, b: &str) -> (r: bool)
    ensures
        r == (a@ == b@),
{
    same_chars(&chars(a), &chars(b))
}

/// The length of `s` in bytes.
pub fn bytes_of(v: &Vec<char>) -> (n: usize)
    requires
        byte_len(v@) <= usize::MAX,
    ensures
        n == byte_len(v@),
{
    proof {
        lemma_byte_at_ends(v@);
    }
    bytes_before(v, v.len())
}

/// The byte offset of the `i`-th character.
pub fn bytes_before(v: &Vec<char>, i: usize) -> (n: usize)
    requires
        i <= v@.len(),
        byte_at(v@, i as int) <= usize::MAX,
    ensures
        n == byte_at(v@, i as int),
{
    let mut n: usize = 0;
    let mut k: usize = 0;
    proof {
        lemma_byte_at_ends(v@);
    }
    while k < i
        invariant
            k <= i <= v@.len(),
            n == byte_at(v@, k as int),
            byte_at(v@, i as int) <= usize::MAX,
        decreases i - k,
    {
        proof {
            lemma_byte_at_step(v@, k as int);
            lemma_byte_at_monotone(v@, k + 1, i as int);
        }
        n = n + char_width(v[k]);
        k = k + 1;
    }
    n
}

/// The index of the character at byte offset `b`, if `b` is a boundary.
pub fn index_of_byte(v: &Vec<char>, b: usize) -> (r: Option<usize>)
    ensures
        match r {
            Some(i) => i <= v@.len() && byte_at(v@, i as int) == b && char_at(v@, b as int) == i,
            None => !is_boundary(v@, b as int),
        },
{
    let mut n: usize = 0;
    let mut k: usize = 0;
    proof {
        lemma_byte_at_ends(v@);
    }
    loop
        invariant
            k <= v@.len(),
            n == byte_at(v@, k as int),
            n <= b,
            forall|i: int| 0 <= i < k ==> #[trigger] byte_at(v@, i) < b,
        decreases v@.len() - k,
    {
        if n == b {
            proof {
                lemma_char_at_unique(v@, k as int);
            }
            return Some(k);
        }
        if k == v.len() {
            return None;
        }
        proof {
            lemma_byte_at_step(v@, k as int);
        }
        let w: usize = char_width(v[k]);
        if w > b - n {
            proof {
                assert forall|i: int| 0 <= i <= v@.len() implies #[trigger] byte_at(v@, i) != b by {
                    if i > k {
                        lemma_byte_at_monotone(v@, k + 1, i);
                    }
                }
            }
            return None;
        }
        n = n + w;
        k = k + 1;
    }
}

/// The byte offset of every character, and of the end.
pub fn offsets(v: &Vec<char>) -> (r: Vec<usize>)
    requires
        byte_len(v@) <= usize::MAX,
    ensures
        r@.len() == v@.len() + 1,
        forall|i: int| 0 <= i < r@.len() ==> #[trigger] r@[i] == byte_at(v@, i),
{
    let mut r: Vec<usize> = Vec::new();
    let mut n: usize = 0;
    let mut k: usize = 0;
    proof {
        lemma_byte_at_ends(v@);
    }
    r.push(0);
    while k < v.len()
        invariant
            k <= v@.len(),
            n == byte_at(v@, k as int),
            byte_at(v@, v@.len() as int) <= usize::MAX,
            r@.len() == k + 1,
            forall|i: int| 0 <= i <= k ==> #[trigger] r@[i] == byte_at(v@, i),
        decreases v@.len() - k,
    {
        proof {
            lemma_byte_at_step(v@, k as int);
            lemma_byte_at_monotone(v@, k + 1, v@.len() as int);
        }
        n = n + char_width(v[k]);
        r.push(n);
        k = k + 1;
    }
    r
}

/// The index of the character at byte offset `b`, looked up among the offsets of `s`.
pub fn index_among(offsets: &Vec<usize>, b: usize, Ghost(s): Ghost<Seq<char>>) -> (r: Option<usize>)
    requires
        offsets@.len() == s.len() + 1,
        forall|i: int| 0 <= i < offsets@.len() ==> #[trigger] offsets@[i] == byte_at(s, i),
    ensures
        match r {
            Some(i) => i <= s.len() && byte_at(s, i as int) == b && char_at(s, b as int) == i,
            None => !is_boundary(s, b as int),
        },
{
    let mut lo: usize = 0;
    let mut hi: usize = offsets.len();
    while lo < hi
        invariant
            lo <= hi <= offsets@.len(),
            offsets@.len() == s.len() + 1,
            forall|i: int| 0 <= i < offsets@.len() ==> #[trigger] offsets@[i] == byte_at(s, i),
            forall|i: int| 0 <= i < lo ==> #[trigger] byte_at(s, i) < b,
            forall|i: int| hi <= i <= s.len() ==> b < #[trigger] byte_at(s, i),
        decreases hi - lo,
    {
        let mid: usize = lo + (hi - lo) / 2;
        assert(offsets@[mid as int] == byte_at(s, mid as int));
        if offsets[mid] == b {
            proof {
                lemma_char_at_unique(s, mid as int);
            }
            return Some(mid);
        }
        if offsets[mid] < b {
            proof {
                assert forall|i: int| 0 <= i < mid + 1 implies #[trigger] byte_at(s, i) < b by {
                    lemma_byte_at_monotone(s, i, mid as int);
                }
            }
            lo = mid + 1;
        } else {
            proof {
                assert forall|i: int| mid <= i <= s.len() implies b < #[trigger] byte_at(s, i) by {
                    lemma_byte_at_monotone(s, mid as int, i);
                }
            }
            hi = mid;
        }
    }
    None
}

/// The text between two byte offsets.
pub fn slice(v: &Vec<char>, a: usize, b: usize) -> (r: Option<Vec<char>>)
    ensures
        match r {
            Some(t) => byte_slice(v@, a as int, b as int) == Some(t@),
            None => byte_slice(v@, a as int, b as int) is None,
        },
{
    if a > b {
        return None;
    }
    match (index_of_byte(v, a), index_of_byte(v, b)) {
        (Some(i), Some(j)) => {
            if i > j {
                proof {
                    lemma_byte_at_monotone(v@, j as int, i as int);
                }
                return None;
            }
            Some(part(v, i, j))
        },
        _ => None,
    }
}

} // verus!
