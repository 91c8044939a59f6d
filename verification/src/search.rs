//! Finding, trimming, splitting and joining text.
use crate::list::{fresh, put};
use crate::text::{char_is_space, chars, holds_at, is_space, matches_at, part, substring};
use vstd::prelude::*;

verus! {

// ---------------------------------------------------------------------------
// Finding
// ---------------------------------------------------------------------------

/// The first index from `from` on at which `p` stands in `s`.
pub open spec fn first_match(s: Seq<char>, p: Seq<char>, from: int) -> Option<int>
    decreases s.len() - from + 1,
{
    if from < 0 || from > s.len() {
        None
    } else if matches_at(s, p, from) {
        Some(from)
    } else {
        first_match(s, p, from + 1)
    }
}

pub proof fn lemma_first_match(s: Seq<char>, p: Seq<char>, from: int)
    requires
        0 <= from,
    ensures
        match first_match(s, p, from) {
            Some(i) => from <= i && matches_at(s, p, i) && forall|j: int|
                from <= j < i ==> !matches_at(s, p, j),
            None => forall|j: int| from <= j ==> !matches_at(s, p, j),
        },
    decreases s.len() - from + 1,
{
    if from <= s.len() && !matches_at(s, p, from) {
        lemma_first_match(s, p, from + 1);
    }
}

pub fn find(v: &Vec<char>, p: &Vec<char>, from: usize) -> (r: Option<usize>)
    ensures
        match r {
            Some(i) => first_match(v@, p@, from as int) == Some(i as int) && from <= i && i
                + p@.len() <= v@.len(),
            None => first_match(v@, p@, from as int) is None,
        },
{
    let mut k: usize = from;
    if k > v.len() {
        return None;
    }
    loop
        invariant
            from <= k <= v.len(),
            first_match(v@, p@, from as int) == first_match(v@, p@, k as int),
        decreases v.len() - k,
    {
        if holds_at(v, p, k) {
            return Some(k);
        }
        if k == v.len() {
            proof {
                assert(first_match(v@, p@, k + 1) is None);
            }
            return None;
        }
        k = k + 1;
    }
}

/// The first index from `from` on that holds `c`.
pub open spec fn first_index(s: Seq<char>, c: char, from: int) -> Option<int>
    decreases s.len() - from,
{
    if from < 0 || from >= s.len() {
        None
    } else if s[from] == c {
        Some(from)
    } else {
        first_index(s, c, from + 1)
    }
}

pub proof fn lemma_first_index(s: Seq<char>, c: char, from: int)
    requires
        0 <= from,
    ensures
        match first_index(s, c, from) {
            Some(i) => from <= i < s.len() && s[i] == c && forall|j: int|
                from <= j < i ==> s[j] != c,
            None => forall|j: int| from <= j < s.len() ==> s[j] != c,
        },
    decreases s.len() - from,
{
    if from < s.len() && s[from] != c {
        lemma_first_index(s, c, from + 1);
    }
}

pub fn find_char(v: &Vec<char>, c: char, from: usize) -> (r: Option<usize>)
    ensures
        match r {
            Some(i) => first_index(v@, c, from as int) == Some(i as int) && from <= i < v@.len()
                && v@[i as int] == c,
            None => first_index(v@, c, from as int) is None,
        },
{
    let mut k: usize = from;
    if k >= v.len() {
        return None;
    }
    while k < v.len()
        invariant
            from <= k <= v.len(),
            first_index(v@, c, from as int) == first_index(v@, c, k as int),
        decreases v.len() - k,
    {
        if v[k] == c {
            return Some(k);
        }
        k = k + 1;
    }
    None
}

/// The last index below `upto` that holds `c`.
pub open spec fn last_index(s: Seq<char>, c: char, upto: int) -> Option<int>
    decreases upto,
{
    if upto <= 0 || upto > s.len() {
        None
    } else if s[upto - 1] == c {
        Some(upto - 1)
    } else {
        last_index(s, c, upto - 1)
    }
}

pub proof fn lemma_last_index(s: Seq<char>, c: char, upto: int)
    requires
        0 <= upto <= s.len(),
    ensures
        match last_index(s, c, upto) {
            Some(i) => 0 <= i < upto && s[i] == c && forall|j: int| i < j < upto ==> s[j] != c,
            None => forall|j: int| 0 <= j < upto ==> s[j] != c,
        },
    decreases upto,
{
    if upto > 0 && s[upto - 1] != c {
        lemma_last_index(s, c, upto - 1);
    }
}

pub fn rfind_char(v: &Vec<char>, c: char, upto: usize) -> (r: Option<usize>)
    requires
        upto <= v@.len(),
    ensures
        match r {
            Some(i) => last_index(v@, c, upto as int) == Some(i as int) && i < upto
                && v@[i as int] == c,
            None => last_index(v@, c, upto as int) is None,
        },
{
    let mut k: usize = upto;
    while k > 0
        invariant
            k <= upto <= v@.len(),
            last_index(v@, c, upto as int) == last_index(v@, c, k as int),
        decreases k,
    {
        if v[k - 1] == c {
            return Some(k - 1);
        }
        k = k - 1;
    }
    None
}

pub fn contains_char(v: &Vec<char>, c: char) -> (r: bool)
    ensures
        r == v@.contains(c),
{
    match find_char(v, c, 0) {
        Some(i) => true,
        None => {
            proof {
                lemma_first_index(v@, c, 0);
            }
            false
        },
    }
}

/// True when `p` stands somewhere in `s`.
pub open spec fn has(s: Seq<char>, p: Seq<char>) -> bool {
    first_match(s, p, 0) is Some
}

pub fn contains(v: &Vec<char>, p: &Vec<char>) -> (r: bool)
    ensures
        r == has(v@, p@),
{
    find(v, p, 0).is_some()
}

// ---------------------------------------------------------------------------
// Prefixes and suffixes
// ---------------------------------------------------------------------------

/// What follows the prefix `p` of `s`.
pub open spec fn after_prefix(s: Seq<char>, p: Seq<char>) -> Option<Seq<char>> {
    if matches_at(s, p, 0) {
        Some(s.skip(p.len() as int))
    } else {
        None
    }
}

/// What precedes the suffix `p` of `s`.
pub open spec fn before_suffix(s: Seq<char>, p: Seq<char>) -> Option<Seq<char>> {
    if matches_at(s, p, s.len() - p.len()) {
        Some(s.take(s.len() - p.len()))
    } else {
        None
    }
}

pub fn strip_prefix(v: &Vec<char>, p: &Vec<char>) -> (r: Option<Vec<char>>)
    ensures
        r.deep_view() == after_prefix(v@, p@),
{
    if holds_at(v, p, 0) {
        let r = part(v, p.len(), v.len());
        proof {
            assert(r@ =~= v@.skip(p@.len() as int));
            assert(r.deep_view() =~= r@);
        }
        Some(r)
    } else {
        None
    }
}

pub fn strip_suffix(v: &Vec<char>, p: &Vec<char>) -> (r: Option<Vec<char>>)
    ensures
        r.deep_view() == before_suffix(v@, p@),
{
    if p.len() <= v.len() && holds_at(v, p, v.len() - p.len()) {
        let r = part(v, 0, v.len() - p.len());
        proof {
            assert(r@ =~= v@.take(v@.len() - p@.len()));
            assert(r.deep_view() =~= r@);
        }
        Some(r)
    } else {
        None
    }
}

/// True when `s` begins with `p`.
pub open spec fn begins(s: Seq<char>, p: Seq<char>) -> bool {
    matches_at(s, p, 0)
}

/// True when `s` ends with `p`.
pub open spec fn ends(s: Seq<char>, p: Seq<char>) -> bool {
    matches_at(s, p, s.len() - p.len())
}

pub fn starts_with(s: &str, p: &str) -> (r: bool)
    ensures
        r == begins(s@, p@),
{
    holds_at(&chars(s), &chars(p), 0)
}

pub fn ends_with(s: &str, p: &str) -> (r: bool)
    ensures
        r == ends(s@, p@),
{
    let v = chars(s);
    let q = chars(p);
    q.len() <= v.len() && holds_at(&v, &q, v.len() - q.len())
}

// ---------------------------------------------------------------------------
// Trimming
// ---------------------------------------------------------------------------

/// The index of the first character of `s` from `i` on that is no white space.
pub open spec fn skip_space(s: Seq<char>, i: int) -> int
    decreases s.len() - i,
{
    if 0 <= i < s.len() && is_space(s[i]) {
        skip_space(s, i + 1)
    } else {
        i
    }
}

/// The end of `s` up to `j` without the white space in front of `j`.
pub open spec fn skip_space_back(s: Seq<char>, j: int) -> int
    decreases j,
{
    if 0 < j <= s.len() && is_space(s[j - 1]) {
        skip_space_back(s, j - 1)
    } else {
        j
    }
}

/// `s` without the white space at its start.
pub open spec fn trimmed_start(s: Seq<char>) -> Seq<char> {
    s.skip(skip_space(s, 0))
}

/// `s` without the white space at its end.
pub open spec fn trimmed_end(s: Seq<char>) -> Seq<char> {
    s.take(skip_space_back(s, s.len() as int))
}

/// `s` without the white space at either end.
pub open spec fn trimmed(s: Seq<char>) -> Seq<char> {
    trimmed_start(trimmed_end(s))
}

pub proof fn lemma_skip_space(s: Seq<char>, i: int)
    requires
        0 <= i <= s.len(),
    ensures
        i <= skip_space(s, i) <= s.len(),
        skip_space(s, i) < s.len() ==> !is_space(s[skip_space(s, i)]),
        forall|k: int| i <= k < skip_space(s, i) ==> is_space(s[k]),
    decreases s.len() - i,
{
    if i < s.len() && is_space(s[i]) {
        lemma_skip_space(s, i + 1);
    }
}

pub proof fn lemma_skip_space_back(s: Seq<char>, j: int)
    requires
        0 <= j <= s.len(),
    ensures
        0 <= skip_space_back(s, j) <= j,
        skip_space_back(s, j) > 0 ==> !is_space(s[skip_space_back(s, j) - 1]),
        forall|k: int| skip_space_back(s, j) <= k < j ==> is_space(s[k]),
    decreases j,
{
    if j > 0 && is_space(s[j - 1]) {
        lemma_skip_space_back(s, j - 1);
    }
}

pub fn past_space(v: &Vec<char>, i: usize) -> (k: usize)
    requires
        i <= v@.len(),
    ensures
        k == skip_space(v@, i as int),
        i <= k <= v@.len(),
{
    let mut k: usize = i;
    while k < v.len() && char_is_space(v[k])
        invariant
            i <= k <= v.len(),
            skip_space(v@, i as int) == skip_space(v@, k as int),
        decreases v.len() - k,
    {
        k = k + 1;
    }
    k
}

pub fn before_space(v: &Vec<char>, j: usize) -> (k: usize)
    requires
        j <= v@.len(),
    ensures
        k == skip_space_back(v@, j as int),
        k <= j,
{
    let mut k: usize = j;
    while k > 0 && char_is_space(v[k - 1])
        invariant
            k <= j <= v@.len(),
            skip_space_back(v@, j as int) == skip_space_back(v@, k as int),
        decreases k,
    {
        k = k - 1;
    }
    k
}

pub fn trim_start(v: &Vec<char>) -> (r: Vec<char>)
    ensures
        r@ == trimmed_start(v@),
{
    let i: usize = past_space(v, 0);
    let r = part(v, i, v.len());
    assert(r@ =~= v@.skip(i as int));
    r
}

pub fn trim_end(v: &Vec<char>) -> (r: Vec<char>)
    ensures
        r@ == trimmed_end(v@),
{
    let j: usize = before_space(v, v.len());
    let r = part(v, 0, j);
    assert(r@ =~= v@.take(j as int));
    r
}

pub fn trim(v: &Vec<char>) -> (r: Vec<char>)
    ensures
        r@ == trimmed(v@),
{
    trim_start(&trim_end(v))
}

/// A trimmed text is unchanged exactly when neither end is white space.
pub proof fn lemma_trimmed_id(s: Seq<char>)
    ensures
        trimmed(s) == s <==> (s.len() == 0 || (!is_space(s[0]) && !is_space(s.last()))),
{
    let e = trimmed_end(s);
    lemma_skip_space_back(s, s.len() as int);
    lemma_skip_space(e, 0);
    if s.len() == 0 || (!is_space(s[0]) && !is_space(s.last())) {
        assert(e =~= s);
        assert(trimmed_start(e) =~= s);
    } else {
        if is_space(s.last()) {
            assert(e.len() < s.len());
        } else {
            assert(e =~= s);
            assert(trimmed_start(e).len() < s.len());
        }
    }
}

// ---------------------------------------------------------------------------
// Splitting and joining
// ---------------------------------------------------------------------------

/// The pieces of `s` between the separators `c`.
pub open spec fn split(s: Seq<char>, c: char) -> Seq<Seq<char>>
    decreases s.len(),
{
    match last_index(s, c, s.len() as int) {
        Some(i) if 0 <= i < s.len() => split(s.take(i), c).push(s.skip(i + 1)),
        _ => seq![s],
    }
}

/// The pieces, with `sep` between every two.
pub open spec fn joined(pieces: Seq<Seq<char>>, sep: Seq<char>) -> Seq<char>
    decreases pieces.len(),
{
    if pieces.len() == 0 {
        Seq::empty()
    } else if pieces.len() == 1 {
        pieces[0]
    } else {
        joined(pieces.drop_last(), sep) + sep + pieces.last()
    }
}

/// What stands before and after the last `c` of `s`.
pub open spec fn cut_last(s: Seq<char>, c: char) -> Option<(Seq<char>, Seq<char>)> {
    match last_index(s, c, s.len() as int) {
        Some(i) => Some((s.take(i), s.skip(i + 1))),
        None => None,
    }
}

/// What stands before and after the first `c` of `s`.
pub open spec fn cut_first(s: Seq<char>, c: char) -> Option<(Seq<char>, Seq<char>)> {
    match first_index(s, c, 0) {
        Some(i) => Some((s.take(i), s.skip(i + 1))),
        None => None,
    }
}

pub fn rsplit_once(s: &str, c: char) -> (r: Option<(String, String)>)
    ensures
        r.deep_view() == cut_last(s@, c),
{
    let v = chars(s);
    match rfind_char(&v, c, v.len()) {
        Some(i) => {
            let a = substring(&v, 0, i);
            let b = substring(&v, i + 1, v.len());
            assert(a@ =~= s@.take(i as int));
            assert(b@ =~= s@.skip(i + 1));
            Some((a, b))
        },
        None => None,
    }
}

pub fn split_once(s: &str, c: char) -> (r: Option<(String, String)>)
    ensures
        r.deep_view() == cut_first(s@, c),
{
    let v = chars(s);
    let n: usize = v.len();
    match find_char(&v, c, 0) {
        Some(i) => {
            let a = substring(&v, 0, i);
            let b = substring(&v, i + 1, n);
            assert(a@ =~= s@.take(i as int));
            assert(b@ =~= s@.skip(i + 1));
            Some((a, b))
        },
        None => None,
    }
}

/// The last piece runs from behind the last separator, at `st - 1`, to the end.
pub proof fn lemma_split(s: Seq<char>, c: char, st: int)
    requires
        0 <= st <= s.len(),
        forall|i: int| st <= i < s.len() ==> s[i] != c,
        st > 0 ==> s[st - 1] == c,
    ensures
        st == 0 ==> split(s, c) == seq![s],
        st > 0 ==> split(s, c) == split(s.take(st - 1), c).push(s.skip(st)),
{
    lemma_last_index(s, c, s.len() as int);
}

pub fn split_on(s: &str, c: char) -> (r: Vec<String>)
    ensures
        r.deep_view() == split(s@, c),
        r@.len() > 0,
{
    let v = chars(s);
    let mut r: Vec<String> = fresh();
    let mut st: usize = 0;
    let mut k: usize = 0;
    let n: usize = v.len();
    while k < n
        invariant
            v@ == s@,
            st <= k <= n == v@.len(),
            forall|i: int| st <= i < k ==> v@[i] != c,
            st == 0 ==> r.deep_view() == Seq::<Seq<char>>::empty(),
            st > 0 ==> v@[st - 1] == c && r.deep_view() == split(v@.take(st - 1), c),
        decreases n - k,
    {
        if v[k] == c {
            proof {
                lemma_split(v@.take(k as int), c, st as int);
                if st > 0 {
                    assert(v@.take(k as int).take(st - 1) =~= v@.take(st - 1));
                }
            }
            put(&mut r, substring(&v, st, k));
            proof {
                assert(v@.take(k as int).skip(st as int) =~= v@.subrange(st as int, k as int));
                if st == 0 {
                    assert(r.deep_view() =~= seq![v@.take(k as int)]);
                }
            }
            st = k + 1;
        }
        k = k + 1;
    }
    proof {
        lemma_split(v@, c, st as int);
        assert(v@.skip(st as int) =~= v@.subrange(st as int, n as int));
    }
    put(&mut r, substring(&v, st, n));
    proof {
        if st == 0 {
            assert(v@.subrange(0, n as int) =~= v@);
            assert(r.deep_view() =~= seq![v@]);
        }
    }
    r
}

pub fn join(pieces: &Vec<String>, upto: usize, sep: &str) -> (r: String)
    requires
        upto <= pieces@.len(),
    ensures
        r@ == joined(pieces.deep_view().take(upto as int), sep@),
{
    let mut r: String = String::new();
    let mut k: usize = 0;
    while k < upto
        invariant
            k <= upto <= pieces@.len(),
            r@ == joined(pieces.deep_view().take(k as int), sep@),
        decreases upto - k,
    {
        let ghost d = pieces.deep_view();
        assert(d.take(k + 1).drop_last() =~= d.take(k as int));
        if k > 0 {
            r = concat(r.as_str(), sep);
        }
        r = concat(r.as_str(), pieces[k].as_str());
        proof {
            if k == 0 {
                assert(r@ =~= d[0]);
                assert(d.take(1)[0] == d[0]);
            } else {
                assert(d.take(k + 1).last() == d[k as int]);
            }
        }
        k = k + 1;
    }
    r
}

/// `a` followed by `b`.
pub fn concat(a: &str, b: &str) -> (r: String)
    ensures
        r@ == a@ + b@,
{
    let mut r: String = a.to_owned();
    for c in it: b.chars()
        invariant
            r@ == a@ + it.seq().take(it.index()),
    {
        r.push(c);
    }
    r
}

} // verus!
