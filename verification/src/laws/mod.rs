//! What the features are for, stated of their results.
pub mod actions;
pub mod calls;
pub mod completion;
pub mod files;
pub mod format;
pub mod hover;
pub mod inlay;
pub mod lens;
pub mod locate;
pub mod model;
pub mod navigation;
pub mod outline;
pub mod positions;
pub mod refactor;
pub mod rename;
pub mod text;
pub mod tokens;

use crate::search::{begins, first_match, has, joined, lemma_first_match};
use crate::text::matches_at;
use vstd::prelude::*;
use vstd::string::*;

verus! {

/// A list with one more holds that one, and what it held before.
pub proof fn lemma_pushed_holds<T>(s: Seq<T>, y: T, x: T)
    ensures
        s.push(y).contains(x) <==> s.contains(x) || x == y,
{
    let all = s.push(y);
    assert(all[s.len() as int] == y);
    if s.contains(x) {
        let j = choose|j: int| 0 <= j < s.len() && s[j] == x;
        assert(all[j] == x);
    }
    if all.contains(x) {
        let j = choose|j: int| 0 <= j < all.len() && all[j] == x;
        if j < s.len() {
            assert(s[j] == x);
        }
    }
}

/// Two lists in a row hold what either holds.
pub proof fn lemma_either_holds<T>(a: Seq<T>, b: Seq<T>, x: T)
    ensures
        (a + b).contains(x) <==> a.contains(x) || b.contains(x),
{
    let s = a + b;
    if a.contains(x) {
        let j = choose|j: int| 0 <= j < a.len() && a[j] == x;
        assert(s[j] == x);
    }
    if b.contains(x) {
        let j = choose|j: int| 0 <= j < b.len() && b[j] == x;
        assert(s[a.len() + j] == x);
    }
    if s.contains(x) {
        let j = choose|j: int| 0 <= j < s.len() && s[j] == x;
        if j < a.len() {
            assert(a[j] == x);
        } else {
            assert(b[j - a.len()] == x);
        }
    }
}

/// The first `k` of a list are the first `k - 1` and one more.
pub proof fn lemma_taken_holds<T>(s: Seq<T>, k: int, x: T)
    requires
        0 < k <= s.len(),
    ensures
        s.take(k).contains(x) <==> s.take(k - 1).contains(x) || x == s[k - 1],
{
    assert(s.take(k) =~= s.take(k - 1).push(s[k - 1]));
    lemma_pushed_holds(s.take(k - 1), s[k - 1], x);
}

/// A text that stands somewhere is held.
pub proof fn lemma_holds(s: Seq<char>, p: Seq<char>, i: int)
    requires
        matches_at(s, p, i),
    ensures
        has(s, p),
{
    lemma_first_match(s, p, 0);
}

/// What a text holds, a longer one holds too.
pub proof fn lemma_holds_front(s: Seq<char>, t: Seq<char>, p: Seq<char>)
    requires
        has(s, p),
    ensures
        has(s + t, p),
{
    lemma_first_match(s, p, 0);
    let i = first_match(s, p, 0).unwrap();
    assert((s + t).subrange(i, i + p.len()) =~= s.subrange(i, i + p.len()));
    lemma_holds(s + t, p, i);
}

/// A text that was put behind another is held.
pub proof fn lemma_holds_back(s: Seq<char>, p: Seq<char>)
    ensures
        has(s + p, p),
{
    assert((s + p).subrange(s.len() as int, s.len() as int + p.len()) =~= p);
    lemma_holds(s + p, p, s.len() as int);
}

/// What a text holds, one that ends in it holds too.
pub proof fn lemma_holds_behind(s: Seq<char>, t: Seq<char>, p: Seq<char>)
    requires
        has(t, p),
    ensures
        has(s + t, p),
{
    lemma_first_match(t, p, 0);
    let i = first_match(t, p, 0).unwrap();
    let j = s.len() as int + i;
    assert((s + t).subrange(j, j + p.len()) =~= t.subrange(i, i + p.len()));
    lemma_holds(s + t, p, j);
}

/// A text that was put between two others is held.
pub proof fn lemma_holds_between(s: Seq<char>, p: Seq<char>, t: Seq<char>)
    ensures
        has(s + p + t, p),
{
    lemma_holds_back(s, p);
    lemma_holds_front(s + p, t, p);
}

/// Each of the pieces is held by what they are joined to.
pub proof fn lemma_joined_holds(pieces: Seq<Seq<char>>, sep: Seq<char>, i: int)
    requires
        0 <= i < pieces.len(),
    ensures
        has(joined(pieces, sep), pieces[i]),
    decreases pieces.len(),
{
    if pieces.len() == 1 {
        assert(Seq::<char>::empty() + pieces[0] =~= pieces[0]);
        lemma_holds_back(Seq::empty(), pieces[0]);
    } else {
        let front = joined(pieces.drop_last(), sep) + sep;
        if i == pieces.len() - 1 {
            lemma_holds_back(front, pieces.last());
        } else {
            lemma_joined_holds(pieces.drop_last(), sep, i);
            lemma_holds_front(joined(pieces.drop_last(), sep), sep, pieces[i]);
            lemma_holds_front(front, pieces.last(), pieces[i]);
        }
    }
}

/// What stands in front of a longer text.
pub proof fn lemma_begins(s: Seq<char>, t: Seq<char>)
    ensures
        begins(s + t, s),
{
    assert((s + t).subrange(0, s.len() as int) =~= s);
}

} // verus!
