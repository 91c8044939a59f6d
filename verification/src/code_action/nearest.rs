//! The member of an enumeration that a misspelled one most likely stands for.
use crate::model::{same_fold, same_fold_chars};
use crate::text::{char_lower, chars, lowered, string};
use vstd::prelude::*;

verus! {

pub open spec fn least(a: nat, b: nat) -> nat {
    if a < b {
        a
    } else {
        b
    }
}

/// The number of characters to insert, delete or replace to turn the first `i` characters
/// of `a` into the first `j` of `b`.
pub open spec fn distance_upto(a: Seq<char>, b: Seq<char>, i: nat, j: nat) -> nat
    decreases i + j,
{
    if i == 0 {
        j
    } else if j == 0 {
        i
    } else {
        let replace = distance_upto(a, b, (i - 1) as nat, (j - 1) as nat) + if a[i - 1] == b[j - 1] {
            0nat
        } else {
            1nat
        };
        least(
            least(replace, distance_upto(a, b, (i - 1) as nat, j) + 1),
            distance_upto(a, b, i, (j - 1) as nat) + 1,
        )
    }
}

/// The number of characters to insert, delete or replace to turn `a` into `b`.
pub open spec fn distance(a: Seq<char>, b: Seq<char>) -> nat {
    distance_upto(a, b, a.len(), b.len())
}

proof fn lemma_distance_bound(a: Seq<char>, b: Seq<char>, i: nat, j: nat)
    ensures
        distance_upto(a, b, i, j) <= if i < j {
            j
        } else {
            i
        },
    decreases i + j,
{
    if i > 0 && j > 0 {
        lemma_distance_bound(a, b, (i - 1) as nat, (j - 1) as nat);
    }
}

fn min_of(a: usize, b: usize) -> (r: usize)
    ensures
        r == least(a as nat, b as nat),
{
    if a < b {
        a
    } else {
        b
    }
}

/// The number of characters to insert, delete or replace to turn `a` into `b`.
pub fn edit_distance(a: &str, b: &str) -> (d: usize)
    ensures
        d == distance(a@, b@),
{
    let a = chars(a);
    let b = chars(b);
    let n: usize = b.len();
    let mut prev: Vec<usize> = Vec::new();
    prev.push(0);
    let mut j: usize = 0;
    while j < n
        invariant
            j <= n == b@.len(),
            prev@.len() == j + 1,
            forall|k: int| 0 <= k <= j ==> #[trigger] prev@[k] == distance_upto(a@, b@, 0, k as nat),
        decreases n - j,
    {
        j = j + 1;
        prev.push(j);
    }
    let mut i: usize = 0;
    while i < a.len()
        invariant
            i <= a@.len(),
            n == b@.len(),
            prev@.len() == n + 1,
            forall|k: int|
                0 <= k <= n ==> #[trigger] prev@[k] == distance_upto(a@, b@, i as nat, k as nat),
        decreases a@.len() - i,
    {
        let mut cur: Vec<usize> = Vec::new();
        cur.push(i + 1);
        let mut j: usize = 0;
        while j < n
            invariant
                i < a@.len(),
                a@.len() <= usize::MAX,
                j <= n == b@.len(),
                prev@.len() == n + 1,
                cur@.len() == j + 1,
                forall|k: int|
                    0 <= k <= n ==> #[trigger] prev@[k] == distance_upto(a@, b@, i as nat, k as nat),
                forall|k: int|
                    0 <= k <= j ==> #[trigger] cur@[k] == distance_upto(
                        a@,
                        b@,
                        (i + 1) as nat,
                        k as nat,
                    ),
            decreases n - j,
        {
            proof {
                lemma_distance_bound(a@, b@, i as nat, j as nat);
                lemma_distance_bound(a@, b@, (i + 1) as nat, j as nat);
                assert(prev@[j as int] == distance_upto(a@, b@, i as nat, j as nat));
                assert(prev@[j + 1] == distance_upto(a@, b@, i as nat, (j + 1) as nat));
                assert(cur@[j as int] == distance_upto(a@, b@, (i + 1) as nat, j as nat));
            }
            let cost: usize = if a[i] == b[j] {
                0
            } else {
                1
            };
            let replace: usize = prev[j] + cost;
            let delete: usize = if prev[j + 1] < usize::MAX {
                prev[j + 1] + 1
            } else {
                usize::MAX
            };
            let insert: usize = if cur[j] < usize::MAX {
                cur[j] + 1
            } else {
                usize::MAX
            };
            cur.push(min_of(min_of(replace, delete), insert));
            j = j + 1;
        }
        prev = cur;
        i = i + 1;
    }
    prev[n]
}

/// The first member, from index `i` on, of that name in any case.
pub open spec fn folded_member(ms: Seq<(Seq<char>, i64)>, typo: Seq<char>, i: int) -> Option<
    Seq<char>,
>
    decreases ms.len() - i,
{
    if i < 0 || i >= ms.len() {
        None
    } else if same_fold(ms[i].0, typo) {
        Some(ms[i].0)
    } else {
        folded_member(ms, typo, i + 1)
    }
}

/// The first of the closest among the first `k` members.
pub open spec fn closest_upto(ms: Seq<(Seq<char>, i64)>, typo: Seq<char>, k: int) -> Option<
    (Seq<char>, nat),
>
    decreases k,
{
    if k <= 0 {
        None
    } else {
        let d = distance(lowered(typo), lowered(ms[k - 1].0));
        match closest_upto(ms, typo, k - 1) {
            Some(best) if best.1 <= d => Some(best),
            _ => Some((ms[k - 1].0, d)),
        }
    }
}

/// How far a name may be from what it is mistaken for.
pub open spec fn tolerance(name: Seq<char>) -> nat {
    if name.len() / 3 > 1 {
        name.len() / 3
    } else {
        1
    }
}

/// The member that `typo` most likely stands for: the one that differs in case alone, or
/// else the closest, if it is close enough.
pub open spec fn nearest(ms: Seq<(Seq<char>, i64)>, typo: Seq<char>) -> Option<Seq<char>> {
    match folded_member(ms, typo, 0) {
        Some(name) => Some(name),
        None => match closest_upto(ms, typo, ms.len() as int) {
            Some((name, d)) => if d <= tolerance(name) {
                Some(name)
            } else {
                None
            },
            None => None,
        },
    }
}

fn lower_chars(v: &Vec<char>) -> (r: Vec<char>)
    ensures
        r@ == lowered(v@),
{
    let mut r: Vec<char> = Vec::new();
    let mut k: usize = 0;
    while k < v.len()
        invariant
            k <= v@.len(),
            r@ =~= lowered(v@).take(k as int),
        decreases v@.len() - k,
    {
        r.push(char_lower(v[k]));
        k = k + 1;
    }
    assert(lowered(v@).take(k as int) =~= lowered(v@));
    r
}

/// The member that `typo` most likely stands for.
pub fn nearest_enum_member(typo: &str, members: &Vec<(String, i64)>) -> (r: Option<String>)
    ensures
        r.deep_view() == nearest(members.deep_view(), typo@),
{
    let ghost ms = members.deep_view();
    let wanted = chars(typo);
    let low = string(&lower_chars(&wanted));
    let mut i: usize = 0;
    while i < members.len()
        invariant
            i <= members@.len(),
            ms == members.deep_view(),
            wanted@ == typo@,
            folded_member(ms, typo@, 0) == folded_member(ms, typo@, i as int),
        decreases members@.len() - i,
    {
        assert(ms[i as int] == members@[i as int].deep_view());
        if same_fold_chars(&chars(members[i].0.as_str()), &wanted) {
            return Some(members[i].0.clone());
        }
        i = i + 1;
    }
    let mut best: Option<(usize, usize)> = None;
    let mut k: usize = 0;
    while k < members.len()
        invariant
            k <= members@.len(),
            ms == members.deep_view(),
            low@ == lowered(typo@),
            match best {
                Some((i, d)) => i < members@.len() && closest_upto(ms, typo@, k as int) == Some(
                    (ms[i as int].0, d as nat),
                ),
                None => closest_upto(ms, typo@, k as int) is None,
            },
        decreases members@.len() - k,
    {
        assert(ms[k as int] == members@[k as int].deep_view());
        let d: usize = edit_distance(
            low.as_str(),
            string(&lower_chars(&chars(members[k].0.as_str()))).as_str(),
        );
        let closer = match best {
            Some((_, least)) => d < least,
            None => true,
        };
        if closer {
            best = Some((k, d));
        }
        k = k + 1;
    }
    match best {
        Some((i, d)) => {
            assert(ms[i as int] == members@[i as int].deep_view());
            let third: usize = chars(members[i].0.as_str()).len() / 3;
            let limit: usize = if third > 1 {
                third
            } else {
                1
            };
            if d <= limit {
                Some(members[i].0.clone())
            } else {
                None
            }
        },
        None => None,
    }
}

// ---------------------------------------------------------------------------
// Laws
// ---------------------------------------------------------------------------

proof fn lemma_symmetric(a: Seq<char>, b: Seq<char>, i: nat, j: nat)
    ensures
        distance_upto(a, b, i, j) == distance_upto(b, a, j, i),
    decreases i + j,
{
    if i > 0 && j > 0 {
        lemma_symmetric(a, b, (i - 1) as nat, (j - 1) as nat);
        lemma_symmetric(a, b, (i - 1) as nat, j);
        lemma_symmetric(a, b, i, (j - 1) as nat);
    }
}

/// The distance is the same both ways.
pub proof fn distance_is_symmetric(a: Seq<char>, b: Seq<char>)
    ensures
        distance(a, b) == distance(b, a),
{
    lemma_symmetric(a, b, a.len(), b.len());
}

/// The distance is zero between equal texts, and between no others.
pub proof fn distance_is_zero_iff_equal(a: Seq<char>, b: Seq<char>)
    ensures
        distance(a, b) == 0 <==> a == b,
{
    lemma_zero(a, b, a.len(), b.len());
    if distance(a, b) == 0 {
        assert(a =~= b) by {
            assert(a.take(a.len() as int) =~= a);
            assert(b.take(b.len() as int) =~= b);
        }
    }
}

proof fn lemma_zero(a: Seq<char>, b: Seq<char>, i: nat, j: nat)
    requires
        i <= a.len(),
        j <= b.len(),
    ensures
        distance_upto(a, b, i, j) == 0 <==> a.take(i as int) == b.take(j as int),
    decreases i + j,
{
    let p = a.take(i as int);
    let q = b.take(j as int);
    if i == 0 || j == 0 {
        if i == 0 && j == 0 {
            assert(p =~= q);
        } else {
            assert(p.len() != q.len());
        }
    } else {
        lemma_zero(a, b, (i - 1) as nat, (j - 1) as nat);
        let p1 = a.take(i - 1);
        let q1 = b.take(j - 1);
        assert(p =~= p1.push(a[i - 1]));
        assert(q =~= q1.push(b[j - 1]));
        if p == q {
            assert(p.drop_last() =~= p1);
            assert(q.drop_last() =~= q1);
            assert(p.last() == q.last());
        }
    }
}

proof fn lemma_distance_least(a: Seq<char>, b: Seq<char>, i: nat, j: nat)
    ensures
        i <= j + distance_upto(a, b, i, j),
        j <= i + distance_upto(a, b, i, j),
    decreases i + j,
{
    if i > 0 && j > 0 {
        lemma_distance_least(a, b, (i - 1) as nat, (j - 1) as nat);
        lemma_distance_least(a, b, (i - 1) as nat, j);
        lemma_distance_least(a, b, i, (j - 1) as nat);
    }
}

/// No distance is greater than the length of the longer text, nor less than the difference
/// of the lengths.
pub proof fn distance_is_bounded(a: Seq<char>, b: Seq<char>)
    ensures
        distance(a, b) <= if a.len() < b.len() {
            b.len()
        } else {
            a.len()
        },
        a.len() <= b.len() + distance(a, b),
        b.len() <= a.len() + distance(a, b),
{
    lemma_distance_bound(a, b, a.len(), b.len());
    lemma_distance_least(a, b, a.len(), b.len());
}

proof fn lemma_triangle(a: Seq<char>, b: Seq<char>, c: Seq<char>, i: nat, j: nat, k: nat)
    ensures
        distance_upto(a, c, i, k) <= distance_upto(a, b, i, j) + distance_upto(b, c, j, k),
    decreases i + j + k,
{
    lemma_distance_least(a, b, i, j);
    lemma_distance_least(b, c, j, k);
    lemma_distance_bound(a, c, i, k);
    if i > 0 && j > 0 && k > 0 {
        let i1 = (i - 1) as nat;
        let j1 = (j - 1) as nat;
        let k1 = (k - 1) as nat;
        lemma_triangle(a, b, c, i1, j, k);
        lemma_triangle(a, b, c, i, j, k1);
        lemma_triangle(a, b, c, i, j1, k1);
        lemma_triangle(a, b, c, i, j1, k);
        lemma_triangle(a, b, c, i1, j1, k);
        lemma_triangle(a, b, c, i1, j1, k1);
    }
}

/// No way round is shorter.
pub proof fn distance_keeps_the_triangle(a: Seq<char>, b: Seq<char>, c: Seq<char>)
    ensures
        distance(a, c) <= distance(a, b) + distance(b, c),
{
    lemma_triangle(a, b, c, a.len(), b.len(), c.len());
}

/// `b` is `a` without the character at index `p`.
pub open spec fn deletes(a: Seq<char>, b: Seq<char>, p: int) -> bool {
    0 <= p < a.len() && b == a.take(p) + a.skip(p + 1)
}

/// `b` is `a` but for the character at index `p`.
pub open spec fn replaces(a: Seq<char>, b: Seq<char>, p: int) -> bool {
    0 <= p < a.len() == b.len() && a.take(p) == b.take(p) && a.skip(p + 1) == b.skip(p + 1)
}

/// The character at index `p` deleted, inserted or replaced turns `a` into `b`.
pub open spec fn edits_at(a: Seq<char>, b: Seq<char>, p: int) -> bool {
    deletes(a, b, p) || deletes(b, a, p) || replaces(a, b, p)
}

/// One character deleted, inserted or replaced turns `a` into `b`.
pub open spec fn one_edit(a: Seq<char>, b: Seq<char>) -> bool {
    exists|p: int| edits_at(a, b, p)
}

/// `n` characters deleted, inserted or replaced, one after the other, turn `a` into `b`.
pub open spec fn edits_lead(a: Seq<char>, b: Seq<char>, n: nat) -> bool
    decreases n,
{
    if n == 0 {
        a == b
    } else {
        exists|c: Seq<char>| #[trigger] one_edit(a, c) && edits_lead(c, b, (n - 1) as nat)
    }
}

/// A common end adds nothing.
proof fn lemma_common_end(a: Seq<char>, b: Seq<char>, i: nat, j: nat, n: nat)
    requires
        forall|m: int| i <= m < i + n ==> #[trigger] a[m] == b[m - i + j],
    ensures
        distance_upto(a, b, i + n, j + n) <= distance_upto(a, b, i, j),
    decreases n,
{
    if n > 0 {
        lemma_common_end(a, b, i, j, (n - 1) as nat);
        assert(a[i + n - 1] == b[j + n - 1]);
    }
}

proof fn lemma_deletion(a: Seq<char>, b: Seq<char>, p: int)
    requires
        deletes(a, b, p),
    ensures
        distance(a, b) <= 1,
{
    assert(a.take(p) =~= b.take(p));
    lemma_zero(a, b, p as nat, p as nat);
    let n = (a.len() - p - 1) as nat;
    assert(distance_upto(a, b, (p + 1) as nat, p as nat) <= 1);
    assert forall|m: int| p + 1 <= m < a.len() implies #[trigger] a[m] == b[m - 1] by {
        assert(b[m - 1] == a.skip(p + 1)[m - p - 1]);
    }
    lemma_common_end(a, b, (p + 1) as nat, p as nat, n);
}

proof fn lemma_replacement(a: Seq<char>, b: Seq<char>, p: int)
    requires
        replaces(a, b, p),
    ensures
        distance(a, b) <= 1,
{
    lemma_zero(a, b, p as nat, p as nat);
    let n = (a.len() - p - 1) as nat;
    assert forall|m: int| p + 1 <= m < a.len() implies #[trigger] a[m] == b[m] by {
        assert(a.skip(p + 1)[m - p - 1] == b.skip(p + 1)[m - p - 1]);
    }
    lemma_common_end(a, b, (p + 1) as nat, (p + 1) as nat, n);
}

proof fn lemma_one_edit(a: Seq<char>, b: Seq<char>)
    requires
        one_edit(a, b),
    ensures
        distance(a, b) <= 1,
{
    let p = choose|p: int| edits_at(a, b, p);
    if deletes(a, b, p) {
        lemma_deletion(a, b, p);
    } else if deletes(b, a, p) {
        lemma_deletion(b, a, p);
        distance_is_symmetric(a, b);
    } else {
        lemma_replacement(a, b, p);
    }
}

/// The same edits in front of one more character.
proof fn lemma_edits_push(a: Seq<char>, b: Seq<char>, n: nat, x: char)
    requires
        edits_lead(a, b, n),
    ensures
        edits_lead(a.push(x), b.push(x), n),
    decreases n,
{
    if n > 0 {
        let c = choose|c: Seq<char>| #[trigger] one_edit(a, c) && edits_lead(c, b, (n - 1) as nat);
        lemma_edits_push(c, b, (n - 1) as nat, x);
        let p = choose|p: int| edits_at(a, c, p);
        let u = a.push(x);
        let v = c.push(x);
        if deletes(a, c, p) {
            assert(v =~= u.take(p) + u.skip(p + 1));
            assert(edits_at(u, v, p));
        } else if deletes(c, a, p) {
            assert(u =~= v.take(p) + v.skip(p + 1));
            assert(deletes(v, u, p));
            assert(edits_at(u, v, p));
        } else {
            assert(u.take(p) =~= a.take(p));
            assert(v.take(p) =~= c.take(p));
            assert(u.skip(p + 1) =~= a.skip(p + 1).push(x));
            assert(v.skip(p + 1) =~= c.skip(p + 1).push(x));
            assert(replaces(u, v, p));
            assert(edits_at(u, v, p));
        }
        assert(one_edit(u, v));
    }
}

/// One more edit behind the others.
proof fn lemma_edits_more(a: Seq<char>, b: Seq<char>, c: Seq<char>, n: nat)
    requires
        edits_lead(a, b, n),
        one_edit(b, c),
    ensures
        edits_lead(a, c, n + 1),
    decreases n,
{
    if n == 0 {
        assert(edits_lead(c, c, 0));
    } else {
        let d = choose|d: Seq<char>| #[trigger] one_edit(a, d) && edits_lead(d, b, (n - 1) as nat);
        lemma_edits_more(d, b, c, (n - 1) as nat);
    }
}

proof fn lemma_edits_reach(a: Seq<char>, b: Seq<char>, i: nat, j: nat)
    requires
        i <= a.len(),
        j <= b.len(),
    ensures
        edits_lead(a.take(i as int), b.take(j as int), distance_upto(a, b, i, j)),
    decreases i + j,
{
    let u = a.take(i as int);
    let v = b.take(j as int);
    let d = distance_upto(a, b, i, j);
    if i == 0 && j == 0 {
        assert(u =~= v);
    } else {
        let del = i > 0 && d == distance_upto(a, b, (i - 1) as nat, j) + 1;
        let ins = j > 0 && d == distance_upto(a, b, i, (j - 1) as nat) + 1;
        if del {
            let w = a.take(i - 1);
            lemma_edits_reach(a, b, (i - 1) as nat, j);
            assert(w =~= u.take(i - 1) + u.skip(i as int));
            assert(edits_at(u, w, i - 1));
            assert(one_edit(u, w));
        } else if ins {
            let w = b.take(j - 1);
            lemma_edits_reach(a, b, i, (j - 1) as nat);
            assert(w =~= v.take(j - 1) + v.skip(j as int));
            assert(deletes(v, w, j - 1));
            assert(edits_at(w, v, j - 1));
            assert(one_edit(w, v));
            lemma_edits_more(u, w, v, (d - 1) as nat);
        } else {
            let i1 = (i - 1) as nat;
            let j1 = (j - 1) as nat;
            let x = a[i - 1];
            let u1 = a.take(i - 1);
            let v1 = b.take(j - 1);
            lemma_edits_reach(a, b, i1, j1);
            lemma_edits_push(u1, v1, distance_upto(a, b, i1, j1), x);
            assert(u =~= u1.push(x));
            assert(v =~= v1.push(b[j - 1]));
            if x != b[j - 1] {
                let w = v1.push(x);
                assert(w.take(j - 1) =~= v.take(j - 1));
                assert(w.skip(j as int) =~= v.skip(j as int));
                assert(replaces(w, v, j - 1));
                assert(edits_at(w, v, j - 1));
                assert(one_edit(w, v));
                lemma_edits_more(u, w, v, (d - 1) as nat);
            }
        }
    }
}

/// The distance is the least number of characters to delete, insert or replace, one after the
/// other, to turn one text into the other: that many do, and no fewer.
pub proof fn distance_is_the_fewest_edits(a: Seq<char>, b: Seq<char>, n: nat)
    ensures
        edits_lead(a, b, distance(a, b)),
        edits_lead(a, b, n) ==> distance(a, b) <= n,
    decreases n,
{
    lemma_edits_reach(a, b, a.len(), b.len());
    assert(a.take(a.len() as int) =~= a);
    assert(b.take(b.len() as int) =~= b);
    if edits_lead(a, b, n) {
        if n == 0 {
            distance_is_zero_iff_equal(a, b);
        } else {
            let c = choose|c: Seq<char>| #[trigger] one_edit(a, c) && edits_lead(c, b, (n - 1) as nat);
            distance_is_the_fewest_edits(c, b, (n - 1) as nat);
            lemma_one_edit(a, c);
            distance_keeps_the_triangle(a, c, b);
        }
    }
}

} // verus!
