//! The order of texts, and sets and maps kept in it.
use crate::list::{one, put, put_at};
use crate::model::{key_index, lemma_key_index, value_of};
use crate::text::{chars, same};
use vstd::prelude::*;

verus! {

/// `a` comes before `b`, both from index `i` on: by their first difference.
pub open spec fn before_from(a: Seq<char>, b: Seq<char>, i: int) -> bool
    decreases b.len() - i,
{
    if i < 0 || i >= b.len() {
        false
    } else if i >= a.len() {
        true
    } else if a[i] == b[i] {
        before_from(a, b, i + 1)
    } else {
        a[i] < b[i]
    }
}

/// `a` comes before `b`.
pub open spec fn before(a: Seq<char>, b: Seq<char>) -> bool {
    before_from(a, b, 0)
}

pub fn comes_before(a: &str, b: &str) -> (r: bool)
    ensures
        r == before(a@, b@),
{
    let v = chars(a);
    let w = chars(b);
    let mut i: usize = 0;
    while i < w.len()
        invariant
            i <= w@.len(),
            i <= v@.len(),
            v@ == a@,
            w@ == b@,
            before(a@, b@) == before_from(a@, b@, i as int),
        decreases w@.len() - i,
    {
        if i >= v.len() {
            return true;
        }
        if v[i] != w[i] {
            return v[i] < w[i];
        }
        i = i + 1;
    }
    false
}

proof fn lemma_before_diff(a: Seq<char>, b: Seq<char>, i: int)
    requires
        0 <= i <= a.len(),
    ensures
        before_from(a, b, i) <==> exists|j: int|
            i <= j < b.len() && #[trigger] split_at(a, b, i, j),
    decreases b.len() - i,
{
    if i < b.len() {
        if i >= a.len() {
            assert(split_at(a, b, i, i));
        } else if a[i] == b[i] {
            lemma_before_diff(a, b, i + 1);
            if before_from(a, b, i) {
                let j = choose|j: int| i + 1 <= j < b.len() && #[trigger] split_at(a, b, i + 1, j);
                assert(split_at(a, b, i, j));
            }
            if exists|j: int| i <= j < b.len() && #[trigger] split_at(a, b, i, j) {
                let j = choose|j: int| i <= j < b.len() && #[trigger] split_at(a, b, i, j);
                assert(j != i);
                assert(split_at(a, b, i + 1, j));
            }
        } else {
            if before_from(a, b, i) {
                assert(split_at(a, b, i, i));
            }
            if exists|j: int| i <= j < b.len() && #[trigger] split_at(a, b, i, j) {
                let j = choose|j: int| i <= j < b.len() && #[trigger] split_at(a, b, i, j);
                if j > i {
                    assert(a[i] == b[i]);
                }
            }
        }
    }
}

/// From `i` on the two texts agree up to `j`, where `a` is shorter or smaller.
pub open spec fn split_at(a: Seq<char>, b: Seq<char>, i: int, j: int) -> bool {
    &&& j <= a.len()
    &&& forall|k: int| i <= k < j ==> a[k] == #[trigger] b[k]
    &&& j == a.len() || a[j] < b[j]
}

/// The order is strict.
pub proof fn lemma_before_irreflexive(a: Seq<char>)
    ensures
        !before(a, a),
{
    lemma_before_diff(a, a, 0);
}

/// The order is transitive.
pub proof fn lemma_before_transitive(a: Seq<char>, b: Seq<char>, c: Seq<char>)
    requires
        before(a, b),
        before(b, c),
    ensures
        before(a, c),
{
    lemma_before_diff(a, b, 0);
    lemma_before_diff(b, c, 0);
    lemma_before_diff(a, c, 0);
    let i = choose|j: int| 0 <= j < b.len() && #[trigger] split_at(a, b, 0, j);
    let j = choose|j: int| 0 <= j < c.len() && #[trigger] split_at(b, c, 0, j);
    let m = if i < j {
        i
    } else {
        j
    };
    assert forall|k: int| 0 <= k < m implies a[k] == #[trigger] c[k] by {
        assert(a[k] == b[k]);
        assert(b[k] == c[k]);
    }
    assert(m < c.len());
    if i < j {
        assert(b[i] == c[i]);
    } else if j < i {
        assert(a[j] == b[j]);
    }
    assert(split_at(a, c, 0, m));
}

/// Two texts are in one order or the other, or equal.
pub proof fn lemma_before_total(a: Seq<char>, b: Seq<char>)
    ensures
        before(a, b) || before(b, a) || a == b,
{
    lemma_total_from(a, b, 0);
}

proof fn lemma_total_from(a: Seq<char>, b: Seq<char>, i: int)
    requires
        0 <= i <= a.len(),
        i <= b.len(),
        forall|k: int| 0 <= k < i ==> a[k] == b[k],
    ensures
        before_from(a, b, i) || before_from(b, a, i) || a == b,
    decreases b.len() - i,
{
    if i == a.len() && i == b.len() {
        assert(a =~= b);
    } else if i < a.len() && i < b.len() {
        if a[i] == b[i] {
            lemma_total_from(a, b, i + 1);
        }
    }
}

// ---------------------------------------------------------------------------
// Sets
// ---------------------------------------------------------------------------

/// The sorted `s` with `x` in it.
pub open spec fn set_with(s: Seq<Seq<char>>, x: Seq<char>) -> Seq<Seq<char>>
    decreases s.len(),
{
    if s.len() == 0 || before(s.last(), x) {
        s.push(x)
    } else if s.last() == x {
        s
    } else {
        set_with(s.drop_last(), x).push(s.last())
    }
}

proof fn lemma_set_with(s: Seq<Seq<char>>, x: Seq<char>, j: int)
    requires
        0 <= j <= s.len(),
        forall|i: int| j <= i < s.len() ==> !before(#[trigger] s[i], x) && s[i] != x,
    ensures
        j == 0 || before(s[j - 1], x) ==> set_with(s, x) == s.insert(j, x),
        j > 0 && s[j - 1] == x ==> set_with(s, x) == s,
    decreases s.len(),
{
    if j > 0 && s[j - 1] == x {
        lemma_before_irreflexive(x);
    }
    if j == s.len() {
        assert(s.insert(j, x) =~= s.push(x));
    } else {
        assert(s.last() == s[s.len() - 1]);
        lemma_set_with(s.drop_last(), x, j);
        assert(s.insert(j, x) =~= s.drop_last().insert(j, x).push(s.last()));
        assert(s.drop_last().push(s.last()) =~= s);
    }
}

/// Putting a text into a set keeps the set in order, each text once.
pub proof fn sets_stay_sorted(s: Seq<Seq<char>>, x: Seq<char>)
    requires
        is_sorted_set(s),
    ensures
        is_sorted_set(set_with(s, x)),
        set_with(s, x).contains(x),
        forall|y: Seq<char>| s.contains(y) ==> set_with(s, x).contains(y),
    decreases s.len(),
{
    let r = set_with(s, x);
    if s.len() == 0 || before(s.last(), x) {
        assert forall|i: int, j: int| 0 <= i < j < r.len() implies before(
            #[trigger] r[i],
            #[trigger] r[j],
        ) by {
            if j < s.len() {
                assert(before(s[i], s[j]));
            } else if i < s.len() - 1 {
                assert(before(s[i], s[s.len() - 1]));
                lemma_before_transitive(s[i], s.last(), x);
            }
        }
        assert(r[s.len() as int] == x);
        assert forall|y: Seq<char>| s.contains(y) implies r.contains(y) by {
            let i = choose|i: int| 0 <= i < s.len() && s[i] == y;
            assert(r[i] == y);
        }
    } else if s.last() == x {
        assert(s[s.len() - 1] == x);
    } else {
        let d = s.drop_last();
        let l = s.last();
        lemma_before_total(l, x);
        assert(is_sorted_set(d)) by {
            assert forall|i: int, j: int| 0 <= i < j < d.len() implies before(
                #[trigger] d[i],
                #[trigger] d[j],
            ) by {
                assert(before(s[i], s[j]));
            }
        }
        sets_stay_sorted(d, x);
        let q = set_with(d, x);
        assert forall|y: Seq<char>| q.contains(y) implies before(y, l) by {
            lemma_set_members(d, x, y);
            if y != x {
                let i = choose|i: int| 0 <= i < d.len() && d[i] == y;
                assert(before(s[i], s[s.len() - 1]));
            }
        }
        assert forall|i: int, j: int| 0 <= i < j < r.len() implies before(
            #[trigger] r[i],
            #[trigger] r[j],
        ) by {
            if j < q.len() {
                assert(before(q[i], q[j]));
            } else {
                assert(q.contains(q[i]));
            }
        }
        let k = choose|k: int| 0 <= k < q.len() && q[k] == x;
        assert(r[k] == x);
        assert forall|y: Seq<char>| s.contains(y) implies r.contains(y) by {
            let i = choose|i: int| 0 <= i < s.len() && s[i] == y;
            if i < d.len() {
                assert(d[i] == y);
                assert(d.contains(y));
                assert(q.contains(y));
                let m = choose|m: int| 0 <= m < q.len() && q[m] == y;
                assert(r[m] == y);
            } else {
                assert(r[q.len() as int] == y);
            }
        }
    }
}

/// The texts come in order, each once.
pub open spec fn is_sorted_set(s: Seq<Seq<char>>) -> bool {
    forall|i: int, j: int| 0 <= i < j < s.len() ==> before(#[trigger] s[i], #[trigger] s[j])
}

proof fn lemma_set_members(s: Seq<Seq<char>>, x: Seq<char>, y: Seq<char>)
    requires
        set_with(s, x).contains(y),
    ensures
        s.contains(y) || y == x,
    decreases s.len(),
{
    let r = set_with(s, x);
    let i = choose|i: int| 0 <= i < r.len() && r[i] == y;
    if s.len() == 0 || before(s.last(), x) {
        if i < s.len() {
            assert(s[i] == y);
        }
    } else if s.last() != x {
        let q = set_with(s.drop_last(), x);
        if i < q.len() {
            assert(q[i] == y);
            lemma_set_members(s.drop_last(), x, y);
            if y != x {
                let j = choose|j: int| 0 <= j < s.drop_last().len() && s.drop_last()[j] == y;
                assert(s[j] == y);
            }
        } else {
            assert(s[s.len() - 1] == y);
        }
    }
}

/// Puts `x` into the sorted `v`.
pub fn set_insert(v: &mut Vec<String>, x: &str)
    ensures
        final(v).deep_view() == set_with(old(v).deep_view(), x@),
{
    let ghost s = v.deep_view();
    let mut j: usize = v.len();
    while j > 0 && !comes_before(v[j - 1].as_str(), x) && !same(v[j - 1].as_str(), x)
        invariant
            j <= v@.len(),
            s == v.deep_view(),
            forall|i: int| j <= i < s.len() ==> !before(#[trigger] s[i], x@) && s[i] != x@,
        decreases j,
    {
        assert(s[j - 1] == v@[j - 1]@);
        j = j - 1;
    }
    proof {
        lemma_set_with(s, x@, j as int);
        assert(j > 0 ==> s[j - 1] == v@[j - 1]@);
    }
    if j > 0 && same(v[j - 1].as_str(), x) {
        return;
    }
    put_at(v, j, x.to_owned());
}

// ---------------------------------------------------------------------------
// Maps to lists
// ---------------------------------------------------------------------------

/// The sorted map `m` with `v` at the end of the list of `key`.
pub open spec fn map_with<V>(m: Seq<(Seq<char>, Seq<V>)>, key: Seq<char>, v: V) -> Seq<
    (Seq<char>, Seq<V>),
>
    decreases m.len(),
{
    if m.len() == 0 || before(m.last().0, key) {
        m.push((key, seq![v]))
    } else if m.last().0 == key {
        m.drop_last().push((key, m.last().1.push(v)))
    } else {
        map_with(m.drop_last(), key, v).push(m.last())
    }
}

/// The keys come in order, each once.
pub open spec fn keys_sorted<V>(m: Seq<(Seq<char>, V)>) -> bool {
    forall|i: int, j: int| 0 <= i < j < m.len() ==> before(#[trigger] m[i].0, #[trigger] m[j].0)
}

proof fn lemma_map_with_place<V>(m: Seq<(Seq<char>, Seq<V>)>, key: Seq<char>, v: V, j: int)
    requires
        0 <= j <= m.len(),
        forall|i: int| j <= i < m.len() ==> !before((#[trigger] m[i]).0, key) && m[i].0 != key,
    ensures
        j == 0 || before(m[j - 1].0, key) ==> map_with(m, key, v) == m.insert(j, (key, seq![v])),
        j > 0 && m[j - 1].0 == key ==> map_with(m, key, v) == m.update(
            j - 1,
            (key, m[j - 1].1.push(v)),
        ),
    decreases m.len(),
{
    if j > 0 && m[j - 1].0 == key {
        lemma_before_irreflexive(key);
    }
    if j == m.len() {
        assert(m.insert(j, (key, seq![v])) =~= m.push((key, seq![v])));
        if j > 0 {
            assert(m.drop_last().push((key, m.last().1.push(v))) =~= m.update(
                j - 1,
                (key, m[j - 1].1.push(v)),
            ));
        }
    } else {
        assert(m.last() == m[m.len() - 1]);
        lemma_map_with_place(m.drop_last(), key, v, j);
        assert(m.insert(j, (key, seq![v])) =~= m.drop_last().insert(j, (key, seq![v])).push(
            m.last(),
        ));
        if j > 0 {
            assert(m.update(j - 1, (key, m[j - 1].1.push(v))) =~= m.drop_last().update(
                j - 1,
                (key, m[j - 1].1.push(v)),
            ).push(m.last()));
        }
    }
}

/// Appends `v` to the list of `key` in the sorted map `m`.
pub fn map_push<V: DeepView>(m: &mut Vec<(String, Vec<V>)>, key: &str, v: V)
    ensures
        final(m).deep_view() == map_with(old(m).deep_view(), key@, v.deep_view()),
{
    let ghost s = m.deep_view();
    let mut j: usize = m.len();
    while j > 0 && !comes_before(m[j - 1].0.as_str(), key) && !same(m[j - 1].0.as_str(), key)
        invariant
            j <= m@.len(),
            s == m.deep_view(),
            forall|i: int|
                j <= i < s.len() ==> !before((#[trigger] s[i]).0, key@) && s[i].0 != key@,
        decreases j,
    {
        assert(s[j - 1] == m@[j - 1].deep_view());
        j = j - 1;
    }
    proof {
        lemma_map_with_place(s, key@, v.deep_view(), j as int);
        assert(j > 0 ==> s[j - 1] == m@[j - 1].deep_view());
    }
    if j > 0 && same(m[j - 1].0.as_str(), key) {
        let ghost added = v.deep_view();
        let (name, mut list) = m.remove(j - 1);
        let ghost list0 = list.deep_view();
        put(&mut list, v);
        m.insert(j - 1, (name, list));
        assert(m.deep_view() =~= s.update(j - 1, (key@, s[j - 1].1.push(added))));
    } else {
        put_at(m, j, (key.to_owned(), one(v)));
    }
}

/// Adding to a map keeps its keys in order, adds to the list of its key, and changes no
/// other list.
pub proof fn lemma_map_with<V>(m: Seq<(Seq<char>, Seq<V>)>, key: Seq<char>, v: V)
    requires
        keys_sorted(m),
    ensures
        keys_sorted(map_with(m, key, v)),
        value_of(map_with(m, key, v), key) == Some(
            match value_of(m, key) {
                Some(l) => l.push(v),
                None => seq![v],
            },
        ),
        forall|k: Seq<char>|
            k != key ==> #[trigger] value_of(map_with(m, key, v), k) == value_of(m, k),
        forall|k: Seq<char>|
            #[trigger] has_key(map_with(m, key, v), k) <==> has_key(m, k) || k == key,
{
    let j = place(m, key, m.len() as int);
    lemma_place(m, key, m.len() as int);
    lemma_map_with_place(m, key, v, j);
    let r = map_with(m, key, v);
    if j > 0 && m[j - 1].0 == key {
        assert(r == m.update(j - 1, (key, m[j - 1].1.push(v))));
        assert forall|a: int, b: int| 0 <= a < b < r.len() implies before(
            #[trigger] r[a].0,
            #[trigger] r[b].0,
        ) by {
            assert(r[a].0 == m[a].0 && r[b].0 == m[b].0);
        }
        lemma_value_sorted(m, j - 1);
        lemma_value_sorted(r, j - 1);
    } else {
        assert(r == m.insert(j, (key, seq![v])));
        assert forall|a: int, b: int| 0 <= a < b < r.len() implies before(
            #[trigger] r[a].0,
            #[trigger] r[b].0,
        ) by {
            let a1 = if a < j {
                a
            } else {
                a - 1
            };
            let b1 = if b < j {
                b
            } else {
                b - 1
            };
            if a != j && b != j {
                assert(before(m[a1].0, m[b1].0));
            } else if b == j {
                if a < j - 1 {
                    assert(before(m[a].0, m[j - 1].0));
                    lemma_before_transitive(m[a].0, m[j - 1].0, key);
                }
            } else {
                assert(!before(m[b1].0, key) && m[b1].0 != key);
                lemma_before_total(m[b1].0, key);
            }
        }
        lemma_value_sorted(r, j);
        lemma_key_index(m, key, 0);
        if let Some(i) = key_index(m, key, 0) {
            if i < j {
                if i < j - 1 {
                    assert(before(m[i].0, m[j - 1].0));
                    lemma_before_transitive(key, m[j - 1].0, key);
                }
                lemma_before_irreflexive(key);
            }
        }
    }
    assert forall|k: Seq<char>| k != key implies #[trigger] value_of(r, k) == value_of(m, k) by {
        lemma_key_index(r, k, 0);
        lemma_key_index(m, k, 0);
        match key_index(m, k, 0) {
            Some(i) => {
                let i1 = if j > 0 && m[j - 1].0 == key {
                    i
                } else if i < j {
                    i
                } else {
                    i + 1
                };
                assert(r[i1] == m[i]);
                lemma_value_sorted(r, i1);
                lemma_value_sorted(m, i);
            },
            None => {
                if let Some(i) = key_index(r, k, 0) {
                    let i1 = if j > 0 && m[j - 1].0 == key {
                        i
                    } else if i < j {
                        i
                    } else {
                        i - 1
                    };
                    assert(m[i1].0 == k);
                }
            },
        }
    }
    assert forall|k: Seq<char>| #[trigger] has_key(r, k) <==> has_key(m, k) || k == key by {
        assert(value_of(r, k) is Some <==> has_key(r, k));
        assert(value_of(m, k) is Some <==> has_key(m, k));
        if k != key {
            assert(value_of(r, k) == value_of(m, k));
        }
    }
}

/// The map has a list for the key.
pub open spec fn has_key<V>(m: Seq<(Seq<char>, V)>, key: Seq<char>) -> bool {
    key_index(m, key, 0) is Some
}

/// Where the key belongs among the first `k`: behind every key that does not come after it.
pub open spec fn place<V>(m: Seq<(Seq<char>, V)>, key: Seq<char>, k: int) -> int
    decreases k,
{
    if k <= 0 || k > m.len() || before(m[k - 1].0, key) || m[k - 1].0 == key {
        k
    } else {
        place(m, key, k - 1)
    }
}

proof fn lemma_place<V>(m: Seq<(Seq<char>, V)>, key: Seq<char>, k: int)
    requires
        0 <= k <= m.len(),
    ensures
        0 <= place(m, key, k) <= k,
        place(m, key, k) > 0 ==> before(m[place(m, key, k) - 1].0, key) || m[place(m, key, k)
            - 1].0 == key,
        forall|i: int|
            place(m, key, k) <= i < k ==> !before((#[trigger] m[i]).0, key) && m[i].0 != key,
    decreases k,
{
    if k > 0 && !(before(m[k - 1].0, key) || m[k - 1].0 == key) {
        lemma_place(m, key, k - 1);
    }
}

/// In a sorted map every entry is the one that is found.
pub proof fn lemma_value_sorted<V>(m: Seq<(Seq<char>, V)>, i: int)
    requires
        keys_sorted(m),
        0 <= i < m.len(),
    ensures
        key_index(m, m[i].0, 0) == Some(i),
        value_of(m, m[i].0) == Some(m[i].1),
{
    lemma_key_index(m, m[i].0, 0);
    if let Some(k) = key_index(m, m[i].0, 0) {
        if k < i {
            assert(before(m[k].0, m[i].0));
            lemma_before_irreflexive(m[i].0);
        }
    }
}

} // verus!
