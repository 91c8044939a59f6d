//! Which node a place stands for, and which paths and locals a script has.
use crate::laws::lemma_pushed_holds;
use crate::locate::{
    bind, covers, decl_type, declared_name, deepest, first_covering, in_annotation, is_path_kind,
    is_top_path, is_written, locals_upto, node_at, outermost, path_node, top_paths_upto, touched,
};
use crate::model::{key_index, lemma_key_index, value_of, ValueType};
use crate::syntax::{Field, Kind, Tree};
use vstd::prelude::*;

verus! {

/// A path is listed exactly when it is an outermost one that names a value, with whether it
/// is the target of an assignment or the name in a declaration.
pub proof fn paths_are_listed_exactly(t: Tree, k: int, n: usize, written: bool)
    requires
        0 <= k <= t.size() <= usize::MAX,
    ensures
        top_paths_upto(t, k).contains((n, written)) <==> n < k && (t.kind(n) == Kind::Identifier
            || t.kind(n) == Kind::MemberExpression) && t.parent_kind(n) != Some(
            Kind::MemberExpression,
        ) && !in_annotation(t, n) && written == is_written(t, n),
    decreases k,
{
    let all = top_paths_upto(t, k);
    if k > 0 {
        paths_are_listed_exactly(t, k - 1, n, written);
        let rest = top_paths_upto(t, k - 1);
        let x = (n, written);
        if rest.contains(x) {
            let j = choose|j: int| 0 <= j < rest.len() && rest[j] == x;
            assert(all[j] == x);
        }
        if is_top_path(t, (k - 1) as usize) {
            assert(all[rest.len() as int] == ((k - 1) as usize, is_written(t, (k - 1) as usize)));
        }
        if all.contains(x) {
            let j = choose|j: int| 0 <= j < all.len() && all[j] == x;
            if j < rest.len() {
                assert(rest[j] == x);
            }
        }
    } else {
        assert(all =~= Seq::empty());
    }
}

/// A path is written where it covers the target of the assignment that is its parent, or the
/// name in the declaration that is; anywhere else it is read.
pub proof fn writes_are_targets_and_names(t: Tree, n: usize, p: usize)
    requires
        t.parent(n) == Some(p),
    ensures
        t.kind(p) == Kind::AssignmentStatement ==> (is_written(t, n) <==> match t.child_by_field(
            p,
            Field::Target,
        ) {
            Some(c) => t.start(c) == t.start(n) && t.end(c) == t.end(n),
            None => false,
        }),
        t.kind(p) == Kind::LocalDeclaration ==> (is_written(t, n) <==> match t.child_by_field(
            p,
            Field::Name,
        ) {
            Some(c) => t.start(c) == t.start(n) && t.end(c) == t.end(n),
            None => false,
        }),
        t.kind(p) != Kind::AssignmentStatement && t.kind(p) != Kind::LocalDeclaration
            ==> !is_written(t, n),
{
}

proof fn lemma_first_covering(t: Tree, ks: Seq<usize>, b: int, i: int)
    requires
        0 <= i <= ks.len(),
    ensures
        match first_covering(t, ks, b, i) {
            Some(c) => ks.contains(c) && covers(t, c, b),
            None => forall|j: int| i <= j < ks.len() ==> !covers(t, #[trigger] ks[j], b),
        },
    decreases ks.len() - i,
{
    if i < ks.len() && !covers(t, ks[i], b) {
        lemma_first_covering(t, ks, b, i + 1);
    }
}

proof fn lemma_deepest(t: Tree, n: usize, b: int)
    requires
        forall|m: usize, c: usize| #[trigger] t.kids(m).contains(c) ==> m < c && t.has(c),
    ensures
        ({
            let d = deepest(t, n, b);
            &&& d == n || covers(t, d, b)
            &&& forall|j: int| 0 <= j < t.kids(d).len() ==> !covers(t, #[trigger] t.kids(d)[j], b)
        }),
    decreases t.size() - n,
{
    lemma_first_covering(t, t.kids(n), b, 0);
    if let Some(c) = first_covering(t, t.kids(n), b, 0) {
        assert(t.kids(n).contains(c));
        lemma_deepest(t, c, b);
    }
}

proof fn lemma_kids_exact(t: Tree, n: usize, k: int, c: usize)
    requires
        0 <= k <= t.size() <= usize::MAX,
    ensures
        t.kids_upto(n, k).contains(c) <==> c < k && t.parent(c) == Some(n),
    decreases k,
{
    if k > 0 {
        lemma_kids_exact(t, n, k - 1, c);
        lemma_pushed_holds(t.kids_upto(n, k - 1), (k - 1) as usize, c);
    } else {
        assert(t.kids_upto(n, k) =~= Seq::empty());
    }
}

/// A place in the script stands for the innermost node there: it covers the place, unless it is
/// the root, and none of its children does.
pub proof fn places_stand_for_the_innermost_node(t: Tree, b: int, n: usize)
    requires
        t.size() <= usize::MAX,
        forall|c: usize|
            c < t.size() && (#[trigger] t.parent(c)) is Some ==> t.parent(c).unwrap() < c,
        node_at(t, b) == Some(n),
    ensures
        n == 0 || t.start(n) <= b < t.end(n) || t.start(n) == b == t.end(n),
        forall|c: usize|
            c < t.size() && #[trigger] t.parent(c) == Some(n) ==> !(t.start(c) <= b < t.end(c)),
{
    assert forall|m: usize, c: usize| #[trigger] t.kids(m).contains(c) implies m < c && t.has(c) by {
        lemma_kids_exact(t, m, t.size() as int, c);
    }
    lemma_deepest(t, 0, b);
    assert forall|c: usize| c < t.size() && #[trigger] t.parent(c) == Some(n) implies !(t.start(c) <= b
        < t.end(c)) by {
        lemma_kids_exact(t, n, t.size() as int, c);
        let j = choose|j: int| 0 <= j < t.kids(n).len() && t.kids(n)[j] == c;
        assert(!covers(t, t.kids(n)[j], b));
    }
}

proof fn lemma_outermost(t: Tree, n: usize)
    requires
        forall|c: usize| (#[trigger] t.parent(c)) is Some ==> t.parent(c).unwrap() < c,
        is_path_kind(t.kind(n)),
    ensures
        is_path_kind(t.kind(outermost(t, n))),
        t.parent_kind(outermost(t, n)) != Some(Kind::MemberExpression),
    decreases n,
{
    if let Some(p) = t.parent(n) {
        if t.kind(p) == Kind::MemberExpression {
            lemma_outermost(t, p);
        }
    }
}

/// The path at a place is the whole of it: an identifier or a member expression that is part of
/// no larger one.
pub proof fn paths_at_places_are_whole(t: Tree, b: int, n: usize)
    requires
        forall|c: usize| (#[trigger] t.parent(c)) is Some ==> t.parent(c).unwrap() < c,
        path_node(t, b) == Some(n),
    ensures
        t.kind(n) == Kind::Identifier || t.kind(n) == Kind::MemberExpression,
        t.parent_kind(n) != Some(Kind::MemberExpression),
{
    lemma_outermost(t, node_at(t, b).unwrap());
}

/// The segment at a place is the first that the place touches.
pub proof fn segments_are_touched(t: Tree, ss: Seq<usize>, b: int, i: int)
    requires
        0 <= i <= ss.len() <= usize::MAX,
    ensures
        match touched(t, ss, b, i) {
            Some(k) => i <= k < ss.len() && t.start(ss[k as int]) <= b <= t.end(ss[k as int])
                && forall|j: int|
                i <= j < k ==> !(t.start(#[trigger] ss[j]) <= b <= t.end(ss[j])),
            None => forall|j: int|
                i <= j < ss.len() ==> !(t.start(#[trigger] ss[j]) <= b <= t.end(ss[j])),
        },
    decreases ss.len() - i,
{
    if i < ss.len() && !(t.start(ss[i]) <= b <= t.end(ss[i])) {
        segments_are_touched(t, ss, b, i + 1);
    }
}

/// Declaration `n` declares a local of that name.
pub open spec fn declares(t: Tree, n: usize, name: Seq<char>) -> bool {
    t.kind(n) == Kind::LocalDeclaration && match t.named_child_of(
        n,
        Kind::Identifier,
        Kind::Identifier,
    ) {
        Some(c) => t.text_of(c) == name,
        None => false,
    }
}

/// The locals of a script are exactly those that it declares, each with the type of its last
/// declaration.
pub proof fn locals_are_those_declared(
    t: Tree,
    types: Seq<(usize, ValueType)>,
    k: int,
    name: Seq<char>,
)
    requires
        0 <= k <= t.size() <= usize::MAX,
    ensures
        value_of(locals_upto(t, types, k), name) is Some <==> exists|n: usize|
            n < k && #[trigger] declares(t, n, name),
        forall|n: usize|
            n < k && #[trigger] declares(t, n, name) && (forall|m: usize|
                n < m < k ==> !#[trigger] declares(t, m, name)) ==> value_of(
                locals_upto(t, types, k),
                name,
            ) == Some(decl_type(t, n, types)),
    decreases k,
{
    if k > 0 {
        let n = (k - 1) as usize;
        locals_are_those_declared(t, types, k - 1, name);
        let rest = locals_upto(t, types, k - 1);
        let all = locals_upto(t, types, k);
        if let Some(c) = declared_name(t, n) {
            lemma_bind(rest, t.text_of(c), decl_type(t, n, types), name);
        }
        if exists|m: usize| m < k - 1 && #[trigger] declares(t, m, name) {
            let m = choose|m: usize| m < k - 1 && #[trigger] declares(t, m, name);
            assert(m < k && declares(t, m, name));
        }
        if declares(t, n, name) {
            assert(n < k && declares(t, n, name));
        }
        assert forall|m: usize|
            m < k && #[trigger] declares(t, m, name) && (forall|q: usize|
                m < q < k ==> !#[trigger] declares(t, q, name)) implies value_of(all, name) == Some(
            decl_type(t, m, types),
        ) by {
            if m < n {
                assert(!declares(t, n, name));
            }
        }
    } else {
        assert(locals_upto(t, types, k) =~= Seq::empty());
    }
}

proof fn lemma_bind(
    m: Seq<(Seq<char>, ValueType)>,
    key: Seq<char>,
    ty: ValueType,
    name: Seq<char>,
)
    ensures
        value_of(bind(m, key, ty), name) == (if name == key {
            Some(ty)
        } else {
            value_of(m, name)
        }),
{
    let all = bind(m, key, ty);
    lemma_key_index(m, key, 0);
    lemma_key_index(m, name, 0);
    lemma_key_index(all, name, 0);
    match key_index(m, key, 0) {
        Some(i) => {
            if name == key {
                assert(all[i].0 == name);
                assert forall|j: int| 0 <= j < i implies (#[trigger] all[j]).0 != name by {
                    assert(m[j].0 != key);
                }
            } else {
                assert forall|j: int| 0 <= j < m.len() implies ((#[trigger] all[j]).0 == name) == (
                m[j].0 == name) by {}
                if let Some(q) = key_index(m, name, 0) {
                    assert(all[q].0 == name);
                    assert forall|j: int| 0 <= j < q implies (#[trigger] all[j]).0 != name by {
                        assert(m[j].0 != name);
                    }
                }
            }
        },
        None => {
            assert(all[m.len() as int].0 == key);
            assert forall|j: int| 0 <= j < m.len() implies #[trigger] all[j] == m[j] by {}
            if name != key {
                if let Some(q) = key_index(m, name, 0) {
                    assert(all[q].0 == name);
                    assert forall|j: int| 0 <= j < q implies (#[trigger] all[j]).0 != name by {
                        assert(m[j].0 != name);
                    }
                }
            } else {
                assert forall|j: int| 0 <= j < m.len() implies (#[trigger] all[j]).0 != name by {
                    assert(m[j].0 != key);
                }
            }
        },
    }
}

} // verus!
