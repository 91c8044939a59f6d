//! Renaming of a local, within its script.
use crate::edits::{TextEdit, TextEditView};
use crate::line_index::{LineIndex, PositionEncoding, range, range_of};
use crate::list::{fresh, put};
use crate::locate::{
    declares_local, in_annotation, in_type_annotation, is_member_property, is_property, node_at,
    node_at_byte,
};
use crate::references::{
    collect_local_idents, local_at, local_idents, local_idents_upto, names_local,
};
use crate::rename::names::{is_local_name, is_valid_identifier};
use crate::syntax::{Kind, SyntaxTree, Tree};
use crate::text::same;
use vstd::prelude::*;

verus! {

/// True when `n` refers to the local of that name: not as a property, nor as a type.
pub fn is_local_ref(tree: &SyntaxTree, n: usize, name: &str) -> (r: bool)
    requires
        tree@.has(n),
    ensures
        r == names_local(tree@, n, name@),
{
    tree.kind(n) == Kind::Identifier && same(tree.text_of(n).as_str(), name) && !is_member_property(
        tree,
        n,
    ) && !in_type_annotation(tree, n)
}

/// The node of the local that byte `b` stands on.
pub open spec fn local_ident(t: Tree, b: int) -> Option<usize> {
    match local_at(t, b) {
        Some(name) => node_at(t, b),
        None => None,
    }
}

/// The local that `byte` stands on.
pub fn local_ident_at(tree: &SyntaxTree, byte: usize) -> (r: Option<usize>)
    ensures
        r == local_ident(tree@, byte as int),
        r matches Some(n) ==> tree@.has(n),
{
    match node_at_byte(tree, byte) {
        Some(n) => {
            if tree.kind(n) != Kind::Identifier || is_member_property(tree, n)
                || in_type_annotation(tree, n) {
                return None;
            }
            if declares_local(tree, tree.text_of(n).as_str()) {
                Some(n)
            } else {
                None
            }
        },
        None => None,
    }
}

/// The edits that put `new_name` in the place of each of the nodes.
pub open spec fn renamed(
    t: Tree,
    ns: Seq<usize>,
    new_name: Seq<char>,
    s: Seq<char>,
    enc: PositionEncoding,
) -> Seq<TextEditView> {
    ns.map_values(
        |n: usize|
            TextEditView { range: range_of(s, t.start(n), t.end(n), enc), new_text: new_name },
    )
}

/// The edits that rename the local.
pub open spec fn local_edits(
    t: Tree,
    name: Seq<char>,
    new_name: Seq<char>,
    s: Seq<char>,
    enc: PositionEncoding,
) -> Seq<TextEditView> {
    renamed(t, local_idents(t, name), new_name, s, enc)
}

pub fn rename_nodes(
    tree: &SyntaxTree,
    ns: &Vec<usize>,
    new_name: &str,
    li: &LineIndex,
    enc: PositionEncoding,
) -> (r: Vec<TextEdit>)
    requires
        forall|i: int| 0 <= i < ns@.len() ==> tree@.has(#[trigger] ns@[i]),
    ensures
        r.deep_view() == renamed(tree@, ns@, new_name@, li@, enc),
        r@.len() == ns@.len(),
{
    let mut r: Vec<TextEdit> = fresh();
    let mut k: usize = 0;
    while k < ns.len()
        invariant
            k <= ns@.len(),
            r@.len() == k,
            forall|i: int| 0 <= i < ns@.len() ==> tree@.has(#[trigger] ns@[i]),
            r.deep_view() =~= renamed(tree@, ns@.take(k as int), new_name@, li@, enc),
        decreases ns@.len() - k,
    {
        let d = tree.node(ns[k]);
        put(
            &mut r,
            TextEdit { range: range(d.start, d.end, li, enc), new_text: new_name.to_owned() },
        );
        k = k + 1;
    }
    assert(ns@.take(ns@.len() as int) =~= ns@);
    r
}

pub(crate) fn collect_local_edits(
    tree: &SyntaxTree,
    name: &str,
    new_name: &str,
    li: &LineIndex,
    enc: PositionEncoding,
) -> (r: Vec<TextEdit>)
    ensures
        r.deep_view() == local_edits(tree@, name@, new_name@, li@, enc),
{
    let ns = collect_local_idents(tree, name);
    rename_nodes(tree, &ns, new_name, li, enc)
}

/// The edits that rename the local at `byte`: none where there is no local, or where it
/// cannot have that name.
pub fn local_rename_edits(
    tree: &SyntaxTree,
    byte: usize,
    new_name: &str,
    li: &LineIndex,
    enc: PositionEncoding,
) -> (r: Option<Vec<TextEdit>>)
    ensures
        r.deep_view() == (match local_at(tree@, byte as int) {
            Some(name) => if is_local_name(new_name@) {
                Some(local_edits(tree@, name, new_name@, li@, enc))
            } else {
                None
            },
            None => None,
        }),
{
    match local_ident_at(tree, byte) {
        Some(n) => {
            if !is_valid_identifier(new_name) {
                return None;
            }
            Some(collect_local_edits(tree, tree.text_of(n).as_str(), new_name, li, enc))
        },
        None => None,
    }
}

// ---------------------------------------------------------------------------
// Laws
// ---------------------------------------------------------------------------

proof fn lemma_local_idents(t: Tree, name: Seq<char>, k: int, n: usize)
    requires
        0 <= k <= t.size() <= usize::MAX,
    ensures
        local_idents_upto(t, name, k).contains(n) <==> n < k && names_local(t, n, name),
    decreases k,
{
    if k > 0 {
        lemma_local_idents(t, name, k - 1, n);
        let rest = local_idents_upto(t, name, k - 1);
        let all = local_idents_upto(t, name, k);
        if rest.contains(n) {
            let j = choose|j: int| 0 <= j < rest.len() && rest[j] == n;
            assert(all[j] == n);
        }
        if n == k - 1 && names_local(t, n, name) {
            assert(all[rest.len() as int] == n);
        }
        if all.contains(n) {
            let j = choose|j: int| 0 <= j < all.len() && all[j] == n;
            if j < rest.len() {
                assert(rest[j] == n);
            }
        }
    } else {
        assert(local_idents_upto(t, name, k) =~= Seq::empty());
    }
}

/// A rename of a local reaches every name that refers to it, and nothing else: no property
/// and no type of that name.
pub proof fn local_rename_is_exact(t: Tree, name: Seq<char>, n: usize)
    requires
        t.wf(),
        t.has(n),
    ensures
        local_idents(t, name).contains(n) <==> t.kind(n) == Kind::Identifier && t.text_of(n) == name
            && !is_property(t, n) && !in_annotation(t, n),
{
    lemma_local_idents(t, name, t.size() as int, n);
}

} // verus!
