//! What lookups in the project find.
use crate::laws::{lemma_pushed_holds, lemma_taken_holds};
use crate::laws::hover::lemma_cut_last;
use crate::model::{
    children_upto, enum_index, EnumTypeView, is_child_path, is_member, lemma_key_index,
    LibraryObjectView, object_at, owners_upto, same_fold, symbol_at, SymbolView, type_at,
    value_of, ValueType,
};
use crate::search::{cut_last, last_index, lemma_last_index};
use crate::text::{lower, lowered};
use vstd::prelude::*;
use vstd::string::*;

verus! {

/// A path is that of the first symbol which has it.
pub proof fn symbols_are_found_by_path(s: Seq<SymbolView>, path: Seq<char>, i: int)
    requires
        0 <= i <= s.len(),
    ensures
        match symbol_at(s, path, i) {
            Some(sym) => sym.path == path && exists|k: int|
                i <= k < s.len() && #[trigger] s[k] == sym && forall|j: int|
                    i <= j < k ==> (#[trigger] s[j]).path != path,
            None => forall|k: int| i <= k < s.len() ==> (#[trigger] s[k]).path != path,
        },
    decreases s.len() - i,
{
    if i < s.len() {
        if s[i].path == path {
            assert(s[i] == symbol_at(s, path, i).unwrap());
        } else {
            symbols_are_found_by_path(s, path, i + 1);
        }
    }
}

/// The path is that of the parent with one more segment.
pub open spec fn is_one_below(path: Seq<char>, parent: Seq<char>) -> bool {
    exists|leaf: Seq<char>| !leaf.contains('.') && path == #[trigger] (parent + "."@ + leaf)
}

proof fn lemma_one_below(path: Seq<char>, parent: Seq<char>)
    ensures
        is_child_path(path, parent) <==> is_one_below(path, parent),
{
    reveal_strlit(".");
    if is_one_below(path, parent) {
        let leaf = choose|leaf: Seq<char>|
            !leaf.contains('.') && path == #[trigger] (parent + "."@ + leaf);
        lemma_cut_last(parent, leaf);
    }
    if let Some((head, leaf)) = cut_last(path, '.') {
        lemma_last_index(path, '.', path.len() as int);
        let i = last_index(path, '.', path.len() as int).unwrap();
        assert(path =~= head + "."@ + leaf);
        if leaf.contains('.') {
            let j = choose|j: int| 0 <= j < leaf.len() && leaf[j] == '.';
            assert(path[i + 1 + j] == '.');
        }
    }
}

/// The children of a path are exactly the symbols one segment below it.
pub proof fn children_are_one_segment_below(
    s: Seq<SymbolView>,
    parent: Seq<char>,
    k: int,
    x: SymbolView,
)
    requires
        0 <= k <= s.len(),
    ensures
        children_upto(s, parent, k).contains(x) <==> s.take(k).contains(x) && is_one_below(
            x.path,
            parent,
        ),
    decreases k,
{
    if k > 0 {
        children_are_one_segment_below(s, parent, k - 1, x);
        lemma_one_below(s[k - 1].path, parent);
        lemma_taken_holds(s, k, x);
        lemma_pushed_holds(children_upto(s, parent, k - 1), s[k - 1], x);
    } else {
        assert(children_upto(s, parent, k) =~= Seq::empty());
    }
}

/// The two characters are the same letter of the Latin alphabet, in whatever case, or the same
/// character.
pub open spec fn same_letter(a: char, b: char) -> bool {
    ||| a == b
    ||| 'A' <= a <= 'Z' && b as u32 == a as u32 + 32
    ||| 'A' <= b <= 'Z' && a as u32 == b as u32 + 32
}

/// Names of enumerations are compared without the case of their letters.
pub proof fn names_fold(a: Seq<char>, b: Seq<char>)
    ensures
        same_fold(a, b) <==> a.len() == b.len() && forall|i: int|
            0 <= i < a.len() ==> same_letter(#[trigger] a[i], b[i]),
{
    if same_fold(a, b) {
        assert(lowered(a).len() == a.len());
        assert(lowered(b).len() == b.len());
        assert forall|i: int| 0 <= i < a.len() implies same_letter(#[trigger] a[i], b[i]) by {
            assert(lowered(a)[i] == lowered(b)[i]);
            assert(lowered(a)[i] == lower(a[i]));
            assert(lowered(b)[i] == lower(b[i]));
        }
    }
    if a.len() == b.len() && forall|i: int| 0 <= i < a.len() ==> same_letter(#[trigger] a[i], b[i]) {
        assert(lowered(a) =~= lowered(b)) by {
            assert forall|i: int| 0 <= i < a.len() implies lowered(a)[i] == lowered(b)[i] by {
                assert(same_letter(a[i], b[i]));
            }
        }
    }
}

/// An enumeration is found by its name, in whatever case: the first that has it.
pub proof fn enums_are_found_by_name(s: Seq<EnumTypeView>, name: Seq<char>, i: int)
    requires
        0 <= i <= s.len() <= usize::MAX,
    ensures
        match enum_index(s, name, i) {
            Some(k) => i <= k < s.len() && same_fold(s[k as int].name, name) && forall|j: int|
                i <= j < k ==> !same_fold((#[trigger] s[j]).name, name),
            None => forall|j: int| i <= j < s.len() ==> !same_fold((#[trigger] s[j]).name, name),
        },
    decreases s.len() - i,
{
    if i < s.len() && !same_fold(s[i].name, name) {
        enums_are_found_by_name(s, name, i + 1);
    }
}

/// An enumeration has a member exactly when one of its members has the name.
pub proof fn members_are_found_by_name(e: EnumTypeView, member: Seq<char>)
    ensures
        is_member(e, member) <==> exists|i: int|
            0 <= i < e.members.len() && (#[trigger] e.members[i]).0 == member,
        is_member(e, member) <==> value_of(e.members, member) is Some,
{
    lemma_key_index(e.members, member, 0);
}

/// The owners of a member are exactly the enumerations that have it.
pub proof fn owners_are_exact(s: Seq<EnumTypeView>, member: Seq<char>, k: int, id: usize)
    requires
        0 <= k <= s.len() <= usize::MAX,
    ensures
        owners_upto(s, member, k).contains(id) <==> id < k && is_member(s[id as int], member),
    decreases k,
{
    if k > 0 {
        owners_are_exact(s, member, k - 1, id);
        lemma_pushed_holds(owners_upto(s, member, k - 1), (k - 1) as usize, id);
    } else {
        assert(owners_upto(s, member, k) =~= Seq::empty());
    }
}

/// A library object is found by its name: the first that has it.
pub proof fn library_objects_are_found_by_name(s: Seq<LibraryObjectView>, name: Seq<char>, i: int)
    requires
        0 <= i <= s.len(),
    ensures
        match object_at(s, name, i) {
            Some(o) => o.name == name && exists|k: int|
                i <= k < s.len() && #[trigger] s[k] == o && forall|j: int|
                    i <= j < k ==> (#[trigger] s[j]).name != name,
            None => forall|k: int| i <= k < s.len() ==> (#[trigger] s[k]).name != name,
        },
    decreases s.len() - i,
{
    if i < s.len() {
        if s[i].name == name {
            assert(s[i] == object_at(s, name, i).unwrap());
        } else {
            library_objects_are_found_by_name(s, name, i + 1);
        }
    }
}

/// The type of a node is the first that the table gives for it, and not known where it gives
/// none.
pub proof fn types_are_found_by_node(s: Seq<(usize, ValueType)>, n: usize, i: int)
    requires
        0 <= i <= s.len(),
    ensures
        (exists|k: int|
            i <= k < s.len() && (#[trigger] s[k]).0 == n && type_at(s, n, i) == s[k].1 && forall|j: int|
                i <= j < k ==> (#[trigger] s[j]).0 != n) || (type_at(s, n, i) == ValueType::Unknown
            && forall|k: int| i <= k < s.len() ==> (#[trigger] s[k]).0 != n),
    decreases s.len() - i,
{
    if i < s.len() {
        if s[i].0 == n {
            assert(s[i].0 == n && type_at(s, n, i) == s[i].1);
        } else {
            types_are_found_by_node(s, n, i + 1);
            if exists|k: int|
                i + 1 <= k < s.len() && (#[trigger] s[k]).0 == n && type_at(s, n, i + 1) == s[k].1
                    && forall|j: int| i + 1 <= j < k ==> (#[trigger] s[j]).0 != n {
                let k = choose|k: int|
                    i + 1 <= k < s.len() && (#[trigger] s[k]).0 == n && type_at(s, n, i + 1)
                        == s[k].1 && forall|j: int| i + 1 <= j < k ==> (#[trigger] s[j]).0 != n;
                assert(s[k].0 == n && type_at(s, n, i) == s[k].1);
            }
        }
    }
}

} // verus!
