//! The description of enumerations and their members.
use crate::format::{signed_decimal, signed_text};
use crate::hover::symbol::{members_line, members_text};
use crate::locate::{dotted, dotted_through};
use crate::model::{find_key, Project, ProjectView, Scope, ScopeView, SymbolKind, value_of};
use crate::syntax::{SyntaxTree, Tree};
use crate::text::same;
use vstd::prelude::*;
use vstd::string::*;

verus! {

/// The description of the enumeration of that name.
pub open spec fn enum_type_text(name: Seq<char>, project: Option<ProjectView>) -> Option<
    Seq<char>,
> {
    match project {
        Some(p) => match p.enum_by_name(name) {
            Some(id) => {
                let e = p.enums[id as int];
                let s = "**"@ + e.name + "** `enum type`"@;
                Some(
                    if members_text(e).len() > 0 {
                        s + "\n\nvalues: "@ + members_text(e)
                    } else {
                        s
                    },
                )
            },
            None => None,
        },
        None => None,
    }
}

pub fn enum_type_markdown(name: &str, project: Option<&Project>) -> (r: Option<String>)
    ensures
        r.deep_view() == enum_type_text(name@, project.deep_view()),
{
    let p = match project {
        Some(p) => p,
        None => {
            return None;
        },
    };
    match p.enum_by_name(name) {
        Some(id) => {
            let e = &p.enums[id];
            assert(p.deep_view().enums[id as int] == e.deep_view());
            let mut s = "**".to_string();
            s.append(e.name.as_str());
            s.append("** `enum type`");
            let list = members_line(e);
            proof {
                reveal_strlit("");
                assert(list@.len() == 0 ==> list@ =~= ""@);
            }
            if !same(list.as_str(), "") {
                s.append("\n\nvalues: ");
                s.append(list.as_str());
            }
            Some(s)
        },
        None => None,
    }
}

/// The enumeration that a member belongs to: the one named in front of it, or else the only
/// one that has it.
pub open spec fn member_owner(
    p: ProjectView,
    before: Option<Seq<char>>,
    member: Seq<char>,
) -> Option<usize> {
    let named = match before {
        Some(name) => match p.enum_by_name(name) {
            Some(id) if p.enum_has_member(id, member) => Some(id),
            _ => None,
        },
        None => None,
    };
    match named {
        Some(id) => Some(id),
        None => if p.enums_with_member(member).len() == 1 {
            Some(p.enums_with_member(member)[0])
        } else {
            None
        },
    }
}

/// The description of an enumeration member. `before` is the segment in front of it.
pub open spec fn enum_member_text(
    before: Option<Seq<char>>,
    member: Seq<char>,
    project: Option<ProjectView>,
) -> Option<Seq<char>> {
    match project {
        Some(p) => match member_owner(p, before, member) {
            Some(id) => match value_of(p.enums[id as int].members, member) {
                Some(value) => Some(
                    "**"@ + p.enums[id as int].name + "."@ + member + "** `enum member`\n\n= "@
                        + signed_decimal(value as int),
                ),
                None => None,
            },
            None => None,
        },
        None => None,
    }
}

fn owner_of(p: &Project, before: Option<&str>, member: &str) -> (r: Option<usize>)
    ensures
        r == member_owner(p.deep_view(), before.deep_view(), member@),
        r matches Some(id) ==> id < p.enums@.len(),
{
    if let Some(name) = before {
        if let Some(id) = p.enum_by_name(name) {
            if p.enum_has_member(id, member) {
                return Some(id);
            }
        }
    }
    let owners = p.enums_with_member(member);
    if owners.len() == 1 {
        Some(owners[0])
    } else {
        None
    }
}

pub fn enum_member_markdown(before: Option<&str>, member: &str, project: Option<&Project>) -> (r:
    Option<String>)
    ensures
        r.deep_view() == enum_member_text(before.deep_view(), member@, project.deep_view()),
{
    let p = match project {
        Some(p) => p,
        None => {
            return None;
        },
    };
    match owner_of(p, before, member) {
        Some(id) => {
            let e = &p.enums[id];
            assert(p.deep_view().enums[id as int] == e.deep_view());
            match find_key(&e.members, member) {
                Some(i) => {
                    assert(e.members.deep_view()[i as int] == e.members@[i as int].deep_view());
                    let mut s = "**".to_string();
                    s.append(e.name.as_str());
                    s.append(".");
                    s.append(member);
                    s.append("** `enum member`\n\n= ");
                    s.append(signed_text(e.members[i].1).as_str());
                    Some(s)
                },
                None => None,
            }
        },
        None => None,
    }
}

/// The description of segment `i` as the head of an enumeration literal: the enumeration of
/// that name, where the next segment is one of its members. Where it is not, the literal is
/// misspelled, unless the segments name something else.
pub open spec fn literal_head_text(
    t: Tree,
    segs: Seq<usize>,
    i: int,
    project: Option<ProjectView>,
    scope: ScopeView,
) -> Option<Seq<char>> {
    let head = t.text_of(segs[i]);
    match project {
        Some(p) => match p.enum_by_name(head) {
            Some(id) => if i + 1 < segs.len() {
                let next = t.text_of(segs[i + 1]);
                if p.enum_has_member(id, next) {
                    enum_type_text(head, project)
                } else {
                    let path = dotted(t, segs, i + 1);
                    let is_value = match scope.symbol(path) {
                        Some(s) => s.kind != SymbolKind::Group && s.kind != SymbolKind::Object,
                        None => false,
                    };
                    if is_value || scope.symbol(path + "."@ + next) is Some {
                        None
                    } else {
                        match enum_type_text(head, project) {
                            Some(md) => Some(
                                md + "\n\n⚠ `"@ + next + "` is not a member of this enum"@,
                            ),
                            None => None,
                        }
                    }
                }
            } else {
                None
            },
            None => None,
        },
        None => None,
    }
}

pub fn enum_literal_head_markdown(
    tree: &SyntaxTree,
    segs: &Vec<usize>,
    i: usize,
    project: Option<&Project>,
    scope: &Scope,
) -> (r: Option<String>)
    requires
        i < segs@.len(),
        forall|j: int| 0 <= j < segs@.len() ==> tree@.has(#[trigger] segs@[j]),
    ensures
        r.deep_view() == literal_head_text(
            tree@,
            segs@,
            i as int,
            project.deep_view(),
            scope.deep_view(),
        ),
{
    let p = match project {
        Some(p) => p,
        None => {
            return None;
        },
    };
    let head = tree.text_of(segs[i]);
    let id: usize = match p.enum_by_name(head.as_str()) {
        Some(id) => id,
        None => {
            return None;
        },
    };
    if segs.len() - i <= 1 {
        return None;
    }
    let next = tree.text_of(segs[i + 1]);
    if p.enum_has_member(id, next.as_str()) {
        return enum_type_markdown(head.as_str(), project);
    }
    let mut path = dotted_through(tree, segs, i);
    if let Some(s) = scope.symbol(path.as_str()) {
        if s.kind != SymbolKind::Group && s.kind != SymbolKind::Object {
            return None;
        }
    }
    path.append(".");
    path.append(next.as_str());
    if scope.symbol(path.as_str()).is_some() {
        return None;
    }
    match enum_type_markdown(head.as_str(), project) {
        Some(mut md) => {
            md.append("\n\n⚠ `");
            md.append(next.as_str());
            md.append("` is not a member of this enum");
            Some(md)
        },
        None => None,
    }
}

} // verus!
