//! What a reference names, and whether that can be renamed.
use crate::code_lens::{leaf, leaf_name};
use crate::edits::{TextEdit, TextEditView};
use crate::format::{decimal, decimal_text};
use crate::hover::hovered;
use crate::line_index::{LineIndex, PositionEncoding, range, range_of};
use crate::list::{fresh, put};
use crate::locate::{
    dotted, dotted_through, path_at_byte, segment_at_byte, segment_nodes, segments, top_path_seq,
    top_paths,
};
use crate::model::{Project, ProjectView, Scope, ScopeView, Symbol, SymbolKind, SymbolView};
use crate::references::{Script, ScriptView};
use crate::rename::local::{rename_nodes, renamed};
use crate::search::{
    begins, cut_last, find, first_match, join, joined, lemma_last_index, rsplit_once, split,
    split_on, starts_with,
};
use crate::syntax::{SyntaxTree, Tree};
use crate::text::{byte_at, bytes_before, chars, lemma_byte_at_ends, lemma_byte_at_monotone, same};
use vstd::prelude::*;
use vstd::string::*;

verus! {

// ---------------------------------------------------------------------------
// Paths
// ---------------------------------------------------------------------------

/// What stands in front of the last dot.
pub open spec fn parent_path(path: Seq<char>) -> Option<Seq<char>> {
    match cut_last(path, '.') {
        Some((parent, leaf)) => Some(parent),
        None => None,
    }
}

/// `path` with another last segment.
pub open spec fn with_leaf(path: Seq<char>, leaf: Seq<char>) -> Seq<char> {
    match parent_path(path) {
        Some(parent) => parent + "."@ + leaf,
        None => leaf,
    }
}

/// `path` with another last segment.
pub fn path_with_leaf(path: &str, leaf: &str) -> (r: String)
    ensures
        r@ == with_leaf(path@, leaf@),
{
    match rsplit_once(path, '.') {
        Some((parent, old)) => {
            let mut r = parent;
            r.append(".");
            r.append(leaf);
            r
        },
        None => leaf.to_owned(),
    }
}

/// The group that leading `This` and `Parent` segments lead to, from segment `i` and group
/// `base` on, and the first segment behind them.
pub open spec fn anchor(parts: Seq<Seq<char>>, group: Seq<char>, base: Seq<char>, i: int) -> Option<
    (Seq<char>, int),
>
    decreases parts.len() - i,
{
    if 0 <= i < parts.len() && parts[i] == "This"@ {
        anchor(parts, group, group, i + 1)
    } else if 0 <= i < parts.len() && parts[i] == "Parent"@ {
        match parent_path(base) {
            Some(up) => anchor(parts, group, up, i + 1),
            None => None,
        }
    } else {
        Some((base, i))
    }
}

/// The symbol that a path with a leading `This` or `Parent` names in a script of `group`.
pub open spec fn anchored(path: Seq<char>, group: Option<Seq<char>>, project: ProjectView) -> Option<
    SymbolView,
> {
    let parts = split(path, '.');
    match group {
        Some(g) => if parts[0] == "This"@ || parts[0] == "Parent"@ {
            match anchor(parts, g, g, 0) {
                Some((base, i)) => {
                    let tail = joined(parts.skip(i), "."@);
                    if tail.len() == 0 {
                        None
                    } else {
                        project.get(base + "."@ + tail)
                    }
                },
                None => None,
            }
        } else {
            None
        },
        None => None,
    }
}

/// The symbol that a path names.
pub open spec fn symbol_named(path: Seq<char>, scope: ScopeView, project: ProjectView) -> Option<
    SymbolView,
> {
    match anchored(path, scope.group, project) {
        Some(s) => Some(s),
        None => scope.symbol(path),
    }
}

/// The longest start of the path, of at most `k` segments, that names a symbol, and how
/// many segments it has.
pub open spec fn prefix_upto(
    parts: Seq<Seq<char>>,
    scope: ScopeView,
    project: ProjectView,
    k: int,
) -> Option<(SymbolView, int)>
    decreases k,
{
    if k <= 0 {
        None
    } else {
        match symbol_named(joined(parts.take(k), "."@), scope, project) {
            Some(s) => Some((s, k)),
            None => prefix_upto(parts, scope, project, k - 1),
        }
    }
}

/// The longest start of the path that names a symbol, and how many segments it has.
pub open spec fn prefix_named(path: Seq<char>, scope: ScopeView, project: ProjectView) -> Option<
    (SymbolView, int),
> {
    prefix_upto(split(path, '.'), scope, project, split(path, '.').len() as int)
}

fn join_from(parts: &Vec<String>, i: usize) -> (r: String)
    requires
        i <= parts@.len(),
    ensures
        r@ == joined(parts.deep_view().skip(i as int), "."@),
{
    let ghost ps = parts.deep_view();
    let mut rest: Vec<String> = fresh();
    let mut k: usize = i;
    while k < parts.len()
        invariant
            i <= k <= parts@.len(),
            ps == parts.deep_view(),
            rest@.len() == k - i,
            rest.deep_view() =~= ps.subrange(i as int, k as int),
        decreases parts@.len() - k,
    {
        assert(ps[k as int] == parts@[k as int]@);
        put(&mut rest, parts[k].clone());
        k = k + 1;
    }
    assert(rest.deep_view().take(rest@.len() as int) =~= ps.skip(i as int));
    join(&rest, rest.len(), ".")
}

fn resolve_anchored<'p>(path: &str, group: Option<&str>, project: &'p Project) -> (r: Option<
    &'p Symbol,
>)
    ensures
        r.deep_view() == anchored(path@, group.deep_view(), project.deep_view()),
{
    let parts = split_on(path, '.');
    let ghost ps = parts.deep_view();
    assert(ps[0] == parts@[0]@);
    let own = match group {
        Some(g) => g,
        None => {
            return None;
        },
    };
    if !same(parts[0].as_str(), "This") && !same(parts[0].as_str(), "Parent") {
        return None;
    }
    let mut base = own.to_owned();
    let mut i: usize = 0;
    while i < parts.len() && (same(parts[i].as_str(), "This") || same(parts[i].as_str(), "Parent"))
        invariant
            i <= parts@.len(),
            ps == parts.deep_view(),
            ps == split(path@, '.'),
            group == Some(own),
            anchor(ps, own@, own@, 0) == anchor(ps, own@, base@, i as int),
            ps[0] == "This"@ || ps[0] == "Parent"@,
        decreases parts@.len() - i,
    {
        assert(ps[i as int] == parts@[i as int]@);
        if same(parts[i].as_str(), "This") {
            base = own.to_owned();
        } else {
            match rsplit_once(base.as_str(), '.') {
                Some((up, leaf)) => {
                    base = up;
                },
                None => {
                    return None;
                },
            }
        }
        i = i + 1;
    }
    assert(i < ps.len() ==> ps[i as int] == parts@[i as int]@);
    let tail = join_from(&parts, i);
    proof {
        reveal_strlit("");
        assert(tail@.len() == 0 ==> tail@ =~= ""@);
    }
    if same(tail.as_str(), "") {
        return None;
    }
    base.append(".");
    base.append(tail.as_str());
    project.get(base.as_str())
}

fn resolve_to_symbol<'p>(path: &str, scope: &'p Scope, project: &'p Project) -> (r: Option<
    &'p Symbol,
>)
    ensures
        r.deep_view() == symbol_named(path@, scope.deep_view(), project.deep_view()),
{
    let group = match &scope.group {
        Some(g) => Some(g.as_str()),
        None => None,
    };
    match resolve_anchored(path, group, project) {
        Some(s) => Some(s),
        None => scope.symbol(path),
    }
}

/// The longest start of the path that names a symbol, and how many segments it has.
pub(crate) fn resolve_prefix<'p>(path: &str, scope: &'p Scope, project: &'p Project) -> (r: Option<
    (&'p Symbol, usize),
>)
    ensures
        match r {
            Some((s, k)) => k > 0 && prefix_named(
                path@,
                scope.deep_view(),
                project.deep_view(),
            ) == Some((s.deep_view(), k as int)),
            None => prefix_named(path@, scope.deep_view(), project.deep_view()) is None,
        },
{
    let parts = split_on(path, '.');
    let ghost ps = parts.deep_view();
    let mut k: usize = parts.len();
    while k > 0
        invariant
            k <= parts@.len(),
            ps == parts.deep_view(),
            prefix_named(path@, scope.deep_view(), project.deep_view()) == prefix_upto(
                ps,
                scope.deep_view(),
                project.deep_view(),
                k as int,
            ),
        decreases k,
    {
        let prefix = join(&parts, k, ".");
        if let Some(s) = resolve_to_symbol(prefix.as_str(), scope, project) {
            return Some((s, k));
        }
        k = k - 1;
    }
    None
}

// ---------------------------------------------------------------------------
// References
// ---------------------------------------------------------------------------

/// The segment of path `n` that names the target, if its longest start that names anything
/// names that.
pub open spec fn target_segment(
    t: Tree,
    n: usize,
    target: Seq<char>,
    scope: ScopeView,
    project: ProjectView,
) -> Option<usize> {
    match prefix_named(t.text_of(n), scope, project) {
        Some((sym, k)) => {
            let segs = segments(t, n);
            if sym.path == target && k - 1 < segs.len() {
                Some(segs[k - 1])
            } else {
                None
            }
        },
        None => None,
    }
}

/// The segments that name the target, in the first `k` paths.
pub open spec fn target_segments(
    t: Tree,
    target: Seq<char>,
    scope: ScopeView,
    project: ProjectView,
    ps: Seq<(usize, bool)>,
    k: int,
) -> Seq<usize>
    decreases k,
{
    if k <= 0 {
        Seq::empty()
    } else {
        let rest = target_segments(t, target, scope, project, ps, k - 1);
        match target_segment(t, ps[k - 1].0, target, scope, project) {
            Some(seg) => rest.push(seg),
            None => rest,
        }
    }
}

/// The edits that give the target its new name in one script.
pub open spec fn reference_edits(
    script: ScriptView,
    target: Seq<char>,
    new_name: Seq<char>,
    project: ProjectView,
    enc: PositionEncoding,
) -> Seq<TextEditView> {
    let ps = top_path_seq(script.tree);
    renamed(
        script.tree,
        target_segments(script.tree, target, script.scope, project, ps, ps.len() as int),
        new_name,
        script.index,
        enc,
    )
}

/// The edits that give the target its new name in one script: in each reference only the
/// segment that names it.
pub(crate) fn collect_ref_edits(
    script: &Script,
    target: &str,
    new_name: &str,
    project: &Project,
    enc: PositionEncoding,
) -> (r: Vec<TextEdit>)
    ensures
        r.deep_view() == reference_edits(
            script.deep_view(),
            target@,
            new_name@,
            project.deep_view(),
            enc,
        ),
{
    let tree = &script.tree;
    let scope = &script.scope;
    let ps = top_paths(tree);
    let mut ns: Vec<usize> = Vec::new();
    let mut k: usize = 0;
    while k < ps.len()
        invariant
            k <= ps@.len(),
            ps@ == top_path_seq(tree@),
            forall|i: int| 0 <= i < ps@.len() ==> tree@.has((#[trigger] ps@[i]).0),
            forall|i: int| 0 <= i < ns@.len() ==> tree@.has(#[trigger] ns@[i]),
            ns@ == target_segments(
                tree@,
                target@,
                scope.deep_view(),
                project.deep_view(),
                ps@,
                k as int,
            ),
        decreases ps@.len() - k,
    {
        let n: usize = ps[k].0;
        if let Some((sym, depth)) = resolve_prefix(tree.text_of(n).as_str(), scope, project) {
            if same(sym.path.as_str(), target) {
                let segs = segment_nodes(tree, n);
                if depth - 1 < segs.len() {
                    ns.push(segs[depth - 1]);
                }
            }
        }
        k = k + 1;
    }
    rename_nodes(tree, &ns, new_name, &script.index, enc)
}

/// The edit that gives the target its new name where the project file declares it.
pub open spec fn declaration_edit(
    s: Seq<char>,
    target: Seq<char>,
    new_name: Seq<char>,
    enc: PositionEncoding,
) -> Option<TextEditView> {
    match first_match(s, "Name=\""@ + target + "\""@, 0) {
        Some(m) => {
            let z = m + "Name=\""@.len() + target.len();
            let a = z - leaf_name(target).len();
            Some(
                TextEditView {
                    range: range_of(s, byte_at(s, a) as int, byte_at(s, z) as int, enc),
                    new_text: new_name,
                },
            )
        },
        None => None,
    }
}

/// The edit of the characters from index `a` up to `z`.
pub(crate) fn edit_span(
    li: &LineIndex,
    a: usize,
    z: usize,
    new_text: &str,
    enc: PositionEncoding,
) -> (r: TextEdit)
    requires
        a <= z <= li@.len(),
    ensures
        r.deep_view() == (TextEditView {
            range: range_of(li@, byte_at(li@, a as int) as int, byte_at(li@, z as int) as int, enc),
            new_text: new_text@,
        }),
{
    let v = li.characters();
    proof {
        lemma_byte_at_monotone(v@, a as int, z as int);
        lemma_byte_at_monotone(v@, z as int, v@.len() as int);
        lemma_byte_at_ends(v@);
    }
    let range = range(bytes_before(v, a), bytes_before(v, z), li, enc);
    TextEdit { range, new_text: new_text.to_owned() }
}

proof fn lemma_leaf_len(path: Seq<char>)
    ensures
        leaf_name(path).len() <= path.len(),
{
    lemma_last_index(path, '.', path.len() as int);
}

pub(crate) fn m1prj_name_edit(
    prj: &LineIndex,
    target: &str,
    new_name: &str,
    enc: PositionEncoding,
) -> (r: Option<TextEdit>)
    ensures
        r.deep_view() == declaration_edit(prj@, target@, new_name@, enc),
{
    let v = prj.characters();
    let n: usize = v.len();
    let mut needle = "Name=\"".to_string();
    needle.append(target);
    needle.append("\"");
    let p = chars(needle.as_str());
    proof {
        reveal_strlit("Name=\"");
        reveal_strlit("\"");
        lemma_leaf_len(target@);
    }
    match find(v, &p, 0) {
        Some(m) => {
            assert(m + p@.len() <= n);
            let end: usize = m + p.len();
            let z: usize = end - 1;
            let a: usize = z - chars(leaf(target).as_str()).len();
            Some(edit_span(prj, a, z, new_name, enc))
        },
        None => None,
    }
}

// ---------------------------------------------------------------------------
// What can be renamed
// ---------------------------------------------------------------------------

/// What renaming a symbol takes: its references, those of everything below it, or also the
/// move of its script.
#[derive(Clone, Copy, Debug, PartialEq, Eq, Structural)]
pub enum RenameKind {
    Leaf,
    Group,
    FileBacked,
}

/// The symbol is a script that the user writes.
pub open spec fn is_user_script(sym: SymbolView) -> bool {
    match sym.classname {
        Some(c) => begins(c, "BuiltIn.FuncUser"@) || begins(c, "BuiltIn.CalFuncUser"@) || c
            == "BuiltIn.MethodUser"@,
        None => false,
    }
}

/// True for a script that the user writes.
pub(crate) fn is_user_authored_script(sym: &Symbol) -> (r: bool)
    ensures
        r == is_user_script(sym.deep_view()),
{
    match &sym.classname {
        Some(c) => starts_with(c.as_str(), "BuiltIn.FuncUser") || starts_with(
            c.as_str(),
            "BuiltIn.CalFuncUser",
        ) || same(c.as_str(), "BuiltIn.MethodUser"),
        None => false,
    }
}

/// The name of the kind.
pub open spec fn kind_label(k: SymbolKind) -> Seq<char> {
    match k {
        SymbolKind::Channel => "Channel"@,
        SymbolKind::Parameter => "Parameter"@,
        SymbolKind::Constant => "Constant"@,
        SymbolKind::Function => "Function"@,
        SymbolKind::Method => "Method"@,
        SymbolKind::Table => "Table"@,
        SymbolKind::Group => "Group"@,
        SymbolKind::Reference => "Reference"@,
        SymbolKind::Object => "Object"@,
        SymbolKind::Other => "Other"@,
    }
}

pub(crate) fn kind_text(k: SymbolKind) -> (r: &'static str)
    ensures
        r@ == kind_label(k),
{
    match k {
        SymbolKind::Channel => "Channel",
        SymbolKind::Parameter => "Parameter",
        SymbolKind::Constant => "Constant",
        SymbolKind::Function => "Function",
        SymbolKind::Method => "Method",
        SymbolKind::Table => "Table",
        SymbolKind::Group => "Group",
        SymbolKind::Reference => "Reference",
        SymbolKind::Object => "Object",
        SymbolKind::Other => "Other",
    }
}

/// A symbol that has a value and can have a new name.
pub open spec fn is_plain_kind(k: SymbolKind) -> bool {
    k == SymbolKind::Channel || k == SymbolKind::Parameter || k == SymbolKind::Constant || k
        == SymbolKind::Reference
}

pub(crate) fn plain_kind(k: SymbolKind) -> (r: bool)
    ensures
        r == is_plain_kind(k),
{
    k == SymbolKind::Channel || k == SymbolKind::Parameter || k == SymbolKind::Constant || k
        == SymbolKind::Reference
}

/// What renaming the symbol takes, or why it cannot be renamed.
pub open spec fn rename_kind(project: ProjectView, sym: SymbolView) -> Result<
    RenameKind,
    Seq<char>,
> {
    let children = project.immediate_children(sym.path).len();
    if is_user_script(sym) {
        Ok(RenameKind::FileBacked)
    } else if sym.filename is Some {
        Err(
            "‘"@ + sym.path
                + "’ is defined in its own file; renaming file-backed symbols (DBC signals, firmware-generated scripts) is not supported"@,
        )
    } else if (sym.kind == SymbolKind::Group || sym.kind == SymbolKind::Object) && children > 0 {
        Ok(RenameKind::Group)
    } else if is_plain_kind(sym.kind) && children == 0 {
        Ok(RenameKind::Leaf)
    } else if children > 0 {
        Err(
            "‘"@ + sym.path + "’ has "@ + decimal(children)
                + " child component(s); rename its leaf members individually"@,
        )
    } else {
        Err(
            "‘"@ + sym.path + "’ is a "@ + kind_label(sym.kind)
                + "; only channels, parameters, constants, references and groups can be renamed"@,
        )
    }
}

fn classify(project: &Project, sym: &Symbol) -> (r: Result<RenameKind, String>)
    ensures
        match r {
            Ok(k) => rename_kind(project.deep_view(), sym.deep_view()) == Ok::<
                RenameKind,
                Seq<char>,
            >(k),
            Err(m) => rename_kind(project.deep_view(), sym.deep_view()) == Err::<
                RenameKind,
                Seq<char>,
            >(m@),
        },
{
    if is_user_authored_script(sym) {
        return Ok(RenameKind::FileBacked);
    }
    let mut m = "‘".to_string();
    m.append(sym.path.as_str());
    if sym.filename.is_some() {
        m.append(
            "’ is defined in its own file; renaming file-backed symbols (DBC signals, firmware-generated scripts) is not supported",
        );
        return Err(m);
    }
    let kids = project.immediate_children(sym.path.as_str());
    let children: usize = kids.len();
    assert(children == kids.deep_view().len());
    if (sym.kind == SymbolKind::Group || sym.kind == SymbolKind::Object) && children > 0 {
        return Ok(RenameKind::Group);
    }
    if plain_kind(sym.kind) && children == 0 {
        return Ok(RenameKind::Leaf);
    }
    if children > 0 {
        m.append("’ has ");
        m.append(decimal_text(children as u64).as_str());
        m.append(" child component(s); rename its leaf members individually");
        return Err(m);
    }
    m.append("’ is a ");
    m.append(kind_text(sym.kind));
    m.append("; only channels, parameters, constants, references and groups can be renamed");
    Err(m)
}

/// The symbol that the path at byte `b` names up to the segment of the cursor.
pub open spec fn cursor_symbol(t: Tree, b: int, scope: ScopeView, project: ProjectView) -> Option<
    SymbolView,
> {
    match hovered(t, b) {
        Some((segs, i)) => match prefix_named(dotted(t, segs, i + 1), scope, project) {
            Some((sym, k)) => Some(sym),
            None => None,
        },
        None => None,
    }
}

/// What the cursor renames: the symbol, and what that takes.
pub open spec fn target_at(t: Tree, b: int, scope: ScopeView, project: ProjectView) -> Result<
    Option<(SymbolView, RenameKind)>,
    Seq<char>,
> {
    match cursor_symbol(t, b, scope, project) {
        Some(sym) => match rename_kind(project, sym) {
            Ok(k) => Ok(Some((sym, k))),
            Err(m) => Err(m),
        },
        None => Ok(None),
    }
}

pub(crate) fn cursor_target<'p>(
    tree: &SyntaxTree,
    byte: usize,
    scope: &'p Scope,
    project: &'p Project,
) -> (r: Result<Option<(&'p Symbol, RenameKind)>, String>)
    ensures
        match r {
            Ok(Some((sym, k))) => target_at(
                tree@,
                byte as int,
                scope.deep_view(),
                project.deep_view(),
            ) == Ok::<Option<(SymbolView, RenameKind)>, Seq<char>>(Some((sym.deep_view(), k))),
            Ok(None) => target_at(tree@, byte as int, scope.deep_view(), project.deep_view())
                == Ok::<Option<(SymbolView, RenameKind)>, Seq<char>>(None),
            Err(m) => target_at(tree@, byte as int, scope.deep_view(), project.deep_view())
                == Err::<Option<(SymbolView, RenameKind)>, Seq<char>>(m@),
        },
{
    let top: usize = match path_at_byte(tree, byte) {
        Some((top, path)) => top,
        None => {
            return Ok(None);
        },
    };
    let segs = segment_nodes(tree, top);
    if segs.len() == 0 {
        return Ok(None);
    }
    let i: usize = match segment_at_byte(tree, top, byte) {
        Some(i) => i,
        None => segs.len() - 1,
    };
    let prefix = dotted_through(tree, &segs, i);
    match resolve_prefix(prefix.as_str(), scope, project) {
        Some((sym, k)) => match classify(project, sym) {
            Ok(kind) => Ok(Some((sym, kind))),
            Err(m) => Err(m),
        },
        None => Ok(None),
    }
}

} // verus!
