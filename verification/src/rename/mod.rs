//! Renaming of locals, symbols, groups and scripts.
//!
//! A local is renamed in its script. A symbol is renamed where the project file declares it
//! and wherever a reference resolves to it, in whatever spelling. A group takes everything
//! below it along, and a script its file.
pub mod apply;
pub mod changes;
pub mod confirm;
pub mod effect;
pub mod file_rename;
pub mod func;
pub mod group;
pub mod local;
pub mod m1prj;
pub mod names;
pub mod resolve;

use crate::edits::{one_document, single_document, WorkspaceEdit, WorkspaceEditView};
use crate::line_index::{LineIndex, PositionEncoding, Range, range, range_of};
use crate::locate::{path_at_byte, path_node, segment_at_byte, segment_nodes, segments, touched};
use crate::model::{
    LoadedProject, LoadedProjectView, Project, ProjectView, Scope, ScopeView, Symbol, SymbolView,
};
use crate::references::{local_at, Script, ScriptView};
use crate::rename::changes::{
    check_new_name, index_text, leaf_rename, load_prj_text, name_conflict, outcome, project_file,
    rename_leaf,
};
use crate::rename::func::{execute_func_method, script_rename};
use crate::rename::group::{execute_group, group_rename};
use crate::rename::local::{collect_local_edits, local_edits, local_ident, local_ident_at};
use crate::rename::m1prj::{bad_name, bad_name_text};
use crate::rename::names::{
    is_local_name, is_symbol_name, is_valid_identifier, is_valid_symbol_name,
};
use crate::rename::resolve::{
    cursor_target, prefix_named, rename_kind, RenameKind, resolve_prefix, target_at,
};
use crate::search::{trim, trimmed};
use crate::syntax::{SyntaxTree, Tree};
use crate::text::{chars, string};
use vstd::prelude::*;
use vstd::string::*;

verus! {

/// The node that a rename at byte `b` would change: the local, or the segment that names the
/// symbol.
pub open spec fn editable_node(
    t: Tree,
    b: int,
    project: Option<ProjectView>,
    scope: ScopeView,
) -> Option<usize> {
    match (local_ident(t, b), project) {
        (Some(n), _) => Some(n),
        (None, Some(p)) => match (target_at(t, b, scope, p), path_node(t, b)) {
            (Ok(Some((sym, kind))), Some(top)) => {
                let segs = segments(t, top);
                let i = match kind {
                    RenameKind::Group => match touched(t, segs, b, 0) {
                        Some(i) => i as int,
                        None => -1,
                    },
                    _ => match prefix_named(t.text_of(top), scope, p) {
                        Some((s, k)) => k - 1,
                        None => -1,
                    },
                };
                if 0 <= i < segs.len() {
                    Some(segs[i])
                } else {
                    None
                }
            },
            _ => None,
        },
        _ => None,
    }
}

/// The range that a rename at `byte` would change; none where nothing can be renamed.
pub fn prepare(
    tree: &SyntaxTree,
    byte: usize,
    li: &LineIndex,
    enc: PositionEncoding,
    project: Option<&Project>,
    scope: &Scope,
) -> (r: Option<Range>)
    ensures
        r == (match editable_node(tree@, byte as int, project.deep_view(), scope.deep_view()) {
            Some(n) => Some(range_of(li@, tree@.start(n), tree@.end(n), enc)),
            None => None,
        }),
{
    if let Some(n) = local_ident_at(tree, byte) {
        let d = tree.node(n);
        return Some(range(d.start, d.end, li, enc));
    }
    let p = match project {
        Some(p) => p,
        None => {
            return None;
        },
    };
    let kind = match cursor_target(tree, byte, scope, p) {
        Ok(Some((sym, kind))) => kind,
        _ => {
            return None;
        },
    };
    let (top, path) = match path_at_byte(tree, byte) {
        Some(n) => n,
        None => {
            return None;
        },
    };
    let segs = segment_nodes(tree, top);
    let i: usize = match kind {
        RenameKind::Group => match segment_at_byte(tree, top, byte) {
            Some(i) => i,
            None => {
                return None;
            },
        },
        _ => match resolve_prefix(path.as_str(), scope, p) {
            Some((sym, k)) => k - 1,
            None => {
                return None;
            },
        },
    };
    if i >= segs.len() {
        return None;
    }
    let d = tree.node(segs[i]);
    Some(range(d.start, d.end, li, enc))
}

/// Why a local cannot have the name.
pub open spec fn bad_local_name(name: Seq<char>) -> Seq<char> {
    "‘"@ + name
        + "’ is not a valid local name (letters, digits, underscore and internal spaces; no leading digit or surrounding space)"@
}

/// The rename of a symbol of the project.
pub open spec fn symbol_rename(
    loaded: LoadedProjectView,
    sym: SymbolView,
    kind: RenameKind,
    name: Seq<char>,
    prj: Option<Seq<char>>,
    scripts: Seq<ScriptView>,
    enc: PositionEncoding,
) -> Result<WorkspaceEditView, Seq<char>> {
    match kind {
        RenameKind::Group => group_rename(loaded, sym.path, name, prj, scripts, enc),
        RenameKind::FileBacked => script_rename(loaded, sym, name, prj, scripts, enc),
        RenameKind::Leaf => match name_conflict(loaded.project, sym.path, name) {
            Some(m) => Err(m),
            None => match project_file(loaded, prj) {
                Ok(uri) => leaf_rename(
                    loaded.project,
                    sym.path,
                    name,
                    uri,
                    prj.unwrap(),
                    scripts,
                    enc,
                ),
                Err(m) => Err(m),
            },
        },
    }
}

/// The rename of what byte `b` of a script stands on.
pub open spec fn rename_at(
    t: Tree,
    b: int,
    new_name: Seq<char>,
    uri: Seq<char>,
    s: Seq<char>,
    enc: PositionEncoding,
    loaded: Option<LoadedProjectView>,
    scope: ScopeView,
    prj: Option<Seq<char>>,
    scripts: Seq<ScriptView>,
) -> Result<WorkspaceEditView, Seq<char>> {
    match (local_at(t, b), loaded) {
        (Some(name), _) => if is_local_name(new_name) {
            Ok(one_document(uri, local_edits(t, name, new_name, s, enc)))
        } else {
            Err(bad_local_name(new_name))
        },
        (None, None) => Err(
            "no renameable symbol here — only `local` variables can be renamed without a project"@,
        ),
        (None, Some(lp)) => match target_at(t, b, scope, lp.project) {
            Err(m) => Err(m),
            Ok(None) => Err(
                "no renameable symbol here — place the cursor on a local, channel, parameter, constant, reference or group"@,
            ),
            Ok(Some((sym, kind))) => {
                let name = trimmed(new_name);
                if is_symbol_name(name) {
                    symbol_rename(lp, sym, kind, name, prj, scripts, enc)
                } else {
                    Err(bad_name(name))
                }
            },
        },
    }
}

fn rename_symbol(
    loaded: &LoadedProject,
    sym: &Symbol,
    kind: RenameKind,
    name: &str,
    prj: Option<&LineIndex>,
    scripts: &Vec<Script>,
    enc: PositionEncoding,
) -> (r: Result<WorkspaceEdit, String>)
    ensures
        outcome(r) == symbol_rename(
            loaded.deep_view(),
            sym.deep_view(),
            kind,
            name@,
            index_text(prj),
            scripts.deep_view(),
            enc,
        ),
{
    match kind {
        RenameKind::Group => execute_group(sym.path.as_str(), name, enc, loaded, prj, scripts),
        RenameKind::FileBacked => execute_func_method(sym, name, enc, loaded, prj, scripts),
        RenameKind::Leaf => {
            let path = sym.path.as_str();
            if let Some(m) = check_new_name(&loaded.project, path, name) {
                return Err(m);
            }
            match load_prj_text(loaded, prj) {
                Ok((uri, li)) => rename_leaf(
                    &loaded.project,
                    path,
                    name,
                    uri.as_str(),
                    li,
                    scripts,
                    enc,
                ),
                Err(m) => Err(m),
            }
        },
    }
}

/// Renames what `byte` of a script stands on. `scope` is the script's scope, `prj` the text
/// of the project file, where it can be read, and `scripts` are the scripts of the project.
pub fn execute(
    tree: &SyntaxTree,
    byte: usize,
    new_name: &str,
    uri: &str,
    li: &LineIndex,
    enc: PositionEncoding,
    loaded: Option<&LoadedProject>,
    scope: &Scope,
    prj: Option<&LineIndex>,
    scripts: &Vec<Script>,
) -> (r: Result<WorkspaceEdit, String>)
    ensures
        outcome(r) == rename_at(
            tree@,
            byte as int,
            new_name@,
            uri@,
            li@,
            enc,
            loaded.deep_view(),
            scope.deep_view(),
            index_text(prj),
            scripts.deep_view(),
        ),
{
    if let Some(n) = local_ident_at(tree, byte) {
        if !is_valid_identifier(new_name) {
            let mut m = "‘".to_string();
            m.append(new_name);
            m.append(
                "’ is not a valid local name (letters, digits, underscore and internal spaces; no leading digit or surrounding space)",
            );
            return Err(m);
        }
        let edits = collect_local_edits(tree, tree.text_of(n).as_str(), new_name, li, enc);
        return Ok(single_document(uri, edits));
    }
    let lp = match loaded {
        Some(lp) => lp,
        None => {
            return Err(
                "no renameable symbol here — only `local` variables can be renamed without a project".to_string(),
            );
        },
    };
    let (sym, kind) = match cursor_target(tree, byte, scope, &lp.project) {
        Ok(Some(t)) => t,
        Ok(None) => {
            return Err(
                "no renameable symbol here — place the cursor on a local, channel, parameter, constant, reference or group".to_string(),
            );
        },
        Err(m) => {
            return Err(m);
        },
    };
    let name = string(&trim(&chars(new_name)));
    if !is_valid_symbol_name(name.as_str()) {
        return Err(bad_name_text(name.as_str()));
    }
    rename_symbol(lp, sym, kind, name.as_str(), prj, scripts, enc)
}

/// Where a rename is prepared, there is something to rename: a local, or a symbol that can
/// have another name.
pub proof fn prepared_is_renameable(
    t: Tree,
    b: int,
    project: Option<ProjectView>,
    scope: ScopeView,
)
    requires
        editable_node(t, b, project, scope) is Some,
    ensures
        local_at(t, b) is Some || (match project {
            Some(p) => match target_at(t, b, scope, p) {
                Ok(Some((sym, kind))) => rename_kind(p, sym) == Ok::<RenameKind, Seq<char>>(kind),
                _ => false,
            },
            None => false,
        }),
{
}

/// A rename that is refused for its name is refused whatever the project holds.
pub proof fn bad_names_are_refused(
    t: Tree,
    b: int,
    new_name: Seq<char>,
    uri: Seq<char>,
    s: Seq<char>,
    enc: PositionEncoding,
    loaded: Option<LoadedProjectView>,
    scope: ScopeView,
    prj: Option<Seq<char>>,
    scripts: Seq<ScriptView>,
)
    requires
        !is_local_name(new_name),
        !is_symbol_name(trimmed(new_name)),
    ensures
        rename_at(t, b, new_name, uri, s, enc, loaded, scope, prj, scripts) is Err,
{
}

} // verus!
