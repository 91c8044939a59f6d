//! The edits of a rename, gathered over the project file and the scripts.
use crate::code_lens::{leaf, leaf_name};
use crate::edits::{
    DocumentChangeOperation, DocumentChangeOperationView, edit_step, RenameFile, RenameFileView,
    text_doc_edit, TextEdit, TextEditView, WorkspaceEdit, WorkspaceEditView,
};
use crate::line_index::{LineIndex, PositionEncoding};
use crate::list::{extend, one, put};
use crate::model::{
    find_key, key_index, lemma_key_index, LoadedProject, LoadedProjectView, Project, ProjectView,
};
use crate::outside::{file_uri, uri_of_path};
use crate::paths::{base_name, beside, file_name, with_file_name};
use crate::references::{Script, ScriptView};
use crate::rename::resolve::{
    collect_ref_edits, declaration_edit, m1prj_name_edit, path_with_leaf, reference_edits,
    with_leaf,
};
use crate::scripts::keys_differ;
use crate::text::same;
use vstd::prelude::*;
use vstd::string::*;

verus! {

/// What a rename comes to: a change, or why there is none.
pub open spec fn outcome(r: Result<WorkspaceEdit, String>) -> Result<WorkspaceEditView, Seq<char>> {
    match r {
        Ok(e) => Ok(e.deep_view()),
        Err(m) => Err(m@),
    }
}

/// `m` with edits added to those of a document.
pub open spec fn merged(
    m: Seq<(Seq<char>, Seq<TextEditView>)>,
    uri: Seq<char>,
    edits: Seq<TextEditView>,
) -> Seq<(Seq<char>, Seq<TextEditView>)> {
    match key_index(m, uri, 0) {
        Some(i) => m.update(i, (uri, m[i].1 + edits)),
        None => m.push((uri, edits)),
    }
}

pub(crate) fn merge(m: &mut Vec<(String, Vec<TextEdit>)>, uri: &str, edits: Vec<TextEdit>)
    ensures
        final(m).deep_view() == merged(old(m).deep_view(), uri@, edits.deep_view()),
{
    let ghost before = m.deep_view();
    let ghost more = edits.deep_view();
    match find_key(m, uri) {
        Some(i) => {
            assert(before[i as int] == m@[i as int].deep_view());
            let (name, mut list) = m.remove(i);
            extend(&mut list, edits);
            m.insert(i, (name, list));
            proof {
                lemma_key_index(before, uri@, 0);
            }
            assert(m.deep_view() =~= before.update(i as int, (uri@, before[i as int].1 + more)));
        },
        None => {
            put(m, (uri.to_owned(), edits));
        },
    }
}

/// Why the symbol at `path` cannot have the name: it has it already, or another symbol has.
pub open spec fn name_conflict(project: ProjectView, path: Seq<char>, new_name: Seq<char>) -> Option<
    Seq<char>,
> {
    let full = with_leaf(path, new_name);
    if new_name == leaf_name(path) {
        Some("the new name is the same as the current name"@)
    } else if project.get(full) is Some {
        Some("a symbol named ‘"@ + new_name + "’ already exists at ‘"@ + full + "’"@)
    } else {
        None
    }
}

pub(crate) fn check_new_name(project: &Project, path: &str, new_name: &str) -> (r: Option<String>)
    ensures
        r.deep_view() == name_conflict(project.deep_view(), path@, new_name@),
{
    if same(new_name, leaf(path).as_str()) {
        return Some("the new name is the same as the current name".to_string());
    }
    let full = path_with_leaf(path, new_name);
    if project.get(full.as_str()).is_some() {
        let mut m = "a symbol named ‘".to_string();
        m.append(new_name);
        m.append("’ already exists at ‘");
        m.append(full.as_str());
        m.append("’");
        return Some(m);
    }
    None
}

/// The URI of the project file, or why it cannot be changed. `text` is its text, where it
/// can be read.
pub open spec fn project_file(loaded: LoadedProjectView, text: Option<Seq<char>>) -> Result<
    Seq<char>,
    Seq<char>,
> {
    match file_uri(loaded.m1prj_path) {
        Some(uri) => if text is Some {
            Ok(uri)
        } else {
            Err("cannot read the project file"@)
        },
        None => Err("cannot form a URL for the project file"@),
    }
}

pub open spec fn index_text(prj: Option<&LineIndex>) -> Option<Seq<char>> {
    match prj {
        Some(li) => Some(li@),
        None => None,
    }
}

pub(crate) fn load_prj_text<'a>(loaded: &LoadedProject, prj: Option<&'a LineIndex>) -> (r: Result<
    (String, &'a LineIndex),
    String,
>)
    ensures
        match r {
            Ok((uri, li)) => project_file(loaded.deep_view(), index_text(prj)) == Ok::<
                Seq<char>,
                Seq<char>,
            >(uri@) && prj == Some(li),
            Err(m) => project_file(loaded.deep_view(), index_text(prj)) == Err::<
                Seq<char>,
                Seq<char>,
            >(m@),
        },
{
    match uri_of_path(loaded.m1prj_path.as_str()) {
        Some(uri) => match prj {
            Some(li) => Ok((uri, li)),
            None => Err("cannot read the project file".to_string()),
        },
        None => Err("cannot form a URL for the project file".to_string()),
    }
}

/// Why a rename stops where the project file does not declare the symbol.
pub open spec fn not_declared(path: Seq<char>) -> Seq<char> {
    "could not locate the declaration of ‘"@ + path + "’ in the project file"@
}

pub(crate) fn not_declared_text(path: &str) -> (r: String)
    ensures
        r@ == not_declared(path@),
{
    let mut m = "could not locate the declaration of ‘".to_string();
    m.append(path);
    m.append("’ in the project file");
    m
}

/// `m` with the edits of the first `k` scripts.
pub open spec fn with_references(
    m: Seq<(Seq<char>, Seq<TextEditView>)>,
    scripts: Seq<ScriptView>,
    target: Seq<char>,
    new_name: Seq<char>,
    project: ProjectView,
    enc: PositionEncoding,
    k: int,
) -> Seq<(Seq<char>, Seq<TextEditView>)>
    decreases k,
{
    if k <= 0 {
        m
    } else {
        let rest = with_references(m, scripts, target, new_name, project, enc, k - 1);
        let edits = reference_edits(scripts[k - 1], target, new_name, project, enc);
        if edits.len() == 0 {
            rest
        } else {
            merged(rest, scripts[k - 1].uri, edits)
        }
    }
}

/// The rename of a symbol that only its declaration and its references name.
pub open spec fn leaf_rename(
    project: ProjectView,
    path: Seq<char>,
    new_name: Seq<char>,
    prj_uri: Seq<char>,
    prj: Seq<char>,
    scripts: Seq<ScriptView>,
    enc: PositionEncoding,
) -> Result<WorkspaceEditView, Seq<char>> {
    match declaration_edit(prj, path, new_name, enc) {
        Some(edit) => Ok(
            WorkspaceEditView {
                changes: Some(
                    with_references(
                        seq![(prj_uri, seq![edit])],
                        scripts,
                        path,
                        new_name,
                        project,
                        enc,
                        scripts.len() as int,
                    ),
                ),
                document_changes: None,
                change_annotations: None,
            },
        ),
        None => Err(not_declared(path)),
    }
}

pub(crate) fn rename_leaf(
    project: &Project,
    path: &str,
    new_name: &str,
    prj_uri: &str,
    prj: &LineIndex,
    scripts: &Vec<Script>,
    enc: PositionEncoding,
) -> (r: Result<WorkspaceEdit, String>)
    ensures
        outcome(r) == leaf_rename(
            project.deep_view(),
            path@,
            new_name@,
            prj_uri@,
            prj@,
            scripts.deep_view(),
            enc,
        ),
{
    let edit = match m1prj_name_edit(prj, path, new_name, enc) {
        Some(e) => e,
        None => {
            return Err(not_declared_text(path));
        },
    };
    let ghost ev = edit.deep_view();
    let mut changes: Vec<(String, Vec<TextEdit>)> = one((prj_uri.to_owned(), one(edit)));
    let ghost first = seq![(prj_uri@, seq![ev])];
    let ghost ss = scripts.deep_view();
    let mut k: usize = 0;
    while k < scripts.len()
        invariant
            k <= scripts@.len(),
            ss == scripts.deep_view(),
            changes.deep_view() == with_references(
                first,
                ss,
                path@,
                new_name@,
                project.deep_view(),
                enc,
                k as int,
            ),
        decreases scripts@.len() - k,
    {
        assert(ss[k as int] == scripts@[k as int].deep_view());
        let edits = collect_ref_edits(&scripts[k], path, new_name, project, enc);
        assert(edits.deep_view().len() == edits@.len());
        if edits.len() > 0 {
            merge(&mut changes, scripts[k].uri.as_str(), edits);
        }
        k = k + 1;
    }
    Ok(WorkspaceEdit { changes: Some(changes), document_changes: None, change_annotations: None })
}

/// The first script file, from index `i` on, of that name.
pub open spec fn script_path_at(files: Seq<Seq<char>>, name: Seq<char>, i: int) -> Option<Seq<char>>
    decreases files.len() - i,
{
    if i < 0 || i >= files.len() {
        None
    } else if base_name(files[i]) == Some(name) {
        Some(files[i])
    } else {
        script_path_at(files, name, i + 1)
    }
}

pub(crate) fn script_path<'a>(files: &'a Vec<String>, name: &str) -> (r: Option<&'a String>)
    ensures
        r.deep_view() == script_path_at(files.deep_view(), name@, 0),
{
    let ghost fs = files.deep_view();
    let mut i: usize = 0;
    while i < files.len()
        invariant
            i <= files@.len(),
            fs == files.deep_view(),
            script_path_at(fs, name@, 0) == script_path_at(fs, name@, i as int),
        decreases files@.len() - i,
    {
        assert(fs[i as int] == files@[i as int]@);
        if let Some(n) = file_name(files[i].as_str()) {
            if same(n.as_str(), name) {
                return Some(&files[i]);
            }
        }
        i = i + 1;
    }
    None
}

/// The move of the file at `path` to another name in its directory.
pub open spec fn file_move(path: Seq<char>, new_name: Seq<char>) -> Option<RenameFileView> {
    match (file_uri(path), file_uri(beside(path, new_name))) {
        (Some(old_uri), Some(new_uri)) => Some(
            RenameFileView { old_uri, new_uri, options: None, annotation_id: None },
        ),
        _ => None,
    }
}

pub(crate) fn move_file(path: &str, new_name: &str) -> (r: Option<RenameFile>)
    ensures
        r.deep_view() == file_move(path@, new_name@),
{
    match (uri_of_path(path), uri_of_path(with_file_name(path, new_name).as_str())) {
        (Some(old_uri), Some(new_uri)) => Some(
            RenameFile { old_uri, new_uri, options: None, annotation_id: None },
        ),
        _ => None,
    }
}

/// The steps with the edits of the first `k` scripts.
pub open spec fn with_reference_steps(
    ops: Seq<DocumentChangeOperationView>,
    scripts: Seq<ScriptView>,
    target: Seq<char>,
    new_name: Seq<char>,
    project: ProjectView,
    enc: PositionEncoding,
    k: int,
) -> Seq<DocumentChangeOperationView>
    decreases k,
{
    if k <= 0 {
        ops
    } else {
        let rest = with_reference_steps(ops, scripts, target, new_name, project, enc, k - 1);
        let edits = reference_edits(scripts[k - 1], target, new_name, project, enc);
        if edits.len() == 0 {
            rest
        } else {
            rest.push(edit_step(scripts[k - 1].uri, edits))
        }
    }
}

pub(crate) fn add_reference_steps(
    ops: &mut Vec<DocumentChangeOperation>,
    scripts: &Vec<Script>,
    target: &str,
    new_name: &str,
    project: &Project,
    enc: PositionEncoding,
)
    ensures
        final(ops).deep_view() == with_reference_steps(
            old(ops).deep_view(),
            scripts.deep_view(),
            target@,
            new_name@,
            project.deep_view(),
            enc,
            scripts@.len() as int,
        ),
{
    let ghost first = ops.deep_view();
    let ghost ss = scripts.deep_view();
    let mut k: usize = 0;
    while k < scripts.len()
        invariant
            k <= scripts@.len(),
            ss == scripts.deep_view(),
            ops.deep_view() == with_reference_steps(
                first,
                ss,
                target@,
                new_name@,
                project.deep_view(),
                enc,
                k as int,
            ),
        decreases scripts@.len() - k,
    {
        assert(ss[k as int] == scripts@[k as int].deep_view());
        let edits = collect_ref_edits(&scripts[k], target, new_name, project, enc);
        assert(edits.deep_view().len() == edits@.len());
        if edits.len() > 0 {
            put(ops, text_doc_edit(scripts[k].uri.as_str(), &edits));
        }
        k = k + 1;
    }
}

// ---------------------------------------------------------------------------
// Laws
// ---------------------------------------------------------------------------

proof fn lemma_merged(
    m: Seq<(Seq<char>, Seq<TextEditView>)>,
    uri: Seq<char>,
    edits: Seq<TextEditView>,
)
    requires
        keys_differ(m),
    ensures
        keys_differ(merged(m, uri, edits)),
{
    lemma_key_index(m, uri, 0);
    let r = merged(m, uri, edits);
    assert forall|i: int, j: int| 0 <= i < j < r.len() implies (#[trigger] r[i]).0 != (
    #[trigger] r[j]).0 by {
        if j < m.len() {
            assert(r[i].0 == m[i].0 && r[j].0 == m[j].0);
        }
    }
}

/// A rename lists every document once.
pub proof fn renamed_documents_are_distinct(
    m: Seq<(Seq<char>, Seq<TextEditView>)>,
    scripts: Seq<ScriptView>,
    target: Seq<char>,
    new_name: Seq<char>,
    project: ProjectView,
    enc: PositionEncoding,
    k: int,
)
    requires
        keys_differ(m),
    ensures
        keys_differ(with_references(m, scripts, target, new_name, project, enc, k)),
    decreases k,
{
    if k > 0 {
        renamed_documents_are_distinct(m, scripts, target, new_name, project, enc, k - 1);
        lemma_merged(
            with_references(m, scripts, target, new_name, project, enc, k - 1),
            scripts[k - 1].uri,
            reference_edits(scripts[k - 1], target, new_name, project, enc),
        );
    }
}

} // verus!
