//! Renaming of a function or a method, with the script that it is written in.
use crate::code_lens::{leaf, leaf_name};
use crate::completion::{unrooted, without_root};
use crate::edits::{
    by_steps, DocumentChangeOperation, DocumentChangeOperationView, DocumentChanges, edit_step,
    RenameFile, text_doc_edit, TextEdit, TextEditView, WorkspaceEdit, WorkspaceEditView,
};
use crate::line_index::{LineIndex, PositionEncoding, range_of};
use crate::list::{one, put};
use crate::model::{LoadedProject, LoadedProjectView, Symbol, SymbolView};
use crate::references::{Script, ScriptView};
use crate::rename::changes::{
    add_reference_steps, check_new_name, file_move, index_text, load_prj_text, move_file,
    name_conflict, not_declared, not_declared_text, outcome, project_file, script_path,
    script_path_at, with_reference_steps,
};
use crate::rename::resolve::{
    declaration_edit, edit_span, m1prj_name_edit, path_with_leaf, with_leaf,
};
use crate::search::{before_suffix, find, first_match, strip_suffix};
use crate::text::{byte_at, chars, string};
use vstd::prelude::*;
use vstd::string::*;

verus! {

/// A file name whose last word, in front of `.m1scr`, is `old_leaf`, with another last word.
/// None where it ends in another word.
pub open spec fn trailing_leaf_renamed(
    file: Seq<char>,
    old_leaf: Seq<char>,
    new_name: Seq<char>,
) -> Option<Seq<char>> {
    match before_suffix(file, ".m1scr"@) {
        Some(stem) => match before_suffix(stem, old_leaf) {
            Some(head) => if head.len() == 0 || head.last() == '.' || head.last() == ' ' {
                Some(head + new_name + ".m1scr"@)
            } else {
                None
            },
            None => None,
        },
        None => None,
    }
}

/// A file name with another last word.
pub fn rewrite_trailing_leaf(file: &str, old_leaf: &str, new_name: &str) -> (r: Option<String>)
    ensures
        r.deep_view() == trailing_leaf_renamed(file@, old_leaf@, new_name@),
{
    match strip_suffix(&chars(file), &chars(".m1scr")) {
        Some(stem) => {
            assert(stem.deep_view() =~= stem@);
            match strip_suffix(&stem, &chars(old_leaf)) {
                Some(head) => {
                    assert(head.deep_view() =~= head@);
                    let n: usize = head.len();
                    if n == 0 || head[n - 1] == '.' || head[n - 1] == ' ' {
                        let mut r = string(&head);
                        r.append(new_name);
                        r.append(".m1scr");
                        Some(r)
                    } else {
                        None
                    }
                },
                None => None,
            }
        },
        None => None,
    }
}

/// The file of a script, the file that it moves to, and whether the project names the file.
/// None where the file does not have the name of the symbol, and so stays.
pub open spec fn backing_move(sym: SymbolView, new_name: Seq<char>) -> Option<
    (Seq<char>, Seq<char>, bool),
> {
    match sym.filename {
        None => Some(
            (
                unrooted(sym.path) + ".m1scr"@,
                unrooted(with_leaf(sym.path, new_name)) + ".m1scr"@,
                false,
            ),
        ),
        Some(f) => match trailing_leaf_renamed(f, leaf_name(sym.path), new_name) {
            Some(g) => Some((f, g, true)),
            None => None,
        },
    }
}

fn func_backing_basenames(sym: &Symbol, new_name: &str) -> (r: Option<(String, String, bool)>)
    ensures
        r.deep_view() == backing_move(sym.deep_view(), new_name@),
{
    match &sym.filename {
        None => {
            let mut old_base = without_root(sym.path.as_str());
            old_base.append(".m1scr");
            let full = path_with_leaf(sym.path.as_str(), new_name);
            let mut new_base = without_root(full.as_str());
            new_base.append(".m1scr");
            Some((old_base, new_base, false))
        },
        Some(f) => match rewrite_trailing_leaf(
            f.as_str(),
            leaf(sym.path.as_str()).as_str(),
            new_name,
        ) {
            Some(g) => Some((f.clone(), g, true)),
            None => None,
        },
    }
}

/// Why a script cannot be renamed whose file is not there.
pub open spec fn no_script(path: Seq<char>, file: Seq<char>) -> Seq<char> {
    "‘"@ + path + "’ has no locatable backing script ("@ + file
        + "); rename that file before renaming the symbol so references aren't silently broken"@
}

/// The edit of the first `Filename` attribute with that value.
pub open spec fn filename_edit(
    s: Seq<char>,
    old_file: Seq<char>,
    new_file: Seq<char>,
    enc: PositionEncoding,
) -> Option<TextEditView> {
    match first_match(s, "Filename=\""@ + old_file + "\""@, 0) {
        Some(m) => {
            let a = m + "Filename=\""@.len();
            let z = a + old_file.len();
            Some(
                TextEditView {
                    range: range_of(s, byte_at(s, a) as int, byte_at(s, z) as int, enc),
                    new_text: new_file,
                },
            )
        },
        None => None,
    }
}

fn edit_filename(prj: &LineIndex, old_file: &str, new_file: &str, enc: PositionEncoding) -> (r:
    Option<TextEdit>)
    ensures
        r.deep_view() == filename_edit(prj@, old_file@, new_file@, enc),
{
    let v = prj.characters();
    let n: usize = v.len();
    let mut needle = "Filename=\"".to_string();
    needle.append(old_file);
    needle.append("\"");
    let p = chars(needle.as_str());
    proof {
        reveal_strlit("Filename=\"");
        reveal_strlit("\"");
    }
    match find(v, &p, 0) {
        Some(m) => {
            assert(m + p@.len() <= n);
            let a: usize = m + 10;
            let z: usize = m + (p.len() - 1);
            Some(edit_span(prj, a, z, new_file, enc))
        },
        None => None,
    }
}

/// The edits of the project file: of the declaration, and of the file that it names.
pub open spec fn script_declaration_edits(
    prj: Seq<char>,
    edit: TextEditView,
    backing: Option<(Seq<char>, Seq<char>, bool)>,
    enc: PositionEncoding,
) -> Seq<TextEditView> {
    match backing {
        Some((old_file, new_file, named)) => match filename_edit(prj, old_file, new_file, enc) {
            Some(e) if named => seq![edit, e],
            _ => seq![edit],
        },
        None => seq![edit],
    }
}

/// The rename of a function or a method.
pub open spec fn script_rename(
    loaded: LoadedProjectView,
    sym: SymbolView,
    new_name: Seq<char>,
    prj: Option<Seq<char>>,
    scripts: Seq<ScriptView>,
    enc: PositionEncoding,
) -> Result<WorkspaceEditView, Seq<char>> {
    let backing = backing_move(sym, new_name);
    let disk = match backing {
        Some((old_file, new_file, named)) => script_path_at(loaded.script_files, old_file, 0),
        None => None,
    };
    let moved = match (backing, disk) {
        (Some((old_file, new_file, named)), Some(path)) => file_move(path, new_file),
        _ => None,
    };
    if name_conflict(loaded.project, sym.path, new_name) is Some {
        Err(name_conflict(loaded.project, sym.path, new_name).unwrap())
    } else if backing is Some && disk is None {
        Err(no_script(sym.path, backing.unwrap().0))
    } else {
        match project_file(loaded, prj) {
            Ok(uri) => match declaration_edit(prj.unwrap(), sym.path, new_name, enc) {
                Some(edit) => {
                    let first = edit_step(
                        uri,
                        script_declaration_edits(prj.unwrap(), edit, backing, enc),
                    );
                    let ops = with_reference_steps(
                        seq![first],
                        scripts,
                        sym.path,
                        new_name,
                        loaded.project,
                        enc,
                        scripts.len() as int,
                    );
                    Ok(
                        by_steps(
                            match moved {
                                Some(m) => ops.push(DocumentChangeOperationView::Rename(m)),
                                None => ops,
                            },
                        ),
                    )
                },
                None => Err(not_declared(sym.path)),
            },
            Err(m) => Err(m),
        }
    }
}

/// Renames a function or a method: its declaration, every reference to it, and its file.
pub(crate) fn execute_func_method(
    sym: &Symbol,
    new_name: &str,
    enc: PositionEncoding,
    loaded: &LoadedProject,
    prj: Option<&LineIndex>,
    scripts: &Vec<Script>,
) -> (r: Result<WorkspaceEdit, String>)
    ensures
        outcome(r) == script_rename(
            loaded.deep_view(),
            sym.deep_view(),
            new_name@,
            index_text(prj),
            scripts.deep_view(),
            enc,
        ),
{
    let project = &loaded.project;
    let path = sym.path.as_str();
    if let Some(m) = check_new_name(project, path, new_name) {
        return Err(m);
    }
    let backing = func_backing_basenames(sym, new_name);
    let mut moved: Option<RenameFile> = None;
    if let Some((old_file, new_file, named)) = &backing {
        match script_path(&loaded.script_files, old_file.as_str()) {
            Some(disk) => {
                moved = move_file(disk.as_str(), new_file.as_str());
            },
            None => {
                let mut m = "‘".to_string();
                m.append(path);
                m.append("’ has no locatable backing script (");
                m.append(old_file.as_str());
                m.append(
                    "); rename that file before renaming the symbol so references aren't silently broken",
                );
                return Err(m);
            },
        }
    }
    let (uri, li) = match load_prj_text(loaded, prj) {
        Ok(p) => p,
        Err(m) => {
            return Err(m);
        },
    };
    let edit = match m1prj_name_edit(li, path, new_name, enc) {
        Some(e) => e,
        None => {
            return Err(not_declared_text(path));
        },
    };
    let ghost ev = edit.deep_view();
    let mut edits = one(edit);
    if let Some((old_file, new_file, named)) = &backing {
        if *named {
            if let Some(e) = edit_filename(li, old_file.as_str(), new_file.as_str(), enc) {
                let ghost e2 = e.deep_view();
                put(&mut edits, e);
                assert(edits.deep_view() =~= seq![ev, e2]);
            }
        }
    }
    assert(edits.deep_view() == script_declaration_edits(li@, ev, backing.deep_view(), enc));
    let mut ops = one(text_doc_edit(uri.as_str(), &edits));
    add_reference_steps(&mut ops, scripts, path, new_name, project, enc);
    if let Some(m) = moved {
        put(&mut ops, DocumentChangeOperation::Rename(m));
    }
    Ok(
        WorkspaceEdit {
            changes: None,
            document_changes: Some(DocumentChanges::Operations(ops)),
            change_annotations: None,
        },
    )
}

// ---------------------------------------------------------------------------
// Laws
// ---------------------------------------------------------------------------

/// Renaming the last word of a file name and back gives the file name.
pub proof fn trailing_leaf_rename_inverts(
    file: Seq<char>,
    old_leaf: Seq<char>,
    new_name: Seq<char>,
)
    requires
        trailing_leaf_renamed(file, old_leaf, new_name) is Some,
    ensures
        trailing_leaf_renamed(
            trailing_leaf_renamed(file, old_leaf, new_name).unwrap(),
            new_name,
            old_leaf,
        ) == Some(file),
{
    let ext = ".m1scr"@;
    let stem = before_suffix(file, ext).unwrap();
    let head = before_suffix(stem, old_leaf).unwrap();
    let new_file = head + new_name + ext;
    let new_stem = head + new_name;
    assert(new_file.subrange(new_file.len() - ext.len(), new_file.len() as int) =~= ext);
    assert(new_file.take(new_file.len() - ext.len()) =~= new_stem);
    assert(new_stem.subrange(new_stem.len() - new_name.len(), new_stem.len() as int) =~= new_name);
    assert(new_stem.take(new_stem.len() - new_name.len()) =~= head);
    assert(stem =~= head + old_leaf);
    assert(file =~= stem + ext);
    assert(head + old_leaf + ext =~= file);
}

} // verus!
