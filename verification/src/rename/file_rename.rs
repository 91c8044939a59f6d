//! Renaming of a script in the file explorer, and what that means for the project.
//!
//! A script belongs to a symbol by the file that the project names for it, or by its own
//! name, which is then the path of the symbol. So a file that the project names needs its
//! attribute changed, and a file whose name changes in the segment of one group is the
//! rename of that group. Any other rename is one of the symbol, and is refused here.
use crate::edits::{
    by_steps, DocumentChangeOperation, DocumentChangeOperationView, DocumentChanges,
    DocumentChangesView, edit_step, text_doc_edit, WorkspaceEdit, WorkspaceEditView,
};
use crate::line_index::{LineIndex, PositionEncoding};
use crate::list::{fresh, one, put};
use crate::model::{LoadedProject, LoadedProjectView};
use crate::paths::{file_name_of, is_same_file, same_file, same_strings, uri_file_name};
use crate::references::{Script, ScriptView};
use crate::rename::changes::{index_text, load_prj_text, project_file};
use crate::rename::group::{all_filename_edits, execute_group, filename_edits, group_rename};
use crate::search::{before_suffix, join, joined, split, split_on, strip_suffix};
use crate::text::{chars, same, string};
use vstd::prelude::*;
use vstd::string::*;

verus! {

/// The indices, below `k`, at which the two lists differ.
pub open spec fn changed_upto(a: Seq<Seq<char>>, b: Seq<Seq<char>>, k: int) -> Seq<usize>
    decreases k,
{
    if k <= 0 {
        Seq::empty()
    } else {
        let i = k - 1;
        let differ = if i < a.len() && i < b.len() {
            a[i] != b[i]
        } else {
            i < a.len() || i < b.len()
        };
        if differ {
            changed_upto(a, b, k - 1).push(i as usize)
        } else {
            changed_upto(a, b, k - 1)
        }
    }
}

/// The one segment in which two names of as many segments differ.
pub open spec fn changed_segment(a: Seq<Seq<char>>, b: Seq<Seq<char>>) -> Option<usize> {
    let changed = changed_upto(a, b, a.len() as int);
    if a.len() == b.len() && changed.len() == 1 {
        Some(changed[0])
    } else {
        None
    }
}

/// The file name without its extension, or all of it.
pub open spec fn script_stem(name: Seq<char>) -> Seq<char> {
    match before_suffix(name, ".m1scr"@) {
        Some(stem) => stem,
        None => name,
    }
}

pub open spec fn from_to(old_base: Seq<char>, new_base: Seq<char>) -> Seq<char> {
    "renaming ‘"@ + old_base + "’ to ‘"@ + new_base
}

pub open spec fn drops_extension(old_base: Seq<char>, new_base: Seq<char>, path: Seq<char>) -> Seq<
    char,
> {
    from_to(old_base, new_base)
        + "’ drops the .m1scr extension — the project mapping for ‘"@ + path + "’ would break"@
}

pub open spec fn breaks_convention(old_base: Seq<char>, new_base: Seq<char>, path: Seq<char>) -> Seq<
    char,
> {
    from_to(old_base, new_base)
        + "’ does not map onto the filename↔symbol convention for ‘"@ + path
        + "’ — rename the symbol in the editor instead (that cascades to the file), or update the .m1prj’s Filename attribute"@
}

pub open spec fn changes_function(old_base: Seq<char>, new_base: Seq<char>, path: Seq<char>) -> Seq<
    char,
> {
    from_to(old_base, new_base) + "’ changes the function name — rename ‘"@ + path
        + "’ in the editor instead, which renames the file and updates every reference"@
}

pub open spec fn no_group(old_base: Seq<char>, group: Seq<char>) -> Seq<char> {
    "‘"@ + old_base + "’ encodes group ‘"@ + group
        + "’, which is not declared in the project — update the .m1prj manually"@
}

/// The group that the first `i + 1` segments of a file name stand for.
pub open spec fn group_of(parts: Seq<Seq<char>>, i: int) -> Seq<char> {
    "Root."@ + joined(parts.take(i + 1), "."@)
}

// ---------------------------------------------------------------------------
// The rename that the user makes
// ---------------------------------------------------------------------------

/// The step moves the file.
pub open spec fn moves_file(op: DocumentChangeOperationView, uri: Seq<char>) -> bool {
    match op {
        DocumentChangeOperationView::Rename(r) => same_file(r.old_uri, uri),
        _ => false,
    }
}

/// The first `k` steps, without those that move the file.
pub open spec fn other_steps(ops: Seq<DocumentChangeOperationView>, uri: Seq<char>, k: int) -> Seq<
    DocumentChangeOperationView,
>
    decreases k,
{
    if k <= 0 {
        Seq::empty()
    } else if moves_file(ops[k - 1], uri) {
        other_steps(ops, uri, k - 1)
    } else {
        other_steps(ops, uri, k - 1).push(ops[k - 1])
    }
}

/// The name that the last of the first `k` steps which moves the file gives it.
pub open spec fn planned_name(ops: Seq<DocumentChangeOperationView>, uri: Seq<char>, k: int) -> Option<
    Seq<char>,
>
    decreases k,
{
    if k <= 0 {
        None
    } else {
        match ops[k - 1] {
            DocumentChangeOperationView::Rename(r) if same_file(r.old_uri, uri) => uri_file_name(
                r.new_uri,
            ),
            _ => planned_name(ops, uri, k - 1),
        }
    }
}

pub open spec fn other_plan(planned: Seq<char>, new_base: Seq<char>) -> Seq<char> {
    "the group cascade for this rename would name the file ‘"@ + planned + "’, not ‘"@ + new_base
        + "’ — rename the group symbol in the editor instead"@
}

pub open spec fn no_plan() -> Seq<char> {
    "this file rename does not correspond to the group cascade; update the .m1prj manually"@
}

/// The steps without the move that the user makes, if that is the move they would make.
pub open spec fn without_requested(
    ops: Seq<DocumentChangeOperationView>,
    uri: Seq<char>,
    new_base: Seq<char>,
) -> Result<Seq<DocumentChangeOperationView>, Seq<char>> {
    let n = ops.len() as int;
    match planned_name(ops, uri, n) {
        Some(p) => if p == new_base {
            Ok(other_steps(ops, uri, n))
        } else {
            Err(other_plan(p, new_base))
        },
        None => Err(no_plan()),
    }
}

fn strip_requested_rename(ops: Vec<DocumentChangeOperation>, uri: &str, new_base: &str) -> (r: Result<
    Vec<DocumentChangeOperation>,
    String,
>)
    ensures
        ({
            let all = without_requested(ops.deep_view(), uri@, new_base@);
            match r {
                Ok(v) => all == Ok::<Seq<DocumentChangeOperationView>, Seq<char>>(v.deep_view()),
                Err(m) => all == Err::<Seq<DocumentChangeOperationView>, Seq<char>>(m@),
            }
        }),
{
    let ghost os = ops.deep_view();
    let mut ops = ops;
    let count: usize = ops.len();
    let mut planned: Option<String> = None;
    let mut kept: Vec<DocumentChangeOperation> = fresh();
    let mut k: usize = 0;
    while k < count
        invariant
            k <= count == os.len(),
            ops@.len() == count - k,
            ops.deep_view() =~= os.skip(k as int),
            planned.deep_view() == planned_name(os, uri@, k as int),
            kept.deep_view() == other_steps(os, uri@, k as int),
        decreases count - k,
    {
        let ghost before = ops.deep_view();
        assert(before[0] == os[k as int]);
        let op = ops.remove(0);
        assert(op.deep_view() == before[0]);
        assert(ops.deep_view() =~= before.skip(1));
        let mine = match &op {
            DocumentChangeOperation::Rename(r) => {
                if is_same_file(r.old_uri.as_str(), uri) {
                    planned = file_name_of(r.new_uri.as_str());
                    true
                } else {
                    false
                }
            },
            _ => false,
        };
        if !mine {
            put(&mut kept, op);
        }
        k = k + 1;
    }
    match planned {
        Some(p) => {
            if same(p.as_str(), new_base) {
                Ok(kept)
            } else {
                let mut m = "the group cascade for this rename would name the file ‘".to_string();
                m.append(p.as_str());
                m.append("’, not ‘");
                m.append(new_base);
                m.append("’ — rename the group symbol in the editor instead");
                Err(m)
            }
        },
        None => Err(
            "this file rename does not correspond to the group cascade; update the .m1prj manually".to_string(),
        ),
    }
}

// ---------------------------------------------------------------------------
// The change of the project
// ---------------------------------------------------------------------------

/// The change of the attribute that names the file.
pub open spec fn attribute_change(
    loaded: LoadedProjectView,
    old_base: Seq<char>,
    new_base: Seq<char>,
    prj: Option<Seq<char>>,
    enc: PositionEncoding,
) -> Result<Option<WorkspaceEditView>, Seq<char>> {
    match project_file(loaded, prj) {
        Ok(uri) => {
            let edits = all_filename_edits(prj.unwrap(), old_base, new_base, enc);
            if edits.len() == 0 {
                Ok(None)
            } else {
                Ok(Some(by_steps(seq![edit_step(uri, edits)])))
            }
        },
        Err(m) => Err(m),
    }
}

/// The rename of the group that the file name holds, without the move that the user makes.
pub open spec fn group_change(
    loaded: LoadedProjectView,
    group: Seq<char>,
    new_name: Seq<char>,
    old_uri: Seq<char>,
    new_base: Seq<char>,
    prj: Option<Seq<char>>,
    scripts: Seq<ScriptView>,
    enc: PositionEncoding,
) -> Result<Option<WorkspaceEditView>, Seq<char>> {
    match group_rename(loaded, group, new_name, prj, scripts, enc) {
        Err(m) => Err(m),
        Ok(edit) => match edit.document_changes {
            Some(DocumentChangesView::Operations(ops)) => match without_requested(
                ops,
                old_uri,
                new_base,
            ) {
                Ok(rest) => Ok(Some(by_steps(rest))),
                Err(m) => Err(m),
            },
            _ => Ok(Some(edit)),
        },
    }
}

/// The change for a file that has the name of its symbol.
pub open spec fn convention_change(
    loaded: LoadedProjectView,
    path: Seq<char>,
    old_base: Seq<char>,
    new_base: Seq<char>,
    old_uri: Seq<char>,
    prj: Option<Seq<char>>,
    scripts: Seq<ScriptView>,
    enc: PositionEncoding,
) -> Result<Option<WorkspaceEditView>, Seq<char>> {
    match before_suffix(new_base, ".m1scr"@) {
        None => Err(drops_extension(old_base, new_base, path)),
        Some(new_stem) => {
            let olds = split(script_stem(old_base), '.');
            let news = split(new_stem, '.');
            if olds == news {
                Ok(None)
            } else {
                match changed_segment(olds, news) {
                    None => Err(breaks_convention(old_base, new_base, path)),
                    Some(i) => if i == olds.len() - 1 {
                        Err(changes_function(old_base, new_base, path))
                    } else {
                        let group = group_of(olds, i as int);
                        if loaded.project.get(group) is Some {
                            group_change(
                                loaded,
                                group,
                                news[i as int],
                                old_uri,
                                new_base,
                                prj,
                                scripts,
                                enc,
                            )
                        } else {
                            Err(no_group(old_base, group))
                        }
                    },
                }
            }
        },
    }
}

/// The change that keeps the project in step with the rename of a file. `path` is the path
/// of the symbol that the old file belongs to.
pub open spec fn file_change(
    old_uri: Seq<char>,
    new_uri: Seq<char>,
    enc: PositionEncoding,
    loaded: LoadedProjectView,
    path: Option<Seq<char>>,
    prj: Option<Seq<char>>,
    scripts: Seq<ScriptView>,
) -> Result<Option<WorkspaceEditView>, Seq<char>> {
    match (uri_file_name(old_uri), uri_file_name(new_uri), path) {
        (Some(old_base), Some(new_base), Some(path)) => if old_base == new_base {
            Ok(None)
        } else {
            match loaded.project.get(path) {
                Some(sym) => if sym.filename == Some(old_base) {
                    attribute_change(loaded, old_base, new_base, prj, enc)
                } else {
                    convention_change(
                        loaded,
                        path,
                        old_base,
                        new_base,
                        old_uri,
                        prj,
                        scripts,
                        enc,
                    )
                },
                None => Ok(None),
            }
        },
        _ => Ok(None),
    }
}

/// What the rename of a file comes to.
pub open spec fn file_outcome(r: Result<Option<WorkspaceEdit>, String>) -> Result<
    Option<WorkspaceEditView>,
    Seq<char>,
> {
    match r {
        Ok(Some(e)) => Ok(Some(e.deep_view())),
        Ok(None) => Ok(None),
        Err(m) => Err(m@),
    }
}

fn change_attribute(
    loaded: &LoadedProject,
    old_base: &str,
    new_base: &str,
    prj: Option<&LineIndex>,
    enc: PositionEncoding,
) -> (r: Result<Option<WorkspaceEdit>, String>)
    ensures
        file_outcome(r) == attribute_change(
            loaded.deep_view(),
            old_base@,
            new_base@,
            index_text(prj),
            enc,
        ),
{
    match load_prj_text(loaded, prj) {
        Ok((uri, li)) => {
            let edits = filename_edits(li, old_base, new_base, enc);
            assert(edits.deep_view().len() == edits@.len());
            if edits.len() == 0 {
                return Ok(None);
            }
            let ops = one(text_doc_edit(uri.as_str(), &edits));
            Ok(
                Some(
                    WorkspaceEdit {
                        changes: None,
                        document_changes: Some(DocumentChanges::Operations(ops)),
                        change_annotations: None,
                    },
                ),
            )
        },
        Err(m) => Err(m),
    }
}

proof fn lemma_changed_bounds(a: Seq<Seq<char>>, b: Seq<Seq<char>>, k: int)
    requires
        0 <= k <= a.len() <= usize::MAX,
    ensures
        forall|i: int|
            0 <= i < changed_upto(a, b, k).len() ==> (#[trigger] changed_upto(a, b, k)[i]) < k,
    decreases k,
{
    if k > 0 {
        lemma_changed_bounds(a, b, k - 1);
        let rest = changed_upto(a, b, k - 1);
        let all = changed_upto(a, b, k);
        assert forall|i: int| 0 <= i < all.len() implies (#[trigger] all[i]) < k by {
            if i < rest.len() {
                assert(all[i] == rest[i]);
            }
        }
    }
}

fn find_changed(a: &Vec<String>, b: &Vec<String>) -> (r: Option<usize>)
    ensures
        r == changed_segment(a.deep_view(), b.deep_view()),
        r matches Some(i) ==> i < a@.len() && a@.len() == b@.len(),
{
    let ghost av = a.deep_view();
    let ghost bv = b.deep_view();
    let count: usize = a.len();
    if count != b.len() {
        return None;
    }
    let mut changed: Vec<usize> = Vec::new();
    let mut k: usize = 0;
    while k < count
        invariant
            k <= count == a@.len(),
            a@.len() == b@.len(),
            av == a.deep_view(),
            bv == b.deep_view(),
            changed@ == changed_upto(av, bv, k as int),
        decreases count - k,
    {
        assert(av[k as int] == a@[k as int]@);
        assert(bv[k as int] == b@[k as int]@);
        if !same(a[k].as_str(), b[k].as_str()) {
            changed.push(k);
        }
        k = k + 1;
    }
    proof {
        lemma_changed_bounds(av, bv, count as int);
    }
    if changed.len() == 1 {
        Some(changed[0])
    } else {
        None
    }
}

fn refusal(old_base: &str, new_base: &str, why: &str, path: &str, end: &str) -> (r: String)
    ensures
        r@ == from_to(old_base@, new_base@) + why@ + path@ + end@,
{
    let mut m = "renaming ‘".to_string();
    m.append(old_base);
    m.append("’ to ‘");
    m.append(new_base);
    m.append(why);
    m.append(path);
    m.append(end);
    m
}

fn change_group(
    loaded: &LoadedProject,
    group: &str,
    new_name: &str,
    old_uri: &str,
    new_base: &str,
    prj: Option<&LineIndex>,
    scripts: &Vec<Script>,
    enc: PositionEncoding,
) -> (r: Result<Option<WorkspaceEdit>, String>)
    ensures
        file_outcome(r) == group_change(
            loaded.deep_view(),
            group@,
            new_name@,
            old_uri@,
            new_base@,
            index_text(prj),
            scripts.deep_view(),
            enc,
        ),
{
    let edit = match execute_group(group, new_name, enc, loaded, prj, scripts) {
        Ok(e) => e,
        Err(m) => {
            return Err(m);
        },
    };
    match edit.document_changes {
        Some(DocumentChanges::Operations(ops)) => match strip_requested_rename(
            ops,
            old_uri,
            new_base,
        ) {
            Ok(rest) => Ok(
                Some(
                    WorkspaceEdit {
                        changes: None,
                        document_changes: Some(DocumentChanges::Operations(rest)),
                        change_annotations: None,
                    },
                ),
            ),
            Err(m) => Err(m),
        },
        _ => Ok(Some(edit)),
    }
}

fn change_by_convention(
    loaded: &LoadedProject,
    path: &str,
    old_base: &str,
    new_base: &str,
    old_uri: &str,
    prj: Option<&LineIndex>,
    scripts: &Vec<Script>,
    enc: PositionEncoding,
) -> (r: Result<Option<WorkspaceEdit>, String>)
    ensures
        file_outcome(r) == convention_change(
            loaded.deep_view(),
            path@,
            old_base@,
            new_base@,
            old_uri@,
            index_text(prj),
            scripts.deep_view(),
            enc,
        ),
{
    let ext = chars(".m1scr");
    let new_stem = match strip_suffix(&chars(new_base), &ext) {
        Some(stem) => {
            assert(stem.deep_view() =~= stem@);
            string(&stem)
        },
        None => {
            return Err(
                refusal(
                    old_base,
                    new_base,
                    "’ drops the .m1scr extension — the project mapping for ‘",
                    path,
                    "’ would break",
                ),
            );
        },
    };
    let old_stem = match strip_suffix(&chars(old_base), &ext) {
        Some(stem) => {
            assert(stem.deep_view() =~= stem@);
            string(&stem)
        },
        None => old_base.to_owned(),
    };
    let olds = split_on(old_stem.as_str(), '.');
    let news = split_on(new_stem.as_str(), '.');
    assert(olds.deep_view().len() == olds@.len());
    if same_strings(&olds, &news) {
        return Ok(None);
    }
    let i: usize = match find_changed(&olds, &news) {
        Some(i) => i,
        None => {
            return Err(
                refusal(
                    old_base,
                    new_base,
                    "’ does not map onto the filename↔symbol convention for ‘",
                    path,
                    "’ — rename the symbol in the editor instead (that cascades to the file), or update the .m1prj’s Filename attribute",
                ),
            );
        },
    };
    if i == olds.len() - 1 {
        return Err(
            refusal(
                old_base,
                new_base,
                "’ changes the function name — rename ‘",
                path,
                "’ in the editor instead, which renames the file and updates every reference",
            ),
        );
    }
    let mut group = "Root.".to_string();
    group.append(join(&olds, i + 1, ".").as_str());
    assert(group@ == group_of(olds.deep_view(), i as int));
    if loaded.project.get(group.as_str()).is_none() {
        let mut m = "‘".to_string();
        m.append(old_base);
        m.append("’ encodes group ‘");
        m.append(group.as_str());
        m.append("’, which is not declared in the project — update the .m1prj manually");
        return Err(m);
    }
    assert(news.deep_view()[i as int] == news@[i as int]@);
    change_group(
        loaded,
        group.as_str(),
        news[i].as_str(),
        old_uri,
        new_base,
        prj,
        scripts,
        enc,
    )
}

/// The change that keeps the project in step with the rename of a file: none where the file
/// belongs to no symbol. `path` is the path of the symbol that the old file belongs to, and
/// `prj` the text of the project file, where it can be read.
pub fn execute_file_rename(
    old_uri: &str,
    new_uri: &str,
    enc: PositionEncoding,
    loaded: &LoadedProject,
    path: Option<&str>,
    prj: Option<&LineIndex>,
    scripts: &Vec<Script>,
) -> (r: Result<Option<WorkspaceEdit>, String>)
    ensures
        file_outcome(r) == file_change(
            old_uri@,
            new_uri@,
            enc,
            loaded.deep_view(),
            path.deep_view(),
            index_text(prj),
            scripts.deep_view(),
        ),
{
    let (old_base, new_base) = match (file_name_of(old_uri), file_name_of(new_uri)) {
        (Some(a), Some(b)) => (a, b),
        _ => {
            return Ok(None);
        },
    };
    let path = match path {
        Some(p) => p,
        None => {
            return Ok(None);
        },
    };
    if same(old_base.as_str(), new_base.as_str()) {
        return Ok(None);
    }
    let sym = match loaded.project.get(path) {
        Some(s) => s,
        None => {
            return Ok(None);
        },
    };
    let named = match &sym.filename {
        Some(f) => same(f.as_str(), old_base.as_str()),
        None => false,
    };
    if named {
        change_attribute(loaded, old_base.as_str(), new_base.as_str(), prj, enc)
    } else {
        change_by_convention(
            loaded,
            path,
            old_base.as_str(),
            new_base.as_str(),
            old_uri,
            prj,
            scripts,
            enc,
        )
    }
}

// ---------------------------------------------------------------------------
// Laws
// ---------------------------------------------------------------------------

/// A file that keeps its name needs no change, wherever it moves.
pub proof fn moves_need_no_change(
    old_uri: Seq<char>,
    new_uri: Seq<char>,
    enc: PositionEncoding,
    loaded: LoadedProjectView,
    path: Option<Seq<char>>,
    prj: Option<Seq<char>>,
    scripts: Seq<ScriptView>,
)
    requires
        uri_file_name(old_uri) == uri_file_name(new_uri),
    ensures
        file_change(old_uri, new_uri, enc, loaded, path, prj, scripts) == Ok::<
            Option<WorkspaceEditView>,
            Seq<char>,
        >(None),
{
}

proof fn lemma_other_steps(ops: Seq<DocumentChangeOperationView>, uri: Seq<char>, k: int)
    requires
        0 <= k <= ops.len(),
    ensures
        forall|i: int|
            0 <= i < other_steps(ops, uri, k).len() ==> !moves_file(
                #[trigger] other_steps(ops, uri, k)[i],
                uri,
            ),
    decreases k,
{
    if k > 0 {
        lemma_other_steps(ops, uri, k - 1);
        let rest = other_steps(ops, uri, k - 1);
        let all = other_steps(ops, uri, k);
        assert forall|i: int| 0 <= i < all.len() implies !moves_file(#[trigger] all[i], uri) by {
            if i < rest.len() {
                assert(all[i] == rest[i]);
            }
        }
    }
}

/// What a file rename asks for never moves that file: the user does so already.
pub proof fn requested_move_is_left_out(
    old_uri: Seq<char>,
    new_uri: Seq<char>,
    enc: PositionEncoding,
    loaded: LoadedProjectView,
    path: Option<Seq<char>>,
    prj: Option<Seq<char>>,
    scripts: Seq<ScriptView>,
    edit: WorkspaceEditView,
)
    requires
        file_change(old_uri, new_uri, enc, loaded, path, prj, scripts) == Ok::<
            Option<WorkspaceEditView>,
            Seq<char>,
        >(Some(edit)),
    ensures
        edit.changes is None,
        match edit.document_changes {
            Some(DocumentChangesView::Operations(ops)) => forall|i: int|
                0 <= i < ops.len() ==> !moves_file(#[trigger] ops[i], old_uri),
            _ => false,
        },
{
    if let Some(DocumentChangesView::Operations(ops)) = edit.document_changes {
        let old_base = uri_file_name(old_uri).unwrap();
        let new_base = uri_file_name(new_uri).unwrap();
        let sym = loaded.project.get(path.unwrap()).unwrap();
        if sym.filename != Some(old_base) {
            let olds = split(script_stem(old_base), '.');
            let news = split(before_suffix(new_base, ".m1scr"@).unwrap(), '.');
            let i = changed_segment(olds, news).unwrap();
            let all = group_rename(
                loaded,
                group_of(olds, i as int),
                news[i as int],
                prj,
                scripts,
                enc,
            );
            if let Ok(e) = all {
                if let Some(DocumentChangesView::Operations(steps)) = e.document_changes {
                    lemma_other_steps(steps, old_uri, steps.len() as int);
                }
            }
        }
    }
}

} // verus!
