//! What the rename of a file asks for, and what a change asks the user.
use crate::attributes::places_from;
use crate::edits::{
    AnyTextEditView, by_steps, DocumentChangeOperationView, edit_step, RenameFileView,
    TextEditView, WorkspaceEditView,
};
use crate::format::decimal;
use crate::laws::{lemma_pushed_holds, lemma_taken_holds};
use crate::laws::rename::{
    lemma_no_overlap, lemma_place_edits, lemma_places, lemma_step_held, steps_of,
};
use crate::line_index::PositionEncoding;
use crate::model::{LoadedProjectView, SymbolView};
use crate::outside::file_uri;
use crate::paths::{same_file, uri_file_name};
use crate::references::ScriptView;
use crate::rename::apply::{edits_for, span_edit, step_edits};
use crate::rename::confirm::{
    bare, confirmed, edit_count, files_edited, files_moved, move_count, question,
};
use crate::rename::file_rename::{
    changed_segment, changed_upto, convention_change, file_change, moves_file, other_steps,
    planned_name, without_requested,
};
use crate::rename::group::{all_filename_edits, group_rename};
use crate::search::{begins, ends, joined, split};
use crate::text::{byte_len, lemma_byte_len_bounds, matches_at};
use vstd::prelude::*;
use vstd::string::*;

verus! {

// ---------------------------------------------------------------------------
// Files that the project names
// ---------------------------------------------------------------------------

/// Where the file of a symbol that the project names gets another name, every attribute that
/// names it gets that name, and nothing else changes.
pub proof fn named_files_are_named_anew(
    old_uri: Seq<char>,
    new_uri: Seq<char>,
    enc: PositionEncoding,
    loaded: LoadedProjectView,
    path: Seq<char>,
    prj: Seq<char>,
    scripts: Seq<ScriptView>,
    old_base: Seq<char>,
    new_base: Seq<char>,
    sym: SymbolView,
    uri: Seq<char>,
    p: int,
)
    requires
        byte_len(prj) <= u32::MAX,
        uri_file_name(old_uri) == Some(old_base),
        uri_file_name(new_uri) == Some(new_base),
        old_base != new_base,
        loaded.project.get(path) == Some(sym),
        sym.filename == Some(old_base),
        file_uri(loaded.m1prj_path) == Some(uri),
        !old_base.contains('='),
        matches_at(prj, "Filename=\""@ + old_base + "\""@, p),
    ensures
        match file_change(old_uri, new_uri, enc, loaded, Some(path), Some(prj), scripts) {
            Ok(Some(edit)) => {
                let a = p + "Filename=\""@.len();
                &&& edits_for(edit, uri).contains(
                    span_edit(prj, (a, a + old_base.len()), new_base, enc),
                )
                &&& steps_of(edit).len() == 1
                &&& edit.changes is None
            },
            _ => false,
        },
{
    reveal_strlit("Filename=\"");
    reveal_strlit("\"");
    let needle = "Filename=\""@ + old_base + "\""@;
    lemma_byte_len_bounds(prj);
    assert forall|a: int, b: int|
        matches_at(prj, needle, a) && #[trigger] matches_at(prj, needle, b) && #[trigger] matches_at(
            prj,
            needle,
            a,
        ) && a < b implies a + needle.len() <= b by {
        lemma_no_overlap(prj, old_base, a, b);
    }
    lemma_places(prj, needle, 0, p);
    let places = places_from(prj, needle, 0);
    let i = choose|i: int| 0 <= i < places.len() && places[i] == p as usize;
    lemma_place_edits(prj, places, old_base, new_base, enc, places.len() as int, i);
    let es = all_filename_edits(prj, old_base, new_base, enc);
    let a = p + "Filename=\""@.len();
    let x = span_edit(prj, (a, a + old_base.len()), new_base, enc);
    assert(es.contains(x));
    let w = choose|w: int| 0 <= w < es.len() && es[w] == x;
    assert(es.len() > 0);
    let edit = by_steps(seq![edit_step(uri, es)]);
    let ops = steps_of(edit);
    lemma_step_held(ops, uri, es, x, 1);
    assert(edits_for(edit, uri) =~= step_edits(ops, uri, 1));
}

// ---------------------------------------------------------------------------
// Files that have the name of their symbol
// ---------------------------------------------------------------------------

proof fn lemma_changed(a: Seq<Seq<char>>, b: Seq<Seq<char>>, k: int, i: usize)
    requires
        0 <= k <= a.len(),
        a.len() == b.len(),
        a.len() <= usize::MAX,
    ensures
        changed_upto(a, b, k).contains(i) <==> i < k && a[i as int] != b[i as int],
    decreases k,
{
    if k > 0 {
        lemma_changed(a, b, k - 1, i);
        lemma_pushed_holds(changed_upto(a, b, k - 1), (k - 1) as usize, i);
    } else {
        assert(changed_upto(a, b, k) =~= Seq::empty());
    }
}

/// Where a name changes in one segment, that segment is the only one that differs.
pub proof fn one_segment_changes(a: Seq<Seq<char>>, b: Seq<Seq<char>>, i: usize)
    requires
        changed_segment(a, b) == Some(i),
        a.len() <= usize::MAX,
    ensures
        a.len() == b.len(),
        i < a.len(),
        a[i as int] != b[i as int],
        forall|j: int| 0 <= j < a.len() && j != i ==> #[trigger] a[j] == b[j],
{
    let changed = changed_upto(a, b, a.len() as int);
    assert(changed.contains(changed[0]));
    lemma_changed(a, b, a.len() as int, i);
    assert forall|j: int| 0 <= j < a.len() && j != i implies #[trigger] a[j] == b[j] by {
        lemma_changed(a, b, a.len() as int, j as usize);
        if a[j] != b[j] {
            let q = choose|q: int| 0 <= q < changed.len() && changed[q] == j as usize;
            assert(q == 0);
        }
    }
}

/// A file that has the name of its symbol keeps its extension, does not change the name of the
/// function, and changes the name of no more than one group, which the project declares; any
/// other new name is refused, with a reason that names both files.
pub proof fn files_keep_to_the_convention(
    loaded: LoadedProjectView,
    path: Seq<char>,
    old_base: Seq<char>,
    new_base: Seq<char>,
    old_uri: Seq<char>,
    prj: Option<Seq<char>>,
    scripts: Seq<ScriptView>,
    enc: PositionEncoding,
    stem: Seq<char>,
    new_stem: Seq<char>,
)
    requires
        old_base == stem + ".m1scr"@,
        split(stem, '.').len() <= usize::MAX,
    ensures
        ({
            let r = convention_change(loaded, path, old_base, new_base, old_uri, prj, scripts, enc);
            let olds = split(stem, '.');
            let news = split(new_stem, '.');
            &&& !ends(new_base, ".m1scr"@) ==> r is Err
            &&& new_base == new_stem + ".m1scr"@ && olds.len() == news.len() && olds.last()
                != news.last() ==> r is Err
            &&& new_base == new_stem + ".m1scr"@ && olds.len() != news.len() ==> r is Err
            &&& new_base == new_stem + ".m1scr"@ && olds == news ==> r == Ok::<
                Option<WorkspaceEditView>,
                Seq<char>,
            >(None)
        }),
{
    reveal_strlit(".m1scr");
    let ext = ".m1scr"@;
    assert(old_base.subrange(old_base.len() - 6, old_base.len() as int) =~= ext);
    assert(old_base.take(old_base.len() - 6) =~= stem);
    if new_base == new_stem + ext {
        assert(new_base.subrange(new_base.len() - 6, new_base.len() as int) =~= ext);
        assert(new_base.take(new_base.len() - 6) =~= new_stem);
        let olds = split(stem, '.');
        let news = split(new_stem, '.');
        if let Some(i) = changed_segment(olds, news) {
            one_segment_changes(olds, news, i);
            if olds.last() != news.last() && i < olds.len() - 1 {
                assert(olds[olds.len() - 1] == news[olds.len() - 1]);
            }
        }
    }
}

/// Where the name of a file changes in the segment of a group that the project declares, the
/// change is the rename of that group, without the move that was asked for.
pub proof fn file_renames_rename_the_group(
    loaded: LoadedProjectView,
    path: Seq<char>,
    stem: Seq<char>,
    new_stem: Seq<char>,
    old_uri: Seq<char>,
    prj: Option<Seq<char>>,
    scripts: Seq<ScriptView>,
    enc: PositionEncoding,
    i: int,
    edit: WorkspaceEditView,
)
    requires
        ({
            let olds = split(stem, '.');
            let news = split(new_stem, '.');
            &&& olds.len() == news.len() <= usize::MAX
            &&& 0 <= i < olds.len() - 1
            &&& olds[i] != news[i]
            &&& forall|j: int| 0 <= j < olds.len() && j != i ==> #[trigger] olds[j] == news[j]
            &&& loaded.project.get("Root."@ + joined(olds.take(i + 1), "."@)) is Some
        }),
        convention_change(
            loaded,
            path,
            stem + ".m1scr"@,
            new_stem + ".m1scr"@,
            old_uri,
            prj,
            scripts,
            enc,
        ) == Ok::<Option<WorkspaceEditView>, Seq<char>>(Some(edit)),
    ensures
        ({
            let olds = split(stem, '.');
            let news = split(new_stem, '.');
            let group = "Root."@ + joined(olds.take(i + 1), "."@);
            match group_rename(loaded, group, news[i], prj, scripts, enc) {
                Ok(whole) => forall|op: DocumentChangeOperationView| #[trigger]
                    steps_of(edit).contains(op) <==> steps_of(whole).contains(op) && !moves_file(
                        op,
                        old_uri,
                    ),
                Err(m) => false,
            }
        }),
{
    reveal_strlit(".m1scr");
    let ext = ".m1scr"@;
    let old_base = stem + ext;
    let new_base = new_stem + ext;
    assert(old_base.subrange(old_base.len() - 6, old_base.len() as int) =~= ext);
    assert(old_base.take(old_base.len() - 6) =~= stem);
    assert(new_base.subrange(new_base.len() - 6, new_base.len() as int) =~= ext);
    assert(new_base.take(new_base.len() - 6) =~= new_stem);
    let olds = split(stem, '.');
    let news = split(new_stem, '.');
    lemma_only_change(olds, news, i, olds.len() as int);
    assert(changed_segment(olds, news) == Some(i as usize));
    let group = "Root."@ + joined(olds.take(i + 1), "."@);
    let whole = group_rename(loaded, group, news[i], prj, scripts, enc)->Ok_0;
    let ops = steps_of(whole);
    assert forall|op: DocumentChangeOperationView| #[trigger] steps_of(edit).contains(op)
        <==> steps_of(whole).contains(op) && !moves_file(op, old_uri) by {
        lemma_other_steps_exact(ops, old_uri, ops.len() as int, op);
        assert(ops.take(ops.len() as int) =~= ops);
    }
}

/// A file rename that stands for the rename of a group is taken only where the group's rename
/// would give the file that very name.
pub proof fn file_renames_fit_the_group(
    ops: Seq<DocumentChangeOperationView>,
    uri: Seq<char>,
    new_base: Seq<char>,
    i: int,
    m: RenameFileView,
    planned: Seq<char>,
)
    requires
        0 <= i < ops.len(),
        ops[i] == DocumentChangeOperationView::Rename(m),
        same_file(m.old_uri, uri),
        uri_file_name(m.new_uri) == Some(planned),
        forall|j: int| i < j < ops.len() ==> !moves_file(#[trigger] ops[j], uri),
    ensures
        without_requested(ops, uri, new_base) is Ok <==> planned == new_base,
        planned != new_base ==> without_requested(ops, uri, new_base) == Err::<
            Seq<DocumentChangeOperationView>,
            Seq<char>,
        >(
            "the group cascade for this rename would name the file ‘"@ + planned + "’, not ‘"@
                + new_base + "’ — rename the group symbol in the editor instead"@,
        ),
{
    lemma_planned(ops, uri, i, ops.len() as int);
}

proof fn lemma_planned(ops: Seq<DocumentChangeOperationView>, uri: Seq<char>, i: int, k: int)
    requires
        0 <= i < k <= ops.len(),
        moves_file(ops[i], uri),
        forall|j: int| i < j < ops.len() ==> !moves_file(#[trigger] ops[j], uri),
    ensures
        planned_name(ops, uri, k) == uri_file_name(ops[i]->Rename_0.new_uri),
    decreases k,
{
    if k - 1 > i {
        assert(!moves_file(ops[k - 1], uri));
        lemma_planned(ops, uri, i, k - 1);
    }
}

/// A file rename that the group's rename would not make is refused.
pub proof fn unplanned_moves_are_refused(
    ops: Seq<DocumentChangeOperationView>,
    uri: Seq<char>,
    new_base: Seq<char>,
    k: int,
)
    requires
        0 <= k <= ops.len(),
        forall|j: int| 0 <= j < ops.len() ==> !moves_file(#[trigger] ops[j], uri),
    ensures
        planned_name(ops, uri, k) is None,
        k == ops.len() ==> without_requested(ops, uri, new_base) is Err,
    decreases k,
{
    if k > 0 {
        assert(!moves_file(ops[k - 1], uri));
        unplanned_moves_are_refused(ops, uri, new_base, k - 1);
    }
}

proof fn lemma_only_change(a: Seq<Seq<char>>, b: Seq<Seq<char>>, i: int, k: int)
    requires
        a.len() == b.len() <= usize::MAX,
        0 <= i < a.len(),
        0 <= k <= a.len(),
        a[i] != b[i],
        forall|j: int| 0 <= j < a.len() && j != i ==> #[trigger] a[j] == b[j],
    ensures
        changed_upto(a, b, k) == (if i < k {
            seq![i as usize]
        } else {
            Seq::empty()
        }),
    decreases k,
{
    if k > 0 {
        lemma_only_change(a, b, i, k - 1);
        if k - 1 != i {
            assert(a[k - 1] == b[k - 1]);
        } else {
            assert(Seq::<usize>::empty().push(i as usize) =~= seq![i as usize]);
        }
    }
}

proof fn lemma_other_steps_exact(
    ops: Seq<DocumentChangeOperationView>,
    uri: Seq<char>,
    k: int,
    op: DocumentChangeOperationView,
)
    requires
        0 <= k <= ops.len(),
    ensures
        other_steps(ops, uri, k).contains(op) <==> ops.take(k).contains(op) && !moves_file(op, uri),
    decreases k,
{
    if k > 0 {
        lemma_other_steps_exact(ops, uri, k - 1, op);
        lemma_taken_holds(ops, k, op);
        lemma_pushed_holds(other_steps(ops, uri, k - 1), ops[k - 1], op);
    } else {
        assert(other_steps(ops, uri, k) =~= Seq::empty());
    }
}

// ---------------------------------------------------------------------------
// Questions
// ---------------------------------------------------------------------------

proof fn lemma_moves_counted(ops: Seq<DocumentChangeOperationView>, k: int)
    requires
        0 <= k <= ops.len(),
    ensures
        move_count(ops, k) > 0 <==> exists|i: int| 0 <= i < k && (#[trigger] ops[i]) is Rename,
    decreases k,
{
    if k > 0 {
        lemma_moves_counted(ops, k - 1);
    }
}

proof fn lemma_edits_counted(ops: Seq<DocumentChangeOperationView>, k: int)
    requires
        0 <= k <= ops.len(),
    ensures
        edit_count(ops, k) == 0 <==> forall|i: int| 0 <= i < k ==> !((#[trigger] ops[i]) is Edit),
        edit_count(ops, k) > 1 <==> exists|i: int, j: int|
            0 <= i < j < k && (#[trigger] ops[i]) is Edit && (#[trigger] ops[j]) is Edit,
    decreases k,
{
    if k > 0 {
        lemma_edits_counted(ops, k - 1);
        if ops[k - 1] is Edit && edit_count(ops, k - 1) > 0 {
            let i = choose|i: int| 0 <= i < k - 1 && (#[trigger] ops[i]) is Edit;
            assert(ops[i] is Edit && ops[k - 1] is Edit);
        }
        if edit_count(ops, k - 1) > 1 {
            let (i, j) = choose|i: int, j: int|
                0 <= i < j < k - 1 && (#[trigger] ops[i]) is Edit && (#[trigger] ops[j]) is Edit;
            assert(ops[i] is Edit && ops[j] is Edit);
        }
    }
}

/// A change by steps is put before the user exactly when the client can ask, and the change
/// moves a file or edits two documents. What is asked names the new name.
pub proof fn large_changes_are_asked_about(
    ops: Seq<DocumentChangeOperationView>,
    new_name: Seq<char>,
    supported: bool,
)
    ensures
        ({
            let edit = by_steps(ops);
            let asked = confirmed(edit, new_name, supported);
            let large = (exists|i: int| 0 <= i < ops.len() && (#[trigger] ops[i]) is Rename) || (
            exists|i: int, j: int|
                0 <= i < j < ops.len() && (#[trigger] ops[i]) is Edit && (#[trigger] ops[j]) is Edit);
            &&& !supported || !large ==> asked == edit
            &&& supported && large ==> asked.change_annotations is Some
                && asked.change_annotations.unwrap().len() == 1
                && asked.change_annotations.unwrap()[0].1.needs_confirmation == Some(true)
                && asked.change_annotations.unwrap()[0].1.label == "Rename to ‘"@ + new_name + "’"@
                && steps_of(asked).len() == ops.len()
        }),
{
    lemma_moves_counted(ops, ops.len() as int);
    lemma_edits_counted(ops, ops.len() as int);
}

/// A change by documents is put before the user exactly when the client can ask, and there is
/// more than one document; each of them is then a step.
pub proof fn changes_of_many_documents_are_asked_about(
    changes: Seq<(Seq<char>, Seq<TextEditView>)>,
    new_name: Seq<char>,
    supported: bool,
)
    ensures
        ({
            let edit = WorkspaceEditView {
                changes: Some(changes),
                document_changes: None,
                change_annotations: None,
            };
            let asked = confirmed(edit, new_name, supported);
            &&& !supported || changes.len() <= 1 ==> asked == edit
            &&& supported && changes.len() > 1 ==> {
                &&& asked.changes is None
                &&& asked.change_annotations is Some
                &&& steps_of(asked).len() == changes.len()
                &&& forall|i: int|
                    0 <= i < changes.len() ==> match #[trigger] steps_of(asked)[i] {
                        DocumentChangeOperationView::Edit(d) => d.uri == changes[i].0
                            && d.edits.len() == changes[i].1.len(),
                        _ => false,
                    }
            }
        }),
{
}

/// Every edit and every move of a change that is asked about carries the question.
pub proof fn every_step_is_asked_about(
    ops: Seq<DocumentChangeOperationView>,
    new_name: Seq<char>,
    i: int,
)
    requires
        0 <= i < ops.len(),
        confirmed(by_steps(ops), new_name, true) != by_steps(ops),
    ensures
        ({
            let asked = confirmed(by_steps(ops), new_name, true);
            let id = asked.change_annotations.unwrap()[0].0;
            match (ops[i], steps_of(asked)[i]) {
                (
                    DocumentChangeOperationView::Edit(d),
                    DocumentChangeOperationView::Edit(e),
                ) => e.uri == d.uri && e.edits.len() == d.edits.len() && forall|j: int|
                    0 <= j < e.edits.len() ==> match #[trigger] e.edits[j] {
                        AnyTextEditView::Annotated(a) => a.annotation_id == id && a.text_edit
                            == bare(d.edits[j]),
                        AnyTextEditView::Plain(x) => false,
                    },
                (
                    DocumentChangeOperationView::Rename(r),
                    DocumentChangeOperationView::Rename(q),
                ) => q.old_uri == r.old_uri && q.new_uri == r.new_uri && q.annotation_id == Some(id),
                (x, y) => x == y,
            }
        }),
{
}

/// The question says how many documents are edited and how many files move.
pub proof fn questions_count(edit: WorkspaceEditView, new_name: Seq<char>)
    ensures
        match question(edit, new_name).description {
            Some(d) => begins(d, decimal(files_edited(edit)) + " file(s) edited"@) && (
            files_moved(edit) > 0 ==> ends(
                d,
                ", "@ + decimal(files_moved(edit)) + " file(s) renamed"@,
            )),
            None => false,
        },
{
    let d = question(edit, new_name).description.unwrap();
    let front = decimal(files_edited(edit)) + " file(s) edited"@;
    assert(d.subrange(0, front.len() as int) =~= front);
    if files_moved(edit) > 0 {
        let tail = ", "@ + decimal(files_moved(edit)) + " file(s) renamed"@;
        assert(d =~= front + tail);
        assert(d.subrange(d.len() - tail.len(), d.len() as int) =~= tail);
    }
}

} // verus!
