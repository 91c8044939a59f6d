//! A question before a rename that goes beyond one file.
use crate::edits::{
    AnnotatedTextEdit, AnnotatedTextEditView, AnyTextEdit, AnyTextEditView, ChangeAnnotation,
    ChangeAnnotationView, copied_edit, CreateFile, DeleteFile, DeleteOptions,
    DocumentChangeOperation, DocumentChangeOperationView, DocumentChanges, DocumentChangesView,
    edit_step, plain_edits, RenameFile, RenameFileView, text_doc_edit, TextDocumentEdit,
    TextDocumentEditView, TextEdit, TextEditView, WorkspaceEdit, WorkspaceEditView,
};
use crate::format::{decimal, decimal_text};
use crate::list::{copied_opt, fresh, one, put};
use crate::model::{key_index, lemma_key_index};
use crate::rename::apply::{bare_edits, document_edits, edits_for, step_edits};
use crate::scripts::keys_differ;
use vstd::prelude::*;
use vstd::string::*;

verus! {

/// The name of the question.
pub open spec fn annotation_id() -> Seq<char> {
    "m1.rename"@
}

/// The edit itself.
pub open spec fn bare(e: AnyTextEditView) -> TextEditView {
    match e {
        AnyTextEditView::Plain(t) => t,
        AnyTextEditView::Annotated(a) => a.text_edit,
    }
}

/// The edits with the question.
pub open spec fn asked_edits(edits: Seq<AnyTextEditView>) -> Seq<AnyTextEditView> {
    edits.map_values(
        |e: AnyTextEditView|
            AnyTextEditView::Annotated(
                AnnotatedTextEditView { text_edit: bare(e), annotation_id: annotation_id() },
            ),
    )
}

pub open spec fn asked_document(d: TextDocumentEditView) -> TextDocumentEditView {
    TextDocumentEditView { edits: asked_edits(d.edits), ..d }
}

/// The step with the question. The making and the removal of a file stay as they are.
pub open spec fn asked_step(op: DocumentChangeOperationView) -> DocumentChangeOperationView {
    match op {
        DocumentChangeOperationView::Edit(d) => DocumentChangeOperationView::Edit(
            asked_document(d),
        ),
        DocumentChangeOperationView::Rename(r) => DocumentChangeOperationView::Rename(
            RenameFileView { annotation_id: Some(annotation_id()), ..r },
        ),
        other => other,
    }
}

/// The edits of a document as a step with the question.
pub open spec fn asked_change(c: (Seq<char>, Seq<TextEditView>)) -> DocumentChangeOperationView {
    asked_step(edit_step(c.0, c.1))
}

/// The steps of the change, with the question.
pub open spec fn asked_steps(edit: WorkspaceEditView) -> Seq<DocumentChangeOperationView> {
    match (edit.changes, edit.document_changes) {
        (Some(changes), _) => changes.map_values(
            |c: (Seq<char>, Seq<TextEditView>)| asked_change(c),
        ),
        (None, Some(DocumentChangesView::Operations(ops))) => ops.map_values(
            |op: DocumentChangeOperationView| asked_step(op),
        ),
        (None, Some(DocumentChangesView::Edits(ds))) => ds.map_values(
            |d: TextDocumentEditView| DocumentChangeOperationView::Edit(asked_document(d)),
        ),
        (None, None) => Seq::empty(),
    }
}

/// The edits of documents among the first `k` steps.
pub open spec fn edit_count(ops: Seq<DocumentChangeOperationView>, k: int) -> nat
    decreases k,
{
    if k <= 0 {
        0
    } else {
        edit_count(ops, k - 1) + if ops[k - 1] is Edit {
            1nat
        } else {
            0nat
        }
    }
}

/// The moves of files among the first `k` steps.
pub open spec fn move_count(ops: Seq<DocumentChangeOperationView>, k: int) -> nat
    decreases k,
{
    if k <= 0 {
        0
    } else {
        move_count(ops, k - 1) + if ops[k - 1] is Rename {
            1nat
        } else {
            0nat
        }
    }
}

/// How many documents the change edits.
pub open spec fn files_edited(edit: WorkspaceEditView) -> nat {
    match (edit.changes, edit.document_changes) {
        (Some(changes), _) => changes.len(),
        (None, Some(DocumentChangesView::Operations(ops))) => edit_count(ops, ops.len() as int),
        (None, Some(DocumentChangesView::Edits(ds))) => ds.len(),
        (None, None) => 0,
    }
}

/// How many files the change moves.
pub open spec fn files_moved(edit: WorkspaceEditView) -> nat {
    match edit.document_changes {
        Some(DocumentChangesView::Operations(ops)) => move_count(ops, ops.len() as int),
        _ => 0,
    }
}

/// What the user is asked.
pub open spec fn question(edit: WorkspaceEditView, new_name: Seq<char>) -> ChangeAnnotationView {
    let edited = decimal(files_edited(edit)) + " file(s) edited"@;
    ChangeAnnotationView {
        label: "Rename to ‘"@ + new_name + "’"@,
        needs_confirmation: Some(true),
        description: Some(
            if files_moved(edit) > 0 {
                edited + ", "@ + decimal(files_moved(edit)) + " file(s) renamed"@
            } else {
                edited
            },
        ),
    }
}

/// The change, with a question where it edits more than one document or moves a file, and
/// the client can ask.
pub open spec fn confirmed(edit: WorkspaceEditView, new_name: Seq<char>, supported: bool) -> WorkspaceEditView {
    if !supported || (files_edited(edit) <= 1 && files_moved(edit) == 0) {
        edit
    } else {
        WorkspaceEditView {
            changes: None,
            document_changes: Some(DocumentChangesView::Operations(asked_steps(edit))),
            change_annotations: Some(seq![(annotation_id(), question(edit, new_name))]),
        }
    }
}

fn ask_edits(edits: &Vec<AnyTextEdit>) -> (r: Vec<AnyTextEdit>)
    ensures
        r.deep_view() == asked_edits(edits.deep_view()),
{
    let ghost es = edits.deep_view();
    let mut r: Vec<AnyTextEdit> = fresh();
    let mut k: usize = 0;
    while k < edits.len()
        invariant
            k <= edits@.len(),
            es == edits.deep_view(),
            r.deep_view() =~= asked_edits(es.take(k as int)),
        decreases edits@.len() - k,
    {
        assert(es[k as int] == edits@[k as int].deep_view());
        let text_edit = match &edits[k] {
            AnyTextEdit::Plain(t) => copied_edit(t),
            AnyTextEdit::Annotated(a) => copied_edit(&a.text_edit),
        };
        put(
            &mut r,
            AnyTextEdit::Annotated(
                AnnotatedTextEdit { text_edit, annotation_id: "m1.rename".to_string() },
            ),
        );
        k = k + 1;
    }
    assert(es.take(es.len() as int) =~= es);
    r
}

fn ask_document(d: &TextDocumentEdit) -> (r: TextDocumentEdit)
    ensures
        r.deep_view() == asked_document(d.deep_view()),
{
    TextDocumentEdit { uri: d.uri.clone(), version: d.version, edits: ask_edits(&d.edits) }
}

fn ask_step(op: &DocumentChangeOperation) -> (r: DocumentChangeOperation)
    ensures
        r.deep_view() == asked_step(op.deep_view()),
{
    match op {
        DocumentChangeOperation::Edit(d) => DocumentChangeOperation::Edit(ask_document(d)),
        DocumentChangeOperation::Rename(m) => DocumentChangeOperation::Rename(
            RenameFile {
                old_uri: m.old_uri.clone(),
                new_uri: m.new_uri.clone(),
                options: m.options,
                annotation_id: Some("m1.rename".to_string()),
            },
        ),
        DocumentChangeOperation::Create(c) => DocumentChangeOperation::Create(
            CreateFile {
                uri: c.uri.clone(),
                options: c.options,
                annotation_id: copied_opt(&c.annotation_id),
            },
        ),
        DocumentChangeOperation::Delete(d) => DocumentChangeOperation::Delete(
            DeleteFile {
                uri: d.uri.clone(),
                options: match &d.options {
                    Some(o) => Some(
                        DeleteOptions {
                            recursive: o.recursive,
                            ignore_if_not_exists: o.ignore_if_not_exists,
                            annotation_id: copied_opt(&o.annotation_id),
                        },
                    ),
                    None => None,
                },
            },
        ),
    }
}

fn ask_changes(changes: &Vec<(String, Vec<TextEdit>)>) -> (r: Vec<DocumentChangeOperation>)
    ensures
        r.deep_view() == changes.deep_view().map_values(
            |c: (Seq<char>, Seq<TextEditView>)| asked_change(c),
        ),
{
    let ghost cs = changes.deep_view();
    let ghost f = |c: (Seq<char>, Seq<TextEditView>)| asked_change(c);
    let mut r: Vec<DocumentChangeOperation> = fresh();
    let mut k: usize = 0;
    while k < changes.len()
        invariant
            k <= changes@.len(),
            cs == changes.deep_view(),
            f == (|c: (Seq<char>, Seq<TextEditView>)| asked_change(c)),
            r.deep_view() =~= cs.take(k as int).map_values(f),
        decreases changes@.len() - k,
    {
        assert(cs[k as int] == changes@[k as int].deep_view());
        let plain = text_doc_edit(changes[k].0.as_str(), &changes[k].1);
        put(&mut r, ask_step(&plain));
        k = k + 1;
    }
    assert(cs.take(cs.len() as int) =~= cs);
    r
}

fn ask_operations(ops: &Vec<DocumentChangeOperation>) -> (r: Vec<DocumentChangeOperation>)
    ensures
        r.deep_view() == ops.deep_view().map_values(
            |op: DocumentChangeOperationView| asked_step(op),
        ),
{
    let ghost os = ops.deep_view();
    let ghost f = |op: DocumentChangeOperationView| asked_step(op);
    let mut r: Vec<DocumentChangeOperation> = fresh();
    let mut k: usize = 0;
    while k < ops.len()
        invariant
            k <= ops@.len(),
            os == ops.deep_view(),
            f == (|op: DocumentChangeOperationView| asked_step(op)),
            r.deep_view() =~= os.take(k as int).map_values(f),
        decreases ops@.len() - k,
    {
        assert(os[k as int] == ops@[k as int].deep_view());
        put(&mut r, ask_step(&ops[k]));
        k = k + 1;
    }
    assert(os.take(os.len() as int) =~= os);
    r
}

fn ask_documents(ds: &Vec<TextDocumentEdit>) -> (r: Vec<DocumentChangeOperation>)
    ensures
        r.deep_view() == ds.deep_view().map_values(
            |d: TextDocumentEditView| DocumentChangeOperationView::Edit(asked_document(d)),
        ),
{
    let ghost dv = ds.deep_view();
    let ghost f = |d: TextDocumentEditView| DocumentChangeOperationView::Edit(asked_document(d));
    let mut r: Vec<DocumentChangeOperation> = fresh();
    let mut k: usize = 0;
    while k < ds.len()
        invariant
            k <= ds@.len(),
            dv == ds.deep_view(),
            f == (|d: TextDocumentEditView| DocumentChangeOperationView::Edit(asked_document(d))),
            r.deep_view() =~= dv.take(k as int).map_values(f),
        decreases ds@.len() - k,
    {
        assert(dv[k as int] == ds@[k as int].deep_view());
        put(&mut r, DocumentChangeOperation::Edit(ask_document(&ds[k])));
        k = k + 1;
    }
    assert(dv.take(dv.len() as int) =~= dv);
    r
}

fn count_steps(ops: &Vec<DocumentChangeOperation>) -> (r: (usize, usize))
    ensures
        r.0 == edit_count(ops.deep_view(), ops@.len() as int),
        r.1 == move_count(ops.deep_view(), ops@.len() as int),
{
    let ghost os = ops.deep_view();
    let mut edits: usize = 0;
    let mut moves: usize = 0;
    let mut k: usize = 0;
    while k < ops.len()
        invariant
            k <= ops@.len(),
            os == ops.deep_view(),
            edits <= k,
            moves <= k,
            edits == edit_count(os, k as int),
            moves == move_count(os, k as int),
        decreases ops@.len() - k,
    {
        assert(os[k as int] == ops@[k as int].deep_view());
        match &ops[k] {
            DocumentChangeOperation::Edit(_) => {
                edits = edits + 1;
            },
            DocumentChangeOperation::Rename(_) => {
                moves = moves + 1;
            },
            _ => {},
        }
        k = k + 1;
    }
    (edits, moves)
}

fn count_files(edit: &WorkspaceEdit) -> (r: (usize, usize))
    ensures
        r.0 == files_edited(edit.deep_view()),
        r.1 == files_moved(edit.deep_view()),
{
    let (edits, moves) = match &edit.document_changes {
        Some(DocumentChanges::Operations(ops)) => {
            assert(ops.deep_view().len() == ops@.len());
            count_steps(ops)
        },
        Some(DocumentChanges::Edits(ds)) => {
            assert(ds.deep_view().len() == ds@.len());
            (ds.len(), 0)
        },
        None => (0, 0),
    };
    match &edit.changes {
        Some(c) => {
            assert(c.deep_view().len() == c@.len());
            (c.len(), moves)
        },
        None => (edits, moves),
    }
}

/// Attaches a question to a change that edits more than one document or moves a file, so
/// that a client which can ask shows what the change does before it is made.
pub fn annotate_for_confirmation(edit: WorkspaceEdit, new_name: &str, supported: bool) -> (r:
    WorkspaceEdit)
    ensures
        r.deep_view() == confirmed(edit.deep_view(), new_name@, supported),
{
    if !supported {
        return edit;
    }
    let (edited, moved) = count_files(&edit);
    if edited <= 1 && moved == 0 {
        return edit;
    }
    let steps = match (&edit.changes, &edit.document_changes) {
        (Some(changes), _) => ask_changes(changes),
        (None, Some(DocumentChanges::Operations(ops))) => ask_operations(ops),
        (None, Some(DocumentChanges::Edits(ds))) => ask_documents(ds),
        (None, None) => fresh(),
    };
    let mut label = "Rename to ‘".to_string();
    label.append(new_name);
    label.append("’");
    let mut description = decimal_text(edited as u64);
    description.append(" file(s) edited");
    if moved > 0 {
        description.append(", ");
        description.append(decimal_text(moved as u64).as_str());
        description.append(" file(s) renamed");
    }
    let annotation = ChangeAnnotation {
        label,
        needs_confirmation: Some(true),
        description: Some(description),
    };
    WorkspaceEdit {
        changes: None,
        document_changes: Some(DocumentChanges::Operations(steps)),
        change_annotations: Some(one(("m1.rename".to_string(), annotation))),
    }
}

// ---------------------------------------------------------------------------
// Laws
// ---------------------------------------------------------------------------

proof fn lemma_asked_edits(edits: Seq<AnyTextEditView>)
    ensures
        bare_edits(asked_edits(edits)) == bare_edits(edits),
{
    assert(bare_edits(asked_edits(edits)) =~= bare_edits(edits));
}

proof fn lemma_asked_operations(ops: Seq<DocumentChangeOperationView>, uri: Seq<char>, k: int)
    requires
        0 <= k <= ops.len(),
    ensures
        step_edits(ops.map_values(|op: DocumentChangeOperationView| asked_step(op)), uri, k)
            == step_edits(ops, uri, k),
    decreases k,
{
    if k > 0 {
        lemma_asked_operations(ops, uri, k - 1);
        if let DocumentChangeOperationView::Edit(d) = ops[k - 1] {
            lemma_asked_edits(d.edits);
        }
    }
}

proof fn lemma_asked_documents(ds: Seq<TextDocumentEditView>, uri: Seq<char>, k: int)
    requires
        0 <= k <= ds.len(),
    ensures
        step_edits(
            ds.map_values(
                |d: TextDocumentEditView| DocumentChangeOperationView::Edit(asked_document(d)),
            ),
            uri,
            k,
        ) == document_edits(ds, uri, k),
    decreases k,
{
    if k > 0 {
        lemma_asked_documents(ds, uri, k - 1);
        lemma_asked_edits(ds[k - 1].edits);
    }
}

proof fn lemma_asked_changes(cs: Seq<(Seq<char>, Seq<TextEditView>)>, uri: Seq<char>, k: int)
    requires
        0 <= k <= cs.len(),
        keys_differ(cs),
    ensures
        step_edits(
            cs.map_values(|c: (Seq<char>, Seq<TextEditView>)| asked_change(c)),
            uri,
            k,
        ) == (match key_index(cs, uri, 0) {
            Some(i) => if i < k {
                cs[i].1
            } else {
                Seq::empty()
            },
            None => Seq::empty(),
        }),
    decreases k,
{
    lemma_key_index(cs, uri, 0);
    if k > 0 {
        lemma_asked_changes(cs, uri, k - 1);
        let edits = cs[k - 1].1;
        lemma_asked_edits(plain_edits(edits));
        assert(bare_edits(plain_edits(edits)) =~= edits);
        let none = Seq::<TextEditView>::empty();
        assert(none + edits =~= edits);
        assert(edits + none =~= edits);
        if let Some(i) = key_index(cs, uri, 0) {
            assert(cs[i].1 + none =~= cs[i].1);
        }
        assert(none + none =~= none);
    }
}

/// The question changes no edit: every document gets the edits that it gets without it.
pub proof fn asking_changes_no_edit(
    edit: WorkspaceEditView,
    new_name: Seq<char>,
    supported: bool,
    uri: Seq<char>,
)
    requires
        edit.changes is None || edit.document_changes is None,
        edit.changes matches Some(cs) ==> keys_differ(cs),
    ensures
        edits_for(confirmed(edit, new_name, supported), uri) == edits_for(edit, uri),
{
    let none = Seq::<TextEditView>::empty();
    let asked = confirmed(edit, new_name, supported);
    match (edit.changes, edit.document_changes) {
        (Some(cs), _) => {
            lemma_asked_changes(cs, uri, cs.len() as int);
            lemma_key_index(cs, uri, 0);
            if let Some(i) = key_index(cs, uri, 0) {
                assert(none + cs[i].1 =~= cs[i].1 + none);
            }
        },
        (None, Some(DocumentChangesView::Operations(ops))) => {
            lemma_asked_operations(ops, uri, ops.len() as int);
        },
        (None, Some(DocumentChangesView::Edits(ds))) => {
            lemma_asked_documents(ds, uri, ds.len() as int);
        },
        (None, None) => {},
    }
}

} // verus!
