//! Edits of documents and files.
use crate::line_index::Range;
use crate::list::{fresh, one, put};
use vstd::prelude::*;

verus! {

/// A range of a document, and the text that replaces it.
#[derive(Debug)]
pub struct TextEdit {
    pub range: Range,
    pub new_text: String,
}

/// What a [`TextEdit`] stands for.
pub struct TextEditView {
    pub range: Range,
    pub new_text: Seq<char>,
}

impl DeepView for TextEdit {
    type V = TextEditView;

    open spec fn deep_view(&self) -> TextEditView {
        TextEditView {
            range: self.range,
            new_text: self.new_text.deep_view(),
        }
    }
}

/// An edit that the user is asked about.
#[derive(Debug)]
pub struct AnnotatedTextEdit {
    pub text_edit: TextEdit,
    pub annotation_id: String,
}

/// What a [`AnnotatedTextEdit`] stands for.
pub struct AnnotatedTextEditView {
    pub text_edit: TextEditView,
    pub annotation_id: Seq<char>,
}

impl DeepView for AnnotatedTextEdit {
    type V = AnnotatedTextEditView;

    open spec fn deep_view(&self) -> AnnotatedTextEditView {
        AnnotatedTextEditView {
            text_edit: self.text_edit.deep_view(),
            annotation_id: self.annotation_id.deep_view(),
        }
    }
}

/// An edit, plain or annotated.
#[derive(Debug)]
pub enum AnyTextEdit {
    Plain(TextEdit),
    Annotated(AnnotatedTextEdit),
}

/// What a [`AnyTextEdit`] stands for.
pub enum AnyTextEditView {
    Plain(TextEditView),
    Annotated(AnnotatedTextEditView),
}

impl DeepView for AnyTextEdit {
    type V = AnyTextEditView;

    open spec fn deep_view(&self) -> AnyTextEditView {
        match self {
            AnyTextEdit::Plain(x) => AnyTextEditView::Plain(x.deep_view()),
            AnyTextEdit::Annotated(x) => AnyTextEditView::Annotated(x.deep_view()),
        }
    }
}

/// The edits of one document, in a version of it or in any.
#[derive(Debug)]
pub struct TextDocumentEdit {
    pub uri: String,
    pub version: Option<i32>,
    pub edits: Vec<AnyTextEdit>,
}

/// What a [`TextDocumentEdit`] stands for.
pub struct TextDocumentEditView {
    pub uri: Seq<char>,
    pub version: Option<i32>,
    pub edits: Seq<AnyTextEditView>,
}

impl DeepView for TextDocumentEdit {
    type V = TextDocumentEditView;

    open spec fn deep_view(&self) -> TextDocumentEditView {
        TextDocumentEditView {
            uri: self.uri.deep_view(),
            version: self.version,
            edits: self.edits.deep_view(),
        }
    }
}

/// What happens where the file is there already.
#[derive(Clone, Copy, Debug)]
pub struct FileOptions {
    pub overwrite: Option<bool>,
    pub ignore_if_exists: Option<bool>,
}

/// A file that moves.
#[derive(Debug)]
pub struct RenameFile {
    pub old_uri: String,
    pub new_uri: String,
    pub options: Option<FileOptions>,
    pub annotation_id: Option<String>,
}

/// What a [`RenameFile`] stands for.
pub struct RenameFileView {
    pub old_uri: Seq<char>,
    pub new_uri: Seq<char>,
    pub options: Option<FileOptions>,
    pub annotation_id: Option<Seq<char>>,
}

impl DeepView for RenameFile {
    type V = RenameFileView;

    open spec fn deep_view(&self) -> RenameFileView {
        RenameFileView {
            old_uri: self.old_uri.deep_view(),
            new_uri: self.new_uri.deep_view(),
            options: self.options,
            annotation_id: self.annotation_id.deep_view(),
        }
    }
}

/// A file that is made.
#[derive(Debug)]
pub struct CreateFile {
    pub uri: String,
    pub options: Option<FileOptions>,
    pub annotation_id: Option<String>,
}

/// What a [`CreateFile`] stands for.
pub struct CreateFileView {
    pub uri: Seq<char>,
    pub options: Option<FileOptions>,
    pub annotation_id: Option<Seq<char>>,
}

impl DeepView for CreateFile {
    type V = CreateFileView;

    open spec fn deep_view(&self) -> CreateFileView {
        CreateFileView {
            uri: self.uri.deep_view(),
            options: self.options,
            annotation_id: self.annotation_id.deep_view(),
        }
    }
}

/// How a file is removed.
#[derive(Debug)]
pub struct DeleteOptions {
    pub recursive: Option<bool>,
    pub ignore_if_not_exists: Option<bool>,
    pub annotation_id: Option<String>,
}

/// What [`DeleteOptions`] stand for.
pub struct DeleteOptionsView {
    pub recursive: Option<bool>,
    pub ignore_if_not_exists: Option<bool>,
    pub annotation_id: Option<Seq<char>>,
}

impl DeepView for DeleteOptions {
    type V = DeleteOptionsView;

    open spec fn deep_view(&self) -> DeleteOptionsView {
        DeleteOptionsView {
            recursive: self.recursive,
            ignore_if_not_exists: self.ignore_if_not_exists,
            annotation_id: self.annotation_id.deep_view(),
        }
    }
}

/// A file that is removed.
#[derive(Debug)]
pub struct DeleteFile {
    pub uri: String,
    pub options: Option<DeleteOptions>,
}

/// What a [`DeleteFile`] stands for.
pub struct DeleteFileView {
    pub uri: Seq<char>,
    pub options: Option<DeleteOptionsView>,
}

impl DeepView for DeleteFile {
    type V = DeleteFileView;

    open spec fn deep_view(&self) -> DeleteFileView {
        DeleteFileView { uri: self.uri.deep_view(), options: self.options.deep_view() }
    }
}

/// One step of a change: an edit, or the move, making or removal of a file.
#[derive(Debug)]
pub enum DocumentChangeOperation {
    Edit(TextDocumentEdit),
    Rename(RenameFile),
    Create(CreateFile),
    Delete(DeleteFile),
}

/// What a [`DocumentChangeOperation`] stands for.
pub enum DocumentChangeOperationView {
    Edit(TextDocumentEditView),
    Rename(RenameFileView),
    Create(CreateFileView),
    Delete(DeleteFileView),
}

impl DeepView for DocumentChangeOperation {
    type V = DocumentChangeOperationView;

    open spec fn deep_view(&self) -> DocumentChangeOperationView {
        match self {
            DocumentChangeOperation::Edit(x) => DocumentChangeOperationView::Edit(x.deep_view()),
            DocumentChangeOperation::Rename(x) => DocumentChangeOperationView::Rename(x.deep_view()),
            DocumentChangeOperation::Create(x) => DocumentChangeOperationView::Create(x.deep_view()),
            DocumentChangeOperation::Delete(x) => DocumentChangeOperationView::Delete(x.deep_view()),
        }
    }
}

/// A change as a list of steps.
#[derive(Debug)]
pub enum DocumentChanges {
    Operations(Vec<DocumentChangeOperation>),
    Edits(Vec<TextDocumentEdit>),
}

/// What a [`DocumentChanges`] stands for.
pub enum DocumentChangesView {
    Operations(Seq<DocumentChangeOperationView>),
    Edits(Seq<TextDocumentEditView>),
}

impl DeepView for DocumentChanges {
    type V = DocumentChangesView;

    open spec fn deep_view(&self) -> DocumentChangesView {
        match self {
            DocumentChanges::Operations(x) => DocumentChangesView::Operations(x.deep_view()),
            DocumentChanges::Edits(x) => DocumentChangesView::Edits(x.deep_view()),
        }
    }
}

/// What the user is asked.
#[derive(Debug)]
pub struct ChangeAnnotation {
    pub label: String,
    pub needs_confirmation: Option<bool>,
    pub description: Option<String>,
}

/// What a [`ChangeAnnotation`] stands for.
pub struct ChangeAnnotationView {
    pub label: Seq<char>,
    pub needs_confirmation: Option<bool>,
    pub description: Option<Seq<char>>,
}

impl DeepView for ChangeAnnotation {
    type V = ChangeAnnotationView;

    open spec fn deep_view(&self) -> ChangeAnnotationView {
        ChangeAnnotationView {
            label: self.label.deep_view(),
            needs_confirmation: self.needs_confirmation,
            description: self.description.deep_view(),
        }
    }
}

/// A change of the workspace: edits by document, or a list of steps.
#[derive(Debug)]
pub struct WorkspaceEdit {
    pub changes: Option<Vec<(String, Vec<TextEdit>)>>,
    pub document_changes: Option<DocumentChanges>,
    pub change_annotations: Option<Vec<(String, ChangeAnnotation)>>,
}

/// What a [`WorkspaceEdit`] stands for.
pub struct WorkspaceEditView {
    pub changes: Option<Seq<(Seq<char>, Seq<TextEditView>)>>,
    pub document_changes: Option<DocumentChangesView>,
    pub change_annotations: Option<Seq<(Seq<char>, ChangeAnnotationView)>>,
}

impl DeepView for WorkspaceEdit {
    type V = WorkspaceEditView;

    open spec fn deep_view(&self) -> WorkspaceEditView {
        WorkspaceEditView {
            changes: self.changes.deep_view(),
            document_changes: self.document_changes.deep_view(),
            change_annotations: self.change_annotations.deep_view(),
        }
    }
}

/// A change of one document.
pub open spec fn one_document(uri: Seq<char>, edits: Seq<TextEditView>) -> WorkspaceEditView {
    WorkspaceEditView {
        changes: Some(seq![(uri, edits)]),
        document_changes: None,
        change_annotations: None,
    }
}

/// A change of one document.
pub fn single_document(uri: &str, edits: Vec<TextEdit>) -> (r: WorkspaceEdit)
    ensures
        r.deep_view() == one_document(uri@, edits.deep_view()),
{
    WorkspaceEdit {
        changes: Some(one((uri.to_owned(), edits))),
        document_changes: None,
        change_annotations: None,
    }
}

/// A change by steps.
pub open spec fn by_steps(ops: Seq<DocumentChangeOperationView>) -> WorkspaceEditView {
    WorkspaceEditView {
        changes: None,
        document_changes: Some(DocumentChangesView::Operations(ops)),
        change_annotations: None,
    }
}

pub open spec fn plain_edits(edits: Seq<TextEditView>) -> Seq<AnyTextEditView> {
    edits.map_values(|e: TextEditView| AnyTextEditView::Plain(e))
}

/// The edits of one document, in any version.
pub open spec fn edit_step(uri: Seq<char>, edits: Seq<TextEditView>) -> DocumentChangeOperationView {
    DocumentChangeOperationView::Edit(
        TextDocumentEditView { uri, version: None, edits: plain_edits(edits) },
    )
}

pub fn copied_edit(e: &TextEdit) -> (r: TextEdit)
    ensures
        r.deep_view() == e.deep_view(),
{
    TextEdit { range: e.range, new_text: e.new_text.clone() }
}

/// The edits of one document, in any version.
pub fn text_doc_edit(uri: &str, edits: &Vec<TextEdit>) -> (r: DocumentChangeOperation)
    ensures
        r.deep_view() == edit_step(uri@, edits.deep_view()),
{
    let ghost es = edits.deep_view();
    let mut plain: Vec<AnyTextEdit> = fresh();
    let mut k: usize = 0;
    while k < edits.len()
        invariant
            k <= edits@.len(),
            es == edits.deep_view(),
            plain.deep_view() =~= plain_edits(es.take(k as int)),
        decreases edits@.len() - k,
    {
        assert(es[k as int] == edits@[k as int].deep_view());
        put(&mut plain, AnyTextEdit::Plain(copied_edit(&edits[k])));
        k = k + 1;
    }
    assert(es.take(es.len() as int) =~= es);
    DocumentChangeOperation::Edit(
        TextDocumentEdit { uri: uri.to_owned(), version: None, edits: plain },
    )
}

} // verus!
