//! The text of a document after a change.
use crate::edits::{
    AnyTextEdit, AnyTextEditView, copied_edit, DocumentChangeOperation,
    DocumentChangeOperationView, DocumentChanges, DocumentChangesView, TextDocumentEditView,
    TextEdit, TextEditView, WorkspaceEdit, WorkspaceEditView,
};
use crate::line_index::{LineIndex, offset_inverts_position, offset_of, PositionEncoding, range_of};
use crate::list::{extend, fresh, put, put_at};
use crate::model::{find_key, value_of};
use crate::rename::confirm::bare;
use crate::text::{
    byte_at, byte_len, char_at, chars, index_of_byte, is_boundary, lemma_byte_at_monotone,
    lemma_char_at_unique, part, same, string,
};
use vstd::prelude::*;

verus! {

/// The edits of the first `k` steps that are for the document.
pub open spec fn step_edits(ops: Seq<DocumentChangeOperationView>, uri: Seq<char>, k: int) -> Seq<
    TextEditView,
>
    decreases k,
{
    if k <= 0 {
        Seq::empty()
    } else {
        step_edits(ops, uri, k - 1) + match ops[k - 1] {
            DocumentChangeOperationView::Edit(d) if d.uri == uri => bare_edits(d.edits),
            _ => Seq::empty(),
        }
    }
}

/// The edits of the first `k` documents that are for the document.
pub open spec fn document_edits(ds: Seq<TextDocumentEditView>, uri: Seq<char>, k: int) -> Seq<
    TextEditView,
>
    decreases k,
{
    if k <= 0 {
        Seq::empty()
    } else {
        document_edits(ds, uri, k - 1) + if ds[k - 1].uri == uri {
            bare_edits(ds[k - 1].edits)
        } else {
            Seq::empty()
        }
    }
}

pub open spec fn bare_edits(edits: Seq<AnyTextEditView>) -> Seq<TextEditView> {
    edits.map_values(|e: AnyTextEditView| bare(e))
}

/// The edits of a change that are for the document.
pub open spec fn edits_for(we: WorkspaceEditView, uri: Seq<char>) -> Seq<TextEditView> {
    (match we.changes {
        Some(changes) => match value_of(changes, uri) {
            Some(edits) => edits,
            None => Seq::empty(),
        },
        None => Seq::empty(),
    }) + (match we.document_changes {
        Some(DocumentChangesView::Operations(ops)) => step_edits(ops, uri, ops.len() as int),
        Some(DocumentChangesView::Edits(ds)) => document_edits(ds, uri, ds.len() as int),
        None => Seq::empty(),
    })
}

/// An edit between two byte offsets.
pub struct ByteEditView {
    pub start: int,
    pub end: int,
    pub new_text: Seq<char>,
}

/// The edit by its byte offsets in `s`.
pub open spec fn byte_edit(s: Seq<char>, e: TextEditView, enc: PositionEncoding) -> ByteEditView {
    ByteEditView {
        start: offset_of(s, e.range.start, enc),
        end: offset_of(s, e.range.end, enc),
        new_text: e.new_text,
    }
}

/// `es`, from the last start to the first, with `x` behind every edit that does not start
/// before it.
pub open spec fn insert_edit(es: Seq<ByteEditView>, x: ByteEditView) -> Seq<ByteEditView>
    decreases es.len(),
{
    if es.len() == 0 || es.last().start >= x.start {
        es.push(x)
    } else {
        insert_edit(es.drop_last(), x).push(es.last())
    }
}

/// The first `k` edits by their offsets, from the last start to the first.
pub open spec fn backwards(
    s: Seq<char>,
    edits: Seq<TextEditView>,
    enc: PositionEncoding,
    k: int,
) -> Seq<ByteEditView>
    decreases k,
{
    if k <= 0 {
        Seq::empty()
    } else {
        insert_edit(backwards(s, edits, enc, k - 1), byte_edit(s, edits[k - 1], enc))
    }
}

/// The text with the bytes of the edit replaced. An edit that does not fit changes nothing.
pub open spec fn spliced(s: Seq<char>, e: ByteEditView) -> Seq<char> {
    if e.start <= e.end && is_boundary(s, e.start) && is_boundary(s, e.end) {
        s.take(char_at(s, e.start)) + e.new_text + s.skip(char_at(s, e.end))
    } else {
        s
    }
}

/// The text after the first `k` edits.
pub open spec fn spliced_upto(s: Seq<char>, es: Seq<ByteEditView>, k: int) -> Seq<char>
    decreases k,
{
    if k <= 0 {
        s
    } else {
        spliced(spliced_upto(s, es, k - 1), es[k - 1])
    }
}

/// The text after the edits: the last first, so that each finds its place.
pub open spec fn edited(s: Seq<char>, edits: Seq<TextEditView>, enc: PositionEncoding) -> Seq<char> {
    let es = backwards(s, edits, enc, edits.len() as int);
    spliced_upto(s, es, es.len() as int)
}

/// The text of the document after the change; none where the change is not about it.
pub open spec fn applied(
    we: WorkspaceEditView,
    uri: Seq<char>,
    s: Seq<char>,
    enc: PositionEncoding,
) -> Option<Seq<char>> {
    let edits = edits_for(we, uri);
    if edits.len() == 0 {
        None
    } else {
        Some(edited(s, edits, enc))
    }
}

struct ByteEdit {
    start: usize,
    end: usize,
    new_text: String,
}

impl DeepView for ByteEdit {
    type V = ByteEditView;

    closed spec fn deep_view(&self) -> ByteEditView {
        ByteEditView {
            start: self.start as int,
            end: self.end as int,
            new_text: self.new_text@,
        }
    }
}

fn bare_copies(edits: &Vec<AnyTextEdit>) -> (r: Vec<TextEdit>)
    ensures
        r.deep_view() == bare_edits(edits.deep_view()),
{
    let ghost es = edits.deep_view();
    let mut r: Vec<TextEdit> = fresh();
    let mut k: usize = 0;
    while k < edits.len()
        invariant
            k <= edits@.len(),
            es == edits.deep_view(),
            r.deep_view() =~= bare_edits(es.take(k as int)),
        decreases edits@.len() - k,
    {
        assert(es[k as int] == edits@[k as int].deep_view());
        let e = match &edits[k] {
            AnyTextEdit::Plain(t) => copied_edit(t),
            AnyTextEdit::Annotated(a) => copied_edit(&a.text_edit),
        };
        put(&mut r, e);
        k = k + 1;
    }
    assert(es.take(es.len() as int) =~= es);
    r
}

fn copied_edits(edits: &Vec<TextEdit>) -> (r: Vec<TextEdit>)
    ensures
        r.deep_view() == edits.deep_view(),
{
    let ghost es = edits.deep_view();
    let mut r: Vec<TextEdit> = fresh();
    let mut k: usize = 0;
    while k < edits.len()
        invariant
            k <= edits@.len(),
            es == edits.deep_view(),
            r.deep_view() =~= es.take(k as int),
        decreases edits@.len() - k,
    {
        assert(es[k as int] == edits@[k as int].deep_view());
        put(&mut r, copied_edit(&edits[k]));
        k = k + 1;
    }
    assert(es.take(es.len() as int) =~= es);
    r
}

fn collect_edits(we: &WorkspaceEdit, uri: &str) -> (r: Vec<TextEdit>)
    ensures
        r.deep_view() == edits_for(we.deep_view(), uri@),
{
    let mut r: Vec<TextEdit> = fresh();
    if let Some(changes) = &we.changes {
        if let Some(i) = find_key(changes, uri) {
            assert(changes.deep_view()[i as int] == changes@[i as int].deep_view());
            r = copied_edits(&changes[i].1);
        }
    }
    let ghost first = r.deep_view();
    assert(first + Seq::<TextEditView>::empty() =~= first);
    match &we.document_changes {
        Some(DocumentChanges::Operations(ops)) => {
            let ghost os = ops.deep_view();
            assert(os.len() == ops@.len());
            let mut k: usize = 0;
            while k < ops.len()
                invariant
                    k <= ops@.len(),
                    os == ops.deep_view(),
                    r.deep_view() =~= first + step_edits(os, uri@, k as int),
                decreases ops@.len() - k,
            {
                assert(os[k as int] == ops@[k as int].deep_view());
                if let DocumentChangeOperation::Edit(d) = &ops[k] {
                    if same(d.uri.as_str(), uri) {
                        extend(&mut r, bare_copies(&d.edits));
                    }
                }
                k = k + 1;
            }
        },
        Some(DocumentChanges::Edits(ds)) => {
            let ghost dv = ds.deep_view();
            assert(dv.len() == ds@.len());
            let mut k: usize = 0;
            while k < ds.len()
                invariant
                    k <= ds@.len(),
                    dv == ds.deep_view(),
                    r.deep_view() =~= first + document_edits(dv, uri@, k as int),
                decreases ds@.len() - k,
            {
                assert(dv[k as int] == ds@[k as int].deep_view());
                if same(ds[k].uri.as_str(), uri) {
                    extend(&mut r, bare_copies(&ds[k].edits));
                }
                k = k + 1;
            }
        },
        None => {},
    }
    r
}

proof fn lemma_insert_edit(es: Seq<ByteEditView>, x: ByteEditView, j: int)
    requires
        0 <= j <= es.len(),
        forall|i: int| j <= i < es.len() ==> (#[trigger] es[i]).start < x.start,
        j > 0 ==> es[j - 1].start >= x.start,
    ensures
        insert_edit(es, x) == es.insert(j, x),
    decreases es.len(),
{
    if j == es.len() {
        assert(es.insert(j, x) =~= es.push(x));
    } else {
        assert(es.last() == es[es.len() - 1]);
        lemma_insert_edit(es.drop_last(), x, j);
        assert(es.insert(j, x) =~= es.drop_last().insert(j, x).push(es.last()));
    }
}

fn sort_backwards(edits: &Vec<TextEdit>, li: &LineIndex, enc: PositionEncoding) -> (r: Vec<ByteEdit>)
    ensures
        r.deep_view() == backwards(li@, edits.deep_view(), enc, edits@.len() as int),
{
    let ghost es = edits.deep_view();
    let mut r: Vec<ByteEdit> = fresh();
    let mut k: usize = 0;
    while k < edits.len()
        invariant
            k <= edits@.len(),
            es == edits.deep_view(),
            r.deep_view() == backwards(li@, es, enc, k as int),
        decreases edits@.len() - k,
    {
        assert(es[k as int] == edits@[k as int].deep_view());
        let e = &edits[k];
        let x = ByteEdit {
            start: li.offset(e.range.start, enc),
            end: li.offset(e.range.end, enc),
            new_text: e.new_text.clone(),
        };
        let mut j: usize = r.len();
        while j > 0 && r[j - 1].start < x.start
            invariant
                j <= r@.len(),
                forall|i: int|
                    j <= i < r@.len() ==> (#[trigger] r.deep_view()[i]).start < x.start,
            decreases j,
        {
            j = j - 1;
        }
        proof {
            assert(j > 0 ==> r.deep_view()[j - 1] == r@[j - 1].deep_view());
            lemma_insert_edit(r.deep_view(), x.deep_view(), j as int);
        }
        put_at(&mut r, j, x);
        k = k + 1;
    }
    r
}

fn splice(v: &Vec<char>, e: &ByteEdit) -> (r: Vec<char>)
    ensures
        r@ == spliced(v@, e.deep_view()),
{
    if e.start <= e.end {
        if let (Some(i), Some(j)) = (index_of_byte(v, e.start), index_of_byte(v, e.end)) {
            proof {
                assert(0 <= i <= v@.len() && byte_at(v@, i as int) == e.start);
                assert(0 <= j <= v@.len() && byte_at(v@, j as int) == e.end);
                assert(is_boundary(v@, e.start as int));
                assert(is_boundary(v@, e.end as int));
            }
            let mut r = part(v, 0, i);
            assert(r@ =~= v@.take(i as int));
            let mut text = chars(e.new_text.as_str());
            r.append(&mut text);
            let mut rest = part(v, j, v.len());
            assert(rest@ =~= v@.skip(j as int));
            r.append(&mut rest);
            return r;
        }
    }
    let r = part(v, 0, v.len());
    assert(r@ =~= v@);
    r
}

/// The text of the document after the change; none where the change is not about it.
pub fn apply_workspace_edit_to(
    we: &WorkspaceEdit,
    uri: &str,
    li: &LineIndex,
    enc: PositionEncoding,
) -> (r: Option<String>)
    ensures
        r.deep_view() == applied(we.deep_view(), uri@, li@, enc),
{
    let edits = collect_edits(we, uri);
    assert(edits.deep_view().len() == edits@.len());
    if edits.len() == 0 {
        return None;
    }
    let es = sort_backwards(&edits, li, enc);
    let ghost ev = es.deep_view();
    let v = li.characters();
    let mut out = part(v, 0, v.len());
    assert(out@ =~= li@);
    let mut k: usize = 0;
    while k < es.len()
        invariant
            k <= es@.len(),
            ev == es.deep_view(),
            out@ == spliced_upto(li@, ev, k as int),
        decreases es@.len() - k,
    {
        assert(ev[k as int] == es@[k as int].deep_view());
        out = splice(&out, &es[k]);
        k = k + 1;
    }
    Some(string(&out))
}

// ---------------------------------------------------------------------------
// Laws
// ---------------------------------------------------------------------------

/// A change of one range replaces its text, and leaves what is around it.
pub proof fn one_edit_replaces_its_range(
    s: Seq<char>,
    i: int,
    j: int,
    new_text: Seq<char>,
    enc: PositionEncoding,
)
    requires
        byte_len(s) <= u32::MAX,
        0 <= i <= j <= s.len(),
    ensures
        edited(
            s,
            seq![
                TextEditView {
                    range: range_of(s, byte_at(s, i) as int, byte_at(s, j) as int, enc),
                    new_text,
                },
            ],
            enc,
        ) == s.take(i) + new_text + s.skip(j),
{
    let e = TextEditView {
        range: range_of(s, byte_at(s, i) as int, byte_at(s, j) as int, enc),
        new_text,
    };
    lemma_char_at_unique(s, i);
    lemma_char_at_unique(s, j);
    lemma_byte_at_monotone(s, i, j);
    offset_inverts_position(s, byte_at(s, i) as int, enc);
    offset_inverts_position(s, byte_at(s, j) as int, enc);
    let b = byte_edit(s, e, enc);
    let es = backwards(s, seq![e], enc, 1);
    assert(backwards(s, seq![e], enc, 0) =~= Seq::empty());
    assert(es =~= seq![b]);
    assert(spliced_upto(s, es, 0) == s);
    assert(spliced_upto(s, es, 1) == spliced(s, b));
}

/// The edit of the characters from index `p.0` up to `p.1`.
pub open spec fn span_edit(
    s: Seq<char>,
    p: (int, int),
    new_text: Seq<char>,
    enc: PositionEncoding,
) -> TextEditView {
    TextEditView {
        range: range_of(s, byte_at(s, p.0) as int, byte_at(s, p.1) as int, enc),
        new_text,
    }
}

/// The spans come one behind the other, each from its own start.
pub open spec fn spans_in_order(s: Seq<char>, spans: Seq<(int, int)>) -> bool {
    &&& forall|i: int| 0 <= i < spans.len() ==> 0 <= (#[trigger] spans[i]).0 <= spans[i].1 <= s.len()
    &&& forall|i: int, j: int|
        0 <= i < j < spans.len() ==> (#[trigger] spans[i]).0 < (#[trigger] spans[j]).0
            && spans[i].1 <= spans[j].0
}

/// The text up to index `e`, with the first `k` spans replaced.
pub open spec fn replaced_upto(
    s: Seq<char>,
    spans: Seq<(int, int)>,
    texts: Seq<Seq<char>>,
    k: int,
    e: int,
) -> Seq<char>
    decreases k,
{
    if k <= 0 {
        s.take(e)
    } else {
        replaced_upto(s, spans, texts, k - 1, spans[k - 1].0) + texts[k - 1] + s.subrange(
            spans[k - 1].1,
            e,
        )
    }
}

/// The edits of the spans.
pub open spec fn span_edits(
    s: Seq<char>,
    spans: Seq<(int, int)>,
    texts: Seq<Seq<char>>,
    enc: PositionEncoding,
) -> Seq<TextEditView> {
    Seq::new(spans.len(), |i: int| span_edit(s, spans[i], texts[i], enc))
}

proof fn lemma_span_offsets(
    s: Seq<char>,
    p: (int, int),
    new_text: Seq<char>,
    enc: PositionEncoding,
)
    requires
        byte_len(s) <= u32::MAX,
        0 <= p.0 <= p.1 <= s.len(),
    ensures
        byte_edit(s, span_edit(s, p, new_text, enc), enc) == (ByteEditView {
            start: byte_at(s, p.0) as int,
            end: byte_at(s, p.1) as int,
            new_text,
        }),
{
    lemma_char_at_unique(s, p.0);
    lemma_char_at_unique(s, p.1);
    offset_inverts_position(s, byte_at(s, p.0) as int, enc);
    offset_inverts_position(s, byte_at(s, p.1) as int, enc);
}

/// An edit that starts behind all others comes first.
proof fn lemma_insert_first(es: Seq<ByteEditView>, x: ByteEditView)
    requires
        forall|i: int| 0 <= i < es.len() ==> (#[trigger] es[i]).start < x.start,
    ensures
        insert_edit(es, x) == seq![x] + es,
{
    lemma_insert_edit(es, x, 0);
    assert(es.insert(0, x) =~= seq![x] + es);
}

proof fn lemma_backwards(
    s: Seq<char>,
    spans: Seq<(int, int)>,
    texts: Seq<Seq<char>>,
    enc: PositionEncoding,
    k: int,
)
    requires
        byte_len(s) <= u32::MAX,
        spans.len() == texts.len(),
        spans_in_order(s, spans),
        0 <= k <= spans.len(),
    ensures
        ({
            let es = backwards(s, span_edits(s, spans, texts, enc), enc, k);
            &&& es.len() == k
            &&& forall|i: int|
                0 <= i < k ==> #[trigger] es[i] == (ByteEditView {
                    start: byte_at(s, spans[k - 1 - i].0) as int,
                    end: byte_at(s, spans[k - 1 - i].1) as int,
                    new_text: texts[k - 1 - i],
                })
        }),
    decreases k,
{
    if k > 0 {
        lemma_backwards(s, spans, texts, enc, k - 1);
        let all = span_edits(s, spans, texts, enc);
        let rest = backwards(s, all, enc, k - 1);
        lemma_span_offsets(s, spans[k - 1], texts[k - 1], enc);
        let x = byte_edit(s, all[k - 1], enc);
        assert forall|i: int| 0 <= i < rest.len() implies (#[trigger] rest[i]).start < x.start by {
            assert(spans[k - 2 - i].0 < spans[k - 1].0);
            lemma_byte_at_monotone(s, spans[k - 2 - i].0, spans[k - 1].0);
        }
        lemma_insert_first(rest, x);
        let es = backwards(s, all, enc, k);
        assert forall|i: int| 0 <= i < k implies #[trigger] es[i] == (ByteEditView {
            start: byte_at(s, spans[k - 1 - i].0) as int,
            end: byte_at(s, spans[k - 1 - i].1) as int,
            new_text: texts[k - 1 - i],
        }) by {
            if i > 0 {
                assert(es[i] == rest[i - 1]);
            }
        }
    }
}

/// Replacing one span keeps the offsets in front of it.
proof fn lemma_splice_front(s: Seq<char>, tail: Seq<char>, i: int, j: int, e: int, new_text: Seq<char>)
    requires
        0 <= i <= j <= e <= s.len(),
    ensures
        spliced(
            s.take(e) + tail,
            ByteEditView {
                start: byte_at(s, i) as int,
                end: byte_at(s, j) as int,
                new_text,
            },
        ) == s.take(i) + (new_text + s.subrange(j, e) + tail),
{
    let t = s.take(e) + tail;
    lemma_byte_at_monotone(s, i, j);
    assert(t.take(i) =~= s.take(i));
    assert(t.take(j) =~= s.take(j));
    lemma_char_at_unique(t, i);
    lemma_char_at_unique(t, j);
    assert(t.skip(j) =~= s.subrange(j, e) + tail);
    assert(t.take(i) + new_text + t.skip(j) =~= s.take(i) + (new_text + s.subrange(j, e) + tail));
}

proof fn lemma_splices(
    s: Seq<char>,
    spans: Seq<(int, int)>,
    texts: Seq<Seq<char>>,
    es: Seq<ByteEditView>,
    k: int,
) -> (tail: Seq<char>)
    requires
        spans.len() == texts.len() == es.len(),
        spans_in_order(s, spans),
        0 <= k <= spans.len(),
        forall|i: int|
            0 <= i < es.len() ==> #[trigger] es[i] == (ByteEditView {
                start: byte_at(s, spans[spans.len() - 1 - i].0) as int,
                end: byte_at(s, spans[spans.len() - 1 - i].1) as int,
                new_text: texts[spans.len() - 1 - i],
            }),
    ensures
        ({
            let m = spans.len() - k;
            let e = if k == 0 {
                s.len() as int
            } else {
                spans[m].0
            };
            &&& spliced_upto(s, es, k) == s.take(e) + tail
            &&& replaced_upto(s, spans, texts, spans.len() as int, s.len() as int)
                == replaced_upto(s, spans, texts, m, e) + tail
        }),
    decreases k,
{
    let n = spans.len() as int;
    if k == 0 {
        let tail = Seq::<char>::empty();
        assert(s.take(s.len() as int) + tail =~= s);
        let whole = replaced_upto(s, spans, texts, n, s.len() as int);
        assert(whole + tail =~= whole);
        tail
    } else {
        let before = lemma_splices(s, spans, texts, es, k - 1);
        let m = n - k;
        let e = if k == 1 {
            s.len() as int
        } else {
            spans[m + 1].0
        };
        assert(spans[m].1 <= e) by {
            if k > 1 {
                assert(spans[m].1 <= spans[m + 1].0);
            }
        }
        assert(es[k - 1].new_text == texts[m]);
        lemma_splice_front(s, before, spans[m].0, spans[m].1, e, texts[m]);
        let tail = texts[m] + s.subrange(spans[m].1, e) + before;
        assert(replaced_upto(s, spans, texts, m + 1, e) + before =~= replaced_upto(
            s,
            spans,
            texts,
            m,
            spans[m].0,
        ) + tail);
        tail
    }
}

/// Edits of ranges that lie one behind the other all land where they were meant: the text
/// between them stays, and each range has its new text.
pub proof fn separate_edits_all_land(
    s: Seq<char>,
    spans: Seq<(int, int)>,
    texts: Seq<Seq<char>>,
    enc: PositionEncoding,
)
    requires
        byte_len(s) <= u32::MAX,
        spans.len() == texts.len(),
        spans_in_order(s, spans),
    ensures
        edited(s, span_edits(s, spans, texts, enc), enc) == replaced_upto(
            s,
            spans,
            texts,
            spans.len() as int,
            s.len() as int,
        ),
{
    let n = spans.len() as int;
    lemma_backwards(s, spans, texts, enc, n);
    let es = backwards(s, span_edits(s, spans, texts, enc), enc, n);
    let tail = lemma_splices(s, spans, texts, es, n);
    let e = if n == 0 {
        s.len() as int
    } else {
        spans[0].0
    };
    assert(replaced_upto(s, spans, texts, 0, e) == s.take(e));
}

/// No two of the edits start at one place.
pub open spec fn starts_differ(s: Seq<char>, edits: Seq<TextEditView>, enc: PositionEncoding) -> bool {
    forall|i: int, j: int|
        0 <= i < j < edits.len() ==> byte_edit(s, #[trigger] edits[i], enc).start != byte_edit(
            s,
            #[trigger] edits[j],
            enc,
        ).start
}

/// The ranges of the edits hold text, and no two of them the same.
pub open spec fn are_disjoint(s: Seq<char>, edits: Seq<TextEditView>, enc: PositionEncoding) -> bool {
    &&& forall|i: int|
        0 <= i < edits.len() ==> byte_edit(s, #[trigger] edits[i], enc).start < byte_edit(
            s,
            edits[i],
            enc,
        ).end
    &&& forall|i: int, j: int|
        0 <= i < j < edits.len() ==> byte_edit(s, #[trigger] edits[i], enc).end <= byte_edit(
            s,
            #[trigger] edits[j],
            enc,
        ).start || byte_edit(s, edits[j], enc).end <= byte_edit(s, edits[i], enc).start
}

/// One of the first `k` edits is that one.
spec fn is_among(
    s: Seq<char>,
    edits: Seq<TextEditView>,
    enc: PositionEncoding,
    k: int,
    x: ByteEditView,
) -> bool {
    exists|i: int| 0 <= i < k && byte_edit(s, #[trigger] edits[i], enc) == x
}

spec fn descends(es: Seq<ByteEditView>) -> bool {
    forall|i: int, j: int| 0 <= i < j < es.len() ==> (#[trigger] es[i]).start > (#[trigger] es[j]).start
}

proof fn lemma_insert_descends(es: Seq<ByteEditView>, x: ByteEditView)
    requires
        descends(es),
        forall|i: int| 0 <= i < es.len() ==> (#[trigger] es[i]).start != x.start,
    ensures
        descends(insert_edit(es, x)),
        forall|y: ByteEditView| #[trigger] insert_edit(es, x).contains(y) <==> es.contains(y) || y == x,
    decreases es.len(),
{
    let all = insert_edit(es, x);
    if es.len() == 0 || es.last().start >= x.start {
        assert(all == es.push(x));
        assert forall|y: ByteEditView| #[trigger] all.contains(y) <==> es.contains(y) || y == x by {
            lemma_contains_push(es, x, y);
        }
        assert forall|i: int, j: int| 0 <= i < j < all.len() implies (#[trigger] all[i]).start > (
        #[trigger] all[j]).start by {
            if j == es.len() {
                assert(es[i].start >= es[es.len() - 1].start);
            }
        }
    } else {
        let front = es.drop_last();
        let last = es.last();
        lemma_insert_descends(front, x);
        let rest = insert_edit(front, x);
        assert(all == rest.push(last));
        assert(front.push(last) =~= es);
        assert forall|y: ByteEditView| #[trigger] all.contains(y) <==> es.contains(y) || y == x by {
            lemma_contains_push(rest, last, y);
            lemma_contains_push(front, last, y);
        }
        assert forall|i: int, j: int| 0 <= i < j < all.len() implies (#[trigger] all[i]).start > (
        #[trigger] all[j]).start by {
            if j == rest.len() {
                assert(rest.contains(rest[i]));
                if rest[i] != x {
                    let m = choose|m: int| 0 <= m < front.len() && front[m] == rest[i];
                    assert(es[m].start > es[es.len() - 1].start);
                }
            }
        }
    }
}

proof fn lemma_contains_push(es: Seq<ByteEditView>, x: ByteEditView, y: ByteEditView)
    ensures
        es.push(x).contains(y) <==> es.contains(y) || y == x,
{
    let all = es.push(x);
    assert(all[es.len() as int] == x);
    if es.contains(y) {
        let j = choose|j: int| 0 <= j < es.len() && es[j] == y;
        assert(all[j] == y);
    }
    if all.contains(y) {
        let j = choose|j: int| 0 <= j < all.len() && all[j] == y;
        if j < es.len() {
            assert(es[j] == y);
        }
    }
}

proof fn lemma_sorted(s: Seq<char>, edits: Seq<TextEditView>, enc: PositionEncoding, k: int)
    requires
        starts_differ(s, edits, enc),
        0 <= k <= edits.len(),
    ensures
        descends(backwards(s, edits, enc, k)),
        forall|x: ByteEditView| #[trigger]
            backwards(s, edits, enc, k).contains(x) <==> is_among(s, edits, enc, k, x),
    decreases k,
{
    if k > 0 {
        lemma_sorted(s, edits, enc, k - 1);
        let rest = backwards(s, edits, enc, k - 1);
        let last = byte_edit(s, edits[k - 1], enc);
        assert forall|i: int| 0 <= i < rest.len() implies (#[trigger] rest[i]).start != last.start by {
            assert(rest.contains(rest[i]));
            let m = choose|m: int| 0 <= m < k - 1 && byte_edit(s, #[trigger] edits[m], enc) == rest[i];
            assert(byte_edit(s, edits[m], enc).start != byte_edit(s, edits[k - 1], enc).start);
        }
        lemma_insert_descends(rest, last);
        assert forall|x: ByteEditView| #[trigger]
            backwards(s, edits, enc, k).contains(x) <==> is_among(s, edits, enc, k, x) by {
            if is_among(s, edits, enc, k - 1, x) {
                let m = choose|m: int| 0 <= m < k - 1 && byte_edit(s, #[trigger] edits[m], enc) == x;
                assert(0 <= m < k && byte_edit(s, edits[m], enc) == x);
            }
            if x == last {
                assert(byte_edit(s, edits[k - 1], enc) == x);
            }
            if is_among(s, edits, enc, k, x) {
                let m = choose|m: int| 0 <= m < k && byte_edit(s, #[trigger] edits[m], enc) == x;
                if m < k - 1 {
                    assert(is_among(s, edits, enc, k - 1, x));
                }
            }
        }
    } else {
        assert(backwards(s, edits, enc, k) =~= Seq::empty());
    }
}

proof fn lemma_descending_is_unique(x: Seq<ByteEditView>, y: Seq<ByteEditView>)
    requires
        descends(x),
        descends(y),
        forall|e: ByteEditView| #[trigger] x.contains(e) <==> y.contains(e),
    ensures
        x == y,
    decreases x.len(),
{
    if x.len() == 0 {
        if y.len() > 0 {
            assert(y.contains(y[0]));
            assert(x.contains(y[0]));
        }
        assert(x =~= y);
    } else {
        let a = x.last();
        assert(x.contains(a));
        assert(y.contains(a));
        let b = y.last();
        assert(y.contains(b));
        assert(x.contains(b));
        let i = choose|i: int| 0 <= i < y.len() && y[i] == a;
        let j = choose|j: int| 0 <= j < x.len() && x[j] == b;
        assert(i == y.len() - 1) by {
            if i < y.len() - 1 {
                assert(y[i].start > y[y.len() - 1].start);
                if j < x.len() - 1 {
                    assert(x[j].start > x[x.len() - 1].start);
                }
            }
        }
        let x1 = x.drop_last();
        let y1 = y.drop_last();
        assert(x1.push(a) =~= x);
        assert(y1.push(a) =~= y);
        assert forall|e: ByteEditView| #[trigger] x1.contains(e) <==> y1.contains(e) by {
            lemma_contains_push(x1, a, e);
            lemma_contains_push(y1, a, e);
            if e == a {
                if x1.contains(e) {
                    let m = choose|m: int| 0 <= m < x1.len() && x1[m] == e;
                    assert(x[m].start > x[x.len() - 1].start);
                }
                if y1.contains(e) {
                    let m = choose|m: int| 0 <= m < y1.len() && y1[m] == e;
                    assert(y[m].start > y[y.len() - 1].start);
                }
            } else {
                assert(x.contains(e) <==> y.contains(e));
            }
        }
        lemma_descending_is_unique(x1, y1);
    }
}

/// In another order the edits still start at different places.
proof fn lemma_other_order(
    s: Seq<char>,
    edits: Seq<TextEditView>,
    others: Seq<TextEditView>,
    enc: PositionEncoding,
)
    requires
        starts_differ(s, edits, enc),
        edits.to_multiset() == others.to_multiset(),
    ensures
        starts_differ(s, others, enc),
        forall|e: TextEditView| #[trigger] edits.contains(e) <==> others.contains(e),
        edits.len() == others.len(),
{
    edits.to_multiset_ensures();
    others.to_multiset_ensures();
    assert(edits.no_duplicates()) by {
        assert forall|i: int, j: int| 0 <= i < edits.len() && 0 <= j < edits.len() && i != j implies edits[i]
            != edits[j] by {
            if i < j {
                assert(byte_edit(s, edits[i], enc).start != byte_edit(s, edits[j], enc).start);
            } else {
                assert(byte_edit(s, edits[j], enc).start != byte_edit(s, edits[i], enc).start);
            }
        }
    }
    edits.lemma_multiset_has_no_duplicates();
    others.lemma_multiset_has_no_duplicates_conv();
    assert forall|e: TextEditView| #[trigger] edits.contains(e) <==> others.contains(e) by {
        assert(edits.contains(e) <==> edits.to_multiset().count(e) > 0);
        assert(others.contains(e) <==> others.to_multiset().count(e) > 0);
    }
    assert forall|i: int, j: int| 0 <= i < j < others.len() implies byte_edit(
        s,
        #[trigger] others[i],
        enc,
    ).start != byte_edit(s, #[trigger] others[j], enc).start by {
        assert(others.contains(others[i]) && others.contains(others[j]));
        assert(edits.contains(others[i]) && edits.contains(others[j]));
        let a = choose|a: int| 0 <= a < edits.len() && edits[a] == others[i];
        let b = choose|b: int| 0 <= b < edits.len() && edits[b] == others[j];
        assert(others[i] != others[j]);
        if a < b {
            assert(byte_edit(s, edits[a], enc).start != byte_edit(s, edits[b], enc).start);
        } else {
            assert(byte_edit(s, edits[b], enc).start != byte_edit(s, edits[a], enc).start);
        }
    }
}

proof fn lemma_same_text(
    s: Seq<char>,
    edits: Seq<TextEditView>,
    others: Seq<TextEditView>,
    enc: PositionEncoding,
)
    requires
        starts_differ(s, edits, enc),
        edits.to_multiset() == others.to_multiset(),
    ensures
        edited(s, edits, enc) == edited(s, others, enc),
{
    lemma_other_order(s, edits, others, enc);
    let n = edits.len() as int;
    lemma_sorted(s, edits, enc, n);
    lemma_sorted(s, others, enc, n);
    let x = backwards(s, edits, enc, n);
    let y = backwards(s, others, enc, n);
    assert forall|e: ByteEditView| #[trigger] x.contains(e) <==> y.contains(e) by {
        if is_among(s, edits, enc, n, e) {
            let i = choose|i: int| 0 <= i < n && byte_edit(s, #[trigger] edits[i], enc) == e;
            assert(edits.contains(edits[i]));
            assert(others.contains(edits[i]));
            let j = choose|j: int| 0 <= j < n && others[j] == edits[i];
            assert(byte_edit(s, others[j], enc) == e);
        }
        if is_among(s, others, enc, n, e) {
            let i = choose|i: int| 0 <= i < n && byte_edit(s, #[trigger] others[i], enc) == e;
            assert(others.contains(others[i]));
            assert(edits.contains(others[i]));
            let j = choose|j: int| 0 <= j < n && edits[j] == others[i];
            assert(byte_edit(s, edits[j], enc) == e);
        }
    }
    lemma_descending_is_unique(x, y);
}

/// Two changes that hold the same edits of a document, in whatever order and by document or
/// in steps, leave the same text, if no two of the edits share text. Only a change without
/// an edit of the document leaves none.
pub proof fn order_of_edits_does_not_matter(
    we: WorkspaceEditView,
    other: WorkspaceEditView,
    uri: Seq<char>,
    s: Seq<char>,
    enc: PositionEncoding,
)
    requires
        are_disjoint(s, edits_for(we, uri), enc),
        edits_for(we, uri).to_multiset() == edits_for(other, uri).to_multiset(),
    ensures
        applied(we, uri, s, enc) == applied(other, uri, s, enc),
        applied(we, uri, s, enc) is None <==> edits_for(we, uri).len() == 0,
{
    let edits = edits_for(we, uri);
    let others = edits_for(other, uri);
    assert(starts_differ(s, edits, enc));
    lemma_other_order(s, edits, others, enc);
    lemma_same_text(s, edits, others, enc);
}

/// Edits of ranges that lie one behind the other all land where they were meant, in whatever
/// order they are listed.
pub proof fn separate_edits_land_in_any_order(
    s: Seq<char>,
    spans: Seq<(int, int)>,
    texts: Seq<Seq<char>>,
    edits: Seq<TextEditView>,
    enc: PositionEncoding,
)
    requires
        byte_len(s) <= u32::MAX,
        spans.len() == texts.len(),
        spans_in_order(s, spans),
        edits.to_multiset() == span_edits(s, spans, texts, enc).to_multiset(),
    ensures
        edited(s, edits, enc) == replaced_upto(
            s,
            spans,
            texts,
            spans.len() as int,
            s.len() as int,
        ),
{
    let listed = span_edits(s, spans, texts, enc);
    assert forall|i: int, j: int| 0 <= i < j < listed.len() implies byte_edit(
        s,
        #[trigger] listed[i],
        enc,
    ).start != byte_edit(s, #[trigger] listed[j], enc).start by {
        lemma_span_offsets(s, spans[i], texts[i], enc);
        lemma_span_offsets(s, spans[j], texts[j], enc);
        assert(spans[i].0 < spans[j].0);
        lemma_byte_at_monotone(s, spans[i].0, spans[j].0);
    }
    lemma_same_text(s, listed, edits, enc);
    separate_edits_all_land(s, spans, texts, enc);
}

} // verus!
