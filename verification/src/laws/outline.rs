//! What the outline of a script lists.
use crate::document_symbols::{
    collapsed, collapsed_upto, container_of, detail_of, DocumentSymbolView, entries_of, label_of,
    leaf_of, outline, outline_upto, OutlineKind,
};
use crate::laws::lemma_either_holds;
use crate::laws::tokens::lemma_child_listed;
use crate::line_index::{PositionEncoding, range_of};
use crate::syntax::{Field, Kind, Tree};
use crate::text::is_space;
use vstd::prelude::*;
use vstd::string::*;

verus! {

proof fn lemma_outline_holds(
    t: Tree,
    n: usize,
    s: Seq<char>,
    enc: PositionEncoding,
    k: int,
    j: int,
    e: DocumentSymbolView,
)
    requires
        0 <= j < k <= t.kids(n).len(),
        n < t.kids(n)[j],
        t.has(t.kids(n)[j]),
        entries_of(t, t.kids(n)[j], outline(t, t.kids(n)[j], s, enc), s, enc).contains(e),
    ensures
        outline_upto(t, n, s, enc, k).contains(e),
    decreases k,
{
    let c = t.kids(n)[k - 1];
    let inner = if n < c && t.has(c) {
        outline_upto(t, c, s, enc, t.kids(c).len() as int)
    } else {
        Seq::empty()
    };
    let rest = outline_upto(t, n, s, enc, k - 1);
    lemma_either_holds(rest, entries_of(t, c, inner, s, enc), e);
    if j < k - 1 {
        lemma_outline_holds(t, n, s, enc, k - 1, j, e);
    }
}

proof fn lemma_below(
    t: Tree,
    n: usize,
    c: usize,
    s: Seq<char>,
    enc: PositionEncoding,
    e: DocumentSymbolView,
)
    requires
        t.size() <= usize::MAX,
        n < c,
        t.has(c),
        t.parent(c) == Some(n),
        entries_of(t, c, outline(t, c, s, enc), s, enc).contains(e),
    ensures
        outline(t, n, s, enc).contains(e),
{
    lemma_child_listed(t, n, t.size() as int, c);
    let j = choose|j: int| 0 <= j < t.kids(n).len() && t.kids(n)[j] == c;
    lemma_outline_holds(t, n, s, enc, t.kids(n).len() as int, j, e);
}

/// The value that the declaration or assignment `c` gives, behind its operator: with one blank
/// between its words, and cut off behind forty characters.
pub open spec fn shows_assigned(t: Tree, c: usize, detail: Option<Seq<char>>) -> bool {
    match t.child_by_field(c, Field::Value) {
        Some(v) => {
            let rhs = collapsed(t.text_of(v));
            let op = match t.child_by_field(c, Field::Operator) {
                Some(o) => t.text_of(o),
                None => "="@,
            };
            &&& rhs.len() == 0 ==> detail is None
            &&& 0 < rhs.len() <= 40 ==> detail == Some(op + " "@ + rhs)
            &&& rhs.len() > 40 ==> detail == Some(op + " "@ + (rhs.take(40) + "…"@))
        },
        None => detail is None,
    }
}

/// A declaration of a local and an assignment are listed below the block that they stand in:
/// a local as a variable, an assignment as a field, by its name and with what it gets.
pub proof fn assignments_are_listed(
    t: Tree,
    n: usize,
    c: usize,
    name: usize,
    s: Seq<char>,
    enc: PositionEncoding,
)
    requires
        t.size() <= usize::MAX,
        n < c,
        t.has(c),
        t.parent(c) == Some(n),
        t.kind(c) == Kind::LocalDeclaration || t.kind(c) == Kind::AssignmentStatement,
        t.named_child_of(c, Kind::Identifier, Kind::MemberExpression) == Some(name),
    ensures
        exists|e: DocumentSymbolView| #[trigger]
            outline(t, n, s, enc).contains(e) && e.name == t.text_of(name) && e.kind == (if t.kind(c)
                == Kind::LocalDeclaration {
                OutlineKind::Variable
            } else {
                OutlineKind::Field
            }) && e.range == range_of(s, t.start(c), t.end(c), enc) && e.selection_range == range_of(
                s,
                t.start(name),
                t.end(name),
                enc,
            ) && e.children is None && shows_assigned(t, c, e.detail),
{
    let kind = if t.kind(c) == Kind::LocalDeclaration {
        OutlineKind::Variable
    } else {
        OutlineKind::Field
    };
    let e = leaf_of(t, c, name, kind, detail_of(t, c), s, enc);
    assert(seq![e][0] == e);
    lemma_below(t, n, c, s, enc, e);
    assert(outline(t, n, s, enc).contains(e));
}

/// A call that is a statement is listed below the block that it stands in, by what it calls.
pub proof fn calls_are_listed(
    t: Tree,
    n: usize,
    c: usize,
    call: usize,
    callee: usize,
    s: Seq<char>,
    enc: PositionEncoding,
)
    requires
        t.size() <= usize::MAX,
        n < c,
        t.has(c),
        t.parent(c) == Some(n),
        t.kind(c) == Kind::ExpressionStatement,
        t.named_child_of(c, Kind::CallExpression, Kind::CallExpression) == Some(call),
        t.child_by_field(call, Field::Function) == Some(callee),
    ensures
        outline(t, n, s, enc).contains(
            DocumentSymbolView {
                name: t.text_of(callee),
                detail: None,
                kind: OutlineKind::Method,
                range: range_of(s, t.start(c), t.end(c), enc),
                selection_range: range_of(s, t.start(callee), t.end(callee), enc),
                children: None,
            },
        ),
{
    let e = leaf_of(t, c, callee, OutlineKind::Method, None, s, enc);
    assert(seq![e][0] == e);
    lemma_below(t, n, c, s, enc, e);
}

/// The part of a block statement that is its header, and the word that it starts with.
pub open spec fn heads_block(k: Kind, word: Seq<char>, field: Field) -> bool {
    ||| k == Kind::IfStatement && word == "if"@ && field == Field::Condition
    ||| k == Kind::WhenStatement && word == "when"@ && field == Field::Subject
    ||| k == Kind::ExpandStatement && word == "expand"@ && field == Field::Variable
}

/// A block statement that holds something is listed with what stands in it below it, by its
/// word and its header; one that holds nothing is not listed.
pub proof fn blocks_are_listed(
    t: Tree,
    n: usize,
    c: usize,
    word: Seq<char>,
    field: Field,
    s: Seq<char>,
    enc: PositionEncoding,
)
    requires
        t.size() <= usize::MAX,
        n < c,
        t.has(c),
        t.parent(c) == Some(n),
        heads_block(t.kind(c), word, field),
        outline(t, c, s, enc).len() > 0,
    ensures
        exists|e: DocumentSymbolView| #[trigger]
            outline(t, n, s, enc).contains(e) && e.children == Some(outline(t, c, s, enc)) && e.kind
                == OutlineKind::Namespace && e.detail is None && e.range == range_of(
                s,
                t.start(c),
                t.end(c),
                enc,
            ) && match t.child_by_field(c, field) {
                Some(h) => ({
                    let header = collapsed(t.text_of(h));
                    e.name == word + " ("@ + (if header.len() <= 40 {
                        header
                    } else {
                        header.take(40) + "…"@
                    }) + ")"@
                }),
                None => e.name == word,
            },
{
    let inner = outline(t, c, s, enc);
    let e = container_of(t, c, label_of(t, word, t.child_by_field(c, field)), inner, s, enc);
    assert(seq![e][0] == e);
    lemma_below(t, n, c, s, enc, e);
    assert(outline(t, n, s, enc).contains(e));
}

/// The node adds nothing of its own to the outline.
pub open spec fn is_transparent(k: Kind) -> bool {
    k != Kind::LocalDeclaration && k != Kind::AssignmentStatement && k != Kind::ExpressionStatement && k
        != Kind::IfStatement && k != Kind::WhenStatement && k != Kind::ExpandStatement
}

/// What stands below any other node is listed below the block that the node stands in.
pub proof fn other_nodes_pass_entries_on(
    t: Tree,
    n: usize,
    c: usize,
    s: Seq<char>,
    enc: PositionEncoding,
    e: DocumentSymbolView,
)
    requires
        t.size() <= usize::MAX,
        n < c,
        t.has(c),
        t.parent(c) == Some(n),
        is_transparent(t.kind(c)),
        outline(t, c, s, enc).contains(e),
    ensures
        outline(t, n, s, enc).contains(e),
{
    lemma_below(t, n, c, s, enc, e);
}

// ---------------------------------------------------------------------------
// Text on one line
// ---------------------------------------------------------------------------

proof fn lemma_collapsed_prefix(s: Seq<char>, r: Seq<char>, k: int)
    requires
        0 <= k <= s.len(),
    ensures
        collapsed_upto(s + r, k) == collapsed_upto(s, k),
    decreases k,
{
    if k > 0 {
        lemma_collapsed_prefix(s, r, k - 1);
        assert((s + r)[k - 1] == s[k - 1]);
        if k > 1 {
            assert((s + r)[k - 2] == s[k - 2]);
        } else {
            assert(collapsed_upto(s, 0) =~= Seq::empty());
        }
    }
}

/// A word stays as it is.
pub proof fn words_stay(s: Seq<char>, k: int)
    requires
        0 <= k <= s.len(),
        forall|i: int| 0 <= i < s.len() ==> !is_space(#[trigger] s[i]),
    ensures
        collapsed_upto(s, k) == s.take(k),
    decreases k,
{
    if k > 0 {
        words_stay(s, k - 1);
        assert(s.take(k) =~= s.take(k - 1).push(s[k - 1]));
        if k > 1 {
            assert(!is_space(s[k - 2]));
        }
    } else {
        assert(collapsed_upto(s, k) =~= s.take(k));
    }
}

/// White space at the end is left out.
pub proof fn space_behind_is_dropped(s: Seq<char>, c: char)
    requires
        is_space(c),
    ensures
        collapsed(s.push(c)) == collapsed(s),
{
    assert(s.push(c) =~= s + seq![c]);
    lemma_collapsed_prefix(s, seq![c], s.len() as int);
}

/// White space in front is left out.
pub proof fn space_in_front_is_dropped(c: char, s: Seq<char>, k: int)
    requires
        is_space(c),
        0 <= k <= s.len(),
    ensures
        collapsed_upto(seq![c] + s, k + 1) == collapsed_upto(s, k),
    decreases k,
{
    let all = seq![c] + s;
    if k > 0 {
        space_in_front_is_dropped(c, s, k - 1);
        assert(all[k] == s[k - 1]);
        if k > 1 {
            assert(all[k - 1] == s[k - 2]);
        } else {
            assert(collapsed_upto(s, 0) =~= Seq::empty());
        }
    } else {
        assert(all[0] == c);
        assert(collapsed_upto(all, 0) =~= Seq::empty());
        assert(collapsed_upto(all, 1) =~= collapsed_upto(s, 0));
    }
}

/// A word behind white space stands one blank behind what was there before.
pub proof fn one_blank_stands_between_words(s: Seq<char>, c: char, w: Seq<char>, k: int)
    requires
        is_space(c),
        collapsed(s).len() > 0,
        0 < k <= w.len(),
        forall|i: int| 0 <= i < w.len() ==> !is_space(#[trigger] w[i]),
    ensures
        collapsed_upto(s.push(c) + w, s.len() as int + 1 + k) == collapsed(s) + seq![' '] + w.take(k),
    decreases k,
{
    let all = s.push(c) + w;
    let n = s.len() as int + 1;
    assert(all[n + k - 1] == w[k - 1]);
    assert(!is_space(w[k - 1]));
    lemma_collapsed_prefix(s.push(c), w, n);
    space_behind_is_dropped(s, c);
    assert(collapsed_upto(all, n) == collapsed(s));
    if k > 1 {
        one_blank_stands_between_words(s, c, w, k - 1);
        assert(all[n + k - 2] == w[k - 2]);
        assert(!is_space(w[k - 2]));
        assert(w.take(k) =~= w.take(k - 1).push(w[k - 1]));
    } else {
        assert(all[n - 1] == c);
        assert(w.take(1) =~= seq![w[0]]);
    }
    assert(collapsed_upto(all, n + k) =~= collapsed(s) + seq![' '] + w.take(k));
}

} // verus!
