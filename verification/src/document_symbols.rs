//! The outline of a script: its locals, assignments and calls, under the `if`, `when` and
//! `expand` statements that hold them.
use crate::line_index::{
    LineIndex, Position, PositionEncoding, positions_keep_order, Range, range, range_of,
};
use crate::list::{extend, fresh, one};
use crate::syntax::{Field, Kind, SyntaxTree, Tree};
use crate::text::{byte_len, char_is_space, chars, is_space, string, substring};
use vstd::prelude::*;
use vstd::string::*;

verus! {

#[derive(Clone, Copy, Debug, PartialEq, Eq, Structural)]
pub enum OutlineKind {
    Variable,
    Field,
    Method,
    Namespace,
}

/// One entry of the outline.
#[derive(Debug)]
pub struct DocumentSymbol {
    pub name: String,
    pub detail: Option<String>,
    pub kind: OutlineKind,
    pub range: Range,
    pub selection_range: Range,
    pub children: Option<Vec<DocumentSymbol>>,
}

/// What a [`DocumentSymbol`] stands for.
pub struct DocumentSymbolView {
    pub name: Seq<char>,
    pub detail: Option<Seq<char>>,
    pub kind: OutlineKind,
    pub range: Range,
    pub selection_range: Range,
    pub children: Option<Seq<DocumentSymbolView>>,
}

impl DocumentSymbol {
    pub open spec fn entry(self) -> DocumentSymbolView
        decreases self,
    {
        DocumentSymbolView {
            name: self.name@,
            detail: self.detail.deep_view(),
            kind: self.kind,
            range: self.range,
            selection_range: self.selection_range,
            children: match self.children {
                Some(v) => Some(
                    Seq::new(
                        v@.len(),
                        |i: int|
                            if 0 <= i < v@.len() {
                                v[i].entry()
                            } else {
                                arbitrary()
                            },
                    ),
                ),
                None => None,
            },
        }
    }
}

impl DeepView for DocumentSymbol {
    type V = DocumentSymbolView;

    open spec fn deep_view(&self) -> DocumentSymbolView {
        self.entry()
    }
}

/// How many characters of a header or a value an entry shows.
pub const SHOWN: usize = 40;

/// The first `k` characters of `s`, each run of white space between words one blank.
pub open spec fn collapsed_upto(s: Seq<char>, k: int) -> Seq<char>
    decreases k,
{
    if k <= 0 {
        Seq::empty()
    } else {
        let before = collapsed_upto(s, k - 1);
        if is_space(s[k - 1]) {
            before
        } else if before.len() > 0 && is_space(s[k - 2]) {
            before.push(' ').push(s[k - 1])
        } else {
            before.push(s[k - 1])
        }
    }
}

/// The words of `s` with one blank between them.
pub open spec fn collapsed(s: Seq<char>) -> Seq<char> {
    collapsed_upto(s, s.len() as int)
}

/// `s`, cut off with an ellipsis where it is too long to show.
pub open spec fn shortened(s: Seq<char>) -> Seq<char> {
    if s.len() > SHOWN {
        s.take(SHOWN as int) + "…"@
    } else {
        s
    }
}

fn collapse(v: &Vec<char>) -> (r: Vec<char>)
    ensures
        r@ == collapsed(v@),
{
    let mut r: Vec<char> = Vec::new();
    let mut k: usize = 0;
    while k < v.len()
        invariant
            k <= v@.len(),
            k == 0 ==> r@.len() == 0,
            r@ == collapsed_upto(v@, k as int),
        decreases v@.len() - k,
    {
        let c = v[k];
        if !char_is_space(c) {
            if r.len() > 0 && char_is_space(v[k - 1]) {
                r.push(' ');
            }
            r.push(c);
        }
        k = k + 1;
    }
    r
}

fn shorten(v: &Vec<char>) -> (r: String)
    ensures
        r@ == shortened(v@),
{
    if v.len() > SHOWN {
        let mut r = substring(v, 0, SHOWN);
        assert(r@ =~= v@.take(SHOWN as int));
        r.append("…");
        r
    } else {
        string(v)
    }
}

/// The label of a block: its keyword, and its header if it has one.
pub open spec fn label_of(t: Tree, keyword: Seq<char>, header: Option<usize>) -> Seq<char> {
    match header {
        Some(h) => keyword + " ("@ + shortened(collapsed(t.text_of(h))) + ")"@,
        None => keyword,
    }
}

fn header_label(tree: &SyntaxTree, keyword: &str, header: Option<usize>) -> (r: String)
    requires
        header matches Some(h) ==> tree@.has(h),
    ensures
        r@ == label_of(tree@, keyword@, header),
{
    let mut r = keyword.to_owned();
    if let Some(h) = header {
        let text = shorten(&collapse(&chars(tree.text_of(h).as_str())));
        r.append(" (");
        r.append(text.as_str());
        r.append(")");
    }
    r
}

/// What is assigned: the operator and the value.
pub open spec fn detail_of(t: Tree, n: usize) -> Option<Seq<char>> {
    match t.child_by_field(n, Field::Value) {
        Some(v) => {
            let rhs = collapsed(t.text_of(v));
            let op = match t.child_by_field(n, Field::Operator) {
                Some(o) => t.text_of(o),
                None => "="@,
            };
            if rhs.len() == 0 {
                None
            } else {
                Some(op + " "@ + shortened(rhs))
            }
        },
        None => None,
    }
}

fn rhs_detail(tree: &SyntaxTree, n: usize) -> (r: Option<String>)
    requires
        tree@.has(n),
    ensures
        r.deep_view() == detail_of(tree@, n),
{
    match tree.child_by_field(n, Field::Value) {
        Some(v) => {
            let rhs = collapse(&chars(tree.text_of(v).as_str()));
            if rhs.len() == 0 {
                return None;
            }
            let mut r = match tree.child_by_field(n, Field::Operator) {
                Some(o) => tree.text_of(o),
                None => "=".to_string(),
            };
            r.append(" ");
            r.append(shorten(&rhs).as_str());
            Some(r)
        },
        None => None,
    }
}

/// The path that a declaration or an assignment begins with.
pub open spec fn name_node(t: Tree, n: usize) -> Option<usize> {
    t.named_child_of(n, Kind::Identifier, Kind::MemberExpression)
}

/// What the call statement `n` calls.
pub open spec fn callee_of(t: Tree, n: usize) -> Option<usize> {
    match t.named_child_of(n, Kind::CallExpression, Kind::CallExpression) {
        Some(c) => t.child_by_field(c, Field::Function),
        None => None,
    }
}

fn call_callee(tree: &SyntaxTree, n: usize) -> (r: Option<usize>)
    requires
        tree@.has(n),
    ensures
        r == callee_of(tree@, n),
        r matches Some(c) ==> tree@.has(c),
{
    match tree.named_child_of(n, Kind::CallExpression, Kind::CallExpression) {
        Some(c) => tree.child_by_field(c, Field::Function),
        None => None,
    }
}

pub open spec fn leaf_of(
    t: Tree,
    n: usize,
    name: usize,
    kind: OutlineKind,
    detail: Option<Seq<char>>,
    s: Seq<char>,
    enc: PositionEncoding,
) -> DocumentSymbolView {
    DocumentSymbolView {
        name: t.text_of(name),
        detail,
        kind,
        range: range_of(s, t.start(n), t.end(n), enc),
        selection_range: range_of(s, t.start(name), t.end(name), enc),
        children: None,
    }
}

/// The entry of a block; it is selected by its first token.
pub open spec fn container_of(
    t: Tree,
    n: usize,
    label: Seq<char>,
    children: Seq<DocumentSymbolView>,
    s: Seq<char>,
    enc: PositionEncoding,
) -> DocumentSymbolView {
    let sel = if t.kids(n).len() > 0 {
        t.kids(n)[0]
    } else {
        n
    };
    DocumentSymbolView {
        name: label,
        detail: None,
        kind: OutlineKind::Namespace,
        range: range_of(s, t.start(n), t.end(n), enc),
        selection_range: range_of(s, t.start(sel), t.end(sel), enc),
        children: Some(children),
    }
}

/// The keyword of a block statement and the part that is its header.
pub open spec fn block_header(k: Kind) -> Option<(Seq<char>, Field)> {
    match k {
        Kind::IfStatement => Some(("if"@, Field::Condition)),
        Kind::WhenStatement => Some(("when"@, Field::Subject)),
        Kind::ExpandStatement => Some(("expand"@, Field::Variable)),
        _ => None,
    }
}

/// The entries that node `c` adds to the outline, given those of its children.
pub open spec fn entries_of(
    t: Tree,
    c: usize,
    inner: Seq<DocumentSymbolView>,
    s: Seq<char>,
    enc: PositionEncoding,
) -> Seq<DocumentSymbolView> {
    match t.kind(c) {
        Kind::LocalDeclaration => match name_node(t, c) {
            Some(name) => seq![
                leaf_of(t, c, name, OutlineKind::Variable, detail_of(t, c), s, enc),
            ],
            None => Seq::empty(),
        },
        Kind::AssignmentStatement => match name_node(t, c) {
            Some(name) => seq![leaf_of(t, c, name, OutlineKind::Field, detail_of(t, c), s, enc)],
            None => Seq::empty(),
        },
        Kind::ExpressionStatement => match callee_of(t, c) {
            Some(callee) => seq![leaf_of(t, c, callee, OutlineKind::Method, None, s, enc)],
            None => inner,
        },
        _ => match block_header(t.kind(c)) {
            Some((keyword, field)) => if inner.len() == 0 {
                Seq::empty()
            } else {
                seq![
                    container_of(
                        t,
                        c,
                        label_of(t, keyword, t.child_by_field(c, field)),
                        inner,
                        s,
                        enc,
                    ),
                ]
            },
            None => inner,
        },
    }
}

/// The entries of node `c` rest on those of its children: it is no leaf of the outline.
pub open spec fn rests_on_inner(t: Tree, c: usize) -> bool {
    match t.kind(c) {
        Kind::LocalDeclaration | Kind::AssignmentStatement => false,
        Kind::ExpressionStatement => callee_of(t, c) is None,
        _ => true,
    }
}

/// The entries of the first `k` children of `n`.
pub open spec fn outline_upto(
    t: Tree,
    n: usize,
    s: Seq<char>,
    enc: PositionEncoding,
    k: int,
) -> Seq<DocumentSymbolView>
    decreases t.size() - n, k,
{
    if k <= 0 || k > t.kids(n).len() {
        Seq::empty()
    } else {
        let c = t.kids(n)[k - 1];
        let inner = if n < c && t.has(c) {
            outline_upto(t, c, s, enc, t.kids(c).len() as int)
        } else {
            Seq::empty()
        };
        outline_upto(t, n, s, enc, k - 1) + entries_of(t, c, inner, s, enc)
    }
}

/// The outline of what stands below node `n`.
pub open spec fn outline(t: Tree, n: usize, s: Seq<char>, enc: PositionEncoding) -> Seq<
    DocumentSymbolView,
> {
    outline_upto(t, n, s, enc, t.kids(n).len() as int)
}

fn leaf(
    tree: &SyntaxTree,
    n: usize,
    name: usize,
    kind: OutlineKind,
    detail: Option<String>,
    li: &LineIndex,
    enc: PositionEncoding,
) -> (r: DocumentSymbol)
    requires
        tree@.has(n),
        tree@.has(name),
    ensures
        r.deep_view() == leaf_of(tree@, n, name, kind, detail.deep_view(), li@, enc),
{
    let d = tree.node(n);
    let e = tree.node(name);
    DocumentSymbol {
        name: tree.text_of(name),
        detail,
        kind,
        range: range(d.start, d.end, li, enc),
        selection_range: range(e.start, e.end, li, enc),
        children: None,
    }
}

fn container(
    tree: &SyntaxTree,
    n: usize,
    name: String,
    children: Vec<DocumentSymbol>,
    li: &LineIndex,
    enc: PositionEncoding,
) -> (r: DocumentSymbol)
    requires
        tree@.has(n),
    ensures
        r.deep_view() == container_of(tree@, n, name@, children.deep_view(), li@, enc),
{
    let ks = tree.children(n);
    let sel: usize = if ks.len() > 0 {
        ks[0]
    } else {
        n
    };
    let d = tree.node(n);
    let e = tree.node(sel);
    let ghost inner = children.deep_view();
    let r = DocumentSymbol {
        name,
        detail: None,
        kind: OutlineKind::Namespace,
        range: range(d.start, d.end, li, enc),
        selection_range: range(e.start, e.end, li, enc),
        children: Some(children),
    };
    assert(r.entry().children.unwrap() =~= inner);
    r
}

fn entries(
    tree: &SyntaxTree,
    c: usize,
    inner: Vec<DocumentSymbol>,
    li: &LineIndex,
    enc: PositionEncoding,
) -> (r: Vec<DocumentSymbol>)
    requires
        tree@.has(c),
    ensures
        r.deep_view() == entries_of(tree@, c, inner.deep_view(), li@, enc),
{
    let kind = tree.kind(c);
    if kind == Kind::LocalDeclaration || kind == Kind::AssignmentStatement {
        return match tree.named_child_of(c, Kind::Identifier, Kind::MemberExpression) {
            Some(name) => {
                let k = if kind == Kind::LocalDeclaration {
                    OutlineKind::Variable
                } else {
                    OutlineKind::Field
                };
                one(leaf(tree, c, name, k, rhs_detail(tree, c), li, enc))
            },
            None => fresh(),
        };
    }
    if kind == Kind::ExpressionStatement {
        return match call_callee(tree, c) {
            Some(callee) => one(leaf(tree, c, callee, OutlineKind::Method, None, li, enc)),
            None => inner,
        };
    }
    let (keyword, field) = match kind {
        Kind::IfStatement => ("if", Field::Condition),
        Kind::WhenStatement => ("when", Field::Subject),
        Kind::ExpandStatement => ("expand", Field::Variable),
        _ => {
            return inner;
        },
    };
    if inner.len() == 0 {
        assert(inner.deep_view().len() == 0);
        return fresh();
    }
    assert(inner.deep_view().len() > 0);
    let label = header_label(tree, keyword, tree.child_by_field(c, field));
    one(container(tree, c, label, inner, li, enc))
}

fn goes_deeper(tree: &SyntaxTree, c: usize) -> (r: bool)
    requires
        tree@.has(c),
    ensures
        r == rests_on_inner(tree@, c),
{
    match tree.kind(c) {
        Kind::LocalDeclaration | Kind::AssignmentStatement => false,
        Kind::ExpressionStatement => call_callee(tree, c).is_none(),
        _ => true,
    }
}

fn collect(tree: &SyntaxTree, n: usize, li: &LineIndex, enc: PositionEncoding) -> (r: Vec<
    DocumentSymbol,
>)
    requires
        tree@.has(n),
    ensures
        r.deep_view() == outline(tree@, n, li@, enc),
    decreases tree@.size() - n,
{
    let ks = tree.children(n);
    let mut r: Vec<DocumentSymbol> = fresh();
    let mut k: usize = 0;
    while k < ks.len()
        invariant
            k <= ks@.len(),
            ks@ == tree@.kids(n),
            forall|i: int| 0 <= i < ks@.len() ==> n < #[trigger] ks@[i] && tree@.has(ks@[i]),
            r.deep_view() == outline_upto(tree@, n, li@, enc, k as int),
        decreases ks@.len() - k,
    {
        let c: usize = ks[k];
        let inner = if goes_deeper(tree, c) {
            collect(tree, c, li, enc)
        } else {
            fresh()
        };
        extend(&mut r, entries(tree, c, inner, li, enc));
        k = k + 1;
    }
    r
}

/// The outline of a script.
pub fn document_symbols(tree: &SyntaxTree, li: &LineIndex, enc: PositionEncoding) -> (r: Vec<
    DocumentSymbol,
>)
    ensures
        r.deep_view() == outline(tree@, 0, li@, enc),
{
    let size: usize = tree.len();
    collect(tree, 0, li, enc)
}

// ---------------------------------------------------------------------------
// Laws
// ---------------------------------------------------------------------------

/// `a` does not come after `b`.
pub open spec fn no_later(a: Position, b: Position) -> bool {
    a.line < b.line || (a.line == b.line && a.character <= b.character)
}

/// The range `inner` lies in the range `outer`.
pub open spec fn lies_in(inner: Range, outer: Range) -> bool {
    no_later(outer.start, inner.start) && no_later(inner.end, outer.end)
}

/// Every entry, at every depth, is selected by a part of itself.
pub open spec fn selectable(e: DocumentSymbolView) -> bool
    decreases e,
{
    &&& lies_in(e.selection_range, e.range)
    &&& match e.children {
        Some(cs) => forall|i: int| 0 <= i < cs.len() ==> selectable(#[trigger] cs[i]),
        None => true,
    }
}

pub open spec fn all_selectable(es: Seq<DocumentSymbolView>) -> bool {
    forall|i: int| 0 <= i < es.len() ==> selectable(#[trigger] es[i])
}

proof fn lemma_range_inside(
    t: Tree,
    n: usize,
    c: usize,
    s: Seq<char>,
    enc: PositionEncoding,
)
    requires
        byte_len(s) <= u32::MAX,
        t.start(n) <= t.start(c),
        t.end(c) <= t.end(n),
    ensures
        lies_in(range_of(s, t.start(c), t.end(c), enc), range_of(s, t.start(n), t.end(n), enc)),
{
    positions_keep_order(s, t.start(n), t.start(c), enc);
    positions_keep_order(s, t.end(c), t.end(n), enc);
}

proof fn lemma_first_named_kid(t: Tree, n: usize, a: Kind, b: Kind, i: int)
    requires
        t.wf(),
        0 <= i,
    ensures
        match t.first_named(t.kids(n), a, b, i) {
            Some(c) => t.has(c) && t.start(n) <= t.start(c) && t.end(c) <= t.end(n),
            None => true,
        },
    decreases t.kids(n).len() - i,
{
    if i < t.kids(n).len() {
        t.lemma_kid(n, i);
        lemma_first_named_kid(t, n, a, b, i + 1);
    }
}

proof fn lemma_field_kid(t: Tree, n: usize, f: Field, i: int)
    requires
        t.wf(),
        0 <= i,
    ensures
        match t.first_field(t.kids(n), f, i) {
            Some(c) => t.has(c) && t.start(n) <= t.start(c) && t.end(c) <= t.end(n),
            None => true,
        },
    decreases t.kids(n).len() - i,
{
    if i < t.kids(n).len() {
        t.lemma_kid(n, i);
        lemma_field_kid(t, n, f, i + 1);
    }
}

proof fn lemma_entries_selectable(
    t: Tree,
    c: usize,
    inner: Seq<DocumentSymbolView>,
    s: Seq<char>,
    enc: PositionEncoding,
)
    requires
        t.wf(),
        t.has(c),
        byte_len(s) <= u32::MAX,
        all_selectable(inner),
    ensures
        all_selectable(entries_of(t, c, inner, s, enc)),
{
    lemma_first_named_kid(t, c, Kind::Identifier, Kind::MemberExpression, 0);
    if let Some(name) = name_node(t, c) {
        lemma_range_inside(t, c, name, s, enc);
    }
    lemma_first_named_kid(t, c, Kind::CallExpression, Kind::CallExpression, 0);
    if let Some(call) = t.named_child_of(c, Kind::CallExpression, Kind::CallExpression) {
        lemma_field_kid(t, call, Field::Function, 0);
        if let Some(callee) = t.child_by_field(call, Field::Function) {
            lemma_range_inside(t, c, callee, s, enc);
        }
    }
    if t.kids(c).len() > 0 {
        t.lemma_kid(c, 0);
        lemma_range_inside(t, c, t.kids(c)[0], s, enc);
    } else {
        lemma_range_inside(t, c, c, s, enc);
    }
}

proof fn lemma_outline_selectable(t: Tree, n: usize, s: Seq<char>, enc: PositionEncoding, k: int)
    requires
        t.wf(),
        byte_len(s) <= u32::MAX,
    ensures
        all_selectable(outline_upto(t, n, s, enc, k)),
    decreases t.size() - n, k,
{
    if 0 < k <= t.kids(n).len() {
        lemma_outline_selectable(t, n, s, enc, k - 1);
        t.lemma_kid(n, k - 1);
        let c = t.kids(n)[k - 1];
        lemma_outline_selectable(t, c, s, enc, t.kids(c).len() as int);
        let inner = outline_upto(t, c, s, enc, t.kids(c).len() as int);
        lemma_entries_selectable(t, c, inner, s, enc);
        let a = outline_upto(t, n, s, enc, k - 1);
        let b = entries_of(t, c, inner, s, enc);
        assert forall|i: int| 0 <= i < (a + b).len() implies selectable(#[trigger] (a + b)[i]) by {
            if i < a.len() {
                assert((a + b)[i] == a[i]);
            } else {
                assert((a + b)[i] == b[i - a.len()]);
            }
        }
    }
}

/// Every entry of the outline is selected by a range within its own.
pub proof fn outline_is_selectable(t: Tree, s: Seq<char>, enc: PositionEncoding)
    requires
        t.wf(),
        byte_len(s) <= u32::MAX,
    ensures
        all_selectable(outline(t, 0, s, enc)),
{
    lemma_outline_selectable(t, 0, s, enc, t.kids(0).len() as int);
}

} // verus!
