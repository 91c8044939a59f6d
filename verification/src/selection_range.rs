//! Selections that grow outward from a cursor, node by node.
use crate::line_index::{LineIndex, PositionEncoding, Range, range, range_of};
use crate::locate::{node_at, node_at_byte};
use crate::syntax::{SyntaxTree, Tree};
use vstd::prelude::*;

verus! {

/// A range, and the next larger one around it.
#[derive(Debug)]
pub struct SelectionRange {
    pub range: Range,
    pub parent: Option<Box<SelectionRange>>,
}

impl SelectionRange {
    /// The ranges from the innermost outward.
    pub open spec fn ranges(self) -> Seq<Range>
        decreases self,
    {
        match self.parent {
            Some(p) => seq![self.range] + p.ranges(),
            None => seq![self.range],
        }
    }
}

/// The bytes of node `n`.
pub open spec fn span(t: Tree, n: usize) -> (int, int) {
    (t.start(n), t.end(n))
}

/// The distinct spans of the ancestors of `n`, innermost first, after a span `last`.
pub open spec fn outward(t: Tree, n: usize, last: (int, int)) -> Seq<(int, int)>
    decreases n,
{
    match t.parent(n) {
        Some(p) if p < n => if span(t, p) != last {
            seq![span(t, p)] + outward(t, p, span(t, p))
        } else {
            outward(t, p, last)
        },
        _ => Seq::empty(),
    }
}

/// The distinct spans of `n` and its ancestors, innermost first.
pub open spec fn spans_around(t: Tree, n: usize) -> Seq<(int, int)> {
    seq![span(t, n)] + outward(t, n, span(t, n))
}

pub open spec fn to_ranges(spans: Seq<(int, int)>, s: Seq<char>, enc: PositionEncoding) -> Seq<
    Range,
> {
    spans.map_values(|p: (int, int)| range_of(s, p.0, p.1, enc))
}

fn spans(tree: &SyntaxTree, leaf: usize) -> (r: Vec<(usize, usize)>)
    requires
        tree@.has(leaf),
    ensures
        r@.map_values(|p: (usize, usize)| (p.0 as int, p.1 as int)) == spans_around(tree@, leaf),
        r@.len() > 0,
{
    let ghost f = |p: (usize, usize)| (p.0 as int, p.1 as int);
    let mut r: Vec<(usize, usize)> = Vec::new();
    let d = tree.node(leaf);
    r.push((d.start, d.end));
    let mut last: (usize, usize) = (d.start, d.end);
    let mut n: usize = leaf;
    assert(r@.map_values(f) =~= seq![span(tree@, leaf)]);
    loop
        invariant
            tree@.has(n),
            r@.len() > 0,
            f == (|p: (usize, usize)| (p.0 as int, p.1 as int)),
            r@.map_values(f) + outward(tree@, n, (last.0 as int, last.1 as int)) == spans_around(
                tree@,
                leaf,
            ),
        decreases n,
    {
        match tree.parent(n) {
            Some(p) => {
                let d = tree.node(p);
                let ghost before = r@.map_values(f);
                if d.start != last.0 || d.end != last.1 {
                    r.push((d.start, d.end));
                    last = (d.start, d.end);
                    assert(r@.map_values(f) =~= before.push(span(tree@, p)));
                    assert(r@.map_values(f) + outward(tree@, p, span(tree@, p)) =~= before + (
                    seq![span(tree@, p)] + outward(tree@, p, span(tree@, p))));
                }
                n = p;
            },
            None => {
                assert(r@.map_values(f) + Seq::<(int, int)>::empty() =~= r@.map_values(f));
                return r;
            },
        }
    }
}

/// The innermost node at `byte`, with every larger node around it up to the root.
pub fn selection_range(
    tree: &SyntaxTree,
    byte: usize,
    li: &LineIndex,
    enc: PositionEncoding,
) -> (r: Option<SelectionRange>)
    ensures
        match r {
            Some(sel) => match node_at(tree@, byte as int) {
                Some(leaf) => sel.ranges() == to_ranges(spans_around(tree@, leaf), li@, enc),
                None => false,
            },
            None => node_at(tree@, byte as int) is None,
        },
{
    let leaf: usize = match node_at_byte(tree, byte) {
        Some(n) => n,
        None => {
            return None;
        },
    };
    let spans = spans(tree, leaf);
    let ghost f = |p: (usize, usize)| (p.0 as int, p.1 as int);
    let ghost all = to_ranges(spans_around(tree@, leaf), li@, enc);
    let mut k: usize = spans.len() - 1;
    let mut sel = SelectionRange { range: range(spans[k].0, spans[k].1, li, enc), parent: None };
    assert(sel.ranges() =~= all.skip(k as int)) by {
        assert(spans@.map_values(f)[k as int] == f(spans@[k as int]));
    }
    while k > 0
        invariant
            k < spans@.len(),
            f == (|p: (usize, usize)| (p.0 as int, p.1 as int)),
            spans@.map_values(f) == spans_around(tree@, leaf),
            all == to_ranges(spans_around(tree@, leaf), li@, enc),
            sel.ranges() == all.skip(k as int),
        decreases k,
    {
        k = k - 1;
        let outer = sel;
        sel = SelectionRange {
            range: range(spans[k].0, spans[k].1, li, enc),
            parent: Some(Box::new(outer)),
        };
        assert(spans@.map_values(f)[k as int] == f(spans@[k as int]));
        assert(sel.ranges() == seq![sel.range] + outer.ranges());
        assert(all.skip(k as int) =~= seq![all[k as int]] + all.skip(k + 1));
    }
    assert(all.skip(0) =~= all);
    Some(sel)
}

proof fn lemma_outward(t: Tree, n: usize, last: (int, int))
    requires
        t.wf(),
        t.has(n),
        last == span(t, n),
    ensures
        ({
            let o = outward(t, n, last);
            &&& o.len() > 0 ==> o[0].0 <= last.0 && last.1 <= o[0].1 && o[0] != last
            &&& forall|i: int|
                0 <= i < o.len() - 1 ==> (#[trigger] o[i + 1]).0 <= o[i].0 && o[i].1 <= o[i + 1].1
                    && o[i + 1] != o[i]
            &&& o.len() > 0 ==> o.last() == span(t, 0)
            &&& o.len() == 0 ==> last == span(t, 0)
        }),
    decreases n,
{
    assert(t.nested(n));
    match t.parent(n) {
        Some(p) => {
            assert(t.has(p));
            lemma_outward(t, p, span(t, p));
            let rest = outward(t, p, span(t, p));
            let o = outward(t, n, last);
            if span(t, p) != last {
                assert(o == seq![span(t, p)] + rest);
                assert forall|i: int| 0 <= i < o.len() - 1 implies (#[trigger] o[i + 1]).0 <= o[i].0
                    && o[i].1 <= o[i + 1].1 && o[i + 1] != o[i] by {
                    if i > 0 {
                        assert(o[i] == rest[i - 1] && o[i + 1] == rest[(i - 1) + 1]);
                    } else {
                        assert(o[1] == rest[0]);
                    }
                }
                if rest.len() > 0 {
                    assert(o.last() == rest.last());
                }
            }
        },
        None => {},
    }
}

/// Each selection lies in the next one and is smaller; the last is the whole script.
pub proof fn selections_grow(t: Tree, leaf: usize)
    requires
        t.wf(),
        t.has(leaf),
    ensures
        ({
            let o = spans_around(t, leaf);
            &&& o[0] == span(t, leaf)
            &&& o.last() == span(t, 0)
            &&& forall|i: int|
                0 <= i < o.len() - 1 ==> (#[trigger] o[i + 1]).0 <= o[i].0 && o[i].1 <= o[i + 1].1
                    && o[i + 1] != o[i]
        }),
{
    lemma_outward(t, leaf, span(t, leaf));
    let rest = outward(t, leaf, span(t, leaf));
    let o = spans_around(t, leaf);
    assert forall|i: int| 0 <= i < o.len() - 1 implies (#[trigger] o[i + 1]).0 <= o[i].0 && o[i].1
        <= o[i + 1].1 && o[i + 1] != o[i] by {
        if i > 0 {
            assert(o[i] == rest[i - 1] && o[i + 1] == rest[(i - 1) + 1]);
        } else {
            assert(o[1] == rest[0]);
        }
    }
    if rest.len() > 0 {
        assert(o.last() == rest.last());
    }
}

} // verus!
