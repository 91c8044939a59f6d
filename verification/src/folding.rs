//! Folding: blocks and comments that span more than one line.
use crate::line_index::{LineIndex, PositionEncoding, range, range_of};
use crate::syntax::{Kind, SyntaxTree, Tree};
use vstd::prelude::*;

verus! {

#[derive(Clone, Copy, Debug, PartialEq, Eq, Structural)]
pub enum FoldingRangeKind {
    Comment,
}

#[derive(Clone, Copy, Debug, PartialEq, Eq, Structural)]
pub struct FoldingRange {
    pub start_line: u32,
    pub start_character: u32,
    pub end_line: u32,
    pub end_character: u32,
    pub kind: Option<FoldingRangeKind>,
}

/// Nodes of this kind fold.
pub open spec fn folds(k: Kind) -> bool {
    k == Kind::Block || k == Kind::BlockComment
}

/// The fold of node `n`.
pub open spec fn fold_of(t: Tree, n: usize, s: Seq<char>, enc: PositionEncoding) -> FoldingRange {
    let r = range_of(s, t.start(n), t.end(n), enc);
    FoldingRange {
        start_line: r.start.line,
        start_character: r.start.character,
        end_line: r.end.line,
        end_character: r.end.character,
        kind: if t.kind(n) == Kind::BlockComment {
            Some(FoldingRangeKind::Comment)
        } else {
            None
        },
    }
}

/// The folds of the first `k` nodes.
pub open spec fn folds_upto(t: Tree, s: Seq<char>, enc: PositionEncoding, k: int) -> Seq<
    FoldingRange,
>
    decreases k,
{
    if k <= 0 {
        Seq::empty()
    } else {
        let n = (k - 1) as usize;
        let f = fold_of(t, n, s, enc);
        if folds(t.kind(n)) && f.start_line < f.end_line {
            folds_upto(t, s, enc, k - 1).push(f)
        } else {
            folds_upto(t, s, enc, k - 1)
        }
    }
}

/// The folds of a script, in source order.
pub fn folding_ranges(tree: &SyntaxTree, li: &LineIndex, enc: PositionEncoding) -> (r: Vec<
    FoldingRange,
>)
    ensures
        r@ == folds_upto(tree@, li@, enc, tree@.size() as int),
        forall|i: int| 0 <= i < r@.len() ==> (#[trigger] r@[i]).start_line < r@[i].end_line,
{
    let size: usize = tree.len();
    let mut r: Vec<FoldingRange> = Vec::new();
    let mut k: usize = 0;
    while k < size
        invariant
            k <= size == tree@.size(),
            r@ == folds_upto(tree@, li@, enc, k as int),
            forall|i: int| 0 <= i < r@.len() ==> (#[trigger] r@[i]).start_line < r@[i].end_line,
        decreases size - k,
    {
        let d = tree.node(k);
        let kind = match d.kind {
            Kind::Block => Some(None),
            Kind::BlockComment => Some(Some(FoldingRangeKind::Comment)),
            _ => None,
        };
        if let Some(kind) = kind {
            let span = range(d.start, d.end, li, enc);
            if span.end.line > span.start.line {
                r.push(
                    FoldingRange {
                        start_line: span.start.line,
                        start_character: span.start.character,
                        end_line: span.end.line,
                        end_character: span.end.character,
                        kind,
                    },
                );
            }
        }
        k = k + 1;
    }
    r
}

} // verus!
