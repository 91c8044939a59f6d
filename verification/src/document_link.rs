//! Links from the file names in a project file to the files.
use crate::attributes::{attribute_values, span_in, values_of};
use crate::line_index::{LineIndex, PositionEncoding, Range, range, range_of};
use crate::list::{fresh, put};
use crate::outside::{file_uri, uri_of_path};
use crate::paths::{below, contained_join, is_contained};
use crate::text::{
    byte_at, byte_len, bytes_before, chars, lemma_byte_at_ends, lemma_byte_at_monotone, substring,
};
use vstd::prelude::*;
use vstd::string::*;

verus! {

/// A range that leads to another document.
#[derive(Debug)]
pub struct DocumentLink {
    pub range: Range,
    pub target: String,
    pub tooltip: String,
}

/// What a [`DocumentLink`] stands for.
pub struct DocumentLinkView {
    pub range: Range,
    pub target: Seq<char>,
    pub tooltip: Seq<char>,
}

impl DeepView for DocumentLink {
    type V = DocumentLinkView;

    open spec fn deep_view(&self) -> DocumentLinkView {
        DocumentLinkView {
            range: self.range,
            target: self.target.deep_view(),
            tooltip: self.tooltip.deep_view(),
        }
    }
}

/// The link of the file name that the text `s` holds from index `a` up to `z`, if it has
/// one. `index` is the text that positions are taken in.
pub open spec fn link_of(
    s: Seq<char>,
    a: int,
    z: int,
    index: Seq<char>,
    enc: PositionEncoding,
    root: Seq<char>,
) -> Option<DocumentLinkView> {
    let name = s.subrange(a, z);
    if a == z || !is_contained(root, name) {
        None
    } else {
        match file_uri(below(root, name)) {
            Some(target) => Some(
                DocumentLinkView {
                    range: range_of(index, byte_at(s, a) as int, byte_at(s, z) as int, enc),
                    target,
                    tooltip: "Open "@ + name,
                },
            ),
            None => None,
        }
    }
}

/// The links of the first `k` file names.
pub open spec fn links_upto(
    s: Seq<char>,
    spans: Seq<(usize, usize)>,
    index: Seq<char>,
    enc: PositionEncoding,
    root: Seq<char>,
    k: int,
) -> Seq<DocumentLinkView>
    decreases k,
{
    if k <= 0 {
        Seq::empty()
    } else {
        let (a, z) = spans[k - 1];
        match link_of(s, a as int, z as int, index, enc, root) {
            Some(l) => links_upto(s, spans, index, enc, root, k - 1).push(l),
            None => links_upto(s, spans, index, enc, root, k - 1),
        }
    }
}

/// The links of every file name in the project file `text` that lies below `root`.
pub fn document_links(text: &str, li: &LineIndex, enc: PositionEncoding, root: &str) -> (r: Vec<
    DocumentLink,
>)
    requires
        byte_len(text@) <= usize::MAX,
    ensures
        r.deep_view() == ({
            let spans = values_of(text@, "Filename=\""@);
            links_upto(text@, spans, li@, enc, root@, spans.len() as int)
        }),
{
    let s = chars(text);
    let spans = attribute_values(&s, "Filename=\"");
    let mut r: Vec<DocumentLink> = fresh();
    let mut k: usize = 0;
    while k < spans.len()
        invariant
            k <= spans@.len(),
            s@ == text@,
            byte_len(text@) <= usize::MAX,
            forall|i: int| 0 <= i < spans@.len() ==> span_in(s@, #[trigger] spans@[i]),
            r.deep_view() == links_upto(s@, spans@, li@, enc, root@, k as int),
        decreases spans@.len() - k,
    {
        let (a, z) = spans[k];
        assert(span_in(s@, spans@[k as int]));
        if a < z {
            let name = substring(&s, a, z);
            if let Some(path) = contained_join(root, name.as_str()) {
                if let Some(target) = uri_of_path(path.as_str()) {
                    let mut tooltip = "Open ".to_string();
                    tooltip.append(name.as_str());
                    proof {
                        lemma_byte_at_monotone(s@, a as int, z as int);
                        lemma_byte_at_monotone(s@, z as int, s@.len() as int);
                        lemma_byte_at_ends(s@);
                    }
                    let range = range(bytes_before(&s, a), bytes_before(&s, z), li, enc);
                    put(&mut r, DocumentLink { range, target, tooltip });
                }
            }
        }
        k = k + 1;
    }
    r
}

} // verus!
