//! The syntax tree of one script: its text, and its nodes in source order.
//!
//! A node is named by its index. Indices run in pre-order: the root is 0, a node comes
//! before its children, and the children of a node come in source order.
use crate::text::{
    byte_at, byte_len, char_at, chars, index_among, is_boundary, lemma_byte_at_monotone,
    lemma_char_at_unique, offsets, substring,
};
use vstd::prelude::*;

verus! {

#[derive(Clone, Copy, Debug, PartialEq, Eq, Structural)]
pub enum Kind {
    SourceFile,
    Block,
    LocalDeclaration,
    AssignmentStatement,
    ExpressionStatement,
    IfStatement,
    WhenStatement,
    ExpandStatement,
    Identifier,
    MemberExpression,
    CallExpression,
    UnaryExpression,
    BinaryExpression,
    TernaryExpression,
    ParenthesizedExpression,
    Number,
    Boolean,
    String,
    TypeAnnotation,
    LineComment,
    BlockComment,
    Interpolation,
    If,
    Else,
    When,
    Is,
    Expand,
    To,
    Local,
    Static,
    And,
    Or,
    Not,
    True,
    False,
    Other,
}

/// The part that a child plays in its parent.
#[derive(Clone, Copy, Debug, PartialEq, Eq, Structural)]
pub enum Field {
    Name,
    Value,
    Target,
    Operator,
    Object,
    Property,
    Function,
    Arguments,
    Condition,
    Subject,
    Variable,
    Other,
}

/// One node: what it is, the bytes it covers, and its place under its parent.
#[derive(Clone, Copy, Debug, PartialEq, Eq, Structural)]
pub struct NodeData {
    pub kind: Kind,
    pub start: usize,
    pub end: usize,
    pub parent: Option<usize>,
    pub named: bool,
    pub field: Option<Field>,
}

/// What a [`SyntaxTree`] stands for.
pub struct Tree {
    pub text: Seq<char>,
    pub nodes: Seq<NodeData>,
}

impl Tree {
    pub open spec fn size(self) -> nat {
        self.nodes.len()
    }

    pub open spec fn has(self, n: usize) -> bool {
        n < self.nodes.len()
    }

    pub open spec fn kind(self, n: usize) -> Kind {
        self.nodes[n as int].kind
    }

    pub open spec fn start(self, n: usize) -> int {
        self.nodes[n as int].start as int
    }

    pub open spec fn end(self, n: usize) -> int {
        self.nodes[n as int].end as int
    }

    pub open spec fn parent(self, n: usize) -> Option<usize> {
        self.nodes[n as int].parent
    }

    pub open spec fn parent_kind(self, n: usize) -> Option<Kind> {
        match self.parent(n) {
            Some(p) => Some(self.kind(p)),
            None => None,
        }
    }

    /// True when the two nodes cover the same bytes.
    pub open spec fn same_span(self, a: usize, b: usize) -> bool {
        self.start(a) == self.start(b) && self.end(a) == self.end(b)
    }

    /// The source text that node `n` covers.
    pub open spec fn text_of(self, n: usize) -> Seq<char> {
        self.text.subrange(
            char_at(self.text, self.start(n)),
            char_at(self.text, self.end(n)),
        )
    }

    /// The children of `n` among the first `k` nodes.
    pub open spec fn kids_upto(self, n: usize, k: int) -> Seq<usize>
        decreases k,
    {
        if k <= 0 {
            Seq::empty()
        } else if self.nodes[k - 1].parent == Some(n) {
            self.kids_upto(n, k - 1).push((k - 1) as usize)
        } else {
            self.kids_upto(n, k - 1)
        }
    }

    /// The children of `n`, in source order.
    pub open spec fn kids(self, n: usize) -> Seq<usize> {
        self.kids_upto(n, self.nodes.len() as int)
    }

    /// The first of `ks` from index `i` on that plays the part `f`.
    pub open spec fn first_field(self, ks: Seq<usize>, f: Field, i: int) -> Option<usize>
        decreases ks.len() - i,
    {
        if i < 0 || i >= ks.len() {
            None
        } else if self.nodes[ks[i] as int].field == Some(f) {
            Some(ks[i])
        } else {
            self.first_field(ks, f, i + 1)
        }
    }

    /// The child of `n` that plays the part `f`.
    pub open spec fn child_by_field(self, n: usize, f: Field) -> Option<usize> {
        self.first_field(self.kids(n), f, 0)
    }

    /// The first named child among `ks`, from index `i` on, of one of the kinds `a`, `b`.
    pub open spec fn first_named(self, ks: Seq<usize>, a: Kind, b: Kind, i: int) -> Option<usize>
        decreases ks.len() - i,
    {
        if i < 0 || i >= ks.len() {
            None
        } else if self.nodes[ks[i] as int].named && (self.kind(ks[i]) == a || self.kind(ks[i])
            == b) {
            Some(ks[i])
        } else {
            self.first_named(ks, a, b, i + 1)
        }
    }

    /// The first named child of `n` of one of the kinds `a`, `b`.
    pub open spec fn named_child_of(self, n: usize, a: Kind, b: Kind) -> Option<usize> {
        self.first_named(self.kids(n), a, b, 0)
    }

    /// The named nodes among the first `k` of `ks`.
    pub open spec fn named_upto(self, ks: Seq<usize>, k: int) -> Seq<usize>
        decreases k,
    {
        if k <= 0 {
            Seq::empty()
        } else if self.nodes[ks[k - 1] as int].named {
            self.named_upto(ks, k - 1).push(ks[k - 1])
        } else {
            self.named_upto(ks, k - 1)
        }
    }

    /// The named children of `n`, in source order.
    pub open spec fn named_kids(self, n: usize) -> Seq<usize> {
        self.named_upto(self.kids(n), self.kids(n).len() as int)
    }

    /// True when `a` is `n` or one of its ancestors.
    pub open spec fn encloses(self, a: usize, n: usize) -> bool
        decreases n,
    {
        if a == n {
            true
        } else {
            match self.parent(n) {
                Some(p) if p < n => self.encloses(a, p),
                _ => false,
            }
        }
    }

    /// The bytes of node `n` are a part of the text.
    pub open spec fn spans_text(self, n: usize) -> bool {
        self.start(n) <= self.end(n) && is_boundary(self.text, self.start(n)) && is_boundary(
            self.text,
            self.end(n),
        )
    }

    /// Node `n` stands in pre-order under a parent whose bytes hold its own.
    pub open spec fn nested(self, n: usize) -> bool {
        match self.parent(n) {
            None => n == 0,
            Some(p) => p < n && self.encloses(p, (n - 1) as usize) && self.start(p) <= self.start(n)
                && self.end(n) <= self.end(p),
        }
    }

    pub open spec fn wf(self) -> bool {
        &&& 0 < self.nodes.len() <= usize::MAX
        &&& forall|n: usize| #[trigger] self.has(n) ==> self.spans_text(n) && self.nested(n)
    }

    pub proof fn lemma_kids(self, n: usize, k: int)
        requires
            0 <= k <= self.nodes.len() <= usize::MAX,
        ensures
            self.kids_upto(n, k).len() <= k,
            forall|i: int|
                0 <= i < self.kids_upto(n, k).len() ==> (#[trigger] self.kids_upto(n, k)[i]) < k
                    && self.parent(self.kids_upto(n, k)[i]) == Some(n),
            forall|i: int, j: int|
                0 <= i < j < self.kids_upto(n, k).len() ==> self.kids_upto(n, k)[i]
                    < self.kids_upto(n, k)[j],
        decreases k,
    {
        if k > 0 {
            self.lemma_kids(n, k - 1);
        }
    }

    /// A child comes after its parent and covers a part of it.
    pub proof fn lemma_kid(self, n: usize, i: int)
        requires
            self.wf(),
            0 <= i < self.kids(n).len(),
        ensures
            self.has(self.kids(n)[i]),
            n < self.kids(n)[i],
            self.parent(self.kids(n)[i]) == Some(n),
            self.start(n) <= self.start(self.kids(n)[i]) <= self.end(self.kids(n)[i]) <= self.end(
                n,
            ),
    {
        self.lemma_kids(n, self.nodes.len() as int);
        assert(self.has(self.kids(n)[i]));
    }

    pub proof fn lemma_first_field(self, ks: Seq<usize>, f: Field, i: int)
        requires
            0 <= i,
        ensures
            match self.first_field(ks, f, i) {
                Some(c) => exists|j: int| i <= j < ks.len() && ks[j] == c,
                None => true,
            },
        decreases ks.len() - i,
    {
        if i < ks.len() && self.nodes[ks[i] as int].field != Some(f) {
            self.lemma_first_field(ks, f, i + 1);
        }
    }

    /// A field child is a child.
    pub proof fn lemma_child_by_field(self, n: usize, f: Field)
        requires
            self.wf(),
        ensures
            match self.child_by_field(n, f) {
                Some(c) => self.has(c) && n < c && self.parent(c) == Some(n),
                None => true,
            },
    {
        self.lemma_first_field(self.kids(n), f, 0);
        if let Some(c) = self.child_by_field(n, f) {
            let j = choose|j: int| 0 <= j < self.kids(n).len() && self.kids(n)[j] == c;
            self.lemma_kid(n, j);
        }
    }
}

/// A syntax tree.
pub struct SyntaxTree {
    text: Vec<char>,
    nodes: Vec<NodeData>,
    kids: Vec<Vec<usize>>,
    spans: Vec<(usize, usize)>,
}

impl View for SyntaxTree {
    type V = Tree;

    closed spec fn view(&self) -> Tree {
        Tree { text: self.text@, nodes: self.nodes@ }
    }
}

fn chain_holds(nodes: &Vec<NodeData>, a: usize, n: usize, Ghost(t): Ghost<Tree>) -> (r: bool)
    requires
        t.nodes == nodes@,
        n < nodes@.len(),
        forall|j: usize|
            j <= n ==> (match #[trigger] t.parent(j) {
                Some(p) => p < j,
                None => true,
            }),
    ensures
        r == t.encloses(a, n),
{
    let mut cur: usize = n;
    loop
        invariant
            cur <= n < nodes@.len(),
            t.nodes == nodes@,
            forall|j: usize|
                j <= n ==> (match #[trigger] t.parent(j) {
                    Some(p) => p < j,
                    None => true,
                }),
            t.encloses(a, n) == t.encloses(a, cur),
        decreases cur,
    {
        if a == cur {
            return true;
        }
        match nodes[cur].parent {
            Some(p) => {
                assert(t.parent(cur) == Some(p));
                cur = p;
            },
            None => {
                assert(t.parent(cur) is None);
                return false;
            },
        }
    }
}

/// `p` are the indices of the characters that node `n` covers.
pub open spec fn covers_chars(t: Tree, n: usize, p: (usize, usize)) -> bool {
    &&& p.0 <= p.1 <= t.text.len()
    &&& p.0 == char_at(t.text, t.start(n))
    &&& p.1 == char_at(t.text, t.end(n))
    &&& byte_at(t.text, p.0 as int) == t.start(n)
    &&& byte_at(t.text, p.1 as int) == t.end(n)
}

fn node_span(offsets: &Vec<usize>, nodes: &Vec<NodeData>, n: usize, Ghost(t): Ghost<Tree>) -> (r:
    Option<(usize, usize)>)
    requires
        t.nodes == nodes@,
        offsets@.len() == t.text.len() + 1,
        forall|i: int| 0 <= i < offsets@.len() ==> #[trigger] offsets@[i] == byte_at(t.text, i),
        n < nodes@.len(),
        forall|j: usize| j < n ==> #[trigger] t.nested(j),
    ensures
        match r {
            Some(p) => t.spans_text(n) && t.nested(n) && covers_chars(t, n, p),
            None => !(t.spans_text(n) && t.nested(n)),
        },
{
    let d = nodes[n];
    if d.start > d.end {
        return None;
    }
    let (a, z) = match (
        index_among(offsets, d.start, Ghost(t.text)),
        index_among(offsets, d.end, Ghost(t.text)),
    ) {
        (Some(a), Some(z)) => (a, z),
        _ => {
            return None;
        },
    };
    proof {
        lemma_char_at_unique(t.text, a as int);
        lemma_char_at_unique(t.text, z as int);
        if z < a {
            lemma_byte_at_monotone(t.text, z as int, a as int);
        }
    }
    let nested = match d.parent {
        None => n == 0,
        Some(p) => {
            if p >= n {
                return None;
            }
            proof {
                assert forall|j: usize| j <= n - 1 implies (match #[trigger] t.parent(j) {
                    Some(q) => q < j,
                    None => true,
                }) by {
                    assert(t.nested(j));
                }
            }
            chain_holds(nodes, p, n - 1, Ghost(t)) && nodes[p].start <= d.start && d.end
                <= nodes[p].end
        },
    };
    if nested {
        Some((a, z))
    } else {
        None
    }
}

impl SyntaxTree {
    #[verifier::type_invariant]
    pub closed spec fn inv(&self) -> bool {
        &&& self@.wf()
        &&& self.kids@.len() == self.nodes@.len()
        &&& self.spans@.len() == self.nodes@.len()
        &&& forall|n: usize|
            #[trigger] self@.has(n) ==> self.kids@[n as int]@ == self@.kids(n) && covers_chars(
                self@,
                n,
                self.spans@[n as int],
            )
    }

    /// The tree of `text` with the given nodes; `None` unless they form a tree over it.
    pub fn new(text: &str, nodes: Vec<NodeData>) -> (r: Option<SyntaxTree>)
        requires
            byte_len(text@) <= usize::MAX,
        ensures
            match r {
                Some(t) => t@ == (Tree { text: text@, nodes: nodes@ }) && t@.wf(),
                None => !(Tree { text: text@, nodes: nodes@ }).wf(),
            },
    {
        let chars = chars(text);
        let ghost t = Tree { text: text@, nodes: nodes@ };
        let n: usize = nodes.len();
        if n == 0 {
            return None;
        }
        let offsets = offsets(&chars);
        let mut spans: Vec<(usize, usize)> = Vec::new();
        let mut k: usize = 0;
        while k < n
            invariant
                k <= n == nodes@.len(),
                t == (Tree { text: text@, nodes: nodes@ }),
                chars@ == text@,
                offsets@.len() == t.text.len() + 1,
                forall|i: int|
                    0 <= i < offsets@.len() ==> #[trigger] offsets@[i] == byte_at(t.text, i),
                spans@.len() == k,
                forall|j: usize|
                    j < k ==> #[trigger] t.nested(j) && t.spans_text(j) && covers_chars(
                        t,
                        j,
                        spans@[j as int],
                    ),
            decreases n - k,
        {
            match node_span(&offsets, &nodes, k, Ghost(t)) {
                Some(p) => {
                    spans.push(p);
                },
                None => {
                    assert(t.has(k));
                    return None;
                },
            }
            k = k + 1;
        }
        assert(t.wf()) by {
            assert forall|j: usize| #[trigger] t.has(j) implies t.spans_text(j) && t.nested(j) by {
                assert(t.nested(j));
            }
        }
        let mut kids: Vec<Vec<usize>> = Vec::new();
        k = 0;
        while k < n
            invariant
                k <= n == nodes@.len(),
                t.nodes == nodes@,
                kids@.len() == k,
                forall|m: usize| m < k ==> kids@[m as int]@ == #[trigger] t.kids_upto(m, 0),
            decreases n - k,
        {
            kids.push(Vec::new());
            assert(t.kids_upto(k, 0) =~= Seq::empty());
            k = k + 1;
        }
        k = 0;
        while k < n
            invariant
                k <= n == nodes@.len(),
                t.nodes == nodes@,
                t.wf(),
                kids@.len() == n,
                forall|m: usize| m < n ==> kids@[m as int]@ == #[trigger] t.kids_upto(m, k as int),
            decreases n - k,
        {
            assert(t.has(k));
            assert(t.nested(k));
            let ghost before = kids@;
            match nodes[k].parent {
                Some(p) => {
                    assert(t.kids_upto(p, k as int) == kids@[p as int]@);
                    kids[p].push(k);
                    assert forall|m: usize| m < n implies kids@[m as int]@ == #[trigger] t.kids_upto(
                        m,
                        k + 1,
                    ) by {
                        assert(before[m as int]@ == t.kids_upto(m, k as int));
                    }
                },
                None => {
                    assert forall|m: usize| m < n implies kids@[m as int]@ == #[trigger] t.kids_upto(
                        m,
                        k + 1,
                    ) by {
                        assert(before[m as int]@ == t.kids_upto(m, k as int));
                    }
                },
            }
            k = k + 1;
        }
        assert forall|m: usize| #[trigger] t.has(m) implies kids@[m as int]@ == t.kids(m)
            && covers_chars(t, m, spans@[m as int]) by {
            assert(t.nested(m));
            assert(kids@[m as int]@ == t.kids_upto(m, n as int));
        }
        Some(SyntaxTree { text: chars, nodes, kids, spans })
    }

    /// What every tree keeps.
    pub fn well_formed(&self)
        ensures
            self@.wf(),
    {
        proof {
            use_type_invariant(self);
        }
    }

    pub fn len(&self) -> (n: usize)
        ensures
            n == self@.size(),
            n > 0,
    {
        proof {
            use_type_invariant(self);
        }
        self.nodes.len()
    }

    /// The characters of the script.
    pub fn characters(&self) -> (v: &Vec<char>)
        ensures
            v@ == self@.text,
    {
        &self.text
    }

    pub fn node(&self, n: usize) -> (d: NodeData)
        requires
            self@.has(n),
        ensures
            d == self@.nodes[n as int],
            d.start <= d.end,
    {
        proof {
            use_type_invariant(self);
            assert(self@.has(n));
        }
        self.nodes[n]
    }

    pub fn kind(&self, n: usize) -> (k: Kind)
        requires
            self@.has(n),
        ensures
            k == self@.kind(n),
    {
        self.nodes[n].kind
    }

    pub fn start(&self, n: usize) -> (b: usize)
        requires
            self@.has(n),
        ensures
            b == self@.start(n),
    {
        self.nodes[n].start
    }

    pub fn end(&self, n: usize) -> (b: usize)
        requires
            self@.has(n),
        ensures
            b == self@.end(n),
    {
        self.nodes[n].end
    }

    pub fn parent(&self, n: usize) -> (p: Option<usize>)
        requires
            self@.has(n),
        ensures
            p == self@.parent(n),
            p matches Some(q) ==> q < n && self@.has(q),
    {
        proof {
            use_type_invariant(self);
            assert(self@.has(n));
            assert(self@.nested(n));
        }
        self.nodes[n].parent
    }

    pub fn parent_kind(&self, n: usize) -> (k: Option<Kind>)
        requires
            self@.has(n),
        ensures
            k == self@.parent_kind(n),
    {
        match self.parent(n) {
            Some(p) => Some(self.kind(p)),
            None => None,
        }
    }

    pub fn same_span(&self, a: usize, b: usize) -> (r: bool)
        requires
            self@.has(a),
            self@.has(b),
        ensures
            r == self@.same_span(a, b),
    {
        self.start(a) == self.start(b) && self.end(a) == self.end(b)
    }

    pub fn children(&self, n: usize) -> (ks: &Vec<usize>)
        requires
            self@.has(n),
        ensures
            ks@ == self@.kids(n),
            forall|i: int| 0 <= i < ks@.len() ==> n < #[trigger] ks@[i] && self@.has(ks@[i]),
    {
        proof {
            use_type_invariant(self);
            assert(self@.has(n));
            assert forall|i: int| 0 <= i < self@.kids(n).len() implies n < #[trigger] self@.kids(
                n,
            )[i] && self@.has(self@.kids(n)[i]) by {
                self@.lemma_kid(n, i);
            }
        }
        &self.kids[n]
    }

    pub fn child_by_field(&self, n: usize, f: Field) -> (r: Option<usize>)
        requires
            self@.has(n),
        ensures
            r == self@.child_by_field(n, f),
            r matches Some(c) ==> n < c && self@.has(c),
    {
        let ks = self.children(n);
        let mut i: usize = 0;
        while i < ks.len()
            invariant
                i <= ks@.len(),
                ks@ == self@.kids(n),
                forall|i: int| 0 <= i < ks@.len() ==> n < #[trigger] ks@[i] && self@.has(ks@[i]),
                self@.child_by_field(n, f) == self@.first_field(ks@, f, i as int),
            decreases ks@.len() - i,
        {
            let c: usize = ks[i];
            match self.node(c).field {
                Some(g) => {
                    if g == f {
                        return Some(c);
                    }
                },
                None => {},
            }
            i = i + 1;
        }
        None
    }

    pub fn named_child_of(&self, n: usize, a: Kind, b: Kind) -> (r: Option<usize>)
        requires
            self@.has(n),
        ensures
            r == self@.named_child_of(n, a, b),
            r matches Some(c) ==> n < c && self@.has(c),
    {
        let ks = self.children(n);
        let mut i: usize = 0;
        while i < ks.len()
            invariant
                i <= ks@.len(),
                ks@ == self@.kids(n),
                forall|i: int| 0 <= i < ks@.len() ==> n < #[trigger] ks@[i] && self@.has(ks@[i]),
                self@.named_child_of(n, a, b) == self@.first_named(ks@, a, b, i as int),
            decreases ks@.len() - i,
        {
            let c: usize = ks[i];
            let d = self.node(c);
            if d.named && (d.kind == a || d.kind == b) {
                return Some(c);
            }
            i = i + 1;
        }
        None
    }

    pub fn named_children(&self, n: usize) -> (r: Vec<usize>)
        requires
            self@.has(n),
        ensures
            r@ == self@.named_kids(n),
            forall|i: int| 0 <= i < r@.len() ==> n < #[trigger] r@[i] && self@.has(r@[i]),
    {
        let ks = self.children(n);
        let mut r: Vec<usize> = Vec::new();
        let mut i: usize = 0;
        while i < ks.len()
            invariant
                i <= ks@.len(),
                ks@ == self@.kids(n),
                forall|i: int| 0 <= i < ks@.len() ==> n < #[trigger] ks@[i] && self@.has(ks@[i]),
                r@ == self@.named_upto(ks@, i as int),
                forall|i: int| 0 <= i < r@.len() ==> n < #[trigger] r@[i] && self@.has(r@[i]),
            decreases ks@.len() - i,
        {
            let c: usize = ks[i];
            if self.node(c).named {
                r.push(c);
            }
            i = i + 1;
        }
        r
    }

    /// The characters that node `n` covers, as indices into the text.
    pub fn char_span(&self, n: usize) -> (r: (usize, usize))
        requires
            self@.has(n),
        ensures
            r.0 == char_at(self@.text, self@.start(n)),
            r.1 == char_at(self@.text, self@.end(n)),
            r.0 <= r.1 <= self@.text.len(),
            byte_at(self@.text, r.0 as int) == self@.start(n),
            byte_at(self@.text, r.1 as int) == self@.end(n),
    {
        proof {
            use_type_invariant(self);
            assert(self@.has(n));
        }
        self.spans[n]
    }

    /// The source text that node `n` covers.
    pub fn text_of(&self, n: usize) -> (s: String)
        requires
            self@.has(n),
        ensures
            s@ == self@.text_of(n),
    {
        let (i, j) = self.char_span(n);
        substring(&self.text, i, j)
    }
}

} // verus!
