//! From a cursor to a node and its dotted path, and the scope of a script.
use crate::list::{extend, fresh, one, put};
use crate::model::{find_key, key_index, Resolution, Scope, type_at, type_in, ValueType};
use crate::search::{join, joined, split, split_on};
use crate::syntax::{Field, Kind, SyntaxTree, Tree};
use vstd::prelude::*;

verus! {

// ---------------------------------------------------------------------------
// The node under the cursor
// ---------------------------------------------------------------------------

/// Byte `b` is one of the node's bytes, or the place of an empty node.
pub open spec fn covers(t: Tree, n: usize, b: int) -> bool {
    (t.start(n) <= b < t.end(n)) || (t.start(n) == t.end(n) && t.start(n) == b)
}

/// The first of `ks` from index `i` on that covers byte `b`.
pub open spec fn first_covering(t: Tree, ks: Seq<usize>, b: int, i: int) -> Option<usize>
    decreases ks.len() - i,
{
    if i < 0 || i >= ks.len() {
        None
    } else if covers(t, ks[i], b) {
        Some(ks[i])
    } else {
        first_covering(t, ks, b, i + 1)
    }
}

/// The deepest node below `n`, or `n` itself, on the way of children that cover byte `b`.
pub open spec fn deepest(t: Tree, n: usize, b: int) -> usize
    decreases t.size() - n,
{
    match first_covering(t, t.kids(n), b, 0) {
        Some(c) if n < c && t.has(c) => deepest(t, c, b),
        _ => n,
    }
}

/// The deepest node at byte `b`, if the tree reaches that far.
pub open spec fn node_at(t: Tree, b: int) -> Option<usize> {
    if t.start(0) <= b <= t.end(0) {
        Some(deepest(t, 0, b))
    } else {
        None
    }
}

fn covering_child(tree: &SyntaxTree, n: usize, byte: usize) -> (r: Option<usize>)
    requires
        tree@.has(n),
    ensures
        r == first_covering(tree@, tree@.kids(n), byte as int, 0),
        r matches Some(c) ==> n < c && tree@.has(c),
{
    let ks = tree.children(n);
    let mut i: usize = 0;
    while i < ks.len()
        invariant
            i <= ks@.len(),
            ks@ == tree@.kids(n),
            forall|i: int| 0 <= i < ks@.len() ==> n < #[trigger] ks@[i] && tree@.has(ks@[i]),
            first_covering(tree@, ks@, byte as int, 0) == first_covering(
                tree@,
                ks@,
                byte as int,
                i as int,
            ),
        decreases ks@.len() - i,
    {
        let d = tree.node(ks[i]);
        if (d.start <= byte && byte < d.end) || (d.start == d.end && d.start == byte) {
            return Some(ks[i]);
        }
        i = i + 1;
    }
    None
}

/// The deepest node whose bytes hold `byte`.
pub fn node_at_byte(tree: &SyntaxTree, byte: usize) -> (r: Option<usize>)
    ensures
        r == node_at(tree@, byte as int),
        r matches Some(n) ==> tree@.has(n),
{
    let size: usize = tree.len();
    let root = tree.node(0);
    if byte < root.start || byte > root.end {
        return None;
    }
    let mut n: usize = 0;
    loop
        invariant
            size == tree@.size(),
            tree@.has(n),
            deepest(tree@, 0, byte as int) == deepest(tree@, n, byte as int),
            node_at(tree@, byte as int) == Some(deepest(tree@, 0, byte as int)),
        decreases size - n,
    {
        match covering_child(tree, n, byte) {
            Some(c) => {
                n = c;
            },
            None => {
                return Some(n);
            },
        }
    }
}

pub open spec fn is_path_kind(k: Kind) -> bool {
    k == Kind::Identifier || k == Kind::MemberExpression
}

pub fn path_kind(k: Kind) -> (r: bool)
    ensures
        r == is_path_kind(k),
{
    k == Kind::Identifier || k == Kind::MemberExpression
}

/// The outermost member expression that `n` is an end of.
pub open spec fn outermost(t: Tree, n: usize) -> usize
    decreases n,
{
    match t.parent(n) {
        Some(p) if p < n && t.kind(p) == Kind::MemberExpression => outermost(t, p),
        _ => n,
    }
}

/// The dotted path at byte `b`.
pub open spec fn path_node(t: Tree, b: int) -> Option<usize> {
    match node_at(t, b) {
        Some(n) if is_path_kind(t.kind(n)) => Some(outermost(t, n)),
        _ => None,
    }
}

/// Climbs out of the enclosing member expressions.
pub fn top_path_node(tree: &SyntaxTree, n: usize) -> (top: usize)
    requires
        tree@.has(n),
    ensures
        top == outermost(tree@, n),
        top <= n,
        tree@.has(top),
{
    let mut top: usize = n;
    loop
        invariant
            tree@.has(top),
            top <= n,
            outermost(tree@, n) == outermost(tree@, top),
        decreases top,
    {
        match tree.parent(top) {
            Some(p) => {
                if tree.kind(p) == Kind::MemberExpression {
                    top = p;
                } else {
                    return top;
                }
            },
            None => {
                return top;
            },
        }
    }
}

/// The outermost path node at `byte`, with its text.
pub fn path_at_byte(tree: &SyntaxTree, byte: usize) -> (r: Option<(usize, String)>)
    ensures
        match r {
            Some((n, s)) => path_node(tree@, byte as int) == Some(n) && tree@.has(n) && s@
                == tree@.text_of(n),
            None => path_node(tree@, byte as int) is None,
        },
{
    match node_at_byte(tree, byte) {
        Some(n) => {
            if !path_kind(tree.kind(n)) {
                return None;
            }
            let top: usize = top_path_node(tree, n);
            Some((top, tree.text_of(top)))
        },
        None => None,
    }
}

// ---------------------------------------------------------------------------
// Segments
// ---------------------------------------------------------------------------

pub open spec fn opt_seq(c: Option<usize>) -> Seq<usize> {
    match c {
        Some(n) => seq![n],
        None => Seq::empty(),
    }
}

/// The nodes of the segments of the dotted path `n`, leftmost first.
pub open spec fn segments(t: Tree, n: usize) -> Seq<usize>
    decreases t.size() - n,
{
    if t.kind(n) == Kind::MemberExpression {
        (match t.child_by_field(n, Field::Object) {
            Some(o) if n < o && t.has(o) => segments(t, o),
            _ => Seq::empty(),
        }) + opt_seq(t.child_by_field(n, Field::Property))
    } else {
        seq![n]
    }
}

pub proof fn lemma_segments(t: Tree, n: usize)
    requires
        t.wf(),
        t.has(n),
    ensures
        forall|i: int| 0 <= i < segments(t, n).len() ==> t.has(#[trigger] segments(t, n)[i]),
    decreases t.size() - n,
{
    if t.kind(n) == Kind::MemberExpression {
        t.lemma_child_by_field(n, Field::Object);
        t.lemma_child_by_field(n, Field::Property);
        let a = match t.child_by_field(n, Field::Object) {
            Some(o) if n < o && t.has(o) => segments(t, o),
            _ => Seq::empty(),
        };
        let b = opt_seq(t.child_by_field(n, Field::Property));
        assert(segments(t, n) == a + b);
        if let Some(o) = t.child_by_field(n, Field::Object) {
            lemma_segments(t, o);
        }
        assert forall|i: int| 0 <= i < segments(t, n).len() implies t.has(
            #[trigger] segments(t, n)[i],
        ) by {
            if i < a.len() {
                assert(segments(t, n)[i] == a[i]);
            } else {
                assert(segments(t, n)[i] == b[i - a.len()]);
            }
        }
    }
}

/// The nodes of the segments of a dotted path, leftmost first.
pub fn segment_nodes(tree: &SyntaxTree, top: usize) -> (r: Vec<usize>)
    requires
        tree@.has(top),
    ensures
        r@ == segments(tree@, top),
        forall|i: int| 0 <= i < r@.len() ==> tree@.has(#[trigger] r@[i]),
{
    tree.well_formed();
    proof {
        lemma_segments(tree@, top);
    }
    let mut props: Vec<usize> = Vec::new();
    let mut base: Option<usize> = None;
    let mut n: usize = top;
    let mut done = false;
    while !done
        invariant
            tree@.wf(),
            tree@.has(n),
            !done ==> segments(tree@, top) =~= segments(tree@, n) + props@.reverse() && base is None,
            done ==> segments(tree@, top) =~= opt_seq(base) + props@.reverse(),
        decreases
                tree@.size() - n,
                if done {
                    0int
                } else {
                    1int
                },
    {
        if tree.kind(n) == Kind::MemberExpression {
            let ghost before = props@;
            match tree.child_by_field(n, Field::Property) {
                Some(p) => {
                    props.push(p);
                    assert(props@.reverse() =~= seq![p] + before.reverse());
                },
                None => {},
            }
            match tree.child_by_field(n, Field::Object) {
                Some(o) => {
                    n = o;
                },
                None => {
                    done = true;
                },
            }
        } else {
            base = Some(n);
            done = true;
        }
    }
    let mut r: Vec<usize> = Vec::new();
    if let Some(b) = base {
        r.push(b);
    }
    let mut k: usize = props.len();
    while k > 0
        invariant
            k <= props@.len(),
            r@ =~= opt_seq(base) + props@.reverse().take(props@.len() - k),
        decreases k,
    {
        k = k - 1;
        r.push(props[k]);
        assert(props@.reverse().take(props@.len() - k) =~= props@.reverse().take(
            props@.len() - k - 1,
        ).push(props@[k as int]));
    }
    assert(props@.reverse().take(props@.len() as int) =~= props@.reverse());
    r
}

/// The index of the first of `ss`, from `i` on, that byte `b` touches.
pub open spec fn touched(t: Tree, ss: Seq<usize>, b: int, i: int) -> Option<usize>
    decreases ss.len() - i,
{
    if i < 0 || i >= ss.len() {
        None
    } else if t.start(ss[i]) <= b <= t.end(ss[i]) {
        Some(i as usize)
    } else {
        touched(t, ss, b, i + 1)
    }
}

/// The index of the segment that `byte` touches.
pub fn segment_at_byte(tree: &SyntaxTree, top: usize, byte: usize) -> (r: Option<usize>)
    requires
        tree@.has(top),
    ensures
        r == touched(tree@, segments(tree@, top), byte as int, 0),
        r matches Some(i) ==> i < segments(tree@, top).len(),
{
    let segs = segment_nodes(tree, top);
    let mut i: usize = 0;
    while i < segs.len()
        invariant
            i <= segs@.len(),
            segs@ == segments(tree@, top),
            forall|i: int| 0 <= i < segs@.len() ==> tree@.has(#[trigger] segs@[i]),
            touched(tree@, segs@, byte as int, 0) == touched(tree@, segs@, byte as int, i as int),
        decreases segs@.len() - i,
    {
        let d = tree.node(segs[i]);
        if d.start <= byte && byte <= d.end {
            return Some(i);
        }
        i = i + 1;
    }
    None
}

/// The texts of the first `k` of the nodes `ss`.
pub open spec fn texts(t: Tree, ss: Seq<usize>, k: int) -> Seq<Seq<char>>
    decreases k,
{
    if k <= 0 {
        Seq::empty()
    } else {
        texts(t, ss, k - 1).push(t.text_of(ss[k - 1]))
    }
}

/// The first `k` segments, with dots between them.
pub open spec fn dotted(t: Tree, ss: Seq<usize>, k: int) -> Seq<char> {
    joined(texts(t, ss, k), "."@)
}

pub fn dotted_prefix(tree: &SyntaxTree, segs: &Vec<usize>, k: usize) -> (s: String)
    requires
        k <= segs@.len(),
        forall|i: int| 0 <= i < segs@.len() ==> tree@.has(#[trigger] segs@[i]),
    ensures
        s@ == dotted(tree@, segs@, k as int),
{
    let mut parts: Vec<String> = fresh();
    let mut i: usize = 0;
    while i < k
        invariant
            i <= k <= segs@.len(),
            forall|i: int| 0 <= i < segs@.len() ==> tree@.has(#[trigger] segs@[i]),
            parts.deep_view() == texts(tree@, segs@, i as int),
            parts@.len() == i,
        decreases k - i,
    {
        put(&mut parts, tree.text_of(segs[i]));
        i = i + 1;
    }
    assert(parts.deep_view().take(k as int) =~= parts.deep_view());
    join(&parts, k, ".")
}

/// The segments up to the one with index `i`, with dots between them.
pub fn dotted_through(tree: &SyntaxTree, segs: &Vec<usize>, i: usize) -> (s: String)
    requires
        i < segs@.len(),
        forall|i: int| 0 <= i < segs@.len() ==> tree@.has(#[trigger] segs@[i]),
    ensures
        s@ == dotted(tree@, segs@, i + 1),
{
    let n: usize = segs.len();
    dotted_prefix(tree, segs, n - (n - i - 1))
}

// ---------------------------------------------------------------------------
// Occurrences
// ---------------------------------------------------------------------------

/// `n` covers the bytes that follow the dot of a member expression.
pub open spec fn is_property(t: Tree, n: usize) -> bool {
    match t.parent(n) {
        Some(p) if t.kind(p) == Kind::MemberExpression => match t.child_by_field(
            p,
            Field::Property,
        ) {
            Some(c) => t.same_span(c, n),
            None => false,
        },
        _ => false,
    }
}

/// `n` stands below a type annotation.
pub open spec fn in_annotation(t: Tree, n: usize) -> bool
    decreases n,
{
    match t.parent(n) {
        Some(p) if p < n => t.kind(p) == Kind::TypeAnnotation || in_annotation(t, p),
        _ => false,
    }
}

/// `n` is the outermost node of a dotted path that names a value.
pub open spec fn is_top_path(t: Tree, n: usize) -> bool {
    is_path_kind(t.kind(n)) && t.parent_kind(n) != Some(Kind::MemberExpression) && !in_annotation(
        t,
        n,
    )
}

/// `n` covers the bytes of its parent's child with the part `f`.
pub open spec fn plays(t: Tree, p: usize, n: usize, f: Field) -> bool {
    match t.child_by_field(p, f) {
        Some(c) => t.same_span(c, n),
        None => false,
    }
}

/// The path `n` is the target of an assignment or the name of a local declaration.
pub open spec fn is_written(t: Tree, n: usize) -> bool {
    match t.parent(n) {
        Some(p) => (t.kind(p) == Kind::AssignmentStatement && plays(t, p, n, Field::Target)) || (
        t.kind(p) == Kind::LocalDeclaration && plays(t, p, n, Field::Name)),
        None => false,
    }
}

fn child_spans(tree: &SyntaxTree, p: usize, n: usize, f: Field) -> (r: bool)
    requires
        tree@.has(p),
        tree@.has(n),
    ensures
        r == plays(tree@, p, n, f),
{
    match tree.child_by_field(p, f) {
        Some(c) => tree.same_span(c, n),
        None => false,
    }
}

/// True when `n` is the property of the member expression `parent`.
pub fn is_member_property_of(tree: &SyntaxTree, n: usize, parent: Option<usize>) -> (r: bool)
    requires
        tree@.has(n),
        parent == tree@.parent(n),
    ensures
        r == is_property(tree@, n),
{
    tree.well_formed();
    proof {
        assert(tree@.has(n));
        assert(tree@.nested(n));
    }
    match parent {
        Some(p) => tree.kind(p) == Kind::MemberExpression && child_spans(
            tree,
            p,
            n,
            Field::Property,
        ),
        None => false,
    }
}

/// True when `n` is the property of a member expression: a field access, never a local.
pub fn is_member_property(tree: &SyntaxTree, n: usize) -> (r: bool)
    requires
        tree@.has(n),
    ensures
        r == is_property(tree@, n),
{
    is_member_property_of(tree, n, tree.parent(n))
}

/// True when `n` stands in a type annotation, where a name is a type.
pub fn in_type_annotation(tree: &SyntaxTree, n: usize) -> (r: bool)
    requires
        tree@.has(n),
    ensures
        r == in_annotation(tree@, n),
{
    let mut k: usize = n;
    loop
        invariant
            tree@.has(k),
            in_annotation(tree@, n) == in_annotation(tree@, k),
        decreases k,
    {
        match tree.parent(k) {
            Some(p) => {
                if tree.kind(p) == Kind::TypeAnnotation {
                    return true;
                }
                k = p;
            },
            None => {
                return false;
            },
        }
    }
}

/// One step of a walk: the node, its parent, and whether it stands in a type annotation.
#[derive(Clone, Copy, Debug, PartialEq, Eq, Structural)]
pub struct Visit {
    pub node: usize,
    pub parent: Option<usize>,
    pub in_type: bool,
}

/// Every node in source order, with what a scan needs to know of its surroundings. Each
/// node takes one step: what stands around it comes from its parent's step.
pub fn walk_ctx(tree: &SyntaxTree) -> (r: Vec<Visit>)
    ensures
        r@.len() == tree@.size(),
        forall|n: usize|
            #[trigger] tree@.has(n) ==> r@[n as int] == (Visit {
                node: n,
                parent: tree@.parent(n),
                in_type: in_annotation(tree@, n),
            }),
{
    let size: usize = tree.len();
    let mut r: Vec<Visit> = Vec::new();
    let mut k: usize = 0;
    while k < size
        invariant
            k <= size == tree@.size(),
            r@.len() == k,
            forall|n: usize|
                n < k ==> #[trigger] tree@.has(n) ==> r@[n as int] == (Visit {
                    node: n,
                    parent: tree@.parent(n),
                    in_type: in_annotation(tree@, n),
                }),
        decreases size - k,
    {
        let parent = tree.parent(k);
        let in_type = match parent {
            Some(p) => {
                assert(tree@.has(p));
                tree.kind(p) == Kind::TypeAnnotation || r[p].in_type
            },
            None => false,
        };
        r.push(Visit { node: k, parent, in_type });
        k = k + 1;
    }
    r
}

/// True when the path `node` is written: the target of an assignment, or the name of a
/// local declaration.
pub fn is_write_of(tree: &SyntaxTree, node: usize, parent: Option<usize>) -> (r: bool)
    requires
        tree@.has(node),
        parent == tree@.parent(node),
    ensures
        r == is_written(tree@, node),
{
    tree.well_formed();
    proof {
        assert(tree@.has(node));
        assert(tree@.nested(node));
    }
    match parent {
        Some(p) => match tree.kind(p) {
            Kind::AssignmentStatement => child_spans(tree, p, node, Field::Target),
            Kind::LocalDeclaration => child_spans(tree, p, node, Field::Name),
            _ => false,
        },
        None => false,
    }
}

/// The outermost paths among the first `k` nodes, each with whether it is written.
pub open spec fn top_paths_upto(t: Tree, k: int) -> Seq<(usize, bool)>
    decreases k,
{
    if k <= 0 {
        Seq::empty()
    } else {
        let n = (k - 1) as usize;
        if is_top_path(t, n) {
            top_paths_upto(t, k - 1).push((n, is_written(t, n)))
        } else {
            top_paths_upto(t, k - 1)
        }
    }
}

/// The outermost dotted paths of the script, each with whether it is written.
pub open spec fn top_path_seq(t: Tree) -> Seq<(usize, bool)> {
    top_paths_upto(t, t.size() as int)
}

/// Every outermost dotted path, in source order, with whether it is written.
pub fn top_paths(tree: &SyntaxTree) -> (r: Vec<(usize, bool)>)
    ensures
        r@ == top_path_seq(tree@),
        forall|i: int| 0 <= i < r@.len() ==> tree@.has((#[trigger] r@[i]).0),
{
    let visits = walk_ctx(tree);
    let mut r: Vec<(usize, bool)> = Vec::new();
    let mut k: usize = 0;
    while k < visits.len()
        invariant
            k <= visits@.len() == tree@.size(),
            forall|n: usize|
                #[trigger] tree@.has(n) ==> visits@[n as int] == (Visit {
                    node: n,
                    parent: tree@.parent(n),
                    in_type: in_annotation(tree@, n),
                }),
            r@ == top_paths_upto(tree@, k as int),
            forall|i: int| 0 <= i < r@.len() ==> tree@.has((#[trigger] r@[i]).0),
        decreases visits@.len() - k,
    {
        assert(tree@.has(k));
        let v = visits[k];
        let in_member = match tree.parent(k) {
            Some(p) => tree.kind(p) == Kind::MemberExpression,
            None => false,
        };
        if path_kind(tree.kind(k)) && !in_member && !v.in_type {
            r.push((k, is_write_of(tree, k, v.parent)));
        }
        k = k + 1;
    }
    r
}

// ---------------------------------------------------------------------------
// Locals and scopes
// ---------------------------------------------------------------------------

/// The name that the declaration `n` gives a local.
pub open spec fn declared_name(t: Tree, n: usize) -> Option<usize> {
    if t.kind(n) == Kind::LocalDeclaration {
        t.named_child_of(n, Kind::Identifier, Kind::Identifier)
    } else {
        None
    }
}

pub fn declaration_name(tree: &SyntaxTree, n: usize) -> (r: Option<usize>)
    requires
        tree@.has(n),
    ensures
        r == declared_name(tree@, n),
        r matches Some(c) ==> tree@.has(c),
{
    if tree.kind(n) == Kind::LocalDeclaration {
        tree.named_child_of(n, Kind::Identifier, Kind::Identifier)
    } else {
        None
    }
}

/// The type that the table gives for the initialiser of declaration `n`.
pub open spec fn decl_type(t: Tree, n: usize, types: Seq<(usize, ValueType)>) -> ValueType {
    match t.child_by_field(n, Field::Value) {
        Some(init) => type_at(types, init, 0),
        None => ValueType::Unknown,
    }
}

/// `m` with the name bound to the type.
pub open spec fn bind(
    m: Seq<(Seq<char>, ValueType)>,
    name: Seq<char>,
    ty: ValueType,
) -> Seq<(Seq<char>, ValueType)> {
    match key_index(m, name, 0) {
        Some(i) => m.update(i, (name, ty)),
        None => m.push((name, ty)),
    }
}

/// The locals that the first `k` nodes declare. A name declared again takes the later type.
pub open spec fn locals_upto(t: Tree, types: Seq<(usize, ValueType)>, k: int) -> Seq<
    (Seq<char>, ValueType),
>
    decreases k,
{
    if k <= 0 {
        Seq::empty()
    } else {
        let n = (k - 1) as usize;
        match declared_name(t, n) {
            Some(c) => bind(locals_upto(t, types, k - 1), t.text_of(c), decl_type(t, n, types)),
            None => locals_upto(t, types, k - 1),
        }
    }
}

/// The locals of the script.
pub open spec fn locals_of(t: Tree, types: Seq<(usize, ValueType)>) -> Seq<
    (Seq<char>, ValueType),
> {
    locals_upto(t, types, t.size() as int)
}

/// The script declares a local of that name.
pub open spec fn is_local(t: Tree, name: Seq<char>) -> bool {
    key_index(locals_of(t, Seq::empty()), name, 0) is Some
}

fn initial_type(tree: &SyntaxTree, decl: usize, types: &Vec<(usize, ValueType)>) -> (r: ValueType)
    requires
        tree@.has(decl),
    ensures
        r == decl_type(tree@, decl, types@),
{
    match tree.child_by_field(decl, Field::Value) {
        Some(init) => type_in(types, init),
        None => ValueType::Unknown,
    }
}

/// The type of a local declaration's initialiser in `scope`; `Unknown` without one.
pub fn local_decl_type(tree: &SyntaxTree, decl: usize, scope: &Scope) -> (r: ValueType)
    requires
        tree@.has(decl),
    ensures
        r == decl_type(tree@, decl, scope.types@),
{
    initial_type(tree, decl, &scope.types)
}

/// Binds the name to the type.
pub fn declare(m: &mut Vec<(String, ValueType)>, name: String, ty: ValueType)
    ensures
        final(m).deep_view() == bind(old(m).deep_view(), name@, ty),
{
    let ghost before = m.deep_view();
    match find_key(m, name.as_str()) {
        Some(i) => {
            m.set(i, (name, ty));
            assert(m.deep_view() =~= before.update(i as int, (name@, ty)));
        },
        None => {
            put(m, (name, ty));
        },
    }
}

fn collect_locals_before(tree: &SyntaxTree, types: &Vec<(usize, ValueType)>, n: usize) -> (r: Vec<
    (String, ValueType),
>)
    requires
        n <= tree@.size(),
    ensures
        r.deep_view() == locals_upto(tree@, types@, n as int),
{
    let mut r: Vec<(String, ValueType)> = fresh();
    let mut k: usize = 0;
    while k < n
        invariant
            k <= n <= tree@.size(),
            r.deep_view() == locals_upto(tree@, types@, k as int),
        decreases n - k,
    {
        match declaration_name(tree, k) {
            Some(c) => {
                declare(&mut r, tree.text_of(c), initial_type(tree, k, types));
            },
            None => {},
        }
        k = k + 1;
    }
    r
}

/// The locals that the script declares, each with the type that `types` gives for its
/// initialiser.
pub fn collect_locals(tree: &SyntaxTree, types: &Vec<(usize, ValueType)>) -> (r: Vec<
    (String, ValueType),
>)
    ensures
        r.deep_view() == locals_of(tree@, types@),
{
    collect_locals_before(tree, types, tree.len())
}

pub fn declares_local(tree: &SyntaxTree, name: &str) -> (r: bool)
    ensures
        r == is_local(tree@, name@),
{
    let none: Vec<(usize, ValueType)> = Vec::new();
    assert(none@ =~= Seq::empty());
    let locals = collect_locals(tree, &none);
    find_key(&locals, name).is_some()
}

/// The scope of a script in front of node `n`: the locals that are declared there, with the
/// types that `types` gives for their initialisers, and the group. The initialiser of a
/// declaration is typed in the scope in front of it.
pub fn scope_before(
    tree: &SyntaxTree,
    group: Option<String>,
    types: &Vec<(usize, ValueType)>,
    n: usize,
) -> (r: Scope)
    requires
        n <= tree@.size(),
    ensures
        r.deep_view().locals == locals_upto(tree@, types@, n as int),
        r.deep_view().group == group.deep_view(),
        r.deep_view().resolutions.len() == 0,
        r.deep_view().types.len() == 0,
{
    Scope {
        locals: collect_locals_before(tree, types, n),
        group,
        resolutions: fresh(),
        types: Vec::new(),
    }
}

/// The scope of a script: its locals with the types that `initial` gives for their
/// initialisers, its group, what its paths name, and the types of its initialisers
/// where every local is known.
pub fn build_scope(
    tree: &SyntaxTree,
    initial: &Vec<(usize, ValueType)>,
    group: Option<String>,
    resolutions: Vec<(String, Resolution)>,
    types: Vec<(usize, ValueType)>,
) -> (r: Scope)
    ensures
        r.deep_view().locals == locals_of(tree@, initial@),
        r.deep_view().group == group.deep_view(),
        r.deep_view().resolutions == resolutions.deep_view(),
        r.types@ == types@,
{
    Scope { locals: collect_locals(tree, initial), group, resolutions, types }
}

/// The starts of a path of those segments, up to that of `k` segments.
pub open spec fn starts_upto(parts: Seq<Seq<char>>, k: int) -> Seq<Seq<char>>
    decreases k,
{
    if k <= 0 {
        Seq::empty()
    } else {
        starts_upto(parts, k - 1).push(joined(parts.take(k), "."@))
    }
}

/// What a lookup of the path `n` can ask for: its text, and its starts, as they are written
/// and by its segments.
pub open spec fn path_names(t: Tree, n: usize) -> Seq<Seq<char>> {
    let written = split(t.text_of(n), '.');
    let segs = segments(t, n);
    seq![t.text_of(n)] + starts_upto(written, written.len() as int) + starts_upto(
        texts(t, segs, segs.len() as int),
        segs.len() as int,
    )
}

/// What a lookup of the paths among the first `k` nodes can ask for.
pub open spec fn scope_paths_upto(t: Tree, k: int) -> Seq<Seq<char>>
    decreases k,
{
    if k <= 0 {
        Seq::empty()
    } else {
        let n = (k - 1) as usize;
        if is_path_kind(t.kind(n)) {
            scope_paths_upto(t, k - 1) + path_names(t, n)
        } else {
            scope_paths_upto(t, k - 1)
        }
    }
}

fn starts_of(parts: &Vec<String>) -> (r: Vec<String>)
    ensures
        r.deep_view() == starts_upto(parts.deep_view(), parts@.len() as int),
{
    let mut r: Vec<String> = fresh();
    let mut k: usize = 0;
    while k < parts.len()
        invariant
            k <= parts@.len(),
            r.deep_view() == starts_upto(parts.deep_view(), k as int),
        decreases parts@.len() - k,
    {
        put(&mut r, join(parts, k + 1, "."));
        k = k + 1;
    }
    r
}

fn segment_texts(tree: &SyntaxTree, segs: &Vec<usize>) -> (r: Vec<String>)
    requires
        forall|i: int| 0 <= i < segs@.len() ==> tree@.has(#[trigger] segs@[i]),
    ensures
        r.deep_view() == texts(tree@, segs@, segs@.len() as int),
        r@.len() == segs@.len(),
{
    let mut r: Vec<String> = fresh();
    let mut i: usize = 0;
    while i < segs.len()
        invariant
            i <= segs@.len(),
            forall|i: int| 0 <= i < segs@.len() ==> tree@.has(#[trigger] segs@[i]),
            r.deep_view() == texts(tree@, segs@, i as int),
            r@.len() == i,
        decreases segs@.len() - i,
    {
        put(&mut r, tree.text_of(segs[i]));
        i = i + 1;
    }
    r
}

/// Everything that a lookup of a path of the script can ask for: each path, and each start of
/// one, as it is written and by its segments.
pub fn scope_paths(tree: &SyntaxTree) -> (r: Vec<String>)
    ensures
        r.deep_view() == scope_paths_upto(tree@, tree@.size() as int),
{
    let size: usize = tree.len();
    let mut r: Vec<String> = fresh();
    let mut k: usize = 0;
    while k < size
        invariant
            k <= size == tree@.size(),
            r.deep_view() == scope_paths_upto(tree@, k as int),
        decreases size - k,
    {
        if path_kind(tree.kind(k)) {
            let text = tree.text_of(k);
            let written = split_on(text.as_str(), '.');
            assert(written.deep_view().len() == written@.len());
            let segs = segment_nodes(tree, k);
            let mut names = one(text);
            extend(&mut names, starts_of(&written));
            extend(&mut names, starts_of(&segment_texts(tree, &segs)));
            assert(names.deep_view() == path_names(tree@, k));
            extend(&mut r, names);
        }
        k = k + 1;
    }
    r
}

proof fn lemma_scope_paths(t: Tree, n: usize, k: int, name: Seq<char>)
    requires
        n < k <= t.size() <= usize::MAX,
        is_path_kind(t.kind(n)),
        path_names(t, n).contains(name),
    ensures
        scope_paths_upto(t, k).contains(name),
    decreases k,
{
    let all = scope_paths_upto(t, k);
    let rest = scope_paths_upto(t, k - 1);
    if n == k - 1 {
        let i = choose|i: int| 0 <= i < path_names(t, n).len() && path_names(t, n)[i] == name;
        assert(all[rest.len() + i] == name);
    } else {
        lemma_scope_paths(t, n, k - 1, name);
        let i = choose|i: int| 0 <= i < rest.len() && rest[i] == name;
        assert(all[i] == name);
    }
}

proof fn lemma_starts(parts: Seq<Seq<char>>, k: int, j: int)
    requires
        1 <= j <= k,
    ensures
        starts_upto(parts, k).len() == k,
        starts_upto(parts, k)[j - 1] == joined(parts.take(j), "."@),
    decreases k,
{
    if k > 1 {
        lemma_starts(parts, k - 1, if j < k {
            j
        } else {
            1
        });
    } else {
        assert(starts_upto(parts, 0) =~= Seq::empty());
    }
}

proof fn lemma_texts(t: Tree, ss: Seq<usize>, k: int, j: int)
    requires
        0 <= j <= k,
    ensures
        texts(t, ss, k).len() == k,
        texts(t, ss, k).take(j) == texts(t, ss, j),
    decreases k,
{
    if j < k {
        lemma_texts(t, ss, k - 1, j);
        assert(texts(t, ss, k).take(j) =~= texts(t, ss, k - 1).take(j));
    } else {
        if k > 0 {
            lemma_texts(t, ss, k - 1, 0);
        }
        assert(texts(t, ss, k).take(j) =~= texts(t, ss, j));
    }
}

/// Every path of a script is listed, and every start of it: as it is written, with its first
/// `j` pieces, and by its first `k` segments.
pub proof fn every_path_is_listed(t: Tree, n: usize, j: int, k: int)
    requires
        t.wf(),
        t.has(n),
        is_path_kind(t.kind(n)),
        1 <= j <= split(t.text_of(n), '.').len(),
        1 <= k <= segments(t, n).len(),
    ensures
        ({
            let listed = scope_paths_upto(t, t.size() as int);
            &&& listed.contains(t.text_of(n))
            &&& listed.contains(joined(split(t.text_of(n), '.').take(j), "."@))
            &&& listed.contains(dotted(t, segments(t, n), k))
        }),
{
    let written = split(t.text_of(n), '.');
    let segs = segments(t, n);
    let m = written.len() as int;
    let all = path_names(t, n);
    lemma_starts(written, m, j);
    let parts = texts(t, segs, segs.len() as int);
    lemma_texts(t, segs, segs.len() as int, k);
    lemma_starts(parts, segs.len() as int, k);
    let a = joined(written.take(j), "."@);
    let b = dotted(t, segs, k);
    assert(all[0] == t.text_of(n));
    assert(all[j] == a);
    assert(all[m + k] == b);
    lemma_scope_paths(t, n, t.size() as int, t.text_of(n));
    lemma_scope_paths(t, n, t.size() as int, a);
    lemma_scope_paths(t, n, t.size() as int, b);
}

} // verus!
