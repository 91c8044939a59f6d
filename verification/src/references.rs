//! References, implementations and highlights: the places that name one thing.
//!
//! A local is a thing of its script and is found by its name. Every other path is found
//! by the project symbol that it resolves to, so that the different spellings of one
//! channel come together, or else by its text.
use crate::line_index::{LineIndex, PositionEncoding, Range, range, range_of};
use crate::list::{extend, fresh, put};
use crate::locate::{
    declares_local, deepest, first_covering, in_annotation, in_type_annotation, is_local,
    is_member_property, is_member_property_of, is_property, is_top_path, node_at, node_at_byte,
    outermost, path_at_byte, path_node, plays, top_path_node, top_path_seq, top_paths,
    top_paths_upto, Visit, walk_ctx,
};
use crate::model::{Scope, ScopeView, Symbol};
use crate::syntax::{Field, Kind, SyntaxTree, Tree};
use crate::text::same;
use vstd::prelude::*;

verus! {

/// A range of a document.
#[derive(Debug)]
pub struct Location {
    pub uri: String,
    pub range: Range,
}

/// What a [`Location`] stands for.
pub struct LocationView {
    pub uri: Seq<char>,
    pub range: Range,
}

impl DeepView for Location {
    type V = LocationView;

    open spec fn deep_view(&self) -> LocationView {
        LocationView {
            uri: self.uri.deep_view(),
            range: self.range,
        }
    }
}

/// One script of the project.
pub struct Script {
    pub uri: String,
    /// The name of the file, without its directory.
    pub file_name: String,
    pub tree: SyntaxTree,
    /// Positions in the script's text.
    pub index: LineIndex,
    pub scope: Scope,
}

/// What a [`Script`] stands for.
pub struct ScriptView {
    pub uri: Seq<char>,
    pub file_name: Seq<char>,
    pub tree: Tree,
    pub index: Seq<char>,
    pub scope: ScopeView,
}

impl DeepView for Script {
    type V = ScriptView;

    open spec fn deep_view(&self) -> ScriptView {
        ScriptView {
            uri: self.uri@,
            file_name: self.file_name@,
            tree: self.tree@,
            index: self.index@,
            scope: self.scope.deep_view(),
        }
    }
}

/// The path of the project symbol that `path` names.
pub open spec fn canonical_path(scope: ScopeView, path: Seq<char>) -> Option<Seq<char>> {
    match scope.symbol(path) {
        Some(s) => Some(s.path),
        None => None,
    }
}

/// The path of the project symbol that `path` names, however it is spelled.
pub fn canonical(scope: &Scope, path: &str) -> (r: Option<String>)
    ensures
        r.deep_view() == canonical_path(scope.deep_view(), path@),
{
    match scope.symbol(path) {
        Some(s) => Some(s.path.clone()),
        None => None,
    }
}

// ---------------------------------------------------------------------------
// Occurrences in one script
// ---------------------------------------------------------------------------

/// `n` refers to the local of that name.
pub open spec fn names_local(t: Tree, n: usize, name: Seq<char>) -> bool {
    t.kind(n) == Kind::Identifier && t.text_of(n) == name && !is_property(t, n) && !in_annotation(
        t,
        n,
    )
}

/// The nodes among the first `k` that refer to the local.
pub open spec fn local_idents_upto(t: Tree, name: Seq<char>, k: int) -> Seq<usize>
    decreases k,
{
    if k <= 0 {
        Seq::empty()
    } else if names_local(t, (k - 1) as usize, name) {
        local_idents_upto(t, name, k - 1).push((k - 1) as usize)
    } else {
        local_idents_upto(t, name, k - 1)
    }
}

/// The nodes that refer to the local of that name.
pub open spec fn local_idents(t: Tree, name: Seq<char>) -> Seq<usize> {
    local_idents_upto(t, name, t.size() as int)
}

/// `path` names the target: by its text, or by the symbol that it resolves to.
pub open spec fn names_target(scope: ScopeView, path: Seq<char>, target: TargetView) -> bool {
    match target {
        TargetView::Text(p) => path == p,
        TargetView::Symbol(c) => canonical_path(scope, path) == Some(c),
    }
}

/// Those of the first `k` outermost paths that name the target; the written ones only, if
/// so asked.
pub open spec fn path_nodes_upto(
    t: Tree,
    scope: ScopeView,
    target: TargetView,
    writes_only: bool,
    ps: Seq<(usize, bool)>,
    k: int,
) -> Seq<usize>
    decreases k,
{
    if k <= 0 {
        Seq::empty()
    } else {
        let rest = path_nodes_upto(t, scope, target, writes_only, ps, k - 1);
        if (writes_only ==> ps[k - 1].1) && names_target(scope, t.text_of(ps[k - 1].0), target) {
            rest.push(ps[k - 1].0)
        } else {
            rest
        }
    }
}

/// The outermost paths of the script that name the target.
pub open spec fn path_nodes(
    t: Tree,
    scope: ScopeView,
    target: TargetView,
    writes_only: bool,
) -> Seq<usize> {
    path_nodes_upto(
        t,
        scope,
        target,
        writes_only,
        top_path_seq(t),
        top_path_seq(t).len() as int,
    )
}

/// The local that byte `b` stands on.
pub open spec fn local_at(t: Tree, b: int) -> Option<Seq<char>> {
    match node_at(t, b) {
        Some(n) if t.kind(n) == Kind::Identifier && !is_property(t, n) && !in_annotation(t, n)
            && is_local(t, t.text_of(n)) => Some(t.text_of(n)),
        _ => None,
    }
}

/// What byte `b` refers to.
pub open spec fn ref_target_at(t: Tree, b: int) -> Option<RefTargetView> {
    match local_at(t, b) {
        Some(name) => Some(RefTargetView::Local(name)),
        None => match path_node(t, b) {
            Some(n) => Some(RefTargetView::Path(t.text_of(n))),
            None => None,
        },
    }
}

/// The nodes that refer to what byte `b` refers to, by name and by text.
pub open spec fn occurrences_of(t: Tree, b: int) -> Seq<usize> {
    match ref_target_at(t, b) {
        Some(RefTargetView::Local(name)) => local_idents(t, name),
        Some(RefTargetView::Path(path)) => path_nodes(
            t,
            no_scope(),
            TargetView::Text(path),
            false,
        ),
        None => Seq::empty(),
    }
}

/// A scope in which nothing has a meaning.
pub open spec fn no_scope() -> ScopeView {
    ScopeView {
        locals: Seq::empty(),
        group: None,
        resolutions: Seq::empty(),
        types: Seq::empty(),
    }
}

/// The path that `n` belongs to is written.
pub open spec fn use_is_written(t: Tree, n: usize) -> bool {
    let top = outermost(t, n);
    match t.parent(top) {
        Some(p) => (t.kind(p) == Kind::AssignmentStatement && plays(t, p, top, Field::Target)) || (
        t.kind(p) == Kind::LocalDeclaration && plays(t, p, n, Field::Name)),
        None => false,
    }
}

/// Those of the first `k` nodes that are written, or all of them.
pub open spec fn kept_upto(t: Tree, ns: Seq<usize>, writes_only: bool, k: int) -> Seq<usize>
    decreases k,
{
    if k <= 0 {
        Seq::empty()
    } else if writes_only ==> use_is_written(t, ns[k - 1]) {
        kept_upto(t, ns, writes_only, k - 1).push(ns[k - 1])
    } else {
        kept_upto(t, ns, writes_only, k - 1)
    }
}

/// The place of node `n`.
pub open spec fn location_of(
    uri: Seq<char>,
    t: Tree,
    n: usize,
    s: Seq<char>,
    enc: PositionEncoding,
) -> LocationView {
    LocationView { uri, range: range_of(s, t.start(n), t.end(n), enc) }
}

/// The places of the nodes.
pub open spec fn locations_of(
    uri: Seq<char>,
    t: Tree,
    ns: Seq<usize>,
    s: Seq<char>,
    enc: PositionEncoding,
) -> Seq<LocationView> {
    ns.map_values(|n: usize| location_of(uri, t, n, s, enc))
}

/// `s`, if it holds anything.
pub open spec fn some_if_any<T>(s: Seq<T>) -> Option<Seq<T>> {
    if s.len() == 0 {
        None
    } else {
        Some(s)
    }
}

/// What a cursor refers to. A local is a thing of its script; a path is searched for in
/// the whole project.
#[derive(Debug)]
pub enum RefTarget {
    Local(String),
    Path(String),
}

/// What a [`RefTarget`] stands for.
pub enum RefTargetView {
    Local(Seq<char>),
    Path(Seq<char>),
}

impl DeepView for RefTarget {
    type V = RefTargetView;

    open spec fn deep_view(&self) -> RefTargetView {
        match self {
            RefTarget::Local(x) => RefTargetView::Local(x.deep_view()),
            RefTarget::Path(x) => RefTargetView::Path(x.deep_view()),
        }
    }
}

/// What a search for paths goes by.
#[derive(Debug)]
pub enum Target {
    Text(String),
    Symbol(String),
}

/// What a [`Target`] stands for.
pub enum TargetView {
    Text(Seq<char>),
    Symbol(Seq<char>),
}

impl DeepView for Target {
    type V = TargetView;

    open spec fn deep_view(&self) -> TargetView {
        match self {
            Target::Text(x) => TargetView::Text(x.deep_view()),
            Target::Symbol(x) => TargetView::Symbol(x.deep_view()),
        }
    }
}

impl Target {
    /// True when `path` names the target.
    pub fn named_by(&self, scope: &Scope, path: &str) -> (r: bool)
        ensures
            r == names_target(scope.deep_view(), path@, self.deep_view()),
    {
        match self {
            Target::Text(p) => same(path, p.as_str()),
            Target::Symbol(c) => match canonical(scope, path) {
                Some(d) => same(d.as_str(), c.as_str()),
                None => false,
            },
        }
    }
}

pub(crate) fn collect_local_idents(tree: &SyntaxTree, name: &str) -> (r: Vec<usize>)
    ensures
        r@ == local_idents(tree@, name@),
        forall|i: int| 0 <= i < r@.len() ==> tree@.has(#[trigger] r@[i]),
{
    let visits = walk_ctx(tree);
    let mut r: Vec<usize> = Vec::new();
    let mut k: usize = 0;
    while k < visits.len()
        invariant
            k <= visits@.len() == tree@.size(),
            forall|n: usize|
                #[trigger] tree@.has(n) ==> visits@[n as int] == (Visit {
                    node: n,
                    parent: tree@.parent(n),
                    in_type: in_annotation(tree@, n),
                }),
            r@ == local_idents_upto(tree@, name@, k as int),
            forall|i: int| 0 <= i < r@.len() ==> tree@.has(#[trigger] r@[i]),
        decreases visits@.len() - k,
    {
        assert(tree@.has(k));
        if tree.kind(k) == Kind::Identifier && !visits[k].in_type && same(
            tree.text_of(k).as_str(),
            name,
        ) && !is_member_property_of(tree, k, visits[k].parent) {
            r.push(k);
        }
        k = k + 1;
    }
    r
}

fn collect_path_matches(
    tree: &SyntaxTree,
    scope: &Scope,
    target: &Target,
    writes_only: bool,
) -> (r: Vec<usize>)
    ensures
        r@ == path_nodes(tree@, scope.deep_view(), target.deep_view(), writes_only),
        forall|i: int| 0 <= i < r@.len() ==> tree@.has(#[trigger] r@[i]),
{
    let ps = top_paths(tree);
    let mut r: Vec<usize> = Vec::new();
    let mut k: usize = 0;
    while k < ps.len()
        invariant
            k <= ps@.len(),
            ps@ == top_path_seq(tree@),
            forall|i: int| 0 <= i < ps@.len() ==> tree@.has((#[trigger] ps@[i]).0),
            r@ == path_nodes_upto(
                tree@,
                scope.deep_view(),
                target.deep_view(),
                writes_only,
                ps@,
                k as int,
            ),
            forall|i: int| 0 <= i < r@.len() ==> tree@.has(#[trigger] r@[i]),
        decreases ps@.len() - k,
    {
        let (n, written) = ps[k];
        if (!writes_only || written) && target.named_by(scope, tree.text_of(n).as_str()) {
            r.push(n);
        }
        k = k + 1;
    }
    r
}

/// What the cursor at `byte` refers to.
pub fn ref_target(tree: &SyntaxTree, byte: usize) -> (r: Option<RefTarget>)
    ensures
        r.deep_view() == ref_target_at(tree@, byte as int),
{
    match node_at_byte(tree, byte) {
        Some(n) => {
            if tree.kind(n) == Kind::Identifier && !is_member_property(tree, n)
                && !in_type_annotation(tree, n) {
                let name = tree.text_of(n);
                if declares_local(tree, name.as_str()) {
                    return Some(RefTarget::Local(name));
                }
            }
        },
        None => {},
    }
    match path_at_byte(tree, byte) {
        Some((n, path)) => Some(RefTarget::Path(path)),
        None => None,
    }
}

fn empty_scope() -> (r: Scope)
    ensures
        r.deep_view() == no_scope(),
{
    let r = Scope {
        locals: fresh(),
        group: None,
        resolutions: fresh(),
        types: Vec::new(),
    };
    assert(r.types.deep_view() =~= Seq::empty());
    r
}

fn occurrences(tree: &SyntaxTree, byte: usize) -> (r: Vec<usize>)
    ensures
        r@ == occurrences_of(tree@, byte as int),
        forall|i: int| 0 <= i < r@.len() ==> tree@.has(#[trigger] r@[i]),
{
    match ref_target(tree, byte) {
        Some(RefTarget::Local(name)) => collect_local_idents(tree, name.as_str()),
        Some(RefTarget::Path(path)) => collect_path_matches(
            tree,
            &empty_scope(),
            &Target::Text(path),
            false,
        ),
        None => {
            let r: Vec<usize> = Vec::new();
            assert(r@ =~= Seq::empty());
            r
        },
    }
}

fn is_write(tree: &SyntaxTree, n: usize) -> (r: bool)
    requires
        tree@.has(n),
    ensures
        r == use_is_written(tree@, n),
{
    let top: usize = top_path_node(tree, n);
    match tree.parent(top) {
        Some(p) => match tree.kind(p) {
            Kind::AssignmentStatement => match tree.child_by_field(p, Field::Target) {
                Some(c) => tree.same_span(c, top),
                None => false,
            },
            Kind::LocalDeclaration => match tree.child_by_field(p, Field::Name) {
                Some(c) => tree.same_span(c, n),
                None => false,
            },
            _ => false,
        },
        None => false,
    }
}

fn keep_writes(tree: &SyntaxTree, ns: &Vec<usize>, writes_only: bool) -> (r: Vec<usize>)
    requires
        forall|i: int| 0 <= i < ns@.len() ==> tree@.has(#[trigger] ns@[i]),
    ensures
        r@ == kept_upto(tree@, ns@, writes_only, ns@.len() as int),
        forall|i: int| 0 <= i < r@.len() ==> tree@.has(#[trigger] r@[i]),
{
    let mut r: Vec<usize> = Vec::new();
    let mut k: usize = 0;
    while k < ns.len()
        invariant
            k <= ns@.len(),
            forall|i: int| 0 <= i < ns@.len() ==> tree@.has(#[trigger] ns@[i]),
            r@ == kept_upto(tree@, ns@, writes_only, k as int),
            forall|i: int| 0 <= i < r@.len() ==> tree@.has(#[trigger] r@[i]),
        decreases ns@.len() - k,
    {
        if !writes_only || is_write(tree, ns[k]) {
            r.push(ns[k]);
        }
        k = k + 1;
    }
    r
}

fn locations(
    uri: &str,
    tree: &SyntaxTree,
    ns: &Vec<usize>,
    li: &LineIndex,
    enc: PositionEncoding,
) -> (r: Vec<Location>)
    requires
        forall|i: int| 0 <= i < ns@.len() ==> tree@.has(#[trigger] ns@[i]),
    ensures
        r.deep_view() == locations_of(uri@, tree@, ns@, li@, enc),
        r@.len() == ns@.len(),
{
    let mut r: Vec<Location> = fresh();
    let mut k: usize = 0;
    while k < ns.len()
        invariant
            k <= ns@.len() == ns.len(),
            r@.len() == k,
            forall|i: int| 0 <= i < ns@.len() ==> tree@.has(#[trigger] ns@[i]),
            r.deep_view() == locations_of(uri@, tree@, ns@.take(k as int), li@, enc),
        decreases ns@.len() - k,
    {
        let d = tree.node(ns[k]);
        put(&mut r, Location { uri: uri.to_owned(), range: range(d.start, d.end, li, enc) });
        assert(locations_of(uri@, tree@, ns@.take(k + 1), li@, enc) =~= locations_of(
            uri@,
            tree@,
            ns@.take(k as int),
            li@,
            enc,
        ).push(location_of(uri@, tree@, ns@[k as int], li@, enc)));
        k = k + 1;
    }
    assert(ns@.take(k as int) =~= ns@);
    r
}

/// Every outermost dotted path: its text, its bytes, and whether it is written.
pub open spec fn path_occurrences_upto(t: Tree, ps: Seq<(usize, bool)>, k: int) -> Seq<
    (Seq<char>, usize, usize, bool),
>
    decreases k,
{
    if k <= 0 {
        Seq::empty()
    } else {
        let d = t.nodes[ps[k - 1].0 as int];
        path_occurrences_upto(t, ps, k - 1).push(
            (t.text_of(ps[k - 1].0), d.start, d.end, ps[k - 1].1),
        )
    }
}

/// Every outermost dotted path of the script, in source order: its text, where its bytes
/// begin and end, and whether it is written.
pub fn path_occurrences(tree: &SyntaxTree) -> (r: Vec<(String, usize, usize, bool)>)
    ensures
        r.deep_view() == path_occurrences_upto(
            tree@,
            top_path_seq(tree@),
            top_path_seq(tree@).len() as int,
        ),
{
    let ps = top_paths(tree);
    let mut r: Vec<(String, usize, usize, bool)> = fresh();
    let mut k: usize = 0;
    while k < ps.len()
        invariant
            k <= ps@.len(),
            ps@ == top_path_seq(tree@),
            forall|i: int| 0 <= i < ps@.len() ==> tree@.has((#[trigger] ps@[i]).0),
            r.deep_view() == path_occurrences_upto(tree@, ps@, k as int),
        decreases ps@.len() - k,
    {
        let (n, written) = ps[k];
        let d = tree.node(n);
        put(&mut r, (tree.text_of(n), d.start, d.end, written));
        k = k + 1;
    }
    r
}

/// The places in this document that refer to what the cursor refers to.
pub fn references(
    tree: &SyntaxTree,
    byte: usize,
    uri: &str,
    li: &LineIndex,
    enc: PositionEncoding,
) -> (r: Option<Vec<Location>>)
    ensures
        r.deep_view() == some_if_any(
            locations_of(uri@, tree@, occurrences_of(tree@, byte as int), li@, enc),
        ),
{
    let nodes = occurrences(tree, byte);
    if nodes.len() == 0 {
        return None;
    }
    Some(locations(uri, tree, &nodes, li, enc))
}

// ---------------------------------------------------------------------------
// The whole project
// ---------------------------------------------------------------------------

/// What a search for the path `path`, written in a script with that scope, goes by.
pub open spec fn search_target(scope: ScopeView, path: Seq<char>) -> TargetView {
    match canonical_path(scope, path) {
        Some(c) => TargetView::Symbol(c),
        None => TargetView::Text(path),
    }
}

/// The places in the first `k` scripts that name the target.
pub open spec fn target_locations_upto(
    scripts: Seq<ScriptView>,
    target: TargetView,
    writes_only: bool,
    enc: PositionEncoding,
    k: int,
) -> Seq<LocationView>
    decreases k,
{
    if k <= 0 {
        Seq::empty()
    } else {
        let s = scripts[k - 1];
        target_locations_upto(scripts, target, writes_only, enc, k - 1) + locations_of(
            s.uri,
            s.tree,
            path_nodes(s.tree, s.scope, target, writes_only),
            s.index,
            enc,
        )
    }
}

/// The places in the project that refer to what byte `b` of script `cursor` refers to.
pub open spec fn project_refs(
    writes_only: bool,
    scripts: Seq<ScriptView>,
    cursor: int,
    b: int,
    enc: PositionEncoding,
) -> Option<Seq<LocationView>> {
    let here = scripts[cursor];
    match ref_target_at(here.tree, b) {
        None => None,
        Some(RefTargetView::Local(name)) => some_if_any(
            locations_of(
                here.uri,
                here.tree,
                kept_upto(
                    here.tree,
                    local_idents(here.tree, name),
                    writes_only,
                    local_idents(here.tree, name).len() as int,
                ),
                here.index,
                enc,
            ),
        ),
        Some(RefTargetView::Path(path)) => some_if_any(
            target_locations_upto(
                scripts,
                search_target(here.scope, path),
                writes_only,
                enc,
                scripts.len() as int,
            ),
        ),
    }
}

fn project_canonical_refs(
    writes_only: bool,
    scripts: &Vec<Script>,
    cursor: usize,
    byte: usize,
    enc: PositionEncoding,
) -> (r: Option<Vec<Location>>)
    requires
        cursor < scripts@.len(),
    ensures
        r.deep_view() == project_refs(
            writes_only,
            scripts.deep_view(),
            cursor as int,
            byte as int,
            enc,
        ),
{
    let ghost ss = scripts.deep_view();
    let here = &scripts[cursor];
    assert(ss[cursor as int] == here.deep_view());
    let locs: Vec<Location> = match ref_target(&here.tree, byte) {
        None => {
            return None;
        },
        Some(RefTarget::Local(name)) => {
            let nodes = collect_local_idents(&here.tree, name.as_str());
            let kept = keep_writes(&here.tree, &nodes, writes_only);
            locations(here.uri.as_str(), &here.tree, &kept, &here.index, enc)
        },
        Some(RefTarget::Path(path)) => {
            let target = match canonical(&here.scope, path.as_str()) {
                Some(c) => Target::Symbol(c),
                None => Target::Text(path),
            };
            let mut locs: Vec<Location> = fresh();
            let mut k: usize = 0;
            while k < scripts.len()
                invariant
                    k <= scripts@.len(),
                    ss == scripts.deep_view(),
                    locs.deep_view() == target_locations_upto(
                        ss,
                        target.deep_view(),
                        writes_only,
                        enc,
                        k as int,
                    ),
                decreases scripts@.len() - k,
            {
                let s = &scripts[k];
                assert(ss[k as int] == s.deep_view());
                let nodes = collect_path_matches(&s.tree, &s.scope, &target, writes_only);
                extend(&mut locs, locations(s.uri.as_str(), &s.tree, &nodes, &s.index, enc));
                k = k + 1;
            }
            locs
        },
    };
    if locs.len() == 0 {
        assert(locs.deep_view().len() == 0);
        None
    } else {
        assert(locs.deep_view().len() != 0);
        Some(locs)
    }
}

/// The places in the project that refer to what the cursor refers to: of a local in its
/// own script, of a path in every script.
pub fn project_references(
    scripts: &Vec<Script>,
    cursor: usize,
    byte: usize,
    enc: PositionEncoding,
) -> (r: Option<Vec<Location>>)
    requires
        cursor < scripts@.len(),
    ensures
        r.deep_view() == project_refs(false, scripts.deep_view(), cursor as int, byte as int, enc),
{
    project_canonical_refs(false, scripts, cursor, byte, enc)
}

/// The places in the project that write what the cursor refers to.
pub fn project_implementations(
    scripts: &Vec<Script>,
    cursor: usize,
    byte: usize,
    enc: PositionEncoding,
) -> (r: Option<Vec<Location>>)
    requires
        cursor < scripts@.len(),
    ensures
        r.deep_view() == project_refs(true, scripts.deep_view(), cursor as int, byte as int, enc),
{
    project_canonical_refs(true, scripts, cursor, byte, enc)
}

// ---------------------------------------------------------------------------
// Highlights
// ---------------------------------------------------------------------------

#[derive(Clone, Copy, Debug, PartialEq, Eq, Structural)]
pub enum DocumentHighlightKind {
    Read,
    Write,
}

#[derive(Clone, Copy, Debug, PartialEq, Eq, Structural)]
pub struct DocumentHighlight {
    pub range: Range,
    pub kind: DocumentHighlightKind,
}

impl DeepView for DocumentHighlight {
    type V = DocumentHighlight;

    open spec fn deep_view(&self) -> DocumentHighlight {
        *self
    }
}

pub open spec fn highlight_of(
    t: Tree,
    n: usize,
    s: Seq<char>,
    enc: PositionEncoding,
) -> DocumentHighlight {
    DocumentHighlight {
        range: range_of(s, t.start(n), t.end(n), enc),
        kind: if use_is_written(t, n) {
            DocumentHighlightKind::Write
        } else {
            DocumentHighlightKind::Read
        },
    }
}

pub open spec fn highlights_of(
    t: Tree,
    ns: Seq<usize>,
    s: Seq<char>,
    enc: PositionEncoding,
) -> Seq<DocumentHighlight> {
    ns.map_values(|n: usize| highlight_of(t, n, s, enc))
}

fn highlights(tree: &SyntaxTree, ns: &Vec<usize>, li: &LineIndex, enc: PositionEncoding) -> (r: Vec<
    DocumentHighlight,
>)
    requires
        forall|i: int| 0 <= i < ns@.len() ==> tree@.has(#[trigger] ns@[i]),
    ensures
        r@ == highlights_of(tree@, ns@, li@, enc),
{
    let mut r: Vec<DocumentHighlight> = Vec::new();
    let mut k: usize = 0;
    while k < ns.len()
        invariant
            k <= ns@.len(),
            forall|i: int| 0 <= i < ns@.len() ==> tree@.has(#[trigger] ns@[i]),
            r@ =~= highlights_of(tree@, ns@.take(k as int), li@, enc),
        decreases ns@.len() - k,
    {
        let d = tree.node(ns[k]);
        let kind = if is_write(tree, ns[k]) {
            DocumentHighlightKind::Write
        } else {
            DocumentHighlightKind::Read
        };
        r.push(DocumentHighlight { range: range(d.start, d.end, li, enc), kind });
        k = k + 1;
    }
    assert(ns@.take(ns@.len() as int) =~= ns@);
    r
}

/// The places in this document that refer to what the cursor refers to, read and written.
pub fn document_highlights(
    tree: &SyntaxTree,
    byte: usize,
    li: &LineIndex,
    enc: PositionEncoding,
) -> (r: Option<Vec<DocumentHighlight>>)
    ensures
        r.deep_view() == some_if_any(
            highlights_of(tree@, occurrences_of(tree@, byte as int), li@, enc),
        ),
{
    let nodes = occurrences(tree, byte);
    if nodes.len() == 0 {
        return None;
    }
    let r = highlights(tree, &nodes, li, enc);
    assert(r.deep_view() =~= r@);
    Some(r)
}

/// The outermost paths that resolve to the symbol under byte `b`; none for a local, for
/// another path, or without a project.
pub open spec fn scoped_nodes(t: Tree, scope: Option<ScopeView>, b: int) -> Seq<usize> {
    match (scope, path_node(t, b)) {
        (Some(sc), Some(n)) if local_at(t, b) is None => match canonical_path(sc, t.text_of(n)) {
            Some(c) => path_nodes(t, sc, TargetView::Symbol(c), false),
            None => Seq::empty(),
        },
        _ => Seq::empty(),
    }
}

/// Like [`document_highlights`], but every spelling of a project symbol counts. `scope` is
/// the script's scope, where a project is loaded.
pub fn document_highlights_scoped(
    scope: Option<&Scope>,
    tree: &SyntaxTree,
    byte: usize,
    li: &LineIndex,
    enc: PositionEncoding,
) -> (r: Option<Vec<DocumentHighlight>>)
    ensures
        r.deep_view() == ({
            let ns = scoped_nodes(tree@, scope.deep_view(), byte as int);
            some_if_any(
                highlights_of(
                    tree@,
                    if ns.len() > 0 {
                        ns
                    } else {
                        occurrences_of(tree@, byte as int)
                    },
                    li@,
                    enc,
                ),
            )
        }),
{
    match (scope, ref_target(tree, byte)) {
        (Some(sc), Some(RefTarget::Path(path))) => match canonical(sc, path.as_str()) {
            Some(c) => {
                let nodes = collect_path_matches(tree, sc, &Target::Symbol(c), false);
                if nodes.len() > 0 {
                    let r = highlights(tree, &nodes, li, enc);
                    assert(r.deep_view() =~= r@);
                    return Some(r);
                }
            },
            None => {},
        },
        _ => {},
    }
    document_highlights(tree, byte, li, enc)
}

// ---------------------------------------------------------------------------
// Laws
// ---------------------------------------------------------------------------

/// Highlights mark the very ranges that references list.
pub proof fn highlights_match_references(
    t: Tree,
    b: int,
    uri: Seq<char>,
    s: Seq<char>,
    enc: PositionEncoding,
)
    ensures
        highlights_of(t, occurrences_of(t, b), s, enc).len() == locations_of(
            uri,
            t,
            occurrences_of(t, b),
            s,
            enc,
        ).len(),
        forall|i: int|
            0 <= i < occurrences_of(t, b).len() ==> (#[trigger] highlights_of(
                t,
                occurrences_of(t, b),
                s,
                enc,
            )[i]).range == locations_of(uri, t, occurrences_of(t, b), s, enc)[i].range,
{
}

proof fn lemma_path_nodes_subset(
    t: Tree,
    scope: ScopeView,
    target: TargetView,
    ps: Seq<(usize, bool)>,
    k: int,
    n: usize,
)
    requires
        path_nodes_upto(t, scope, target, true, ps, k).contains(n),
    ensures
        path_nodes_upto(t, scope, target, false, ps, k).contains(n),
    decreases k,
{
    if k > 0 {
        let all = path_nodes_upto(t, scope, target, false, ps, k - 1);
        let some = path_nodes_upto(t, scope, target, true, ps, k - 1);
        if some.contains(n) {
            lemma_path_nodes_subset(t, scope, target, ps, k - 1, n);
            let i = choose|i: int| 0 <= i < all.len() && all[i] == n;
            assert(all.push(ps[k - 1].0)[i] == n);
        } else {
            let now = path_nodes_upto(t, scope, target, true, ps, k);
            let i = choose|i: int| 0 <= i < now.len() && now[i] == n;
            if i < some.len() {
                assert(some[i] == n);
            }
            assert(all.push(n)[all.len() as int] == n);
        }
    }
}

proof fn lemma_kept_subset(t: Tree, ns: Seq<usize>, k: int, n: usize)
    requires
        0 <= k <= ns.len(),
        kept_upto(t, ns, true, k).contains(n),
    ensures
        kept_upto(t, ns, false, k).contains(n),
    decreases k,
{
    if k > 0 {
        let all = kept_upto(t, ns, false, k - 1);
        let some = kept_upto(t, ns, true, k - 1);
        if some.contains(n) {
            lemma_kept_subset(t, ns, k - 1, n);
            let i = choose|i: int| 0 <= i < all.len() && all[i] == n;
            assert(all.push(ns[k - 1])[i] == n);
        } else {
            let now = kept_upto(t, ns, true, k);
            let i = choose|i: int| 0 <= i < now.len() && now[i] == n;
            if i < some.len() {
                assert(some[i] == n);
            }
            assert(all.push(n)[all.len() as int] == n);
        }
    }
}

proof fn lemma_locations_subset(
    uri: Seq<char>,
    t: Tree,
    a: Seq<usize>,
    b: Seq<usize>,
    s: Seq<char>,
    enc: PositionEncoding,
    l: LocationView,
)
    requires
        forall|n: usize| a.contains(n) ==> b.contains(n),
        locations_of(uri, t, a, s, enc).contains(l),
    ensures
        locations_of(uri, t, b, s, enc).contains(l),
{
    let la = locations_of(uri, t, a, s, enc);
    let i = choose|i: int| 0 <= i < la.len() && la[i] == l;
    assert(a.contains(a[i]));
    let j = choose|j: int| 0 <= j < b.len() && b[j] == a[i];
    assert(locations_of(uri, t, b, s, enc)[j] == l);
}

proof fn lemma_target_locations_subset(
    scripts: Seq<ScriptView>,
    target: TargetView,
    enc: PositionEncoding,
    k: int,
    l: LocationView,
)
    requires
        0 <= k <= scripts.len(),
        target_locations_upto(scripts, target, true, enc, k).contains(l),
    ensures
        target_locations_upto(scripts, target, false, enc, k).contains(l),
    decreases k,
{
    if k > 0 {
        let s = scripts[k - 1];
        let w = target_locations_upto(scripts, target, true, enc, k - 1);
        let a = target_locations_upto(scripts, target, false, enc, k - 1);
        let nw = path_nodes(s.tree, s.scope, target, true);
        let na = path_nodes(s.tree, s.scope, target, false);
        let lw = locations_of(s.uri, s.tree, nw, s.index, enc);
        let la = locations_of(s.uri, s.tree, na, s.index, enc);
        let i = choose|i: int| 0 <= i < (w + lw).len() && (w + lw)[i] == l;
        if i < w.len() {
            assert(w[i] == l);
            lemma_target_locations_subset(scripts, target, enc, k - 1, l);
            let j = choose|j: int| 0 <= j < a.len() && a[j] == l;
            assert((a + la)[j] == l);
        } else {
            assert(lw[i - w.len()] == l);
            assert forall|n: usize| nw.contains(n) implies na.contains(n) by {
                lemma_path_nodes_subset(
                    s.tree,
                    s.scope,
                    target,
                    top_path_seq(s.tree),
                    top_path_seq(s.tree).len() as int,
                    n,
                );
            }
            lemma_locations_subset(s.uri, s.tree, nw, na, s.index, enc, l);
            let j = choose|j: int| 0 <= j < la.len() && la[j] == l;
            assert((a + la)[a.len() + j] == l);
        }
    }
}

/// Every implementation is a reference.
pub proof fn implementations_are_references(
    scripts: Seq<ScriptView>,
    cursor: int,
    b: int,
    enc: PositionEncoding,
)
    requires
        0 <= cursor < scripts.len(),
    ensures
        match project_refs(true, scripts, cursor, b, enc) {
            Some(writes) => match project_refs(false, scripts, cursor, b, enc) {
                Some(all) => forall|l: LocationView| writes.contains(l) ==> all.contains(l),
                None => false,
            },
            None => true,
        },
{
    let here = scripts[cursor];
    if let Some(writes) = project_refs(true, scripts, cursor, b, enc) {
        let all = match ref_target_at(here.tree, b) {
            Some(RefTargetView::Local(name)) => {
                let ids = local_idents(here.tree, name);
                locations_of(
                    here.uri,
                    here.tree,
                    kept_upto(here.tree, ids, false, ids.len() as int),
                    here.index,
                    enc,
                )
            },
            Some(RefTargetView::Path(path)) => target_locations_upto(
                scripts,
                search_target(here.scope, path),
                false,
                enc,
                scripts.len() as int,
            ),
            None => Seq::empty(),
        };
        assert forall|l: LocationView| writes.contains(l) implies all.contains(l) by {
            match ref_target_at(here.tree, b) {
                Some(RefTargetView::Local(name)) => {
                    let ids = local_idents(here.tree, name);
                    let kw = kept_upto(here.tree, ids, true, ids.len() as int);
                    let ka = kept_upto(here.tree, ids, false, ids.len() as int);
                    assert forall|n: usize| kw.contains(n) implies ka.contains(n) by {
                        lemma_kept_subset(here.tree, ids, ids.len() as int, n);
                    }
                    lemma_locations_subset(here.uri, here.tree, kw, ka, here.index, enc, l);
                },
                Some(RefTargetView::Path(path)) => {
                    lemma_target_locations_subset(
                        scripts,
                        search_target(here.scope, path),
                        enc,
                        scripts.len() as int,
                        l,
                    );
                },
                None => {},
            }
        }
        assert(writes.contains(writes[0]));
        assert(all.len() > 0);
    }
}

/// Two spellings of one symbol have the same references, whatever scripts they stand in.
pub proof fn spellings_agree(
    writes_only: bool,
    scripts: Seq<ScriptView>,
    c1: int,
    b1: int,
    c2: int,
    b2: int,
    enc: PositionEncoding,
)
    requires
        0 <= c1 < scripts.len(),
        0 <= c2 < scripts.len(),
        match (
            ref_target_at(scripts[c1].tree, b1),
            ref_target_at(scripts[c2].tree, b2),
        ) {
            (Some(RefTargetView::Path(p1)), Some(RefTargetView::Path(p2))) => canonical_path(
                scripts[c1].scope,
                p1,
            ) is Some && canonical_path(scripts[c1].scope, p1) == canonical_path(
                scripts[c2].scope,
                p2,
            ),
            _ => false,
        },
    ensures
        project_refs(writes_only, scripts, c1, b1, enc) == project_refs(
            writes_only,
            scripts,
            c2,
            b2,
            enc,
        ),
{
}

/// A path that is asked about is among its own references.
pub proof fn references_hold_the_cursor(t: Tree, b: int)
    requires
        t.wf(),
        match path_node(t, b) {
            Some(n) => is_top_path(t, n),
            None => false,
        },
        local_at(t, b) is None,
    ensures
        occurrences_of(t, b).contains(path_node(t, b).unwrap()),
{
    let n = path_node(t, b).unwrap();
    lemma_path_node(t, b);
    let ps = top_path_seq(t);
    lemma_top_path_listed(t, t.size() as int, n);
    let i = choose|i: int| 0 <= i < ps.len() && (#[trigger] ps[i]).0 == n;
    lemma_path_listed(
        t,
        no_scope(),
        TargetView::Text(t.text_of(n)),
        ps,
        ps.len() as int,
        i,
    );
}

proof fn lemma_path_node(t: Tree, b: int)
    requires
        t.wf(),
        path_node(t, b) is Some,
    ensures
        t.has(path_node(t, b).unwrap()),
{
    lemma_deepest(t, 0, b);
    lemma_outermost(t, node_at(t, b).unwrap());
}

proof fn lemma_deepest(t: Tree, n: usize, b: int)
    requires
        t.wf(),
        t.has(n),
    ensures
        t.has(deepest(t, n, b)),
    decreases t.size() - n,
{
    match first_covering(t, t.kids(n), b, 0) {
        Some(c) if n < c && t.has(c) => lemma_deepest(t, c, b),
        _ => {},
    }
}

proof fn lemma_outermost(t: Tree, n: usize)
    requires
        t.has(n),
    ensures
        outermost(t, n) <= n,
    decreases n,
{
    match t.parent(n) {
        Some(p) if p < n && t.kind(p) == Kind::MemberExpression => lemma_outermost(t, p),
        _ => {},
    }
}

proof fn lemma_top_path_listed(t: Tree, k: int, n: usize)
    requires
        n < k <= t.size() <= usize::MAX,
        is_top_path(t, n),
    ensures
        exists|i: int|
            0 <= i < top_paths_upto(t, k).len() && (#[trigger] top_paths_upto(t, k)[i]).0 == n,
    decreases k,
{
    let rest = top_paths_upto(t, k - 1);
    let all = top_paths_upto(t, k);
    if n == k - 1 {
        assert(all[rest.len() as int].0 == n);
    } else {
        lemma_top_path_listed(t, k - 1, n);
        let i = choose|i: int| 0 <= i < rest.len() && (#[trigger] rest[i]).0 == n;
        assert(all[i].0 == n);
    }
}

proof fn lemma_path_listed(
    t: Tree,
    scope: ScopeView,
    target: TargetView,
    ps: Seq<(usize, bool)>,
    k: int,
    i: int,
)
    requires
        0 <= i < k <= ps.len(),
        names_target(scope, t.text_of(ps[i].0), target),
    ensures
        path_nodes_upto(t, scope, target, false, ps, k).contains(ps[i].0),
    decreases k,
{
    let rest = path_nodes_upto(t, scope, target, false, ps, k - 1);
    let all = path_nodes_upto(t, scope, target, false, ps, k);
    if i == k - 1 {
        assert(all[rest.len() as int] == ps[i].0);
    } else {
        lemma_path_listed(t, scope, target, ps, k - 1, i);
        let j = choose|j: int| 0 <= j < rest.len() && rest[j] == ps[i].0;
        assert(all[j] == ps[i].0);
    }
}

} // verus!
