//! The call hierarchy over the flow of data through channels.
//!
//! A script calls the channels that it writes. A channel is called by the scripts that read
//! it, and a script by the scripts that read what it writes.
use crate::completion::{unrooted, without_root};
use crate::goto::{at_line, definition_of, line_range, symbol_location};
use crate::line_index::{PositionEncoding, Range, range, range_of};
use crate::list::{extend, fresh, one, put};
use crate::locate::{path_at_byte, path_node, top_path_seq, top_paths};
use crate::model::{
    find_key, key_index, lemma_key_index, LoadedProject, LoadedProjectView, Project, ProjectView,
    Scope, ScopeView, Symbol, SymbolKind, SymbolView, value_of,
};
use crate::order::{
    before, has_key, keys_sorted, lemma_before_irreflexive, lemma_map_with, map_push, map_with,
};
use crate::outside::{json_field, json_get, json_pair};
use crate::references::{Script, ScriptView, some_if_any};
use crate::search::{before_suffix, concat, strip_suffix};
use crate::syntax::{SyntaxTree, Tree};
use crate::text::{chars, same, string};
use vstd::prelude::*;
use vstd::string::*;

verus! {

/// One script, with the channels that it reads and writes.
#[derive(Debug)]
pub struct ScriptNode {
    pub uri: String,
    pub file_name: String,
    /// The path of the script in the project, or of its group, or the name of the file.
    pub label: String,
    /// How often the script runs, in hertz.
    pub rate: Option<String>,
    /// The start of the file.
    pub anchor: Range,
    /// Where the script reads each channel; the channels in order.
    pub reads: Vec<(String, Vec<Range>)>,
    /// Where the script writes each channel; the channels in order.
    pub writes: Vec<(String, Vec<Range>)>,
}

/// What a [`ScriptNode`] stands for.
pub struct ScriptNodeView {
    pub uri: Seq<char>,
    pub file_name: Seq<char>,
    pub label: Seq<char>,
    pub rate: Option<Seq<char>>,
    pub anchor: Range,
    pub reads: Seq<(Seq<char>, Seq<Range>)>,
    pub writes: Seq<(Seq<char>, Seq<Range>)>,
}

impl DeepView for ScriptNode {
    type V = ScriptNodeView;

    open spec fn deep_view(&self) -> ScriptNodeView {
        ScriptNodeView {
            uri: self.uri.deep_view(),
            file_name: self.file_name.deep_view(),
            label: self.label.deep_view(),
            rate: self.rate.deep_view(),
            anchor: self.anchor,
            reads: self.reads.deep_view(),
            writes: self.writes.deep_view(),
        }
    }
}

/// The scripts of a project, and for each channel the scripts that write and read it.
pub struct CallGraph {
    pub scripts: Vec<ScriptNode>,
    writers: Vec<(String, Vec<usize>)>,
    readers: Vec<(String, Vec<usize>)>,
}

/// What a [`CallGraph`] stands for.
pub struct CallGraphView {
    pub scripts: Seq<ScriptNodeView>,
    pub writers: Seq<(Seq<char>, Seq<usize>)>,
    pub readers: Seq<(Seq<char>, Seq<usize>)>,
}

impl View for CallGraph {
    type V = CallGraphView;

    closed spec fn view(&self) -> CallGraphView {
        CallGraphView {
            scripts: self.scripts.deep_view(),
            writers: self.writers.deep_view(),
            readers: self.readers.deep_view(),
        }
    }
}

#[derive(Clone, Copy, Debug, PartialEq, Eq, Structural)]
pub enum ItemKind {
    Script,
    Channel,
}

/// An entry of the hierarchy. `data` is a JSON object that says what the entry is.
#[derive(Debug)]
pub struct CallHierarchyItem {
    pub name: String,
    pub kind: ItemKind,
    pub detail: String,
    pub uri: String,
    pub range: Range,
    pub selection_range: Range,
    pub data: Option<String>,
}

/// What an entry is: a channel by its path, or a script by its file name.
#[derive(Debug)]
pub enum Tag {
    Channel(String),
    Script(String),
}

/// What a [`Tag`] stands for.
pub enum TagView {
    Channel(Seq<char>),
    Script(Seq<char>),
}

impl DeepView for Tag {
    type V = TagView;

    open spec fn deep_view(&self) -> TagView {
        match self {
            Tag::Channel(x) => TagView::Channel(x.deep_view()),
            Tag::Script(x) => TagView::Script(x.deep_view()),
        }
    }
}

/// What a [`CallHierarchyItem`] stands for.
pub struct CallHierarchyItemView {
    pub name: Seq<char>,
    pub kind: ItemKind,
    pub detail: Seq<char>,
    pub uri: Seq<char>,
    pub range: Range,
    pub selection_range: Range,
    pub tag: Option<TagView>,
}

/// What the JSON object says.
pub open spec fn tag_of(data: Seq<char>) -> Option<TagView> {
    if json_field(data, "k"@) == Some("c"@) {
        match json_field(data, "path"@) {
            Some(path) => Some(TagView::Channel(path)),
            None => None,
        }
    } else if json_field(data, "k"@) == Some("s"@) {
        match json_field(data, "file"@) {
            Some(file) => Some(TagView::Script(file)),
            None => None,
        }
    } else {
        None
    }
}

impl DeepView for CallHierarchyItem {
    type V = CallHierarchyItemView;

    open spec fn deep_view(&self) -> CallHierarchyItemView {
        CallHierarchyItemView {
            name: self.name@,
            kind: self.kind,
            detail: self.detail@,
            uri: self.uri@,
            range: self.range,
            selection_range: self.selection_range,
            tag: match self.data {
                Some(d) => tag_of(d@),
                None => None,
            },
        }
    }
}

/// An entry that depends on another, and where.
#[derive(Debug)]
pub struct IncomingCall {
    pub from: CallHierarchyItem,
    pub from_ranges: Vec<Range>,
}

/// What a [`IncomingCall`] stands for.
pub struct IncomingCallView {
    pub from: CallHierarchyItemView,
    pub from_ranges: Seq<Range>,
}

impl DeepView for IncomingCall {
    type V = IncomingCallView;

    open spec fn deep_view(&self) -> IncomingCallView {
        IncomingCallView {
            from: self.from.deep_view(),
            from_ranges: self.from_ranges.deep_view(),
        }
    }
}

/// An entry that another one depends on, and where.
#[derive(Debug)]
pub struct OutgoingCall {
    pub to: CallHierarchyItem,
    pub from_ranges: Vec<Range>,
}

/// What a [`OutgoingCall`] stands for.
pub struct OutgoingCallView {
    pub to: CallHierarchyItemView,
    pub from_ranges: Seq<Range>,
}

impl DeepView for OutgoingCall {
    type V = OutgoingCallView;

    open spec fn deep_view(&self) -> OutgoingCallView {
        OutgoingCallView {
            to: self.to.deep_view(),
            from_ranges: self.from_ranges.deep_view(),
        }
    }
}

// ---------------------------------------------------------------------------
// Scripts and symbols
// ---------------------------------------------------------------------------

/// The file of a script: the one that the project names, or the one named by its path.
pub open spec fn backing_name(sym: SymbolView) -> Seq<char> {
    match sym.filename {
        Some(f) => f,
        None => unrooted(sym.path) + ".m1scr"@,
    }
}

/// The file of a script.
pub fn backing_file(sym: &Symbol) -> (r: String)
    ensures
        r@ == backing_name(sym.deep_view()),
{
    match &sym.filename {
        Some(f) => f.clone(),
        None => {
            let mut r = without_root(sym.path.as_str());
            r.append(".m1scr");
            r
        },
    }
}

/// A function or a method.
pub open spec fn is_callable(k: SymbolKind) -> bool {
    k == SymbolKind::Function || k == SymbolKind::Method
}

/// The first callable, from index `i` on, whose file has that name.
pub open spec fn script_symbol_at(s: Seq<SymbolView>, file_name: Seq<char>, i: int) -> Option<
    SymbolView,
>
    decreases s.len() - i,
{
    if i < 0 || i >= s.len() {
        None
    } else if is_callable(s[i].kind) && backing_name(s[i]) == file_name {
        Some(s[i])
    } else {
        script_symbol_at(s, file_name, i + 1)
    }
}

/// The function or method that a script file holds.
pub fn script_symbol<'a>(project: &'a Project, file_name: &str) -> (r: Option<&'a Symbol>)
    ensures
        r.deep_view() == script_symbol_at(project.deep_view().symbols, file_name@, 0),
{
    let ghost s = project.deep_view().symbols;
    let mut i: usize = 0;
    while i < project.symbols.len()
        invariant
            i <= project.symbols@.len(),
            s == project.deep_view().symbols,
            script_symbol_at(s, file_name@, 0) == script_symbol_at(s, file_name@, i as int),
        decreases project.symbols@.len() - i,
    {
        let sym = &project.symbols[i];
        assert(s[i as int] == sym.deep_view());
        if (sym.kind == SymbolKind::Function || sym.kind == SymbolKind::Method) && same(
            backing_file(sym).as_str(),
            file_name,
        ) {
            return Some(sym);
        }
        i = i + 1;
    }
    None
}

/// The path of the channel that `path` names.
pub open spec fn channel_of(scope: ScopeView, path: Seq<char>) -> Option<Seq<char>> {
    match scope.symbol(path) {
        Some(s) if s.kind == SymbolKind::Channel => Some(s.path),
        _ => None,
    }
}

fn channel_path(scope: &Scope, path: &str) -> (r: Option<String>)
    ensures
        r.deep_view() == channel_of(scope.deep_view(), path@),
{
    match scope.symbol(path) {
        Some(s) => if s.kind == SymbolKind::Channel {
            Some(s.path.clone())
        } else {
            None
        },
        None => None,
    }
}

// ---------------------------------------------------------------------------
// The graph
// ---------------------------------------------------------------------------

/// Where the script uses each channel, by its first `k` outermost paths: written, or read.
pub open spec fn uses_upto(
    script: ScriptView,
    enc: PositionEncoding,
    writes: bool,
    ps: Seq<(usize, bool)>,
    k: int,
) -> Seq<(Seq<char>, Seq<Range>)>
    decreases k,
{
    if k <= 0 {
        Seq::empty()
    } else {
        let rest = uses_upto(script, enc, writes, ps, k - 1);
        let n = ps[k - 1].0;
        match channel_of(script.scope, script.tree.text_of(n)) {
            Some(c) if ps[k - 1].1 == writes => map_with(
                rest,
                c,
                range_of(script.index, script.tree.start(n), script.tree.end(n), enc),
            ),
            _ => rest,
        }
    }
}

/// Where the script writes, or reads, each channel.
pub open spec fn uses_of(script: ScriptView, enc: PositionEncoding, writes: bool) -> Seq<
    (Seq<char>, Seq<Range>),
> {
    uses_upto(script, enc, writes, top_path_seq(script.tree), top_path_seq(script.tree).len() as int)
}

/// `name` without every `.m1scr` at its end.
pub open spec fn stem_of(name: Seq<char>) -> Seq<char>
    decreases name.len(),
{
    match before_suffix(name, ".m1scr"@) {
        Some(rest) => if rest.len() < name.len() {
            stem_of(rest)
        } else {
            name
        },
        None => name,
    }
}

pub open spec fn label_for(project: ProjectView, script: ScriptView) -> Seq<char> {
    match script_symbol_at(project.symbols, script.file_name, 0) {
        Some(s) => s.path,
        None => match script.scope.group {
            Some(g) => g,
            None => stem_of(script.file_name),
        },
    }
}

pub open spec fn rate_for(project: ProjectView, script: ScriptView) -> Option<Seq<char>> {
    match script_symbol_at(project.symbols, script.file_name, 0) {
        Some(s) => match s.call_rate {
            Some(r) => Some(r.plain),
            None => None,
        },
        None => None,
    }
}

/// The node of one script.
pub open spec fn node_of(project: ProjectView, script: ScriptView, enc: PositionEncoding) -> ScriptNodeView {
    ScriptNodeView {
        uri: script.uri,
        file_name: script.file_name,
        label: label_for(project, script),
        rate: rate_for(project, script),
        anchor: line_range(0),
        reads: uses_of(script, enc, false),
        writes: uses_of(script, enc, true),
    }
}

pub open spec fn nodes_upto(
    project: ProjectView,
    scripts: Seq<ScriptView>,
    enc: PositionEncoding,
    k: int,
) -> Seq<ScriptNodeView>
    decreases k,
{
    if k <= 0 {
        Seq::empty()
    } else {
        nodes_upto(project, scripts, enc, k - 1).push(node_of(project, scripts[k - 1], enc))
    }
}

/// The channels that a node writes, or reads.
pub open spec fn used(node: ScriptNodeView, writes: bool) -> Seq<(Seq<char>, Seq<Range>)> {
    if writes {
        node.writes
    } else {
        node.reads
    }
}

/// `m` with script `i` added to the first `k` channels.
pub open spec fn index_channels(
    m: Seq<(Seq<char>, Seq<usize>)>,
    channels: Seq<(Seq<char>, Seq<Range>)>,
    i: usize,
    k: int,
) -> Seq<(Seq<char>, Seq<usize>)>
    decreases k,
{
    if k <= 0 {
        m
    } else {
        map_with(index_channels(m, channels, i, k - 1), channels[k - 1].0, i)
    }
}

/// For each channel, the scripts among the first `k` that write, or read, it.
pub open spec fn index_upto(nodes: Seq<ScriptNodeView>, writes: bool, k: int) -> Seq<
    (Seq<char>, Seq<usize>),
>
    decreases k,
{
    if k <= 0 {
        Seq::empty()
    } else {
        let cs = used(nodes[k - 1], writes);
        index_channels(
            index_upto(nodes, writes, k - 1),
            cs,
            (k - 1) as usize,
            cs.len() as int,
        )
    }
}

/// The scripts among the first `k` that write, or read, the channel.
pub open spec fn users_upto(nodes: Seq<ScriptNodeView>, writes: bool, channel: Seq<char>, k: int) -> Seq<
    usize,
>
    decreases k,
{
    if k <= 0 {
        Seq::empty()
    } else if has_key(used(nodes[k - 1], writes), channel) {
        users_upto(nodes, writes, channel, k - 1).push((k - 1) as usize)
    } else {
        users_upto(nodes, writes, channel, k - 1)
    }
}

/// The scripts that write, or read, the channel, if there are any.
pub open spec fn users_of(nodes: Seq<ScriptNodeView>, writes: bool, channel: Seq<char>) -> Option<
    Seq<usize>,
> {
    some_if_any(users_upto(nodes, writes, channel, nodes.len() as int))
}

/// The graph of the project's scripts.
pub open spec fn graph_of(
    project: ProjectView,
    scripts: Seq<ScriptView>,
    enc: PositionEncoding,
) -> CallGraphView {
    let nodes = nodes_upto(project, scripts, enc, scripts.len() as int);
    CallGraphView {
        scripts: nodes,
        writers: index_upto(nodes, true, nodes.len() as int),
        readers: index_upto(nodes, false, nodes.len() as int),
    }
}

pub proof fn lemma_uses_sorted(
    script: ScriptView,
    enc: PositionEncoding,
    writes: bool,
    ps: Seq<(usize, bool)>,
    k: int,
)
    ensures
        keys_sorted(uses_upto(script, enc, writes, ps, k)),
    decreases k,
{
    if k > 0 {
        lemma_uses_sorted(script, enc, writes, ps, k - 1);
        let rest = uses_upto(script, enc, writes, ps, k - 1);
        let n = ps[k - 1].0;
        if let Some(c) = channel_of(script.scope, script.tree.text_of(n)) {
            lemma_map_with(
                rest,
                c,
                range_of(script.index, script.tree.start(n), script.tree.end(n), enc),
            );
        }
    }
}

proof fn lemma_index_channels(
    m: Seq<(Seq<char>, Seq<usize>)>,
    channels: Seq<(Seq<char>, Seq<Range>)>,
    i: usize,
    k: int,
)
    requires
        keys_sorted(m),
        keys_sorted(channels),
        0 <= k <= channels.len(),
    ensures
        keys_sorted(index_channels(m, channels, i, k)),
        forall|c: Seq<char>|
            #[trigger] value_of(index_channels(m, channels, i, k), c) == (if has_key(
                channels.take(k),
                c,
            ) {
                match value_of(m, c) {
                    Some(l) => Some(l.push(i)),
                    None => Some(seq![i]),
                }
            } else {
                value_of(m, c)
            }),
    decreases k,
{
    if k > 0 {
        lemma_index_channels(m, channels, i, k - 1);
        let prior = index_channels(m, channels, i, k - 1);
        let key = channels[k - 1].0;
        lemma_map_with(prior, key, i);
        let now = index_channels(m, channels, i, k);
        let taken = channels.take(k - 1);
        let more = channels.take(k);
        lemma_key_index(taken, key, 0);
        if let Some(j) = key_index(taken, key, 0) {
            assert(before(channels[j].0, channels[k - 1].0)) by {
                assert(keys_sorted(channels));
            }
            lemma_before_irreflexive(key);
        }
        assert forall|c: Seq<char>| #[trigger] value_of(now, c) == (if has_key(more, c) {
            match value_of(m, c) {
                Some(l) => Some(l.push(i)),
                None => Some(seq![i]),
            }
        } else {
            value_of(m, c)
        }) by {
            lemma_key_index(taken, c, 0);
            lemma_key_index(more, c, 0);
            assert(value_of(prior, c) == value_of(prior, c));
            if c == key {
                assert(more[k - 1].0 == key);
                assert(has_key(more, c));
            } else {
                if let Some(j) = key_index(taken, c, 0) {
                    assert(more[j].0 == c);
                }
                if let Some(j) = key_index(more, c, 0) {
                    assert(j < k - 1);
                    assert(taken[j].0 == c);
                }
                assert(has_key(more, c) == has_key(taken, c));
            }
        }
    } else {
        assert forall|c: Seq<char>| !#[trigger] has_key(channels.take(0), c) by {
            lemma_key_index(channels.take(0), c, 0);
        }
    }
}

/// The nodes' channels come in order.
pub open spec fn nodes_sorted(nodes: Seq<ScriptNodeView>) -> bool {
    forall|i: int|
        0 <= i < nodes.len() ==> keys_sorted((#[trigger] nodes[i]).reads) && keys_sorted(
            nodes[i].writes,
        )
}

/// The index of a graph lists, for each channel, exactly the scripts that use it.
pub proof fn index_lists_users(nodes: Seq<ScriptNodeView>, writes: bool, k: int)
    requires
        nodes_sorted(nodes),
        0 <= k <= nodes.len(),
    ensures
        keys_sorted(index_upto(nodes, writes, k)),
        forall|c: Seq<char>|
            #[trigger] value_of(index_upto(nodes, writes, k), c) == some_if_any(
                users_upto(nodes, writes, c, k),
            ),
    decreases k,
{
    if k > 0 {
        index_lists_users(nodes, writes, k - 1);
        let cs = used(nodes[k - 1], writes);
        let m = index_upto(nodes, writes, k - 1);
        assert(keys_sorted(cs)) by {
            assert(keys_sorted(nodes[k - 1].reads));
        }
        lemma_index_channels(m, cs, (k - 1) as usize, cs.len() as int);
        assert(cs.take(cs.len() as int) =~= cs);
        assert forall|c: Seq<char>| #[trigger] value_of(
            index_upto(nodes, writes, k),
            c,
        ) == some_if_any(users_upto(nodes, writes, c, k)) by {
            assert(value_of(m, c) == some_if_any(users_upto(nodes, writes, c, k - 1)));
            let u = users_upto(nodes, writes, c, k - 1);
            assert(u.len() == 0 ==> u.push((k - 1) as usize) =~= seq![(k - 1) as usize]);
        }
    } else {
        assert forall|c: Seq<char>| #[trigger] value_of(
            index_upto(nodes, writes, k),
            c,
        ) == some_if_any(users_upto(nodes, writes, c, k)) by {
            lemma_key_index(index_upto(nodes, writes, k), c, 0);
        }
    }
}

/// Every graph's channels come in order.
pub proof fn graph_nodes_sorted(
    project: ProjectView,
    scripts: Seq<ScriptView>,
    enc: PositionEncoding,
    k: int,
)
    requires
        0 <= k <= scripts.len(),
    ensures
        nodes_upto(project, scripts, enc, k).len() == k,
        nodes_sorted(nodes_upto(project, scripts, enc, k)),
    decreases k,
{
    if k > 0 {
        graph_nodes_sorted(project, scripts, enc, k - 1);
        let s = scripts[k - 1];
        let ps = top_path_seq(s.tree);
        lemma_uses_sorted(s, enc, true, ps, ps.len() as int);
        lemma_uses_sorted(s, enc, false, ps, ps.len() as int);
        let before = nodes_upto(project, scripts, enc, k - 1);
        let now = nodes_upto(project, scripts, enc, k);
        assert forall|i: int| 0 <= i < now.len() implies keys_sorted((#[trigger] now[i]).reads)
            && keys_sorted(now[i].writes) by {
            if i < k - 1 {
                assert(now[i] == before[i]);
            }
        }
    }
}

fn stem(name: &str) -> (r: String)
    ensures
        r@ == stem_of(name@),
    decreases name@.len(),
{
    proof {
        reveal_strlit(".m1scr");
    }
    let v = chars(name);
    let p = chars(".m1scr");
    match strip_suffix(&v, &p) {
        Some(rest) => {
            assert(rest.deep_view() =~= rest@);
            stem(string(&rest).as_str())
        },
        None => name.to_owned(),
    }
}

fn script_node(project: &Project, script: &Script, enc: PositionEncoding) -> (r: ScriptNode)
    ensures
        r.deep_view() == node_of(project.deep_view(), script.deep_view(), enc),
{
    let ghost sv = script.deep_view();
    let tree = &script.tree;
    let ps = top_paths(tree);
    let mut reads: Vec<(String, Vec<Range>)> = fresh();
    let mut writes: Vec<(String, Vec<Range>)> = fresh();
    let mut k: usize = 0;
    while k < ps.len()
        invariant
            k <= ps@.len(),
            tree == &script.tree,
            sv == script.deep_view(),
            ps@ == top_path_seq(tree@),
            forall|i: int| 0 <= i < ps@.len() ==> tree@.has((#[trigger] ps@[i]).0),
            reads.deep_view() == uses_upto(sv, enc, false, ps@, k as int),
            writes.deep_view() == uses_upto(sv, enc, true, ps@, k as int),
        decreases ps@.len() - k,
    {
        let (n, written) = ps[k];
        if let Some(c) = channel_path(&script.scope, tree.text_of(n).as_str()) {
            let d = tree.node(n);
            let r = range(d.start, d.end, &script.index, enc);
            if written {
                map_push(&mut writes, c.as_str(), r);
            } else {
                map_push(&mut reads, c.as_str(), r);
            }
        }
        k = k + 1;
    }
    let sym = script_symbol(project, script.file_name.as_str());
    let label = match sym {
        Some(s) => s.path.clone(),
        None => match &script.scope.group {
            Some(g) => g.clone(),
            None => stem(script.file_name.as_str()),
        },
    };
    let rate = match sym {
        Some(s) => match &s.call_rate {
            Some(r) => Some(r.plain.clone()),
            None => None,
        },
        None => None,
    };
    ScriptNode {
        uri: script.uri.clone(),
        file_name: script.file_name.clone(),
        label,
        rate,
        anchor: at_line(0),
        reads,
        writes,
    }
}

fn index_script(m: &mut Vec<(String, Vec<usize>)>, channels: &Vec<(String, Vec<Range>)>, i: usize)
    ensures
        final(m).deep_view() == index_channels(
            old(m).deep_view(),
            channels.deep_view(),
            i,
            channels@.len() as int,
        ),
{
    let ghost first = m.deep_view();
    let ghost cs = channels.deep_view();
    let mut k: usize = 0;
    while k < channels.len()
        invariant
            k <= channels@.len(),
            cs == channels.deep_view(),
            m.deep_view() == index_channels(first, cs, i, k as int),
        decreases channels@.len() - k,
    {
        assert(cs[k as int] == channels@[k as int].deep_view());
        map_push(m, channels[k].0.as_str(), i);
        k = k + 1;
    }
}

impl CallGraph {
    /// The index is that of the scripts.
    pub closed spec fn wf(&self) -> bool {
        let nodes = self@.scripts;
        &&& nodes_sorted(nodes)
        &&& self@.writers == index_upto(nodes, true, nodes.len() as int)
        &&& self@.readers == index_upto(nodes, false, nodes.len() as int)
    }

    /// The graph of the project's scripts.
    pub fn build(project: &Project, scripts: &Vec<Script>, enc: PositionEncoding) -> (r: CallGraph)
        ensures
            r@ == graph_of(project.deep_view(), scripts.deep_view(), enc),
            r.wf(),
    {
        let ghost p = project.deep_view();
        let ghost ss = scripts.deep_view();
        let mut nodes: Vec<ScriptNode> = fresh();
        let mut k: usize = 0;
        while k < scripts.len()
            invariant
                k <= scripts@.len(),
                p == project.deep_view(),
                ss == scripts.deep_view(),
                nodes.deep_view() == nodes_upto(p, ss, enc, k as int),
            decreases scripts@.len() - k,
        {
            assert(ss[k as int] == scripts@[k as int].deep_view());
            put(&mut nodes, script_node(project, &scripts[k], enc));
            k = k + 1;
        }
        proof {
            graph_nodes_sorted(p, ss, enc, ss.len() as int);
        }
        let ghost ns = nodes.deep_view();
        let mut writers: Vec<(String, Vec<usize>)> = fresh();
        let mut readers: Vec<(String, Vec<usize>)> = fresh();
        let mut i: usize = 0;
        while i < nodes.len()
            invariant
                i <= nodes@.len(),
                ns == nodes.deep_view(),
                writers.deep_view() == index_upto(ns, true, i as int),
                readers.deep_view() == index_upto(ns, false, i as int),
            decreases nodes@.len() - i,
        {
            assert(ns[i as int] == nodes@[i as int].deep_view());
            assert(ns[i as int].writes.len() == nodes@[i as int].writes@.len());
            assert(ns[i as int].reads.len() == nodes@[i as int].reads@.len());
            index_script(&mut writers, &nodes[i].writes, i);
            index_script(&mut readers, &nodes[i].reads, i);
            i = i + 1;
        }
        CallGraph { scripts: nodes, writers, readers }
    }

    /// The scripts that write, or read, the channel.
    pub fn users(&self, writes: bool, channel: &str) -> (r: Option<&Vec<usize>>)
        requires
            self.wf(),
        ensures
            match r {
                Some(l) => users_of(self@.scripts, writes, channel@) == Some(l@) && forall|i: int|
                    0 <= i < l@.len() ==> (#[trigger] l@[i]) < self@.scripts.len(),
                None => users_of(self@.scripts, writes, channel@) is None,
            },
    {
        let ghost nodes = self@.scripts;
        let count: usize = self.scripts.len();
        proof {
            assert(nodes.len() == count);
            index_lists_users(nodes, writes, nodes.len() as int);
            lemma_users_bounded(nodes, writes, channel@, nodes.len() as int);
        }
        let index = if writes {
            &self.writers
        } else {
            &self.readers
        };
        assert(value_of(index.deep_view(), channel@) == users_of(nodes, writes, channel@));
        match find_key(index, channel) {
            Some(i) => {
                assert(index.deep_view()[i as int] == index@[i as int].deep_view());
                assert(index@[i as int].1.deep_view() =~= index@[i as int].1@);
                Some(&index[i].1)
            },
            None => None,
        }
    }

    /// The first script, from index `i` on, with that file name.
    pub open spec fn by_file(nodes: Seq<ScriptNodeView>, file: Seq<char>, i: int) -> Option<int>
        decreases nodes.len() - i,
    {
        if i < 0 || i >= nodes.len() {
            None
        } else if nodes[i].file_name == file {
            Some(i)
        } else {
            CallGraph::by_file(nodes, file, i + 1)
        }
    }

    pub fn script_by_file(&self, file: &str) -> (r: Option<usize>)
        ensures
            match r {
                Some(i) => i < self@.scripts.len() && CallGraph::by_file(self@.scripts, file@, 0)
                    == Some(i as int),
                None => CallGraph::by_file(self@.scripts, file@, 0) is None,
            },
    {
        let ghost nodes = self@.scripts;
        let mut i: usize = 0;
        while i < self.scripts.len()
            invariant
                i <= self.scripts@.len(),
                nodes == self@.scripts,
                CallGraph::by_file(nodes, file@, 0) == CallGraph::by_file(nodes, file@, i as int),
            decreases self.scripts@.len() - i,
        {
            assert(nodes[i as int] == self.scripts@[i as int].deep_view());
            if same(self.scripts[i].file_name.as_str(), file) {
                return Some(i);
            }
            i = i + 1;
        }
        None
    }
}

proof fn lemma_users_bounded(nodes: Seq<ScriptNodeView>, writes: bool, channel: Seq<char>, k: int)
    requires
        0 <= k <= nodes.len() <= usize::MAX,
    ensures
        forall|i: int|
            0 <= i < users_upto(nodes, writes, channel, k).len() ==> (#[trigger] users_upto(
                nodes,
                writes,
                channel,
                k,
            )[i]) < k,
    decreases k,
{
    if k > 0 {
        lemma_users_bounded(nodes, writes, channel, k - 1);
        let rest = users_upto(nodes, writes, channel, k - 1);
        let all = users_upto(nodes, writes, channel, k);
        assert forall|i: int| 0 <= i < all.len() implies (#[trigger] all[i]) < k by {
            if i < rest.len() {
                assert(all[i] == rest[i]);
            }
        }
    }
}

// ---------------------------------------------------------------------------
// Entries
// ---------------------------------------------------------------------------

/// The entry of a script.
pub open spec fn script_entry(node: ScriptNodeView) -> CallHierarchyItemView {
    CallHierarchyItemView {
        name: node.file_name,
        kind: ItemKind::Script,
        detail: match node.rate {
            Some(hz) => node.label + " @ "@ + hz + " Hz"@,
            None => node.label,
        },
        uri: node.uri,
        range: node.anchor,
        selection_range: node.anchor,
        tag: Some(TagView::Script(node.file_name)),
    }
}

/// The entry of a channel, where it is defined.
pub open spec fn channel_entry(loaded: LoadedProjectView, path: Seq<char>) -> Option<
    CallHierarchyItemView,
> {
    match loaded.project.get(path) {
        Some(sym) => match definition_of(loaded, sym) {
            Some(loc) => Some(
                CallHierarchyItemView {
                    name: path,
                    kind: ItemKind::Channel,
                    detail: match sym.unit {
                        Some(u) => "channel · "@ + u,
                        None => "channel"@,
                    },
                    uri: loc.uri,
                    range: loc.range,
                    selection_range: loc.range,
                    tag: Some(TagView::Channel(path)),
                },
            ),
            None => None,
        },
        None => None,
    }
}

/// The entry of a script.
pub fn script_item(node: &ScriptNode) -> (r: CallHierarchyItem)
    ensures
        r.deep_view() == script_entry(node.deep_view()),
{
    let mut detail = node.label.clone();
    if let Some(hz) = &node.rate {
        detail.append(" @ ");
        detail.append(hz.as_str());
        detail.append(" Hz");
    }
    proof {
        reveal_strlit("k");
        reveal_strlit("file");
        reveal_strlit("c");
        reveal_strlit("s");
        assert("k"@.len() != "file"@.len());
        assert("c"@[0] != "s"@[0]);
    }
    let data = json_pair("k", "s", "file", node.file_name.as_str());
    CallHierarchyItem {
        name: node.file_name.clone(),
        kind: ItemKind::Script,
        detail,
        uri: node.uri.clone(),
        range: node.anchor,
        selection_range: node.anchor,
        data: Some(data),
    }
}

/// The entry of a channel, where it is defined.
pub fn channel_item(loaded: &LoadedProject, path: &str) -> (r: Option<CallHierarchyItem>)
    ensures
        r.deep_view() == channel_entry(loaded.deep_view(), path@),
{
    let sym = match loaded.project.get(path) {
        Some(s) => s,
        None => {
            return None;
        },
    };
    let loc = match symbol_location(loaded, sym) {
        Some(l) => l,
        None => {
            return None;
        },
    };
    let detail = match &sym.unit {
        Some(u) => concat("channel · ", u.as_str()),
        None => "channel".to_string(),
    };
    proof {
        reveal_strlit("k");
        reveal_strlit("path");
        assert("k"@.len() != "path"@.len());
    }
    let data = json_pair("k", "c", "path", path);
    Some(
        CallHierarchyItem {
            name: path.to_owned(),
            kind: ItemKind::Channel,
            detail,
            uri: loc.uri,
            range: loc.range,
            selection_range: loc.range,
            data: Some(data),
        },
    )
}

/// What the entry is.
fn item_tag(item: &CallHierarchyItem) -> (r: Option<Tag>)
    ensures
        r.deep_view() == item.deep_view().tag,
{
    let data = match &item.data {
        Some(d) => d.as_str(),
        None => {
            return None;
        },
    };
    proof {
        reveal_strlit("c");
        reveal_strlit("s");
        assert("c"@[0] != "s"@[0]);
    }
    match json_get(data, "k") {
        Some(k) => {
            if same(k.as_str(), "c") {
                match json_get(data, "path") {
                    Some(path) => Some(Tag::Channel(path)),
                    None => None,
                }
            } else if same(k.as_str(), "s") {
                match json_get(data, "file") {
                    Some(file) => Some(Tag::Script(file)),
                    None => None,
                }
            } else {
                None
            }
        },
        None => None,
    }
}

// ---------------------------------------------------------------------------
// The requests
// ---------------------------------------------------------------------------

/// The entry of what byte `b` stands on: a channel, or the script of a function.
pub open spec fn entry_at(
    loaded: LoadedProjectView,
    t: Tree,
    scope: ScopeView,
    b: int,
    nodes: Seq<ScriptNodeView>,
) -> Option<CallHierarchyItemView> {
    match path_node(t, b) {
        Some(n) => {
            let path = t.text_of(n);
            let channel = match channel_of(scope, path) {
                Some(c) => channel_entry(loaded, c),
                None => None,
            };
            match channel {
                Some(item) => Some(item),
                None => match scope.symbol(path) {
                    Some(s) if is_callable(s.kind) => match CallGraph::by_file(
                        nodes,
                        backing_name(s),
                        0,
                    ) {
                        Some(i) => Some(script_entry(nodes[i])),
                        None => None,
                    },
                    _ => None,
                },
            }
        },
        None => None,
    }
}

/// The entry that the cursor stands on: a channel, or the script of a function that is
/// called. Any other place has none.
pub fn prepare(
    loaded: &LoadedProject,
    tree: &SyntaxTree,
    scope: &Scope,
    byte: usize,
    enc: PositionEncoding,
    scripts: &Vec<Script>,
) -> (r: Option<Vec<CallHierarchyItem>>)
    ensures
        r.deep_view() == (match entry_at(
            loaded.deep_view(),
            tree@,
            scope.deep_view(),
            byte as int,
            nodes_upto(
                loaded.deep_view().project,
                scripts.deep_view(),
                enc,
                scripts@.len() as int,
            ),
        ) {
            Some(item) => Some(seq![item]),
            None => None,
        }),
{
    let path = match path_at_byte(tree, byte) {
        Some((n, path)) => path,
        None => {
            return None;
        },
    };
    if let Some(c) = channel_path(scope, path.as_str()) {
        if let Some(item) = channel_item(loaded, c.as_str()) {
            return Some(one(item));
        }
    }
    let sym = match scope.symbol(path.as_str()) {
        Some(s) => s,
        None => {
            return None;
        },
    };
    if sym.kind != SymbolKind::Function && sym.kind != SymbolKind::Method {
        return None;
    }
    let graph = CallGraph::build(&loaded.project, scripts, enc);
    match graph.script_by_file(backing_file(sym).as_str()) {
        Some(i) => {
            assert(graph@.scripts[i as int] == graph.scripts@[i as int].deep_view());
            Some(one(script_item(&graph.scripts[i])))
        },
        None => None,
    }
}

/// The calls from the first `k` of the scripts that read the channel.
pub open spec fn readers_upto(
    nodes: Seq<ScriptNodeView>,
    users: Seq<usize>,
    channel: Seq<char>,
    k: int,
) -> Seq<IncomingCallView>
    decreases k,
{
    if k <= 0 {
        Seq::empty()
    } else {
        let node = nodes[users[k - 1] as int];
        readers_upto(nodes, users, channel, k - 1).push(
            IncomingCallView {
                from: script_entry(node),
                from_ranges: match value_of(node.reads, channel) {
                    Some(rs) => rs,
                    None => Seq::empty(),
                },
            },
        )
    }
}

/// Where the node reads the first `k` of the channels.
pub open spec fn reads_upto(
    node: ScriptNodeView,
    channels: Seq<(Seq<char>, Seq<Range>)>,
    k: int,
) -> Seq<Range>
    decreases k,
{
    if k <= 0 {
        Seq::empty()
    } else {
        reads_upto(node, channels, k - 1) + match value_of(node.reads, channels[k - 1].0) {
            Some(rs) => rs,
            None => Seq::empty(),
        }
    }
}

/// The node reads one of the first `k` channels.
pub open spec fn reads_any(
    node: ScriptNodeView,
    channels: Seq<(Seq<char>, Seq<Range>)>,
    k: int,
) -> bool {
    exists|j: int| 0 <= j < k && has_key(node.reads, (#[trigger] channels[j]).0)
}

/// The calls from those of the first `k` scripts, other than `file`, that read one of the
/// channels.
pub open spec fn callers_upto(
    nodes: Seq<ScriptNodeView>,
    file: Seq<char>,
    channels: Seq<(Seq<char>, Seq<Range>)>,
    k: int,
) -> Seq<IncomingCallView>
    decreases k,
{
    if k <= 0 {
        Seq::empty()
    } else {
        let node = nodes[k - 1];
        let rest = callers_upto(nodes, file, channels, k - 1);
        if node.file_name != file && reads_any(node, channels, channels.len() as int) {
            rest.push(
                IncomingCallView {
                    from: script_entry(node),
                    from_ranges: reads_upto(node, channels, channels.len() as int),
                },
            )
        } else {
            rest
        }
    }
}

/// What depends on the entry: on a channel the scripts that read it, on a script the other
/// scripts that read a channel which it writes.
pub open spec fn incoming_of(nodes: Seq<ScriptNodeView>, tag: Option<TagView>) -> Option<
    Seq<IncomingCallView>,
> {
    match tag {
        Some(TagView::Channel(path)) => match users_of(nodes, false, path) {
            Some(users) => Some(readers_upto(nodes, users, path, users.len() as int)),
            None => None,
        },
        Some(TagView::Script(file)) => match CallGraph::by_file(nodes, file, 0) {
            Some(i) => Some(callers_upto(nodes, file, nodes[i].writes, nodes.len() as int)),
            None => None,
        },
        None => None,
    }
}

fn copied_ranges(v: &Vec<Range>) -> (r: Vec<Range>)
    ensures
        r.deep_view() == v.deep_view(),
        r@ == v@,
{
    let mut r: Vec<Range> = Vec::new();
    let mut k: usize = 0;
    while k < v.len()
        invariant
            k <= v@.len(),
            r@ == v@.take(k as int),
        decreases v@.len() - k,
    {
        r.push(v[k]);
        assert(v@.take(k + 1) =~= v@.take(k as int).push(v@[k as int]));
        k = k + 1;
    }
    assert(v@.take(k as int) =~= v@);
    assert(r.deep_view() =~= v.deep_view());
    r
}

fn ranges_of(m: &Vec<(String, Vec<Range>)>, channel: &str) -> (r: Option<Vec<Range>>)
    ensures
        r.deep_view() == value_of(m.deep_view(), channel@),
{
    match find_key(m, channel) {
        Some(i) => {
            assert(m.deep_view()[i as int] == m@[i as int].deep_view());
            Some(copied_ranges(&m[i].1))
        },
        None => None,
    }
}

fn channel_readers(graph: &CallGraph, channel: &str) -> (r: Option<Vec<IncomingCall>>)
    requires
        graph.wf(),
    ensures
        r.deep_view() == incoming_of(graph@.scripts, Some(TagView::Channel(channel@))),
{
    let ghost nodes = graph@.scripts;
    let users = match graph.users(false, channel) {
        Some(l) => l,
        None => {
            return None;
        },
    };
    let mut out: Vec<IncomingCall> = fresh();
    let mut k: usize = 0;
    while k < users.len()
        invariant
            k <= users@.len(),
            nodes == graph@.scripts,
            forall|i: int| 0 <= i < users@.len() ==> (#[trigger] users@[i]) < graph.scripts@.len(),
            out.deep_view() == readers_upto(nodes, users@, channel@, k as int),
        decreases users@.len() - k,
    {
        let node = &graph.scripts[users[k]];
        assert(nodes[users@[k as int] as int] == node.deep_view());
        let from_ranges = match ranges_of(&node.reads, channel) {
            Some(rs) => rs,
            None => fresh(),
        };
        put(&mut out, IncomingCall { from: script_item(node), from_ranges });
        k = k + 1;
    }
    Some(out)
}

fn script_callers(graph: &CallGraph, file: &str) -> (r: Option<Vec<IncomingCall>>)
    ensures
        r.deep_view() == incoming_of(graph@.scripts, Some(TagView::Script(file@))),
{
    let ghost nodes = graph@.scripts;
    let me: usize = match graph.script_by_file(file) {
        Some(i) => i,
        None => {
            return None;
        },
    };
    let channels = &graph.scripts[me].writes;
    let ghost cs = channels.deep_view();
    assert(nodes[me as int] == graph.scripts@[me as int].deep_view());
    let mut out: Vec<IncomingCall> = fresh();
    let mut i: usize = 0;
    while i < graph.scripts.len()
        invariant
            i <= graph.scripts@.len(),
            nodes == graph@.scripts,
            cs == channels.deep_view(),
            out.deep_view() == callers_upto(nodes, file@, cs, i as int),
        decreases graph.scripts@.len() - i,
    {
        let node = &graph.scripts[i];
        let ghost nv = node.deep_view();
        assert(nodes[i as int] == nv);
        if !same(node.file_name.as_str(), file) {
            let mut found = false;
            let mut ranges: Vec<Range> = fresh();
            let mut k: usize = 0;
            while k < channels.len()
                invariant
                    k <= channels@.len(),
                    cs == channels.deep_view(),
                    nv == node.deep_view(),
                    found == reads_any(nv, cs, k as int),
                    ranges.deep_view() == reads_upto(nv, cs, k as int),
                decreases channels@.len() - k,
            {
                assert(cs[k as int] == channels@[k as int].deep_view());
                match ranges_of(&node.reads, channels[k].0.as_str()) {
                    Some(rs) => {
                        assert(has_key(nv.reads, cs[k as int].0));
                        found = true;
                        extend(&mut ranges, rs);
                    },
                    None => {
                        assert(ranges.deep_view() + Seq::<Range>::empty() =~= ranges.deep_view());
                        assert(!has_key(nv.reads, cs[k as int].0));
                        assert(reads_any(nv, cs, k + 1) == reads_any(nv, cs, k as int));
                    },
                }
                k = k + 1;
            }
            if found {
                put(&mut out, IncomingCall { from: script_item(node), from_ranges: ranges });
            }
        }
        i = i + 1;
    }
    Some(out)
}

/// What depends on the entry, and where.
pub fn incoming(
    loaded: &LoadedProject,
    item: &CallHierarchyItem,
    enc: PositionEncoding,
    scripts: &Vec<Script>,
) -> (r: Option<Vec<IncomingCall>>)
    ensures
        r.deep_view() == incoming_of(
            nodes_upto(
                loaded.deep_view().project,
                scripts.deep_view(),
                enc,
                scripts@.len() as int,
            ),
            item.deep_view().tag,
        ),
{
    let graph = CallGraph::build(&loaded.project, scripts, enc);
    match item_tag(item) {
        Some(Tag::Channel(path)) => channel_readers(&graph, path.as_str()),
        Some(Tag::Script(file)) => script_callers(&graph, file.as_str()),
        None => None,
    }
}

/// The calls to the first `k` channels that have an entry.
pub open spec fn written_calls_upto(
    loaded: LoadedProjectView,
    channels: Seq<(Seq<char>, Seq<Range>)>,
    k: int,
) -> Seq<OutgoingCallView>
    decreases k,
{
    if k <= 0 {
        Seq::empty()
    } else {
        match channel_entry(loaded, channels[k - 1].0) {
            Some(to) => written_calls_upto(loaded, channels, k - 1).push(
                OutgoingCallView { to, from_ranges: channels[k - 1].1 },
            ),
            None => written_calls_upto(loaded, channels, k - 1),
        }
    }
}

/// The calls to the first `k` of the scripts that write a channel, from where it is.
pub open spec fn writers_upto(
    nodes: Seq<ScriptNodeView>,
    users: Seq<usize>,
    at: Range,
    k: int,
) -> Seq<OutgoingCallView>
    decreases k,
{
    if k <= 0 {
        Seq::empty()
    } else {
        writers_upto(nodes, users, at, k - 1).push(
            OutgoingCallView {
                to: script_entry(nodes[users[k - 1] as int]),
                from_ranges: seq![at],
            },
        )
    }
}

/// What the entry depends on: a script on the channels that it writes, a channel on the
/// scripts that write it.
pub open spec fn outgoing_of(
    loaded: LoadedProjectView,
    nodes: Seq<ScriptNodeView>,
    item: CallHierarchyItemView,
) -> Option<Seq<OutgoingCallView>> {
    match item.tag {
        Some(TagView::Script(file)) => match CallGraph::by_file(nodes, file, 0) {
            Some(i) => Some(written_calls_upto(loaded, nodes[i].writes, nodes[i].writes.len() as int)),
            None => None,
        },
        Some(TagView::Channel(path)) => match users_of(nodes, true, path) {
            Some(users) => Some(
                writers_upto(nodes, users, item.selection_range, users.len() as int),
            ),
            None => None,
        },
        None => None,
    }
}

/// What the entry depends on, and where.
pub fn outgoing(
    loaded: &LoadedProject,
    item: &CallHierarchyItem,
    enc: PositionEncoding,
    scripts: &Vec<Script>,
) -> (r: Option<Vec<OutgoingCall>>)
    ensures
        r.deep_view() == outgoing_of(
            loaded.deep_view(),
            nodes_upto(
                loaded.deep_view().project,
                scripts.deep_view(),
                enc,
                scripts@.len() as int,
            ),
            item.deep_view(),
        ),
{
    let graph = CallGraph::build(&loaded.project, scripts, enc);
    let ghost nodes = graph@.scripts;
    let mut out: Vec<OutgoingCall> = fresh();
    match item_tag(item) {
        Some(Tag::Script(file)) => {
            let me: usize = match graph.script_by_file(file.as_str()) {
                Some(i) => i,
                None => {
                    return None;
                },
            };
            let channels = &graph.scripts[me].writes;
            let ghost cs = channels.deep_view();
            assert(nodes[me as int] == graph.scripts@[me as int].deep_view());
            let mut k: usize = 0;
            while k < channels.len()
                invariant
                    k <= channels@.len(),
                    cs == channels.deep_view(),
                    out.deep_view() == written_calls_upto(loaded.deep_view(), cs, k as int),
                decreases channels@.len() - k,
            {
                assert(cs[k as int] == channels@[k as int].deep_view());
                if let Some(to) = channel_item(loaded, channels[k].0.as_str()) {
                    let from_ranges = copied_ranges(&channels[k].1);
                    put(&mut out, OutgoingCall { to, from_ranges });
                }
                k = k + 1;
            }
        },
        Some(Tag::Channel(path)) => {
            let users = match graph.users(true, path.as_str()) {
                Some(l) => l,
                None => {
                    return None;
                },
            };
            let mut k: usize = 0;
            while k < users.len()
                invariant
                    k <= users@.len(),
                    nodes == graph@.scripts,
                    forall|i: int|
                        0 <= i < users@.len() ==> (#[trigger] users@[i]) < graph.scripts@.len(),
                    out.deep_view() == writers_upto(
                        nodes,
                        users@,
                        item.selection_range,
                        k as int,
                    ),
                decreases users@.len() - k,
            {
                let node = &graph.scripts[users[k]];
                assert(nodes[users@[k as int] as int] == node.deep_view());
                put(
                    &mut out,
                    OutgoingCall { to: script_item(node), from_ranges: one(item.selection_range) },
                );
                k = k + 1;
            }
        },
        None => {
            return None;
        },
    }
    Some(out)
}

// ---------------------------------------------------------------------------
// Laws
// ---------------------------------------------------------------------------

/// A script is among the users of a channel exactly when it uses it.
pub proof fn users_are_those_that_use(
    nodes: Seq<ScriptNodeView>,
    writes: bool,
    channel: Seq<char>,
    k: int,
    i: usize,
)
    requires
        0 <= k <= nodes.len() <= usize::MAX,
        i < k,
    ensures
        users_upto(nodes, writes, channel, k).contains(i) <==> has_key(
            used(nodes[i as int], writes),
            channel,
        ),
    decreases k,
{
    let rest = users_upto(nodes, writes, channel, k - 1);
    let all = users_upto(nodes, writes, channel, k);
    lemma_users_bounded(nodes, writes, channel, k - 1);
    if i < k - 1 {
        users_are_those_that_use(nodes, writes, channel, k - 1, i);
        if all.contains(i) {
            let j = choose|j: int| 0 <= j < all.len() && all[j] == i;
            if j < rest.len() {
                assert(rest[j] == i);
            }
        }
        if rest.contains(i) {
            let j = choose|j: int| 0 <= j < rest.len() && rest[j] == i;
            assert(all[j] == i);
        }
    } else {
        if has_key(used(nodes[i as int], writes), channel) {
            assert(all[rest.len() as int] == i);
        } else if all.contains(i) {
            let j = choose|j: int| 0 <= j < all.len() && all[j] == i;
            assert(rest[j] < k - 1);
        }
    }
}

} // verus!
