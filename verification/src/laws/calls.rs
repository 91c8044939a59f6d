//! What the call hierarchy lists.
use crate::call_hierarchy::{
    backing_name, callers_upto, CallGraph, CallHierarchyItemView, channel_entry, channel_of,
    entry_at, graph_nodes_sorted, incoming_of, IncomingCallView, is_callable, ItemKind,
    lemma_uses_sorted, node_of, nodes_upto, outgoing_of, OutgoingCallView, readers_upto,
    reads_any, reads_upto, script_entry, script_symbol_at, ScriptNodeView, stem_of, TagView,
    users_are_those_that_use, users_of, users_upto, uses_of, uses_upto, writers_upto,
    written_calls_upto,
};
use crate::goto::definition_of;
use crate::laws::locate::paths_are_listed_exactly;
use crate::line_index::{Position, PositionEncoding, Range, range_of};
use crate::locate::{in_annotation, is_path_kind, is_written, path_node, top_path_seq};
use crate::model::{
    key_index, lemma_key_index, LoadedProjectView, ProjectView, ResolutionView, ScopeView, Symbol,
    SymbolKind, SymbolView, value_of,
};
use crate::order::{has_key, lemma_map_with};
use crate::references::{ScriptView, some_if_any};
use crate::search::{before_suffix, begins, ends};
use crate::syntax::{Kind, Tree};
use vstd::prelude::*;
use vstd::string::*;

verus! {

// ---------------------------------------------------------------------------
// Uses of channels
// ---------------------------------------------------------------------------

/// Node `n` of the script is an outermost path that writes, or reads, the channel.
pub open spec fn uses_at(script: ScriptView, n: usize, channel: Seq<char>, writes: bool) -> bool {
    &&& n < script.tree.size()
    &&& is_path_kind(script.tree.kind(n))
    &&& script.tree.parent_kind(n) != Some(Kind::MemberExpression)
    &&& !in_annotation(script.tree, n)
    &&& is_written(script.tree, n) == writes
    &&& match script.scope.resolve(script.tree.text_of(n)) {
        ResolutionView::Symbol(s) => s.kind == SymbolKind::Channel && s.path == channel,
        _ => false,
    }
}

/// The script writes, or reads, the channel.
#[verifier::opaque]
pub open spec fn uses(script: ScriptView, channel: Seq<char>, writes: bool) -> bool {
    exists|n: usize| uses_at(script, n, channel, writes)
}

/// The range is one where the script writes, or reads, the channel.
#[verifier::opaque]
pub open spec fn use_range(
    script: ScriptView,
    channel: Seq<char>,
    writes: bool,
    enc: PositionEncoding,
    r: Range,
) -> bool {
    exists|n: usize| #[trigger]
        uses_at(script, n, channel, writes) && r == range_of(
            script.index,
            script.tree.start(n),
            script.tree.end(n),
            enc,
        )
}

spec fn listed_use(
    script: ScriptView,
    channel: Seq<char>,
    writes: bool,
    ps: Seq<(usize, bool)>,
    j: int,
) -> bool {
    ps[j].1 == writes && channel_of(script.scope, script.tree.text_of(ps[j].0)) == Some(channel)
}

spec fn listed_range(
    script: ScriptView,
    channel: Seq<char>,
    writes: bool,
    enc: PositionEncoding,
    ps: Seq<(usize, bool)>,
    j: int,
    r: Range,
) -> bool {
    listed_use(script, channel, writes, ps, j) && r == range_of(
        script.index,
        script.tree.start(ps[j].0),
        script.tree.end(ps[j].0),
        enc,
    )
}

proof fn lemma_uses(
    script: ScriptView,
    enc: PositionEncoding,
    writes: bool,
    ps: Seq<(usize, bool)>,
    k: int,
    channel: Seq<char>,
    r: Range,
)
    requires
        0 <= k <= ps.len(),
    ensures
        has_key(uses_upto(script, enc, writes, ps, k), channel) <==> exists|j: int|
            0 <= j < k && #[trigger] listed_use(script, channel, writes, ps, j),
        (match value_of(uses_upto(script, enc, writes, ps, k), channel) {
            Some(rs) => rs.contains(r),
            None => false,
        }) <==> exists|j: int|
            0 <= j < k && #[trigger] listed_range(script, channel, writes, enc, ps, j, r),
    decreases k,
{
    let all = uses_upto(script, enc, writes, ps, k);
    if k > 0 {
        lemma_uses(script, enc, writes, ps, k - 1, channel, r);
        lemma_uses_sorted(script, enc, writes, ps, k - 1);
        let rest = uses_upto(script, enc, writes, ps, k - 1);
        let n = ps[k - 1].0;
        let here = range_of(script.index, script.tree.start(n), script.tree.end(n), enc);
        if ps[k - 1].1 == writes && channel_of(script.scope, script.tree.text_of(n)) is Some {
            let c = channel_of(script.scope, script.tree.text_of(n)).unwrap();
            lemma_map_with(rest, c, here);
            if c == channel {
                assert(listed_use(script, channel, writes, ps, k - 1));
                if r == here {
                    assert(listed_range(script, channel, writes, enc, ps, k - 1, r));
                }
                match value_of(rest, channel) {
                    Some(l) => {
                        let now = l.push(here);
                        assert(now[l.len() as int] == here);
                        if l.contains(r) {
                            let m = choose|m: int| 0 <= m < l.len() && l[m] == r;
                            assert(now[m] == r);
                        }
                        if now.contains(r) && r != here {
                            let m = choose|m: int| 0 <= m < now.len() && now[m] == r;
                            assert(l[m] == r);
                        }
                    },
                    None => {
                        assert(seq![here][0] == here);
                    },
                }
            }
        }
        if exists|j: int| 0 <= j < k && #[trigger] listed_use(script, channel, writes, ps, j) {
            let j = choose|j: int| 0 <= j < k && #[trigger] listed_use(script, channel, writes, ps, j);
            if j < k - 1 {
                assert(listed_use(script, channel, writes, ps, j));
            }
        }
        if exists|j: int| 0 <= j < k && #[trigger] listed_range(script, channel, writes, enc, ps, j, r) {
            let j = choose|j: int|
                0 <= j < k && #[trigger] listed_range(script, channel, writes, enc, ps, j, r);
            if j < k - 1 {
                assert(listed_range(script, channel, writes, enc, ps, j, r));
            }
        }
        lemma_has_value(all, channel);
        lemma_has_value(rest, channel);
    }
}

proof fn lemma_has_value<V>(m: Seq<(Seq<char>, V)>, key: Seq<char>)
    ensures
        has_key(m, key) <==> value_of(m, key) is Some,
{
}

/// A script is said to write, or read, a channel exactly when one of its outermost paths
/// does, and to do so in exactly the ranges of those paths.
pub proof fn uses_are_exact(
    script: ScriptView,
    enc: PositionEncoding,
    writes: bool,
    channel: Seq<char>,
    r: Range,
)
    requires
        script.tree.size() <= usize::MAX,
    ensures
        has_key(uses_of(script, enc, writes), channel) <==> uses(script, channel, writes),
        (match value_of(uses_of(script, enc, writes), channel) {
            Some(rs) => rs.contains(r),
            None => false,
        }) <==> use_range(script, channel, writes, enc, r),
{
    reveal(uses);
    reveal(use_range);
    let t = script.tree;
    let ps = top_path_seq(t);
    let k = ps.len() as int;
    lemma_uses(script, enc, writes, ps, k, channel, r);
    if exists|j: int| 0 <= j < k && #[trigger] listed_use(script, channel, writes, ps, j) {
        let j = choose|j: int| 0 <= j < k && #[trigger] listed_use(script, channel, writes, ps, j);
        assert(ps.contains(ps[j]));
        paths_are_listed_exactly(t, t.size() as int, ps[j].0, ps[j].1);
        assert(uses_at(script, ps[j].0, channel, writes));
    }
    if exists|j: int| 0 <= j < k && #[trigger] listed_range(script, channel, writes, enc, ps, j, r) {
        let j = choose|j: int|
            0 <= j < k && #[trigger] listed_range(script, channel, writes, enc, ps, j, r);
        assert(ps.contains(ps[j]));
        paths_are_listed_exactly(t, t.size() as int, ps[j].0, ps[j].1);
        assert(uses_at(script, ps[j].0, channel, writes));
    }
    if uses(script, channel, writes) {
        let n = choose|n: usize| uses_at(script, n, channel, writes);
        paths_are_listed_exactly(t, t.size() as int, n, writes);
        let j = choose|j: int| 0 <= j < ps.len() && ps[j] == (n, writes);
        assert(listed_use(script, channel, writes, ps, j));
    }
    if use_range(script, channel, writes, enc, r) {
        let n = choose|n: usize| #[trigger]
            uses_at(script, n, channel, writes) && r == range_of(
                script.index,
                t.start(n),
                t.end(n),
                enc,
            );
        paths_are_listed_exactly(t, t.size() as int, n, writes);
        let j = choose|j: int| 0 <= j < ps.len() && ps[j] == (n, writes);
        assert(listed_range(script, channel, writes, enc, ps, j, r));
    }
}

proof fn lemma_nodes(project: ProjectView, scripts: Seq<ScriptView>, enc: PositionEncoding, k: int, j: int)
    requires
        0 <= j < k <= scripts.len(),
    ensures
        nodes_upto(project, scripts, enc, k).len() == k,
        nodes_upto(project, scripts, enc, k)[j] == node_of(project, scripts[j], enc),
    decreases k,
{
    graph_nodes_sorted(project, scripts, enc, k);
    if j < k - 1 {
        lemma_nodes(project, scripts, enc, k - 1, j);
    } else {
        graph_nodes_sorted(project, scripts, enc, k - 1);
    }
}

// ---------------------------------------------------------------------------
// Entries
// ---------------------------------------------------------------------------

/// The entry of a script: by the name of its file, at its start. Its detail is the path of its
/// symbol, or its group, or the name of its file, and how often it runs.
pub proof fn scripts_have_entries(project: ProjectView, script: ScriptView, enc: PositionEncoding)
    ensures
        ({
            let e = script_entry(node_of(project, script, enc));
            let zero = Position { line: 0, character: 0 };
            let sym = script_symbol_at(project.symbols, script.file_name, 0);
            &&& e.name == script.file_name && e.uri == script.uri && e.kind == ItemKind::Script
            &&& e.range == (Range { start: zero, end: zero }) && e.selection_range == e.range
            &&& e.tag == Some(TagView::Script(script.file_name))
            &&& match sym {
                Some(s) => begins(e.detail, s.path) && match s.call_rate {
                    Some(rate) => e.detail == s.path + " @ "@ + rate.plain + " Hz"@,
                    None => e.detail == s.path,
                },
                None => match script.scope.group {
                    Some(g) => e.detail == g,
                    None => begins(script.file_name, e.detail),
                },
            }
        }),
{
    let e = script_entry(node_of(project, script, enc));
    if let Some(s) = script_symbol_at(project.symbols, script.file_name, 0) {
        assert(e.detail.subrange(0, s.path.len() as int) =~= s.path);
    } else if script.scope.group is None {
        lemma_stem(script.file_name);
    }
}

proof fn lemma_stem(name: Seq<char>)
    ensures
        begins(name, stem_of(name)),
        !ends(stem_of(name), ".m1scr"@),
    decreases name.len(),
{
    reveal_strlit(".m1scr");
    if let Some(rest) = before_suffix(name, ".m1scr"@) {
        lemma_stem(rest);
        let st = stem_of(rest);
        assert(rest.subrange(0, st.len() as int) =~= name.subrange(0, st.len() as int));
    } else {
        assert(name.subrange(0, name.len() as int) =~= name);
    }
}

/// The symbol of a file is the first function or method whose file has that name: the file
/// that the project says, or the path without its root and with the extension.
pub proof fn scripts_belong_to_their_symbols(s: Seq<SymbolView>, file: Seq<char>, i: int)
    requires
        0 <= i <= s.len(),
    ensures
        match script_symbol_at(s, file, i) {
            Some(sym) => (sym.kind == SymbolKind::Function || sym.kind == SymbolKind::Method) && (
            sym.filename == Some(file) || (sym.filename is None && (file == sym.path + ".m1scr"@
                || "Root."@ + file == sym.path + ".m1scr"@))) && exists|k: int|
                i <= k < s.len() && #[trigger] s[k] == sym,
            None => forall|k: int|
                i <= k < s.len() && (s[k].kind == SymbolKind::Function || s[k].kind
                    == SymbolKind::Method) ==> (#[trigger] s[k]).filename != Some(file),
        },
    decreases s.len() - i,
{
    if i < s.len() {
        let root = "Root."@;
        let sym = s[i];
        if begins(sym.path, root) {
            assert(sym.path =~= root + sym.path.skip(root.len() as int));
            let rest = sym.path.skip(root.len() as int);
            assert(root + (rest + ".m1scr"@) =~= sym.path + ".m1scr"@);
        }
        if !(is_callable(s[i].kind) && backing_name(s[i]) == file) {
            scripts_belong_to_their_symbols(s, file, i + 1);
        } else {
            assert(s[i] == sym);
        }
    }
}

/// The entry of a channel: by its path, where it is defined.
pub proof fn channels_have_entries(loaded: LoadedProjectView, path: Seq<char>)
    ensures
        match channel_entry(loaded, path) {
            Some(e) => ({
                let sym = loaded.project.get(path).unwrap();
                let loc = definition_of(loaded, sym).unwrap();
                &&& e.name == path && e.kind == ItemKind::Channel && e.uri == loc.uri
                &&& e.range == loc.range && e.selection_range == loc.range
                &&& e.tag == Some(TagView::Channel(path))
                &&& match sym.unit {
                    Some(u) => e.detail == "channel · "@ + u,
                    None => e.detail == "channel"@,
                }
            }),
            None => loaded.project.get(path) is None || definition_of(
                loaded,
                loaded.project.get(path).unwrap(),
            ) is None,
        },
{
}

// ---------------------------------------------------------------------------
// Incoming calls
// ---------------------------------------------------------------------------

/// Script `j` depends on script `i`: it is another file, and reads some channel that the other
/// writes.
#[verifier::opaque]
pub open spec fn depends(scripts: Seq<ScriptView>, j: int, i: int) -> bool {
    &&& scripts[j].file_name != scripts[i].file_name
    &&& exists|channel: Seq<char>| #[trigger]
        uses(scripts[i], channel, true) && uses(scripts[j], channel, false)
}

/// The call comes from script `j`, from all places where it reads a channel that script `i`
/// writes, and from no other.
#[verifier::opaque]
pub open spec fn calls_from(
    project: ProjectView,
    scripts: Seq<ScriptView>,
    enc: PositionEncoding,
    call: IncomingCallView,
    j: int,
    i: int,
) -> bool {
    &&& call.from == script_entry(node_of(project, scripts[j], enc))
    &&& forall|r: Range| #[trigger]
        call.from_ranges.contains(r) <==> exists|channel: Seq<char>| #[trigger]
            uses(scripts[i], channel, true) && use_range(scripts[j], channel, false, enc, r)
}

/// One of the calls comes from script `j`, which depends on script `i`.
pub open spec fn has_call_from(
    project: ProjectView,
    scripts: Seq<ScriptView>,
    enc: PositionEncoding,
    calls: Seq<IncomingCallView>,
    j: int,
    i: int,
) -> bool {
    exists|c: int|
        0 <= c < calls.len() && #[trigger] calls_from(project, scripts, enc, calls[c], j, i)
}

/// The call comes from one of the first `k` scripts, and that script depends on script `i`.
pub open spec fn is_call_from_dependent(
    project: ProjectView,
    scripts: Seq<ScriptView>,
    enc: PositionEncoding,
    call: IncomingCallView,
    i: int,
    k: int,
) -> bool {
    exists|j: int|
        0 <= j < k && depends(scripts, j, i) && #[trigger] calls_from(
            project,
            scripts,
            enc,
            call,
            j,
            i,
        )
}

/// The calls come from exactly those of the first `k` scripts that depend on script `i`.
#[verifier::opaque]
pub open spec fn callers_are(
    project: ProjectView,
    scripts: Seq<ScriptView>,
    enc: PositionEncoding,
    calls: Seq<IncomingCallView>,
    i: int,
    k: int,
) -> bool {
    &&& forall|j: int|
        0 <= j < k && #[trigger] depends(scripts, j, i) ==> has_call_from(
            project,
            scripts,
            enc,
            calls,
            j,
            i,
        )
    &&& forall|c: int|
        0 <= c < calls.len() ==> is_call_from_dependent(
            project,
            scripts,
            enc,
            #[trigger] calls[c],
            i,
            k,
        )
}

proof fn lemma_reads(
    scripts: Seq<ScriptView>,
    enc: PositionEncoding,
    node: ScriptNodeView,
    j: int,
    cs: Seq<(Seq<char>, Seq<Range>)>,
    k: int,
    r: Range,
)
    requires
        0 <= j < scripts.len(),
        scripts[j].tree.size() <= usize::MAX,
        node.reads == uses_of(scripts[j], enc, false),
        0 <= k <= cs.len(),
    ensures
        reads_upto(node, cs, k).contains(r) <==> exists|m: int|
            0 <= m < k && use_range(scripts[j], (#[trigger] cs[m]).0, false, enc, r),
    decreases k,
{
    let all = reads_upto(node, cs, k);
    if k > 0 {
        lemma_reads(scripts, enc, node, j, cs, k - 1, r);
        uses_are_exact(scripts[j], enc, false, cs[k - 1].0, r);
        let rest = reads_upto(node, cs, k - 1);
        let here = match value_of(node.reads, cs[k - 1].0) {
            Some(rs) => rs,
            None => Seq::empty(),
        };
        assert(all == rest + here);
        if rest.contains(r) {
            let m = choose|m: int| 0 <= m < rest.len() && rest[m] == r;
            assert(all[m] == r);
            let q = choose|q: int| 0 <= q < k - 1 && use_range(scripts[j], (#[trigger] cs[q]).0, false, enc, r);
            assert(use_range(scripts[j], cs[q].0, false, enc, r));
        }
        if here.contains(r) {
            let m = choose|m: int| 0 <= m < here.len() && here[m] == r;
            assert(all[rest.len() + m] == r);
            assert(use_range(scripts[j], cs[k - 1].0, false, enc, r));
        }
        if all.contains(r) {
            let m = choose|m: int| 0 <= m < all.len() && all[m] == r;
            if m < rest.len() {
                assert(rest[m] == r);
            } else {
                assert(here[m - rest.len()] == r);
            }
        }
    } else {
        assert(all =~= Seq::empty());
    }
}

proof fn lemma_caller(
    project: ProjectView,
    scripts: Seq<ScriptView>,
    enc: PositionEncoding,
    i: int,
    j: int,
    call: IncomingCallView,
)
    requires
        0 <= i < scripts.len(),
        0 <= j < scripts.len(),
        scripts[i].tree.size() <= usize::MAX,
        scripts[j].tree.size() <= usize::MAX,
        ({
            let node = node_of(project, scripts[j], enc);
            let cs = uses_of(scripts[i], enc, true);
            call == IncomingCallView {
                from: script_entry(node),
                from_ranges: reads_upto(node, cs, cs.len() as int),
            }
        }),
    ensures
        ({
            let node = node_of(project, scripts[j], enc);
            let cs = uses_of(scripts[i], enc, true);
            depends(scripts, j, i) <==> node.file_name != scripts[i].file_name && reads_any(
                node,
                cs,
                cs.len() as int,
            )
        }),
        calls_from(project, scripts, enc, call, j, i),
{
    reveal(depends);
    reveal(calls_from);
    let node = node_of(project, scripts[j], enc);
    let cs = uses_of(scripts[i], enc, true);
    assert forall|channel: Seq<char>| #[trigger] uses(scripts[i], channel, true) <==> exists|m: int|
        0 <= m < cs.len() && (#[trigger] cs[m]).0 == channel by {
        uses_are_exact(scripts[i], enc, true, channel, arbitrary());
        lemma_key_index(cs, channel, 0);
    }
    if reads_any(node, cs, cs.len() as int) {
        let m = choose|m: int| 0 <= m < cs.len() && has_key(node.reads, (#[trigger] cs[m]).0);
        uses_are_exact(scripts[j], enc, false, cs[m].0, arbitrary());
        assert(uses(scripts[i], cs[m].0, true));
    }
    if depends(scripts, j, i) {
        let channel = choose|channel: Seq<char>| #[trigger]
            uses(scripts[i], channel, true) && uses(scripts[j], channel, false);
        let m = choose|m: int| 0 <= m < cs.len() && (#[trigger] cs[m]).0 == channel;
        uses_are_exact(scripts[j], enc, false, channel, arbitrary());
        assert(has_key(node.reads, cs[m].0));
    }
    assert forall|r: Range| #[trigger] call.from_ranges.contains(r) <==> exists|
        channel: Seq<char>,
    | #[trigger]
        uses(scripts[i], channel, true) && use_range(scripts[j], channel, false, enc, r) by {
        lemma_reads(scripts, enc, node, j, cs, cs.len() as int, r);
        if exists|m: int|
            0 <= m < cs.len() && use_range(scripts[j], (#[trigger] cs[m]).0, false, enc, r) {
            let m = choose|m: int|
                0 <= m < cs.len() && use_range(scripts[j], (#[trigger] cs[m]).0, false, enc, r);
            assert(uses(scripts[i], cs[m].0, true));
        }
        if exists|channel: Seq<char>| #[trigger]
            uses(scripts[i], channel, true) && use_range(scripts[j], channel, false, enc, r) {
            let channel = choose|channel: Seq<char>| #[trigger]
                uses(scripts[i], channel, true) && use_range(scripts[j], channel, false, enc, r);
            let m = choose|m: int| 0 <= m < cs.len() && (#[trigger] cs[m]).0 == channel;
            assert(use_range(scripts[j], cs[m].0, false, enc, r));
        }
    }
}

proof fn lemma_callers_step(
    project: ProjectView,
    scripts: Seq<ScriptView>,
    enc: PositionEncoding,
    rest: Seq<IncomingCallView>,
    i: int,
    k: int,
    call: IncomingCallView,
)
    requires
        k > 0,
        callers_are(project, scripts, enc, rest, i, k - 1),
        calls_from(project, scripts, enc, call, k - 1, i),
    ensures
        depends(scripts, k - 1, i) ==> callers_are(project, scripts, enc, rest.push(call), i, k),
        !depends(scripts, k - 1, i) ==> callers_are(project, scripts, enc, rest, i, k),
{
    reveal(callers_are);
    let all = rest.push(call);
    if depends(scripts, k - 1, i) {
        assert forall|q: int| 0 <= q < k && #[trigger] depends(scripts, q, i) implies has_call_from(
            project,
            scripts,
            enc,
            all,
            q,
            i,
        ) by {
            if q < k - 1 {
                assert(has_call_from(project, scripts, enc, rest, q, i));
                let c = choose|c: int|
                    0 <= c < rest.len() && #[trigger] calls_from(project, scripts, enc, rest[c], q, i);
                assert(all[c] == rest[c]);
                assert(calls_from(project, scripts, enc, all[c], q, i));
            } else {
                assert(all[rest.len() as int] == call);
                assert(calls_from(project, scripts, enc, all[rest.len() as int], q, i));
            }
        }
        assert forall|c: int| 0 <= c < all.len() implies is_call_from_dependent(
            project,
            scripts,
            enc,
            #[trigger] all[c],
            i,
            k,
        ) by {
            if c < rest.len() {
                assert(all[c] == rest[c]);
                lemma_later(project, scripts, enc, rest[c], i, k - 1);
            } else {
                assert(calls_from(project, scripts, enc, all[c], k - 1, i));
            }
        }
    } else {
        assert forall|q: int| 0 <= q < k && #[trigger] depends(scripts, q, i) implies has_call_from(
            project,
            scripts,
            enc,
            rest,
            q,
            i,
        ) by {
            assert(q < k - 1);
        }
        assert forall|c: int| 0 <= c < rest.len() implies is_call_from_dependent(
            project,
            scripts,
            enc,
            #[trigger] rest[c],
            i,
            k,
        ) by {
            lemma_later(project, scripts, enc, rest[c], i, k - 1);
        }
    }
}

proof fn lemma_later(
    project: ProjectView,
    scripts: Seq<ScriptView>,
    enc: PositionEncoding,
    call: IncomingCallView,
    i: int,
    k: int,
)
    requires
        is_call_from_dependent(project, scripts, enc, call, i, k),
    ensures
        is_call_from_dependent(project, scripts, enc, call, i, k + 1),
{
    let q = choose|q: int|
        0 <= q < k && depends(scripts, q, i) && #[trigger] calls_from(
            project,
            scripts,
            enc,
            call,
            q,
            i,
        );
    assert(calls_from(project, scripts, enc, call, q, i));
}

proof fn lemma_callers(
    project: ProjectView,
    scripts: Seq<ScriptView>,
    enc: PositionEncoding,
    i: int,
    k: int,
)
    requires
        0 <= i < scripts.len(),
        0 <= k <= scripts.len(),
        forall|q: int| 0 <= q < scripts.len() ==> (#[trigger] scripts[q]).tree.size() <= usize::MAX,
    ensures
        ({
            let nodes = nodes_upto(project, scripts, enc, scripts.len() as int);
            callers_are(
                project,
                scripts,
                enc,
                callers_upto(nodes, scripts[i].file_name, nodes[i].writes, k),
                i,
                k,
            )
        }),
    decreases k,
{
    let n = scripts.len() as int;
    let nodes = nodes_upto(project, scripts, enc, n);
    lemma_nodes(project, scripts, enc, n, i);
    let cs = nodes[i].writes;
    let file = scripts[i].file_name;
    if k > 0 {
        lemma_callers(project, scripts, enc, i, k - 1);
        lemma_nodes(project, scripts, enc, n, k - 1);
        let node = nodes[k - 1];
        let rest = callers_upto(nodes, file, cs, k - 1);
        let call = IncomingCallView {
            from: script_entry(node),
            from_ranges: reads_upto(node, cs, cs.len() as int),
        };
        lemma_caller(project, scripts, enc, i, k - 1, call);
        lemma_callers_step(project, scripts, enc, rest, i, k, call);
    } else {
        assert(callers_are(project, scripts, enc, callers_upto(nodes, file, cs, k), i, k)) by {
            reveal(callers_are);
        }
    }
}

proof fn lemma_by_file(nodes: Seq<ScriptNodeView>, file: Seq<char>, i: int)
    requires
        0 <= i <= nodes.len(),
    ensures
        match CallGraph::by_file(nodes, file, i) {
            Some(k) => i <= k < nodes.len() && nodes[k].file_name == file && forall|m: int|
                i <= m < k ==> (#[trigger] nodes[m]).file_name != file,
            None => forall|m: int| i <= m < nodes.len() ==> (#[trigger] nodes[m]).file_name != file,
        },
    decreases nodes.len() - i,
{
    if i < nodes.len() && nodes[i].file_name != file {
        lemma_by_file(nodes, file, i + 1);
    }
}

/// The incoming calls of a script come from exactly the other scripts that read some channel
/// which it writes, each from all of its reads of such channels. A file that is no script of
/// the project has none.
pub proof fn scripts_are_called_by_their_readers(
    project: ProjectView,
    scripts: Seq<ScriptView>,
    enc: PositionEncoding,
    i: int,
)
    requires
        0 <= i < scripts.len(),
        forall|m: int| 0 <= m < i ==> (#[trigger] scripts[m]).file_name != scripts[i].file_name,
        forall|q: int| 0 <= q < scripts.len() ==> (#[trigger] scripts[q]).tree.size() <= usize::MAX,
    ensures
        ({
            let nodes = nodes_upto(project, scripts, enc, scripts.len() as int);
            match incoming_of(nodes, Some(TagView::Script(scripts[i].file_name))) {
                Some(calls) => callers_are(project, scripts, enc, calls, i, scripts.len() as int),
                None => false,
            }
        }),
{
    let n = scripts.len() as int;
    let nodes = nodes_upto(project, scripts, enc, n);
    lemma_nodes(project, scripts, enc, n, i);
    lemma_by_file(nodes, scripts[i].file_name, 0);
    let k = CallGraph::by_file(nodes, scripts[i].file_name, 0).unwrap();
    lemma_nodes(project, scripts, enc, n, k);
    if k < i {
        assert(scripts[k].file_name != scripts[i].file_name);
    }
    lemma_callers(project, scripts, enc, i, n);
}

/// The users of a channel, as the graph lists them, are the scripts that use it.
pub proof fn channel_users_are_scripts(
    project: ProjectView,
    scripts: Seq<ScriptView>,
    enc: PositionEncoding,
    writes: bool,
    channel: Seq<char>,
    j: usize,
)
    requires
        j < scripts.len() <= usize::MAX,
        scripts[j as int].tree.size() <= usize::MAX,
    ensures
        ({
            let nodes = nodes_upto(project, scripts, enc, scripts.len() as int);
            users_upto(nodes, writes, channel, scripts.len() as int).contains(j) <==> uses(
                scripts[j as int],
                channel,
                writes,
            )
        }),
{
    let n = scripts.len() as int;
    let nodes = nodes_upto(project, scripts, enc, n);
    lemma_nodes(project, scripts, enc, n, j as int);
    users_are_those_that_use(nodes, writes, channel, n, j);
    uses_are_exact(scripts[j as int], enc, writes, channel, arbitrary());
}

proof fn lemma_readers(nodes: Seq<ScriptNodeView>, users: Seq<usize>, channel: Seq<char>, k: int, c: int)
    requires
        0 <= c < k <= users.len(),
    ensures
        readers_upto(nodes, users, channel, k).len() == k,
        readers_upto(nodes, users, channel, k)[c].from == script_entry(nodes[users[c] as int]),
        readers_upto(nodes, users, channel, k)[c].from_ranges == (match value_of(
            nodes[users[c] as int].reads,
            channel,
        ) {
            Some(rs) => rs,
            None => Seq::empty(),
        }),
    decreases k,
{
    if c < k - 1 {
        lemma_readers(nodes, users, channel, k - 1, c);
    } else if k > 1 {
        lemma_readers(nodes, users, channel, k - 1, 0);
    } else {
        assert(readers_upto(nodes, users, channel, 0) =~= Seq::empty());
    }
}

/// The call comes from script `j`, from all places where it reads the channel.
#[verifier::opaque]
pub open spec fn reads_from(
    project: ProjectView,
    scripts: Seq<ScriptView>,
    enc: PositionEncoding,
    call: IncomingCallView,
    j: int,
    channel: Seq<char>,
) -> bool {
    &&& call.from == script_entry(node_of(project, scripts[j], enc))
    &&& forall|r: Range| #[trigger]
        call.from_ranges.contains(r) <==> use_range(scripts[j], channel, false, enc, r)
}

/// One of the calls comes from script `j`, which reads the channel.
pub open spec fn has_read_from(
    project: ProjectView,
    scripts: Seq<ScriptView>,
    enc: PositionEncoding,
    calls: Seq<IncomingCallView>,
    j: int,
    channel: Seq<char>,
) -> bool {
    exists|c: int|
        0 <= c < calls.len() && #[trigger] reads_from(project, scripts, enc, calls[c], j, channel)
}

/// The incoming calls of a channel come from exactly the scripts that read it, each from its
/// reads of it. A channel that nothing reads has none.
pub proof fn channels_are_called_by_their_readers(
    project: ProjectView,
    scripts: Seq<ScriptView>,
    enc: PositionEncoding,
    channel: Seq<char>,
    j: int,
)
    requires
        0 <= j < scripts.len() <= usize::MAX,
        scripts[j].tree.size() <= usize::MAX,
    ensures
        ({
            let nodes = nodes_upto(project, scripts, enc, scripts.len() as int);
            match incoming_of(nodes, Some(TagView::Channel(channel))) {
                Some(calls) => uses(scripts[j], channel, false) ==> has_read_from(
                    project,
                    scripts,
                    enc,
                    calls,
                    j,
                    channel,
                ),
                None => !uses(scripts[j], channel, false),
            }
        }),
{
    reveal(reads_from);
    let n = scripts.len() as int;
    let nodes = nodes_upto(project, scripts, enc, n);
    lemma_nodes(project, scripts, enc, n, j);
    channel_users_are_scripts(project, scripts, enc, false, channel, j as usize);
    let users = users_upto(nodes, false, channel, n);
    assert(users_of(nodes, false, channel) == some_if_any(users));
    assert(users.contains(j as usize) <==> uses(scripts[j], channel, false));
    if uses(scripts[j], channel, false) {
        let c = choose|c: int| 0 <= c < users.len() && users[c] == j as usize;
        lemma_readers(nodes, users, channel, users.len() as int, c);
        let calls = readers_upto(nodes, users, channel, users.len() as int);
        assert forall|r: Range| #[trigger] calls[c].from_ranges.contains(r) <==> use_range(
            scripts[j],
            channel,
            false,
            enc,
            r,
        ) by {
            uses_are_exact(scripts[j], enc, false, channel, r);
        }
        assert(reads_from(project, scripts, enc, calls[c], j, channel));
        assert(incoming_of(nodes, Some(TagView::Channel(channel))) == Some(calls));
        assert(has_read_from(project, scripts, enc, calls, j, channel));
    }
}

// ---------------------------------------------------------------------------
// Outgoing calls
// ---------------------------------------------------------------------------

proof fn lemma_written_calls(
    loaded: LoadedProjectView,
    cs: Seq<(Seq<char>, Seq<Range>)>,
    k: int,
    m: int,
)
    requires
        0 <= m < k <= cs.len(),
        channel_entry(loaded, cs[m].0) is Some,
    ensures
        exists|c: int|
            0 <= c < written_calls_upto(loaded, cs, k).len() && (#[trigger] written_calls_upto(
                loaded,
                cs,
                k,
            )[c]).to == channel_entry(loaded, cs[m].0).unwrap() && written_calls_upto(
                loaded,
                cs,
                k,
            )[c].from_ranges == cs[m].1,
    decreases k,
{
    let all = written_calls_upto(loaded, cs, k);
    let rest = written_calls_upto(loaded, cs, k - 1);
    if m == k - 1 {
        assert(all[rest.len() as int].to == channel_entry(loaded, cs[m].0).unwrap());
    } else {
        lemma_written_calls(loaded, cs, k - 1, m);
        let c = choose|c: int|
            0 <= c < rest.len() && (#[trigger] rest[c]).to == channel_entry(loaded, cs[m].0).unwrap()
                && rest[c].from_ranges == cs[m].1;
        assert(all[c] == rest[c]);
    }
}

proof fn lemma_only_written(loaded: LoadedProjectView, cs: Seq<(Seq<char>, Seq<Range>)>, k: int, c: int)
    requires
        0 <= k <= cs.len(),
        0 <= c < written_calls_upto(loaded, cs, k).len(),
    ensures
        exists|m: int|
            0 <= m < k && channel_entry(loaded, (#[trigger] cs[m]).0) == Some(
                written_calls_upto(loaded, cs, k)[c].to,
            ),
    decreases k,
{
    if k > 0 {
        let rest = written_calls_upto(loaded, cs, k - 1);
        if c < rest.len() {
            lemma_only_written(loaded, cs, k - 1, c);
            let m = choose|m: int|
                0 <= m < k - 1 && channel_entry(loaded, (#[trigger] cs[m]).0) == Some(rest[c].to);
            assert(channel_entry(loaded, cs[m].0) == Some(written_calls_upto(loaded, cs, k)[c].to));
        } else {
            assert(channel_entry(loaded, cs[k - 1].0) == Some(written_calls_upto(loaded, cs, k)[c].to));
        }
    } else {
        assert(written_calls_upto(loaded, cs, k) =~= Seq::empty());
    }
}

/// The outgoing calls of a script go to the channels that it writes, from all of its writes:
/// to every one that is defined somewhere, and to no other.
pub proof fn scripts_call_what_they_write(
    loaded: LoadedProjectView,
    scripts: Seq<ScriptView>,
    enc: PositionEncoding,
    i: int,
    item: CallHierarchyItemView,
    channel: Seq<char>,
)
    requires
        0 <= i < scripts.len(),
        forall|m: int| 0 <= m < i ==> (#[trigger] scripts[m]).file_name != scripts[i].file_name,
        scripts[i].tree.size() <= usize::MAX,
        item.tag == Some(TagView::Script(scripts[i].file_name)),
    ensures
        ({
            let nodes = nodes_upto(loaded.project, scripts, enc, scripts.len() as int);
            match outgoing_of(loaded, nodes, item) {
                Some(calls) => {
                    &&& uses(scripts[i], channel, true) && channel_entry(loaded, channel) is Some
                        ==> exists|c: int|
                        0 <= c < calls.len() && (#[trigger] calls[c]).to == channel_entry(
                            loaded,
                            channel,
                        ).unwrap() && forall|r: Range| #[trigger]
                            calls[c].from_ranges.contains(r) <==> use_range(
                                scripts[i],
                                channel,
                                true,
                                enc,
                                r,
                            )
                    &&& forall|c: int|
                        0 <= c < calls.len() ==> uses(scripts[i], (#[trigger] calls[c]).to.name, true)
                },
                None => false,
            }
        }),
{
    let n = scripts.len() as int;
    let nodes = nodes_upto(loaded.project, scripts, enc, n);
    lemma_nodes(loaded.project, scripts, enc, n, i);
    lemma_by_file(nodes, scripts[i].file_name, 0);
    let k = CallGraph::by_file(nodes, scripts[i].file_name, 0).unwrap();
    lemma_nodes(loaded.project, scripts, enc, n, k);
    if k < i {
        assert(scripts[k].file_name != scripts[i].file_name);
    }
    let cs = nodes[i].writes;
    let calls = written_calls_upto(loaded, cs, cs.len() as int);
    uses_are_exact(scripts[i], enc, true, channel, arbitrary());
    if uses(scripts[i], channel, true) && channel_entry(loaded, channel) is Some {
        lemma_key_index(cs, channel, 0);
        let m = key_index(cs, channel, 0).unwrap();
        lemma_written_calls(loaded, cs, cs.len() as int, m);
        let c = choose|c: int|
            0 <= c < calls.len() && (#[trigger] calls[c]).to == channel_entry(loaded, cs[m].0).unwrap()
                && calls[c].from_ranges == cs[m].1;
        assert forall|r: Range| #[trigger] calls[c].from_ranges.contains(r) <==> use_range(
            scripts[i],
            channel,
            true,
            enc,
            r,
        ) by {
            uses_are_exact(scripts[i], enc, true, channel, r);
        }
        assert(calls[c].to == channel_entry(loaded, channel).unwrap());
    }
    assert forall|c: int| 0 <= c < calls.len() implies uses(
        scripts[i],
        (#[trigger] calls[c]).to.name,
        true,
    ) by {
        lemma_only_written(loaded, cs, cs.len() as int, c);
        let m = choose|m: int|
            0 <= m < cs.len() && channel_entry(loaded, (#[trigger] cs[m]).0) == Some(calls[c].to);
        uses_are_exact(scripts[i], enc, true, cs[m].0, arbitrary());
        lemma_key_index(cs, cs[m].0, 0);
    }
}

/// One of the calls goes to the entry, from the ranges.
pub open spec fn has_call_to(
    calls: Seq<OutgoingCallView>,
    to: CallHierarchyItemView,
    ranges: Seq<Range>,
) -> bool {
    exists|c: int| 0 <= c < calls.len() && (#[trigger] calls[c]).to == to && calls[c].from_ranges == ranges
}

proof fn lemma_writers(nodes: Seq<ScriptNodeView>, users: Seq<usize>, at: Range, k: int, c: int)
    requires
        0 <= c < k <= users.len(),
    ensures
        writers_upto(nodes, users, at, k).len() == k,
        writers_upto(nodes, users, at, k)[c].to == script_entry(nodes[users[c] as int]),
        writers_upto(nodes, users, at, k)[c].from_ranges == seq![at],
    decreases k,
{
    if c < k - 1 {
        lemma_writers(nodes, users, at, k - 1, c);
    } else if k > 1 {
        lemma_writers(nodes, users, at, k - 1, 0);
    } else {
        assert(writers_upto(nodes, users, at, 0) =~= Seq::empty());
    }
}

/// The outgoing calls of a channel go to exactly the scripts that write it.
pub proof fn channels_call_their_writers(
    loaded: LoadedProjectView,
    scripts: Seq<ScriptView>,
    enc: PositionEncoding,
    item: CallHierarchyItemView,
    channel: Seq<char>,
    j: int,
)
    requires
        0 <= j < scripts.len() <= usize::MAX,
        scripts[j].tree.size() <= usize::MAX,
        item.tag == Some(TagView::Channel(channel)),
    ensures
        ({
            let nodes = nodes_upto(loaded.project, scripts, enc, scripts.len() as int);
            match outgoing_of(loaded, nodes, item) {
                Some(calls) => uses(scripts[j], channel, true) ==> has_call_to(
                    calls,
                    script_entry(node_of(loaded.project, scripts[j], enc)),
                    seq![item.selection_range],
                ),
                None => !uses(scripts[j], channel, true),
            }
        }),
{
    let n = scripts.len() as int;
    let nodes = nodes_upto(loaded.project, scripts, enc, n);
    lemma_nodes(loaded.project, scripts, enc, n, j);
    channel_users_are_scripts(loaded.project, scripts, enc, true, channel, j as usize);
    let users = users_upto(nodes, true, channel, n);
    assert(users_of(nodes, true, channel) == some_if_any(users));
    assert(users.contains(j as usize) <==> uses(scripts[j], channel, true));
    if uses(scripts[j], channel, true) {
        let c = choose|c: int| 0 <= c < users.len() && users[c] == j as usize;
        lemma_writers(nodes, users, item.selection_range, users.len() as int, c);
        let calls = writers_upto(nodes, users, item.selection_range, users.len() as int);
        assert(calls[c].to == script_entry(node_of(loaded.project, scripts[j], enc)));
        assert(outgoing_of(loaded, nodes, item) == Some(calls));
        assert(has_call_to(
            calls,
            script_entry(node_of(loaded.project, scripts[j], enc)),
            seq![item.selection_range],
        ));
    }
}

/// The cursor on a channel gives the entry of the channel; on a call of a function or method
/// the entry of the first script in its file; on anything else none.
pub proof fn cursors_give_entries(
    loaded: LoadedProjectView,
    t: Tree,
    scope: ScopeView,
    b: int,
    nodes: Seq<ScriptNodeView>,
    n: usize,
    sym: SymbolView,
)
    requires
        path_node(t, b) == Some(n),
    ensures
        scope.resolve(t.text_of(n)) == ResolutionView::Symbol(sym) && sym.kind == SymbolKind::Channel
            ==> entry_at(loaded, t, scope, b, nodes) == channel_entry(loaded, sym.path),
        scope.resolve(t.text_of(n)) == ResolutionView::Symbol(sym) && (sym.kind
            == SymbolKind::Function || sym.kind == SymbolKind::Method) ==> match entry_at(
            loaded,
            t,
            scope,
            b,
            nodes,
        ) {
            Some(e) => e.tag == Some(TagView::Script(backing_name(sym))),
            None => forall|m: int|
                0 <= m < nodes.len() ==> (#[trigger] nodes[m]).file_name != backing_name(sym),
        },
        scope.resolve(t.text_of(n)) == ResolutionView::Symbol(sym) && sym.kind != SymbolKind::Channel
            && sym.kind != SymbolKind::Function && sym.kind != SymbolKind::Method ==> entry_at(
            loaded,
            t,
            scope,
            b,
            nodes,
        ) is None,
        !(scope.resolve(t.text_of(n)) is Symbol) ==> entry_at(loaded, t, scope, b, nodes) is None,
{
    lemma_by_file(nodes, backing_name(sym), 0);
}

} // verus!
