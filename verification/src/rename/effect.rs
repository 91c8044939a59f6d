//! What a rename leaves behind.
use crate::attributes::{values_from, values_of};
use crate::call_hierarchy::is_callable;
use crate::edits::TextEditView;
use crate::line_index::PositionEncoding;
use crate::model::{
    key_index, lemma_key_index, LoadedProjectView, ProjectView, ScopeView, SymbolView, value_of,
};
use crate::references::{local_at, locations_of, occurrences_of, ScriptView};
use crate::rename::apply::{
    edited, edits_for, one_edit_replaces_its_range, replaced_upto, separate_edits_all_land,
    span_edit, span_edits, spans_in_order,
};
use crate::rename::changes::{leaf_rename, merged, script_path_at, with_references};
use crate::rename::group::{
    group_rename, group_renamed, group_segment, group_segments, head_len, in_group,
    lemma_head_len, lemma_in_group_prefix, lemma_with_leaf, moves_upto, name_edits,
    name_edits_upto, script_move,
};
use crate::rename::local::{local_edits, renamed};
use crate::rename::names::{is_structural, is_symbol_name};
use crate::rename::resolve::{
    declaration_edit, is_user_script, reference_edits, target_segment, target_segments, with_leaf,
};
use crate::search::{begins, first_index, first_match, lemma_first_index, lemma_first_match};
use crate::syntax::Tree;
use crate::text::{byte_len, char_at, lemma_byte_len_bounds};
use vstd::prelude::*;
use vstd::string::*;

verus! {

// ---------------------------------------------------------------------------
// References
// ---------------------------------------------------------------------------

/// In a script, the segments that get the new name of a symbol are those that name it: each
/// reference that resolves to the symbol, in whatever spelling, and no other.
pub proof fn references_are_renamed_exactly(
    t: Tree,
    target: Seq<char>,
    scope: ScopeView,
    project: ProjectView,
    ps: Seq<(usize, bool)>,
    k: int,
    n: usize,
)
    requires
        0 <= k <= ps.len(),
    ensures
        target_segments(t, target, scope, project, ps, k).contains(n) <==> exists|j: int|
            0 <= j < k && target_segment(t, (#[trigger] ps[j]).0, target, scope, project) == Some(n),
    decreases k,
{
    let all = target_segments(t, target, scope, project, ps, k);
    if k > 0 {
        references_are_renamed_exactly(t, target, scope, project, ps, k - 1, n);
        let rest = target_segments(t, target, scope, project, ps, k - 1);
        lemma_pushed(rest, target_segment(t, ps[k - 1].0, target, scope, project), all, n);
    } else {
        assert(all =~= Seq::empty());
    }
}

/// In a script, the segments that get the new name of a group are those that spell it in a
/// reference to it or to something below it, and no other.
pub proof fn group_references_are_renamed_exactly(
    t: Tree,
    group: Seq<char>,
    scope: ScopeView,
    project: ProjectView,
    ps: Seq<(usize, bool)>,
    k: int,
    n: usize,
)
    requires
        0 <= k <= ps.len(),
    ensures
        group_segments(t, group, scope, project, ps, k).contains(n) <==> exists|j: int|
            0 <= j < k && group_segment(t, (#[trigger] ps[j]).0, group, scope, project) == Some(n),
    decreases k,
{
    let all = group_segments(t, group, scope, project, ps, k);
    if k > 0 {
        group_references_are_renamed_exactly(t, group, scope, project, ps, k - 1, n);
        let rest = group_segments(t, group, scope, project, ps, k - 1);
        lemma_pushed(rest, group_segment(t, ps[k - 1].0, group, scope, project), all, n);
    } else {
        assert(all =~= Seq::empty());
    }
}

proof fn lemma_pushed(rest: Seq<usize>, x: Option<usize>, all: Seq<usize>, n: usize)
    requires
        all == (match x {
            Some(seg) => rest.push(seg),
            None => rest,
        }),
    ensures
        all.contains(n) <==> rest.contains(n) || x == Some(n),
{
    if let Some(seg) = x {
        assert(all[rest.len() as int] == seg);
        if rest.contains(n) {
            let j = choose|j: int| 0 <= j < rest.len() && rest[j] == n;
            assert(all[j] == n);
        }
        if all.contains(n) {
            let j = choose|j: int| 0 <= j < all.len() && all[j] == n;
            if j < rest.len() {
                assert(rest[j] == n);
            }
        }
    }
}

/// A rename of a local changes the places that a search for its references lists, in that
/// order.
pub proof fn local_rename_follows_references(
    t: Tree,
    b: int,
    new_name: Seq<char>,
    uri: Seq<char>,
    s: Seq<char>,
    enc: PositionEncoding,
)
    requires
        local_at(t, b) is Some,
    ensures
        ({
            let edits = local_edits(t, local_at(t, b).unwrap(), new_name, s, enc);
            let places = locations_of(uri, t, occurrences_of(t, b), s, enc);
            &&& edits.len() == places.len()
            &&& forall|i: int|
                0 <= i < edits.len() ==> (#[trigger] edits[i]).range == places[i].range
                    && edits[i].new_text == new_name
        }),
{
}

/// Where the nodes stand in the text.
pub open spec fn node_spans(t: Tree, ns: Seq<usize>) -> Seq<(int, int)> {
    ns.map_values(|n: usize| (char_at(t.text, t.start(n)), char_at(t.text, t.end(n))))
}

/// As often as that, the text.
pub open spec fn copies(text: Seq<char>, n: nat) -> Seq<Seq<char>> {
    Seq::new(n, |i: int| text)
}

/// A script in which nodes that come one behind the other get a new name reads the new name
/// in their places, and is the same everywhere else.
pub proof fn renamed_nodes_read_the_new_name(
    t: Tree,
    ns: Seq<usize>,
    new_name: Seq<char>,
    enc: PositionEncoding,
)
    requires
        t.wf(),
        byte_len(t.text) <= u32::MAX,
        forall|i: int| 0 <= i < ns.len() ==> t.has(#[trigger] ns[i]),
        spans_in_order(t.text, node_spans(t, ns)),
    ensures
        edited(t.text, renamed(t, ns, new_name, t.text, enc), enc) == replaced_upto(
            t.text,
            node_spans(t, ns),
            copies(new_name, ns.len()),
            ns.len() as int,
            t.text.len() as int,
        ),
{
    let spans = node_spans(t, ns);
    let texts = copies(new_name, ns.len());
    let edits = renamed(t, ns, new_name, t.text, enc);
    assert forall|i: int| 0 <= i < ns.len() implies #[trigger] edits[i] == span_edit(
        t.text,
        spans[i],
        texts[i],
        enc,
    ) by {
        assert(t.has(ns[i]));
        assert(t.spans_text(ns[i]));
    }
    assert(edits =~= span_edits(t.text, spans, texts, enc));
    separate_edits_all_land(t.text, spans, texts, enc);
}

// ---------------------------------------------------------------------------
// The project file
// ---------------------------------------------------------------------------

proof fn lemma_other_document(
    m: Seq<(Seq<char>, Seq<TextEditView>)>,
    scripts: Seq<ScriptView>,
    target: Seq<char>,
    new_name: Seq<char>,
    project: ProjectView,
    enc: PositionEncoding,
    k: int,
    uri: Seq<char>,
)
    requires
        0 <= k <= scripts.len(),
        forall|i: int| 0 <= i < scripts.len() ==> (#[trigger] scripts[i]).uri != uri,
    ensures
        value_of(with_references(m, scripts, target, new_name, project, enc, k), uri) == value_of(
            m,
            uri,
        ),
    decreases k,
{
    if k > 0 {
        lemma_other_document(m, scripts, target, new_name, project, enc, k - 1, uri);
        let rest = with_references(m, scripts, target, new_name, project, enc, k - 1);
        let edits = reference_edits(scripts[k - 1], target, new_name, project, enc);
        let all = merged(rest, scripts[k - 1].uri, edits);
        lemma_key_index(rest, scripts[k - 1].uri, 0);
        lemma_key_index(rest, uri, 0);
        lemma_key_index(all, uri, 0);
        match key_index(rest, uri, 0) {
            Some(i) => {
                assert(all[i].0 == uri);
                assert forall|j: int| 0 <= j < i implies (#[trigger] all[j]).0 != uri by {
                    assert(rest[j].0 != uri);
                }
            },
            None => {
                assert forall|j: int| 0 <= j < all.len() implies (#[trigger] all[j]).0 != uri by {
                    if j < rest.len() {
                        assert(rest[j].0 != uri);
                    }
                }
            },
        }
    }
}

/// After the rename of a symbol the project file declares it under its new path, in the place
/// of the old declaration, and is the same everywhere else.
pub proof fn renamed_symbol_is_declared(
    project: ProjectView,
    path: Seq<char>,
    new_name: Seq<char>,
    prj_uri: Seq<char>,
    prj: Seq<char>,
    scripts: Seq<ScriptView>,
    enc: PositionEncoding,
)
    requires
        byte_len(prj) <= u32::MAX,
        is_symbol_name(new_name),
        leaf_rename(project, path, new_name, prj_uri, prj, scripts, enc) is Ok,
        forall|i: int| 0 <= i < scripts.len() ==> (#[trigger] scripts[i]).uri != prj_uri,
    ensures
        ({
            let edit = leaf_rename(project, path, new_name, prj_uri, prj, scripts, enc)->Ok_0;
            let a = first_match(prj, "Name=\""@ + path + "\""@, 0).unwrap() + "Name=\""@.len();
            &&& prj.subrange(a, a + path.len()) == path
            &&& edited(prj, edits_for(edit, prj_uri), enc) == prj.take(a) + with_leaf(path, new_name)
                + prj.skip(a + path.len())
        }),
{
    let needle = "Name=\""@ + path + "\""@;
    let m = first_match(prj, needle, 0).unwrap();
    lemma_first_match(prj, needle, 0);
    let edit = leaf_rename(project, path, new_name, prj_uri, prj, scripts, enc)->Ok_0;
    let e = declaration_edit(prj, path, new_name, enc).unwrap();
    let first = seq![(prj_uri, seq![e])];
    lemma_other_document(
        first,
        scripts,
        path,
        new_name,
        project,
        enc,
        scripts.len() as int,
        prj_uri,
    );
    assert(first[0].0 == prj_uri);
    assert(key_index(first, prj_uri, 0) == Some(0int));
    assert(edits_for(edit, prj_uri) =~= seq![e]);
    let a = m + "Name=\""@.len();
    let z = a + path.len();
    assert(prj.subrange(m, m + needle.len()) == needle);
    assert(prj.subrange(a, z) =~= path) by {
        assert forall|i: int| 0 <= i < path.len() implies prj[a + i] == path[i] by {
            assert(needle[a - m + i] == path[i]);
            assert(prj.subrange(m, m + needle.len())[a - m + i] == prj[a + i]);
        }
    }
    assert(!new_name.contains('.')) by {
        if new_name.contains('.') {
            let i = choose|i: int| 0 <= i < new_name.len() && new_name[i] == '.';
            assert(!is_structural(new_name[i]));
        }
    }
    lemma_with_leaf(path, new_name);
    lemma_head_len(path);
    let h = head_len(path);
    one_edit_replaces_its_range(prj, a + h, z, new_name, enc);
    assert(prj.take(a + h) =~= prj.take(a) + path.take(h)) by {
        assert forall|i: int| 0 <= i < h implies prj[a + i] == path[i] by {
            assert(prj.subrange(a, z)[i] == prj[a + i]);
        }
    }
    assert(prj.take(a + h) + new_name + prj.skip(z) =~= prj.take(a) + with_leaf(path, new_name)
        + prj.skip(z));
}

/// Where the values behind `Name` stand that are the group's or of something below it, among
/// the first `k`.
pub open spec fn group_spans(
    s: Seq<char>,
    spans: Seq<(usize, usize)>,
    group: Seq<char>,
    k: int,
) -> Seq<(int, int)>
    decreases k,
{
    if k <= 0 {
        Seq::empty()
    } else {
        let rest = group_spans(s, spans, group, k - 1);
        let (a, z) = spans[k - 1];
        if in_group(s.subrange(a as int, z as int), group) {
            rest.push((a as int, z as int))
        } else {
            rest
        }
    }
}

/// The values, with another name for the group.
pub open spec fn regrouped(
    s: Seq<char>,
    spans: Seq<(int, int)>,
    group: Seq<char>,
    new_name: Seq<char>,
) -> Seq<Seq<char>> {
    spans.map_values(|p: (int, int)| group_renamed(s.subrange(p.0, p.1), group, new_name))
}

/// The part of each value that names the group.
spec fn name_spans(spans: Seq<(int, int)>, group: Seq<char>) -> Seq<(int, int)> {
    spans.map_values(|p: (int, int)| (p.0 + head_len(group), p.0 + group.len() as int))
}

/// The values come one behind the other.
spec fn values_in_order(s: Seq<char>, spans: Seq<(usize, usize)>, from: int) -> bool {
    &&& forall|i: int|
        0 <= i < spans.len() ==> from <= (#[trigger] spans[i]).0 <= spans[i].1 < s.len()
    &&& forall|i: int, j: int|
        0 <= i < j < spans.len() ==> (#[trigger] spans[i]).1 < (#[trigger] spans[j]).0
}

proof fn lemma_values_in_order(s: Seq<char>, needle: Seq<char>, i: int)
    requires
        0 <= i,
        s.len() <= usize::MAX,
    ensures
        values_in_order(s, values_from(s, needle, i), i),
    decreases s.len() - i,
{
    lemma_first_match(s, needle, i);
    if let Some(m) = first_match(s, needle, i) {
        let a = m + needle.len();
        lemma_first_index(s, '"', a);
        if let Some(z) = first_index(s, '"', a) {
            lemma_values_in_order(s, needle, z + 1);
            let rest = values_from(s, needle, z + 1);
            let all = values_from(s, needle, i);
            assert(all =~= seq![(a as usize, z as usize)] + rest);
            assert forall|p: int, q: int| 0 <= p < q < all.len() implies (#[trigger] all[p]).1 < (
            #[trigger] all[q]).0 by {
                assert(all[q] == rest[q - 1]);
                if p > 0 {
                    assert(all[p] == rest[p - 1]);
                }
            }
            assert forall|p: int| 0 <= p < all.len() implies i <= (#[trigger] all[p]).0
                <= all[p].1 < s.len() by {
                if p > 0 {
                    assert(all[p] == rest[p - 1]);
                }
            }
        }
    }
}

proof fn lemma_group_spans(s: Seq<char>, spans: Seq<(usize, usize)>, group: Seq<char>, k: int)
    requires
        values_in_order(s, spans, 0),
        0 <= k <= spans.len(),
    ensures
        ({
            let gs = group_spans(s, spans, group, k);
            &&& spans_in_order(s, gs)
            &&& spans_in_order(s, name_spans(gs, group))
            &&& forall|i: int|
                0 <= i < gs.len() ==> in_group(
                    s.subrange((#[trigger] gs[i]).0, gs[i].1),
                    group,
                ) && group.len() <= gs[i].1 - gs[i].0
            &&& forall|i: int, j: int|
                0 <= i < gs.len() && k <= j < spans.len() ==> (#[trigger] gs[i]).1 < (
                #[trigger] spans[j]).0
        }),
    decreases k,
{
    lemma_head_len(group);
    let gs = group_spans(s, spans, group, k);
    let ns = name_spans(gs, group);
    if k > 0 {
        lemma_group_spans(s, spans, group, k - 1);
        let rest = group_spans(s, spans, group, k - 1);
        let (a, z) = spans[k - 1];
        let value = s.subrange(a as int, z as int);
        if in_group(value, group) {
            lemma_in_group_prefix(value, group);
            assert forall|i: int, j: int| 0 <= i < j < gs.len() implies (#[trigger] gs[i]).0 < (
            #[trigger] gs[j]).0 && gs[i].1 <= gs[j].0 by {
                if j == gs.len() - 1 {
                    assert(rest[i].1 < spans[k - 1].0);
                    assert(rest[i].0 <= rest[i].1);
                } else {
                    assert(gs[i] == rest[i] && gs[j] == rest[j]);
                }
            }
            assert forall|i: int| 0 <= i < gs.len() implies 0 <= (#[trigger] gs[i]).0 <= gs[i].1
                <= s.len() by {
                if i < rest.len() {
                    assert(gs[i] == rest[i]);
                }
            }
            assert forall|i: int| 0 <= i < gs.len() implies in_group(
                s.subrange((#[trigger] gs[i]).0, gs[i].1),
                group,
            ) && group.len() <= gs[i].1 - gs[i].0 by {
                if i < rest.len() {
                    assert(gs[i] == rest[i]);
                }
            }
            assert forall|i: int, j: int| 0 <= i < gs.len() && k <= j < spans.len() implies (
            #[trigger] gs[i]).1 < (#[trigger] spans[j]).0 by {
                assert(spans[k - 1].1 < spans[j].0);
                if i < rest.len() {
                    assert(gs[i] == rest[i]);
                }
            }
        }
        assert forall|i: int| 0 <= i < ns.len() implies 0 <= (#[trigger] ns[i]).0 <= ns[i].1
            <= s.len() by {
            assert(0 <= gs[i].0 <= gs[i].1 <= s.len());
        }
        assert forall|i: int, j: int| 0 <= i < j < ns.len() implies (#[trigger] ns[i]).0 < (
        #[trigger] ns[j]).0 && ns[i].1 <= ns[j].0 by {
            assert(gs[i].0 < gs[j].0 && gs[i].1 <= gs[j].0);
            assert(group.len() <= gs[i].1 - gs[i].0);
        }
    }
}

proof fn lemma_name_edits(
    s: Seq<char>,
    spans: Seq<(usize, usize)>,
    group: Seq<char>,
    new_name: Seq<char>,
    enc: PositionEncoding,
    k: int,
)
    requires
        0 <= k <= spans.len(),
    ensures
        ({
            let ns = name_spans(group_spans(s, spans, group, k), group);
            name_edits_upto(s, spans, group, new_name, enc, k) == span_edits(
                s,
                ns,
                copies(new_name, ns.len()),
                enc,
            )
        }),
    decreases k,
{
    let ns = name_spans(group_spans(s, spans, group, k), group);
    if k > 0 {
        lemma_name_edits(s, spans, group, new_name, enc, k - 1);
        let old_ns = name_spans(group_spans(s, spans, group, k - 1), group);
        let rest = span_edits(s, old_ns, copies(new_name, old_ns.len()), enc);
        let all = span_edits(s, ns, copies(new_name, ns.len()), enc);
        let (a, z) = spans[k - 1];
        if in_group(s.subrange(a as int, z as int), group) {
            assert(ns =~= old_ns.push((a + head_len(group), a + group.len() as int)));
            assert(all =~= rest.push(
                span_edit(s, (a + head_len(group), a + group.len() as int), new_name, enc),
            ));
        }
    } else {
        assert(span_edits(s, ns, copies(new_name, ns.len()), enc) =~= Seq::empty());
    }
}

/// The text up to `e` goes on up to a later end.
proof fn lemma_replaced_extends(
    s: Seq<char>,
    spans: Seq<(int, int)>,
    texts: Seq<Seq<char>>,
    k: int,
    e: int,
    f: int,
)
    requires
        0 <= k <= spans.len() == texts.len(),
        0 <= e <= f <= s.len(),
        spans_in_order(s, spans),
        k > 0 ==> spans[k - 1].1 <= e,
    ensures
        replaced_upto(s, spans, texts, k, f) == replaced_upto(s, spans, texts, k, e) + s.subrange(e, f),
{
    if k > 0 {
        let p = spans[k - 1];
        assert(s.subrange(p.1, f) =~= s.subrange(p.1, e) + s.subrange(e, f));
        assert(replaced_upto(s, spans, texts, k, f) =~= replaced_upto(s, spans, texts, k, e)
            + s.subrange(e, f));
    } else {
        assert(s.take(f) =~= s.take(e) + s.subrange(e, f));
    }
}

proof fn lemma_regrouped(
    s: Seq<char>,
    gs: Seq<(int, int)>,
    group: Seq<char>,
    new_name: Seq<char>,
    k: int,
    e: int,
)
    requires
        0 <= k <= gs.len(),
        0 <= e <= s.len(),
        spans_in_order(s, gs),
        spans_in_order(s, name_spans(gs, group)),
        forall|i: int|
            0 <= i < gs.len() ==> in_group(s.subrange((#[trigger] gs[i]).0, gs[i].1), group)
                && group.len() <= gs[i].1 - gs[i].0,
        k > 0 ==> gs[k - 1].1 <= e,
    ensures
        replaced_upto(s, name_spans(gs, group), copies(new_name, gs.len()), k, e) == replaced_upto(
            s,
            gs,
            regrouped(s, gs, group, new_name),
            k,
            e,
        ),
    decreases k,
{
    if k > 0 {
        lemma_head_len(group);
        let ns = name_spans(gs, group);
        let news = copies(new_name, gs.len());
        let (a, z) = gs[k - 1];
        let h = head_len(group);
        let g = group.len() as int;
        let value = s.subrange(a, z);
        assert(group.len() <= gs[k - 1].1 - gs[k - 1].0);
        assert(k > 1 ==> gs[k - 2].1 <= gs[k - 1].0);
        lemma_regrouped(s, gs, group, new_name, k - 1, a);
        assert(k > 1 ==> ns[k - 2].1 <= a) by {
            if k > 1 {
                assert(group.len() <= gs[k - 2].1 - gs[k - 2].0);
            }
        }
        lemma_replaced_extends(s, ns, news, k - 1, a, a + h);
        let front = replaced_upto(s, ns, news, k - 1, a);
        assert(ns[k - 1] == (a + h, a + g));
        assert(news[k - 1] == new_name);
        assert(s.subrange(a, a + h) =~= value.take(h));
        assert(s.subrange(a + g, e) =~= value.skip(g) + s.subrange(z, e));
        assert(regrouped(s, gs, group, new_name)[k - 1] == value.take(h) + new_name + value.skip(g));
        assert(front + s.subrange(a, a + h) + new_name + s.subrange(a + g, e) =~= front + (value.take(
            h,
        ) + new_name + value.skip(g)) + s.subrange(z, e));
    }
}

/// After the edits of the names, the project file declares the group and everything below it
/// under their new paths, and is the same everywhere else.
pub proof fn renamed_group_is_declared(
    s: Seq<char>,
    group: Seq<char>,
    new_name: Seq<char>,
    enc: PositionEncoding,
)
    requires
        byte_len(s) <= u32::MAX,
    ensures
        ({
            let spans = values_of(s, "Name=\""@);
            let gs = group_spans(s, spans, group, spans.len() as int);
            edited(s, name_edits(s, group, new_name, enc), enc) == replaced_upto(
                s,
                gs,
                regrouped(s, gs, group, new_name),
                gs.len() as int,
                s.len() as int,
            )
        }),
{
    let spans = values_of(s, "Name=\""@);
    lemma_byte_len_bounds(s);
    lemma_values_in_order(s, "Name=\""@, 0);
    let n = spans.len() as int;
    let gs = group_spans(s, spans, group, n);
    let ns = name_spans(gs, group);
    lemma_group_spans(s, spans, group, n);
    lemma_name_edits(s, spans, group, new_name, enc, n);
    separate_edits_all_land(s, ns, copies(new_name, ns.len()), enc);
    assert(gs.len() > 0 ==> gs[gs.len() - 1].1 <= s.len());
    lemma_regrouped(s, gs, group, new_name, gs.len() as int, s.len() as int);
}

// ---------------------------------------------------------------------------
// Files
// ---------------------------------------------------------------------------

/// The symbol is a script below the group that the user writes, in a file whose name holds
/// the group, and the file is not there.
pub open spec fn lacks_script(
    loaded: LoadedProjectView,
    sym: SymbolView,
    group: Seq<char>,
    new_name: Seq<char>,
) -> bool {
    &&& is_callable(sym.kind) && begins(sym.path, group + "."@) && is_user_script(sym)
    &&& match script_move(sym, group, new_name) {
        Some((old_file, new_file)) => script_path_at(loaded.script_files, old_file, 0) is None,
        None => false,
    }
}

proof fn lemma_lacking(
    loaded: LoadedProjectView,
    group: Seq<char>,
    new_name: Seq<char>,
    k: int,
)
    requires
        0 <= k <= loaded.project.symbols.len(),
    ensures
        moves_upto(loaded, group, new_name, k) is Err <==> exists|j: int|
            0 <= j < k && lacks_script(loaded, #[trigger] loaded.project.symbols[j], group, new_name),
    decreases k,
{
    if k > 0 {
        lemma_lacking(loaded, group, new_name, k - 1);
        let sym = loaded.project.symbols[k - 1];
        if lacks_script(loaded, sym, group, new_name) {
            assert(moves_upto(loaded, group, new_name, k) is Err);
        }
        if moves_upto(loaded, group, new_name, k) is Err && moves_upto(
            loaded,
            group,
            new_name,
            k - 1,
        ) is Ok {
            assert(lacks_script(loaded, loaded.project.symbols[k - 1], group, new_name));
        }
    }
}

/// A group is renamed as a whole or not at all: where the file of one of its scripts is not
/// there, nothing is.
pub proof fn group_is_renamed_whole_or_not(
    loaded: LoadedProjectView,
    group: Seq<char>,
    new_name: Seq<char>,
    prj: Option<Seq<char>>,
    scripts: Seq<ScriptView>,
    enc: PositionEncoding,
    j: int,
)
    requires
        0 <= j < loaded.project.symbols.len(),
        lacks_script(loaded, loaded.project.symbols[j], group, new_name),
    ensures
        group_rename(loaded, group, new_name, prj, scripts, enc) is Err,
{
    lemma_lacking(loaded, group, new_name, loaded.project.symbols.len() as int);
}

} // verus!
