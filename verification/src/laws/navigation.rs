//! Where navigation leads.
use crate::eval::{TickPolicy, TraceView};
use crate::goto::{
    decl_for, declares_type, decls_upto, definition_of, enum_name_of, local_definition, names_tag,
    open_quote, starts_type, type_line, type_line_from,
};
use crate::laws::{lemma_either_holds, lemma_holds, lemma_pushed_holds, lemma_taken_holds};
use crate::line_index::{Position, PositionEncoding, range_of};
use crate::locate::{declared_name, in_annotation, is_property, outermost, path_node, top_path_seq};
use crate::model::{
    key_index, lemma_key_index, LoadedProjectView, ProjectView, ScopeView, SymbolView, value_of,
    ValueType,
};
use crate::order::has_key;
use crate::outside::file_uri;
use crate::paths::{below, is_contained};
use crate::references::{
    DocumentHighlightKind, highlight_of, kept_upto, local_at, local_idents, local_idents_upto,
    locations_of, LocationView, path_nodes, path_nodes_upto, project_refs, scoped_nodes,
    ScriptView, search_target, target_locations_upto, TargetView, use_is_written,
};
use crate::scripts::{gathered_upto, TextsView};
use crate::search::{has, split};
use crate::selection_range::{outward, span, spans_around};
use crate::syntax::{Field, Kind, Tree};
use crate::text::is_space;
use vstd::prelude::*;
use vstd::string::*;

verus! {

// ---------------------------------------------------------------------------
// Definitions
// ---------------------------------------------------------------------------

/// A symbol that is kept in a file of its own is defined at the start of that file, if the
/// file lies below the project directory; any other one in its line of the project file.
pub proof fn symbols_are_defined_in_their_file(loaded: LoadedProjectView, sym: SymbolView)
    ensures
        (match sym.filename {
            Some(f) => match definition_of(loaded, sym) {
                Some(l) => is_contained(loaded.root, f) && file_uri(below(loaded.root, f)) == Some(
                    l.uri,
                ) && l.range.start == (Position { line: 0, character: 0 }) && l.range.end
                    == l.range.start,
                None => !is_contained(loaded.root, f) || file_uri(below(loaded.root, f)) is None,
            },
            None => match definition_of(loaded, sym) {
                Some(l) => sym.def_line is Some && file_uri(loaded.m1prj_path) == Some(l.uri)
                    && l.range.start == (Position { line: sym.def_line.unwrap(), character: 0 })
                    && l.range.end == l.range.start,
                None => sym.def_line is None || file_uri(loaded.m1prj_path) is None,
            },
        }),
{
}

proof fn lemma_type_line(lines: Seq<Seq<char>>, name: Seq<char>, i: int, j: int)
    requires
        0 <= i <= j < lines.len() <= u32::MAX,
        declares_type(lines[j], name),
        forall|k: int| i <= k < j ==> !declares_type(#[trigger] lines[k], name),
    ensures
        type_line_from(lines, name, i) == Some(j as u32),
    decreases j - i,
{
    if i < j {
        assert(!declares_type(lines[i], name));
        lemma_type_line(lines, name, i + 1, j);
    }
}

/// A type is defined in the first line of the project file that declares it.
pub proof fn types_are_defined_where_declared(xml: Seq<char>, name: Seq<char>, j: int)
    requires
        0 <= j < split(xml, '\n').len() <= u32::MAX,
        declares_type(split(xml, '\n')[j], name),
        forall|k: int| 0 <= k < j ==> !declares_type(#[trigger] split(xml, '\n')[k], name),
    ensures
        type_line(xml, name) == Some(j as u32),
{
    lemma_type_line(split(xml, '\n'), name, 0, j);
}

/// A line with a `Type` element that has the name declares the type.
pub proof fn type_elements_declare(front: Seq<char>, name: Seq<char>, back: Seq<char>)
    ensures
        declares_type(front + "<Type Name=\""@ + name + "\""@ + back, name),
{
    reveal_strlit("<Type Name=\"");
    reveal_strlit("<Type");
    reveal_strlit("Name=\"");
    reveal_strlit("\"");
    let line = front + "<Type Name=\""@ + name + "\""@ + back;
    let i = front.len() as int;
    let k = i + 6;
    let tag = "<Type Name=\""@;
    assert forall|j: int| 0 <= j < 12 implies #[trigger] line[i + j] == tag[j] by {}
    assert(line.subrange(i, i + 5) =~= "<Type"@) by {
        assert(line[i + 0] == tag[0] && line[i + 1] == tag[1] && line[i + 2] == tag[2]);
        assert(line[i + 3] == tag[3] && line[i + 4] == tag[4]);
    }
    assert(line[i + 5] == tag[5]);
    assert(is_space(' '));
    assert(starts_type(line, i));
    assert(open_quote(line, i, i) is None);
    assert(open_quote(line, i, i + 1) is None) by {
        assert(line[i + 0] == tag[0]);
    }
    assert(open_quote(line, i, i + 2) is None) by {
        assert(line[i + 1] == tag[1]);
    }
    assert(open_quote(line, i, i + 3) is None) by {
        assert(line[i + 2] == tag[2]);
    }
    assert(open_quote(line, i, i + 4) is None) by {
        assert(line[i + 3] == tag[3]);
    }
    assert(open_quote(line, i, i + 5) is None) by {
        assert(line[i + 4] == tag[4]);
    }
    assert(open_quote(line, i, k) is None) by {
        assert(line[i + 5] == tag[5]);
    }
    assert forall|j: int| i <= j < k && line[j] == '>' implies #[trigger] open_quote(line, i, j)
        is Some by {
        assert(line[i + (j - i)] == tag[j - i]);
    }
    let p = "Name=\""@ + name + "\""@;
    assert(line.subrange(k, k + p.len()) =~= p) by {
        assert forall|j: int| 0 <= j < p.len() implies #[trigger] line.subrange(k, k + p.len())[j]
            == p[j] by {
            if j < 6 {
                assert(line[i + (6 + j)] == tag[6 + j]);
            }
        }
    }
    assert(names_tag(line, name, i, k));
}

/// A line that declares a type holds the start of a `Type` element, and the name as the value
/// of the attribute `Name` behind it.
pub proof fn only_type_elements_declare(line: Seq<char>, name: Seq<char>)
    requires
        declares_type(line, name),
    ensures
        has(line, "<Type"@),
        has(line, "Name=\""@ + name + "\""@),
{
    let (i, k) = choose|i: int, k: int|
        0 <= i && starts_type(line, i) && #[trigger] names_tag(line, name, i, k);
    lemma_holds(line, "<Type"@, i);
    lemma_holds(line, "Name=\""@ + name + "\""@, k);
}

/// The type of a symbol has a place in the project file where it is an enumeration of the
/// project: by the name of the enumeration.
pub proof fn only_enums_have_a_type_name(project: ProjectView, sym: SymbolView, id: usize)
    ensures
        sym.value_type == ValueType::Enum(id) && id < project.enums.len() ==> enum_name_of(
            project,
            sym,
        ) == Some(project.enums[id as int].name),
        !(sym.value_type is Enum) ==> enum_name_of(project, sym) is None,
{
}

proof fn lemma_decls(t: Tree, name: Seq<char>, k: int, c: usize)
    requires
        0 <= k <= t.size() <= usize::MAX,
    ensures
        decls_upto(t, name, k).contains(c) <==> exists|n: usize|
            n < k && #[trigger] declared_name(t, n) == Some(c) && t.text_of(c) == name,
    decreases k,
{
    if k > 0 {
        let n = (k - 1) as usize;
        lemma_decls(t, name, k - 1, c);
        let rest = decls_upto(t, name, k - 1);
        if let Some(d) = declared_name(t, n) {
            lemma_pushed_holds(rest, d, c);
        }
        if rest.contains(c) {
            let m = choose|m: usize|
                m < k - 1 && #[trigger] declared_name(t, m) == Some(c) && t.text_of(c) == name;
            assert(m < k && declared_name(t, m) == Some(c));
        }
        if declared_name(t, n) == Some(c) && t.text_of(c) == name {
            assert(n < k && declared_name(t, n) == Some(c));
        }
        if exists|m: usize|
            m < k && #[trigger] declared_name(t, m) == Some(c) && t.text_of(c) == name {
            let m = choose|m: usize|
                m < k && #[trigger] declared_name(t, m) == Some(c) && t.text_of(c) == name;
            if m < k - 1 {
                assert(declared_name(t, m) == Some(c));
            }
        }
    } else {
        assert(decls_upto(t, name, k) =~= Seq::empty());
    }
}

/// The declarations of a local are exactly the names that declarations give it.
pub proof fn declarations_are_exact(t: Tree, name: Seq<char>, c: usize)
    requires
        t.size() <= usize::MAX,
    ensures
        decls_upto(t, name, t.size() as int).contains(c) <==> exists|n: usize|
            n < t.size() && #[trigger] declared_name(t, n) == Some(c) && t.text_of(c) == name,
{
    lemma_decls(t, name, t.size() as int, c);
}

/// A name without dots leads to the declaration of the local; a dotted path leads to none.
pub proof fn names_lead_to_declarations(t: Tree, b: int, n: usize)
    requires
        path_node(t, b) == Some(n),
    ensures
        !t.text_of(n).contains('.') ==> local_definition(t, b) == decl_for(t, t.text_of(n), b),
        t.text_of(n).contains('.') ==> local_definition(t, b) is None,
{
}

// ---------------------------------------------------------------------------
// References
// ---------------------------------------------------------------------------

/// Path `j` of the script names the target, and is written if only those are asked for: it
/// has the text, or resolves to the symbol.
pub open spec fn refers_to(
    t: Tree,
    scope: ScopeView,
    target: TargetView,
    writes_only: bool,
    ps: Seq<(usize, bool)>,
    j: int,
    n: usize,
) -> bool {
    &&& ps[j].0 == n
    &&& writes_only ==> ps[j].1
    &&& match target {
        TargetView::Text(text) => t.text_of(n) == text,
        TargetView::Symbol(path) => match scope.symbol(t.text_of(n)) {
            Some(s) => s.path == path,
            None => false,
        },
    }
}

/// The references in a script are exactly its paths that name the target.
pub proof fn references_are_exact(
    t: Tree,
    scope: ScopeView,
    target: TargetView,
    writes_only: bool,
    ps: Seq<(usize, bool)>,
    k: int,
    n: usize,
)
    requires
        0 <= k <= ps.len(),
    ensures
        path_nodes_upto(t, scope, target, writes_only, ps, k).contains(n) <==> exists|j: int|
            0 <= j < k && #[trigger] refers_to(t, scope, target, writes_only, ps, j, n),
    decreases k,
{
    if k > 0 {
        references_are_exact(t, scope, target, writes_only, ps, k - 1, n);
        let rest = path_nodes_upto(t, scope, target, writes_only, ps, k - 1);
        lemma_pushed_holds(rest, ps[k - 1].0, n);
        if rest.contains(n) {
            let j = choose|j: int|
                0 <= j < k - 1 && #[trigger] refers_to(t, scope, target, writes_only, ps, j, n);
            assert(refers_to(t, scope, target, writes_only, ps, j, n));
        }
        if path_nodes_upto(t, scope, target, writes_only, ps, k).contains(n) && !rest.contains(n) {
            assert(refers_to(t, scope, target, writes_only, ps, k - 1, n));
        }
        if exists|j: int| 0 <= j < k && #[trigger] refers_to(t, scope, target, writes_only, ps, j, n) {
            let j = choose|j: int|
                0 <= j < k && #[trigger] refers_to(t, scope, target, writes_only, ps, j, n);
            if j < k - 1 {
                assert(refers_to(t, scope, target, writes_only, ps, j, n));
            }
        }
    } else {
        assert(path_nodes_upto(t, scope, target, writes_only, ps, k) =~= Seq::empty());
    }
}

/// The place is that of a path of the script that names the target.
pub open spec fn is_reference(
    script: ScriptView,
    target: TargetView,
    writes_only: bool,
    enc: PositionEncoding,
    l: LocationView,
) -> bool {
    exists|j: int, n: usize|
        0 <= j < top_path_seq(script.tree).len() && #[trigger] refers_to(
            script.tree,
            script.scope,
            target,
            writes_only,
            top_path_seq(script.tree),
            j,
            n,
        ) && l.uri == script.uri && l.range == range_of(
            script.index,
            script.tree.start(n),
            script.tree.end(n),
            enc,
        )
}

/// The references in the project are exactly those in its scripts.
pub proof fn every_script_is_searched(
    scripts: Seq<ScriptView>,
    target: TargetView,
    writes_only: bool,
    enc: PositionEncoding,
    k: int,
    l: LocationView,
)
    requires
        0 <= k <= scripts.len(),
    ensures
        target_locations_upto(scripts, target, writes_only, enc, k).contains(l) <==> exists|i: int|
            0 <= i < k && is_reference(#[trigger] scripts[i], target, writes_only, enc, l),
    decreases k,
{
    if k > 0 {
        every_script_is_searched(scripts, target, writes_only, enc, k - 1, l);
        let rest = target_locations_upto(scripts, target, writes_only, enc, k - 1);
        let s = scripts[k - 1];
        let ps = top_path_seq(s.tree);
        let ns = path_nodes(s.tree, s.scope, target, writes_only);
        let here = locations_of(s.uri, s.tree, ns, s.index, enc);
        lemma_either_holds(rest, here, l);
        if here.contains(l) {
            let q = choose|q: int| 0 <= q < here.len() && here[q] == l;
            let n = ns[q];
            assert(ns.contains(n));
            references_are_exact(s.tree, s.scope, target, writes_only, ps, ps.len() as int, n);
            let j = choose|j: int|
                0 <= j < ps.len() && #[trigger] refers_to(
                    s.tree,
                    s.scope,
                    target,
                    writes_only,
                    ps,
                    j,
                    n,
                );
            assert(refers_to(s.tree, s.scope, target, writes_only, ps, j, n));
            assert(is_reference(scripts[k - 1], target, writes_only, enc, l));
        }
        if is_reference(s, target, writes_only, enc, l) {
            let (j, n) = choose|j: int, n: usize|
                0 <= j < ps.len() && #[trigger] refers_to(
                    s.tree,
                    s.scope,
                    target,
                    writes_only,
                    ps,
                    j,
                    n,
                ) && l.uri == s.uri && l.range == range_of(s.index, s.tree.start(n), s.tree.end(n), enc);
            references_are_exact(s.tree, s.scope, target, writes_only, ps, ps.len() as int, n);
            let q = choose|q: int| 0 <= q < ns.len() && ns[q] == n;
            assert(here[q] == l);
        }
        if rest.contains(l) {
            let i = choose|i: int|
                0 <= i < k - 1 && is_reference(#[trigger] scripts[i], target, writes_only, enc, l);
            assert(is_reference(scripts[i], target, writes_only, enc, l));
        }
    } else {
        assert(target_locations_upto(scripts, target, writes_only, enc, k) =~= Seq::empty());
    }
}

/// The search from a path goes by the symbol that the path names where it stands, and else by
/// its text; the search from a local stays in its script.
pub proof fn searches_go_by_symbol(
    writes_only: bool,
    scripts: Seq<ScriptView>,
    cursor: int,
    b: int,
    enc: PositionEncoding,
    n: usize,
    l: LocationView,
)
    requires
        0 <= cursor < scripts.len(),
        local_at(scripts[cursor].tree, b) is None,
        path_node(scripts[cursor].tree, b) == Some(n),
    ensures
        ({
            let here = scripts[cursor];
            let text = here.tree.text_of(n);
            let target = match here.scope.symbol(text) {
                Some(s) => TargetView::Symbol(s.path),
                None => TargetView::Text(text),
            };
            (match project_refs(writes_only, scripts, cursor, b, enc) {
                Some(ls) => ls.contains(l),
                None => false,
            }) <==> exists|i: int|
                0 <= i < scripts.len() && is_reference(
                    #[trigger] scripts[i],
                    target,
                    writes_only,
                    enc,
                    l,
                )
        }),
{
    let here = scripts[cursor];
    let text = here.tree.text_of(n);
    every_script_is_searched(
        scripts,
        search_target(here.scope, text),
        writes_only,
        enc,
        scripts.len() as int,
        l,
    );
}

/// The uses of a local are exactly the names in its script, behind no dot and in no type, that
/// read as it; where only writes are asked for, those that are written.
pub proof fn locals_are_searched_in_their_script(
    writes_only: bool,
    scripts: Seq<ScriptView>,
    cursor: int,
    b: int,
    enc: PositionEncoding,
    name: Seq<char>,
    l: LocationView,
)
    requires
        0 <= cursor < scripts.len(),
        scripts[cursor].tree.size() <= usize::MAX,
        local_at(scripts[cursor].tree, b) == Some(name),
    ensures
        ({
            let here = scripts[cursor];
            (match project_refs(writes_only, scripts, cursor, b, enc) {
                Some(ls) => ls.contains(l),
                None => false,
            }) <==> exists|n: usize| #[trigger] is_local_use(here, name, writes_only, enc, n, l)
        }),
{
    let here = scripts[cursor];
    let t = here.tree;
    let all = local_idents(t, name);
    let ns = kept_upto(t, all, writes_only, all.len() as int);
    let ls = locations_of(here.uri, t, ns, here.index, enc);
    if ls.contains(l) {
        let q = choose|q: int| 0 <= q < ls.len() && ls[q] == l;
        let n = ns[q];
        assert(ns.contains(n));
        lemma_kept(t, all, writes_only, all.len() as int, n);
        assert(all.take(all.len() as int) =~= all);
        lemma_local_idents_exact(t, name, t.size() as int, n);
        assert(is_local_use(here, name, writes_only, enc, n, l));
    }
    if exists|n: usize| #[trigger] is_local_use(here, name, writes_only, enc, n, l) {
        let n = choose|n: usize| #[trigger] is_local_use(here, name, writes_only, enc, n, l);
        lemma_local_idents_exact(t, name, t.size() as int, n);
        lemma_kept(t, all, writes_only, all.len() as int, n);
        assert(all.take(all.len() as int) =~= all);
        let q = choose|q: int| 0 <= q < ns.len() && ns[q] == n;
        assert(ls[q] == l);
    }
}

/// The place is that of node `n`, a use of the local.
pub open spec fn is_local_use(
    script: ScriptView,
    name: Seq<char>,
    writes_only: bool,
    enc: PositionEncoding,
    n: usize,
    l: LocationView,
) -> bool {
    let t = script.tree;
    &&& n < t.size()
    &&& t.kind(n) == Kind::Identifier
    &&& t.text_of(n) == name
    &&& !is_property(t, n)
    &&& !in_annotation(t, n)
    &&& writes_only ==> use_is_written(t, n)
    &&& l.uri == script.uri
    &&& l.range == range_of(script.index, t.start(n), t.end(n), enc)
}

proof fn lemma_kept(t: Tree, ns: Seq<usize>, writes_only: bool, k: int, n: usize)
    requires
        0 <= k <= ns.len(),
    ensures
        kept_upto(t, ns, writes_only, k).contains(n) <==> ns.take(k).contains(n) && (writes_only
            ==> use_is_written(t, n)),
    decreases k,
{
    if k > 0 {
        lemma_kept(t, ns, writes_only, k - 1, n);
        lemma_taken_holds(ns, k, n);
        lemma_pushed_holds(kept_upto(t, ns, writes_only, k - 1), ns[k - 1], n);
    } else {
        assert(kept_upto(t, ns, writes_only, k) =~= Seq::empty());
    }
}

proof fn lemma_local_idents_exact(t: Tree, name: Seq<char>, k: int, n: usize)
    requires
        0 <= k <= t.size() <= usize::MAX,
    ensures
        local_idents_upto(t, name, k).contains(n) <==> n < k && t.kind(n) == Kind::Identifier
            && t.text_of(n) == name && !is_property(t, n) && !in_annotation(t, n),
    decreases k,
{
    if k > 0 {
        lemma_local_idents_exact(t, name, k - 1, n);
        lemma_pushed_holds(local_idents_upto(t, name, k - 1), (k - 1) as usize, n);
    } else {
        assert(local_idents_upto(t, name, k) =~= Seq::empty());
    }
}

/// In a project, the highlights of a symbol are exactly the paths of the script that name it,
/// however they are spelled; a local and a path that names nothing are not looked up.
pub proof fn highlights_go_by_symbol(t: Tree, scope: ScopeView, b: int, n: usize, m: usize)
    requires
        path_node(t, b) == Some(n),
    ensures
        (match scope.symbol(t.text_of(n)) {
            Some(sym) => local_at(t, b) is None ==> (scoped_nodes(t, Some(scope), b).contains(m)
                <==> exists|j: int|
                0 <= j < top_path_seq(t).len() && #[trigger] refers_to(
                    t,
                    scope,
                    TargetView::Symbol(sym.path),
                    false,
                    top_path_seq(t),
                    j,
                    m,
                )),
            None => scoped_nodes(t, Some(scope), b).len() == 0,
        }),
        local_at(t, b) is Some ==> scoped_nodes(t, Some(scope), b).len() == 0,
        scoped_nodes(t, None, b).len() == 0,
{
    if let Some(sym) = scope.symbol(t.text_of(n)) {
        let ps = top_path_seq(t);
        references_are_exact(
            t,
            scope,
            TargetView::Symbol(sym.path),
            false,
            ps,
            ps.len() as int,
            m,
        );
    }
}

/// A use is written where the path that it belongs to is the target of the assignment that
/// stands around it, or where it is the name in a declaration; a highlight says which.
pub proof fn highlights_say_what_is_written(
    t: Tree,
    n: usize,
    top: usize,
    p: usize,
    s: Seq<char>,
    enc: PositionEncoding,
)
    requires
        outermost(t, n) == top,
        t.parent(top) == Some(p),
    ensures
        highlight_of(t, n, s, enc).range == range_of(s, t.start(n), t.end(n), enc),
        highlight_of(t, n, s, enc).kind == DocumentHighlightKind::Write <==> {
            ||| t.kind(p) == Kind::AssignmentStatement && match t.child_by_field(p, Field::Target) {
                Some(c) => t.start(c) == t.start(top) && t.end(c) == t.end(top),
                None => false,
            }
            ||| t.kind(p) == Kind::LocalDeclaration && match t.child_by_field(p, Field::Name) {
                Some(c) => t.start(c) == t.start(n) && t.end(c) == t.end(n),
                None => false,
            }
        },
        highlight_of(t, n, s, enc).kind == DocumentHighlightKind::Write || highlight_of(
            t,
            n,
            s,
            enc,
        ).kind == DocumentHighlightKind::Read,
{
}

// ---------------------------------------------------------------------------
// The scripts of the project
// ---------------------------------------------------------------------------

/// A document that is open has the text of the editor, any other one the text of its file.
pub proof fn open_documents_come_first(texts: TextsView, uri: Seq<char>, path: Seq<char>, open: Seq<char>)
    ensures
        value_of(texts.open, uri) == Some(open) ==> texts.text(uri, Some(path)) == Some(open),
        value_of(texts.open, uri) is None ==> texts.text(uri, Some(path)) == value_of(
            texts.disk,
            path,
        ),
{
}

/// Every file of the project that has a text is gathered, behind the document of the cursor.
pub proof fn every_file_is_gathered(
    first: Seq<(Seq<char>, Seq<char>)>,
    files: Seq<Seq<char>>,
    texts: TextsView,
    k: int,
    j: int,
    uri: Seq<char>,
)
    requires
        0 <= j < k <= files.len(),
        file_uri(files[j]) == Some(uri),
        texts.text(uri, Some(files[j])) is Some,
    ensures
        has_key(gathered_upto(first, files, texts, k), uri),
        first.len() <= gathered_upto(first, files, texts, k).len(),
        gathered_upto(first, files, texts, k).take(first.len() as int) == first,
    decreases k,
{
    lemma_gathered_front(first, files, texts, k);
    let rest = gathered_upto(first, files, texts, k - 1);
    let all = gathered_upto(first, files, texts, k);
    if j < k - 1 {
        every_file_is_gathered(first, files, texts, k - 1, j, uri);
    }
    lemma_key_index(rest, uri, 0);
    lemma_key_index(all, uri, 0);
    if has_key(rest, uri) {
        let i = key_index(rest, uri, 0).unwrap();
        assert(all[i] == rest[i]);
    } else {
        assert(all[rest.len() as int].0 == uri);
    }
}

proof fn lemma_gathered_front(
    first: Seq<(Seq<char>, Seq<char>)>,
    files: Seq<Seq<char>>,
    texts: TextsView,
    k: int,
)
    requires
        0 <= k <= files.len(),
    ensures
        first.len() <= gathered_upto(first, files, texts, k).len(),
        gathered_upto(first, files, texts, k).take(first.len() as int) == first,
    decreases k,
{
    let all = gathered_upto(first, files, texts, k);
    if k > 0 {
        lemma_gathered_front(first, files, texts, k - 1);
        let rest = gathered_upto(first, files, texts, k - 1);
        assert(all.take(first.len() as int) =~= rest.take(first.len() as int));
    } else {
        assert(all.take(first.len() as int) =~= first);
    }
}

/// Only files of the project are gathered, each with its text.
pub proof fn only_files_are_gathered(
    first: Seq<(Seq<char>, Seq<char>)>,
    files: Seq<Seq<char>>,
    texts: TextsView,
    k: int,
    x: (Seq<char>, Seq<char>),
)
    requires
        0 <= k <= files.len(),
        gathered_upto(first, files, texts, k).contains(x),
        !first.contains(x),
    ensures
        exists|j: int|
            0 <= j < k && file_uri(#[trigger] files[j]) == Some(x.0) && texts.text(
                x.0,
                Some(files[j]),
            ) == Some(x.1),
    decreases k,
{
    if k > 0 {
        let rest = gathered_upto(first, files, texts, k - 1);
        if rest.contains(x) {
            only_files_are_gathered(first, files, texts, k - 1, x);
        } else {
            let uri = file_uri(files[k - 1]).unwrap();
            lemma_pushed_holds(
                rest,
                (uri, texts.text(uri, Some(files[k - 1])).unwrap()),
                x,
            );
            assert(file_uri(files[k - 1]) == Some(x.0));
        }
    }
}

// ---------------------------------------------------------------------------
// Selections
// ---------------------------------------------------------------------------

proof fn lemma_outward(t: Tree, n: usize, last: (int, int), a: usize)
    requires
        a != n,
        t.encloses(a, n),
    ensures
        outward(t, n, last).contains(span(t, a)) || span(t, a) == last,
    decreases n,
{
    let p = t.parent(n).unwrap();
    if span(t, p) != last {
        let rest = outward(t, p, span(t, p));
        lemma_either_holds(seq![span(t, p)], rest, span(t, a));
        assert(seq![span(t, p)][0] == span(t, p));
        if a != p {
            lemma_outward(t, p, span(t, p), a);
        }
    } else if a != p {
        lemma_outward(t, p, last, a);
    }
}

/// Everything around a node can be selected.
pub proof fn every_enclosing_node_is_selectable(t: Tree, n: usize, a: usize)
    requires
        t.encloses(a, n),
    ensures
        spans_around(t, n).contains((t.start(a), t.end(a))),
{
    let rest = outward(t, n, span(t, n));
    lemma_either_holds(seq![span(t, n)], rest, span(t, a));
    assert(seq![span(t, n)][0] == span(t, n));
    if a != n {
        lemma_outward(t, n, span(t, n), a);
    }
}

// ---------------------------------------------------------------------------
// Values
// ---------------------------------------------------------------------------

/// A channel has the first or the last value of its column, as the policy says.
pub proof fn values_are_of_the_tick(
    trace: TraceView,
    path: Seq<char>,
    column: Seq<Seq<char>>,
)
    requires
        value_of(trace.channels, path) == Some(column),
    ensures
        column.len() > 0 ==> trace.value(path, TickPolicy::First) == Some(column[0]),
        column.len() > 0 ==> trace.value(path, TickPolicy::Last) == Some(
            column[column.len() - 1],
        ),
        column.len() == 0 ==> trace.value(path, TickPolicy::First) is None && trace.value(
            path,
            TickPolicy::Last,
        ) is None,
{
}

} // verus!
