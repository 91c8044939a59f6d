//! The badges, folds and links of a document.
use crate::attributes::{values_from, values_of};
use crate::call_hierarchy::script_symbol_at;
use crate::code_lens::{
    and_badge, ArgumentView, badges_of, CodeLensView, CommandView, first_secured, leaf_name,
    levels_upto, lists, logged_upto, logging_badge, ParsedScriptView, rate_badge, reveal_line,
    security_badge, written_by, written_upto,
};
use crate::document_link::{DocumentLinkView, link_of, links_upto};
use crate::folding::{fold_of, FoldingRange, FoldingRangeKind, folds_upto};
use crate::format::decimal;
use crate::goto::line_range;
use crate::laws::{lemma_either_holds, lemma_pushed_holds, lemma_taken_holds};
use crate::laws::rename::lemma_value_at;
use crate::line_index::{Position, PositionEncoding, range_of};
use crate::model::{LoadedProjectView, ScopeView, SymbolKind, SymbolView};
use crate::order::{before, set_with};
use crate::outside::file_uri;
use crate::paths::{below, is_contained, uri_file_name};
use crate::search::{ends, first_index, first_match, joined, lemma_first_index, lemma_first_match};
use crate::syntax::{Kind, Tree};
use crate::text::{byte_at, matches_at};
use vstd::prelude::*;
use vstd::string::*;

verus! {

// ---------------------------------------------------------------------------
// Badges
// ---------------------------------------------------------------------------

/// The script writes the symbol: one of its outermost paths is written, and names the symbol,
/// which is a channel or a parameter.
pub open spec fn writes_symbol(
    t: Tree,
    scope: ScopeView,
    ps: Seq<(usize, bool)>,
    j: int,
    path: Seq<char>,
) -> bool {
    ps[j].1 && match scope.symbol(t.text_of(ps[j].0)) {
        Some(s) => s.path == path && (s.kind == SymbolKind::Channel || s.kind
            == SymbolKind::Parameter),
        None => false,
    }
}

/// The symbols that a script is said to write are exactly the channels and parameters that
/// one of its paths writes.
pub proof fn written_symbols_are_exact(
    t: Tree,
    scope: ScopeView,
    ps: Seq<(usize, bool)>,
    k: int,
    path: Seq<char>,
)
    requires
        0 <= k <= ps.len(),
    ensures
        lists(written_upto(t, scope, ps, k), path) <==> exists|j: int|
            0 <= j < k && #[trigger] writes_symbol(t, scope, ps, j, path),
    decreases k,
{
    let all = written_upto(t, scope, ps, k);
    if k > 0 {
        written_symbols_are_exact(t, scope, ps, k - 1, path);
        let rest = written_upto(t, scope, ps, k - 1);
        if lists(rest, path) {
            let i = choose|i: int| 0 <= i < rest.len() && (#[trigger] rest[i]).path == path;
            assert(all[i] == rest[i]);
            let j = choose|j: int| 0 <= j < k - 1 && #[trigger] writes_symbol(t, scope, ps, j, path);
            assert(writes_symbol(t, scope, ps, j, path));
        }
        if writes_symbol(t, scope, ps, k - 1, path) && !lists(rest, path) {
            assert(all[rest.len() as int].path == path);
        }
        if lists(all, path) && !lists(rest, path) {
            let i = choose|i: int| 0 <= i < all.len() && (#[trigger] all[i]).path == path;
            if i < rest.len() {
                assert(rest[i].path == path);
            }
            assert(writes_symbol(t, scope, ps, k - 1, path));
        }
        if exists|j: int| 0 <= j < k && #[trigger] writes_symbol(t, scope, ps, j, path) {
            let j = choose|j: int| 0 <= j < k && #[trigger] writes_symbol(t, scope, ps, j, path);
            if j < k - 1 {
                assert(writes_symbol(t, scope, ps, j, path));
            }
        }
    }
}

/// The logged symbols are exactly those with a rate.
pub proof fn logged_symbols_are_exact(s: Seq<SymbolView>, k: int, x: SymbolView)
    requires
        0 <= k <= s.len(),
    ensures
        logged_upto(s, k).contains(x) <==> s.take(k).contains(x) && x.log_rate is Some,
    decreases k,
{
    if k > 0 {
        logged_symbols_are_exact(s, k - 1, x);
        lemma_taken_holds(s, k, x);
        lemma_pushed_holds(logged_upto(s, k - 1), s[k - 1], x);
    } else {
        assert(logged_upto(s, k) =~= Seq::empty());
    }
}

proof fn lemma_in_set(s: Seq<Seq<char>>, x: Seq<char>, y: Seq<char>)
    ensures
        set_with(s, x).contains(y) <==> s.contains(y) || y == x,
    decreases s.len(),
{
    if s.len() == 0 || before(s.last(), x) {
        lemma_pushed_holds(s, x, y);
    } else if s.last() == x {
        assert(s[s.len() - 1] == x);
    } else {
        lemma_in_set(s.drop_last(), x, y);
        lemma_pushed_holds(set_with(s.drop_last(), x), s.last(), y);
        assert(s =~= s.drop_last().push(s.last()));
        lemma_pushed_holds(s.drop_last(), s.last(), y);
    }
}

/// The access levels are exactly those of the symbols.
pub proof fn access_levels_are_exact(s: Seq<SymbolView>, k: int, level: Seq<char>)
    requires
        0 <= k <= s.len(),
    ensures
        levels_upto(s, k).contains(level) <==> exists|i: int|
            0 <= i < k && (#[trigger] s[i]).security == Some(level),
    decreases k,
{
    if k > 0 {
        access_levels_are_exact(s, k - 1, level);
        if let Some(own) = s[k - 1].security {
            lemma_in_set(levels_upto(s, k - 1), own, level);
        }
        if exists|i: int| 0 <= i < k - 1 && (#[trigger] s[i]).security == Some(level) {
            let i = choose|i: int| 0 <= i < k - 1 && (#[trigger] s[i]).security == Some(level);
            assert(s[i].security == Some(level));
        }
    } else {
        assert(levels_upto(s, k) =~= Seq::empty());
    }
}

/// One of the badges has the title.
pub open spec fn has_badge(ls: Seq<CodeLensView>, title: Seq<char>) -> bool {
    exists|i: int|
        0 <= i < ls.len() && (#[trigger] ls[i]).command.title == title && ls[i].range.start == (
        Position { line: 0, character: 0 })
}

proof fn lemma_badge_added(ls: Seq<CodeLensView>, l: Option<CodeLensView>, title: Seq<char>)
    ensures
        has_badge(ls, title) ==> has_badge(and_badge(ls, l), title),
        l is Some && l.unwrap().command.title == title && l.unwrap().range == line_range(0)
            ==> has_badge(and_badge(ls, l), title),
{
    if let Some(x) = l {
        let all = ls.push(x);
        assert(all[ls.len() as int] == x);
        if has_badge(ls, title) {
            let i = choose|i: int|
                0 <= i < ls.len() && (#[trigger] ls[i]).command.title == title && ls[i].range.start
                    == (Position { line: 0, character: 0 });
            assert(all[i] == ls[i]);
        }
    }
}

/// A script of the project has a badge for how often it runs, for what it logs and for the
/// access that it or what it writes needs.
pub proof fn scripts_have_badges(
    loaded: LoadedProjectView,
    uri: Seq<char>,
    script: ParsedScriptView,
    name: Seq<char>,
    sym: SymbolView,
)
    requires
        uri_file_name(uri) == Some(name),
        ends(name, ".m1scr"@),
        script_symbol_at(loaded.project.symbols, name, 0) == Some(sym),
    ensures
        ({
            let ls = badges_of(loaded, uri, Some(script));
            let written = written_by(script);
            let logged = logged_upto(written, written.len() as int);
            &&& sym.call_rate is Some ==> has_badge(
                ls,
                "⚡ "@ + sym.call_rate.unwrap().plain + " Hz"@,
            )
            &&& logged.len() == 1 ==> has_badge(
                ls,
                "📊 logs "@ + leaf_name(logged[0].path) + " @ "@ + logged[0].log_rate.unwrap().plain
                    + " Hz"@,
            )
            &&& logged.len() > 1 ==> has_badge(
                ls,
                "📊 logs "@ + decimal(logged.len()) + " channels"@,
            )
            &&& sym.security is Some ==> has_badge(ls, "🔒 "@ + sym.security.unwrap())
            &&& sym.security is None && (exists|i: int|
                0 <= i < written.len() && (#[trigger] written[i]).security is Some) ==> has_badge(
                ls,
                "🔒 writes "@ + joined(levels_upto(written, written.len() as int), ", "@),
            )
        }),
{
    let written = written_by(script);
    let s0 = Seq::<CodeLensView>::empty();
    let a = rate_badge(loaded, sym);
    let b = logging_badge(loaded, written);
    let c = security_badge(loaded, sym, written);
    let s1 = and_badge(s0, a);
    let s2 = and_badge(s1, b);
    if let Some(x) = a {
        lemma_badge_added(s0, a, x.command.title);
        lemma_badge_added(s1, b, x.command.title);
        lemma_badge_added(s2, c, x.command.title);
    }
    if let Some(x) = b {
        lemma_badge_added(s1, b, x.command.title);
        lemma_badge_added(s2, c, x.command.title);
    }
    if let Some(x) = c {
        lemma_badge_added(s2, c, x.command.title);
    }
    lemma_secured(written, 0);
}

proof fn lemma_secured(s: Seq<SymbolView>, i: int)
    requires
        0 <= i <= s.len(),
    ensures
        first_secured(s, i) is None ==> forall|j: int|
            i <= j < s.len() ==> (#[trigger] s[j]).security is None,
    decreases s.len() - i,
{
    if i < s.len() && s[i].security is None {
        lemma_secured(s, i + 1);
    }
}

/// A badge leads to the line of the project file that it is about.
pub proof fn badges_lead_to_the_project_file(
    loaded: LoadedProjectView,
    title: Seq<char>,
    line: u32,
    uri: Seq<char>,
)
    requires
        file_uri(loaded.m1prj_path) == Some(uri),
    ensures
        reveal_line(loaded, title, Some(line)) == (CommandView {
            title,
            command: "m1.revealLocation"@,
            arguments: Some(seq![ArgumentView::Text(uri), ArgumentView::Number(line)]),
        }),
{
}

// ---------------------------------------------------------------------------
// Folds
// ---------------------------------------------------------------------------

/// The blocks and block comments over more than one line fold, from their start to their end,
/// and nothing else does.
pub proof fn folds_are_exact(t: Tree, s: Seq<char>, enc: PositionEncoding, k: int, f: FoldingRange)
    requires
        0 <= k <= t.size() <= usize::MAX,
    ensures
        folds_upto(t, s, enc, k).contains(f) <==> exists|n: usize|
            n < k && #[trigger] is_fold(t, n, s, enc, f),
    decreases k,
{
    if k > 0 {
        let n = (k - 1) as usize;
        folds_are_exact(t, s, enc, k - 1, f);
        let rest = folds_upto(t, s, enc, k - 1);
        lemma_pushed_holds(rest, fold_of(t, n, s, enc), f);
        if rest.contains(f) {
            let m = choose|m: usize| m < k - 1 && #[trigger] is_fold(t, m, s, enc, f);
            assert(m < k && is_fold(t, m, s, enc, f));
        }
        if folds_upto(t, s, enc, k).contains(f) && !rest.contains(f) {
            assert(is_fold(t, n, s, enc, f));
        }
        if exists|m: usize| m < k && #[trigger] is_fold(t, m, s, enc, f) {
            let m = choose|m: usize| m < k && #[trigger] is_fold(t, m, s, enc, f);
            if m < k - 1 {
                assert(m < k - 1 && is_fold(t, m, s, enc, f));
            }
        }
    } else {
        assert(folds_upto(t, s, enc, k) =~= Seq::empty());
    }
}

/// The fold is that of node `n`, a block or a block comment over more than one line.
pub open spec fn is_fold(t: Tree, n: usize, s: Seq<char>, enc: PositionEncoding, f: FoldingRange) -> bool {
    let r = range_of(s, t.start(n), t.end(n), enc);
    &&& t.kind(n) == Kind::Block || t.kind(n) == Kind::BlockComment
    &&& r.start.line < r.end.line
    &&& f.start_line == r.start.line && f.start_character == r.start.character
    &&& f.end_line == r.end.line && f.end_character == r.end.character
    &&& f.kind == (if t.kind(n) == Kind::BlockComment {
        Some(FoldingRangeKind::Comment)
    } else {
        None
    })
}

// ---------------------------------------------------------------------------
// Links
// ---------------------------------------------------------------------------

/// The attribute at index `m` stands in no value of another one: each that starts before it
/// ends before it.
pub open spec fn stands_free(s: Seq<char>, needle: Seq<char>, m: int) -> bool {
    forall|i: int|
        0 <= i < m && #[trigger] matches_at(s, needle, i) ==> exists|q: int|
            i + needle.len() <= q < m && s[q] == '"'
}

/// The value of every attribute that stands free is found.
pub proof fn every_value_is_found(
    s: Seq<char>,
    needle: Seq<char>,
    value: Seq<char>,
    i: int,
    m: int,
)
    requires
        s.len() <= usize::MAX,
        0 <= i <= m,
        matches_at(s, needle + value + "\""@, m),
        needle.len() > 0,
        needle.last() == '"',
        !value.contains('"'),
        stands_free(s, needle, m),
    ensures
        values_from(s, needle, i).contains(
            ((m + needle.len()) as usize, (m + needle.len() + value.len()) as usize),
        ),
        s.subrange(m + needle.len(), m + needle.len() + value.len()) == value,
    decreases s.len() - i,
{
    lemma_value_at(s, needle, value, m);
    let a = m + needle.len();
    let z = a + value.len();
    assert(matches_at(s, needle, m));
    lemma_first_match(s, needle, i);
    let m1 = first_match(s, needle, i).unwrap();
    let a1 = m1 + needle.len();
    lemma_first_index(s, '"', a1);
    let x = (a as usize, z as usize);
    if m1 == m {
        assert(first_index(s, '"', a) == Some(z)) by {
            let w = first_index(s, '"', a).unwrap();
            if w < z {
                assert(s[w] != '"');
            }
        }
        let all = values_from(s, needle, i);
        assert(all[0] == x);
    } else {
        assert(matches_at(s, needle, m1));
        let q = choose|q: int| m1 + needle.len() <= q < m && s[q] == '"';
        let z1 = first_index(s, '"', a1).unwrap();
        assert(z1 <= q);
        every_value_is_found(s, needle, value, z1 + 1, m);
        lemma_either_holds(
            seq![(a1 as usize, z1 as usize)],
            values_from(s, needle, z1 + 1),
            x,
        );
    }
}

proof fn lemma_links(
    s: Seq<char>,
    spans: Seq<(usize, usize)>,
    index: Seq<char>,
    enc: PositionEncoding,
    root: Seq<char>,
    k: int,
    j: int,
)
    requires
        0 <= j < k <= spans.len(),
        link_of(s, spans[j].0 as int, spans[j].1 as int, index, enc, root) is Some,
    ensures
        links_upto(s, spans, index, enc, root, k).contains(
            link_of(s, spans[j].0 as int, spans[j].1 as int, index, enc, root).unwrap(),
        ),
    decreases k,
{
    let rest = links_upto(s, spans, index, enc, root, k - 1);
    let x = link_of(s, spans[j].0 as int, spans[j].1 as int, index, enc, root).unwrap();
    if j < k - 1 {
        lemma_links(s, spans, index, enc, root, k - 1, j);
    }
    if let Some(l) = link_of(s, spans[k - 1].0 as int, spans[k - 1].1 as int, index, enc, root) {
        lemma_pushed_holds(rest, l, x);
    }
}

/// Every file name in the project file that leads to a place below the project directory is a
/// link to that place, over the name.
pub proof fn every_file_is_linked(
    s: Seq<char>,
    enc: PositionEncoding,
    root: Seq<char>,
    name: Seq<char>,
    m: int,
    target: Seq<char>,
)
    requires
        s.len() <= usize::MAX,
        0 <= m,
        matches_at(s, "Filename=\""@ + name + "\""@, m),
        stands_free(s, "Filename=\""@, m),
        name.len() > 0,
        !name.contains('"'),
        is_contained(root, name),
        file_uri(below(root, name)) == Some(target),
    ensures
        ({
            let spans = values_of(s, "Filename=\""@);
            let a = m + "Filename=\""@.len();
            links_upto(s, spans, s, enc, root, spans.len() as int).contains(
                DocumentLinkView {
                    range: range_of(
                        s,
                        byte_at(s, a) as int,
                        byte_at(s, a + name.len()) as int,
                        enc,
                    ),
                    target,
                    tooltip: "Open "@ + name,
                },
            )
        }),
{
    reveal_strlit("Filename=\"");
    let needle = "Filename=\""@;
    every_value_is_found(s, needle, name, 0, m);
    lemma_value_at(s, needle, name, m);
    let spans = values_of(s, needle);
    let a = m + needle.len();
    let x = (a as usize, (a + name.len()) as usize);
    let j = choose|j: int| 0 <= j < spans.len() && spans[j] == x;
    lemma_links(s, spans, s, enc, root, spans.len() as int, j);
}

/// Every link leads to a place below the project directory.
pub proof fn links_stay_in_the_project(
    s: Seq<char>,
    spans: Seq<(usize, usize)>,
    index: Seq<char>,
    enc: PositionEncoding,
    root: Seq<char>,
    k: int,
    l: DocumentLinkView,
)
    requires
        0 <= k <= spans.len(),
        links_upto(s, spans, index, enc, root, k).contains(l),
    ensures
        exists|j: int| #[trigger]
            is_linked(s, spans, root, j, l) && 0 <= j < k && is_contained(
                root,
                s.subrange(spans[j].0 as int, spans[j].1 as int),
            ),
    decreases k,
{
    if k > 0 {
        let rest = links_upto(s, spans, index, enc, root, k - 1);
        if let Some(x) = link_of(s, spans[k - 1].0 as int, spans[k - 1].1 as int, index, enc, root) {
            lemma_pushed_holds(rest, x, l);
        }
        if rest.contains(l) {
            links_stay_in_the_project(s, spans, index, enc, root, k - 1, l);
        } else {
            assert(is_linked(s, spans, root, k - 1, l));
        }
    } else {
        assert(links_upto(s, spans, index, enc, root, k) =~= Seq::empty());
    }
}

/// The link is for the name between the two places, and leads to the file of that name below
/// the directory.
pub open spec fn is_linked(
    s: Seq<char>,
    spans: Seq<(usize, usize)>,
    root: Seq<char>,
    j: int,
    l: DocumentLinkView,
) -> bool {
    let name = s.subrange(spans[j].0 as int, spans[j].1 as int);
    file_uri(below(root, name)) == Some(l.target) && l.tooltip == "Open "@ + name
}

} // verus!
