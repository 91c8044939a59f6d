//! Renaming of a group: its declaration and those of everything below it, every reference
//! that spells it, and the scripts whose names hold it.
use crate::attributes::{attribute_values, places_from, places_of, span_in, values_of};
use crate::call_hierarchy::is_callable;
use crate::code_lens::{leaf, leaf_name};
use crate::completion::{unrooted, without_root};
use crate::edits::{
    by_steps, DocumentChangeOperation, DocumentChangeOperationView, DocumentChanges, edit_step,
    RenameFile, RenameFileView, text_doc_edit, TextEdit, TextEditView, WorkspaceEdit,
    WorkspaceEditView,
};
use crate::line_index::{LineIndex, PositionEncoding, range_of};
use crate::list::{copied_opt, extend, fresh, one, put};
use crate::locate::{segment_nodes, segments, top_path_seq, top_paths};
use crate::model::{
    LoadedProject, LoadedProjectView, Project, ProjectView, Scope, ScopeView, Symbol, SymbolKind,
    SymbolView,
};
use crate::references::{Script, ScriptView};
use crate::rename::changes::{
    check_new_name, file_move, index_text, load_prj_text, move_file, name_conflict, not_declared,
    not_declared_text, outcome, project_file, script_path, script_path_at,
};
use crate::rename::local::{rename_nodes, renamed};
use crate::rename::resolve::{
    edit_span, is_user_authored_script, is_user_script, prefix_named, resolve_prefix, with_leaf,
};
use crate::search::{
    after_prefix, begins, concat, ends, last_index, lemma_last_index, split, split_on,
    starts_with, strip_prefix,
};
use crate::syntax::{SyntaxTree, Tree};
use crate::text::{byte_at, chars, same, string, substring};
use vstd::prelude::*;
use vstd::string::*;

verus! {

/// The path of a group, or of something below it.
pub open spec fn in_group(path: Seq<char>, group: Seq<char>) -> bool {
    path == group || begins(path, group + "."@)
}

/// What stands in front of the last segment of a path, its dot included.
pub open spec fn head_len(path: Seq<char>) -> int {
    path.len() - leaf_name(path).len()
}

/// The path of something below a group, when the end `old_leaf` of the group's path is
/// another.
pub open spec fn end_renamed(
    path: Seq<char>,
    group: Seq<char>,
    old_leaf: Seq<char>,
    new_name: Seq<char>,
) -> Seq<char> {
    path.take(group.len() - old_leaf.len()) + new_name + path.skip(group.len() as int)
}

/// The path of something below a group, when the group has another name.
pub open spec fn group_renamed(path: Seq<char>, group: Seq<char>, new_name: Seq<char>) -> Seq<char> {
    end_renamed(path, group, leaf_name(group), new_name)
}

/// The path of something below a group whose path ends in `old_leaf`, when it ends in
/// `new_name`.
pub fn rename_group_segment(path: &str, group: &str, old_leaf: &str, new_name: &str) -> (r: String)
    requires
        in_group(path@, group@),
        ends(group@, old_leaf@),
    ensures
        r@ == end_renamed(path@, group@, old_leaf@, new_name@),
{
    let v = chars(path);
    let g = chars(group);
    proof {
        lemma_in_group_prefix(path@, group@);
    }
    let h: usize = g.len() - chars(old_leaf).len();
    let mut r = substring(&v, 0, h);
    assert(r@ =~= path@.take(h as int));
    r.append(new_name);
    let rest = substring(&v, g.len(), v.len());
    assert(rest@ =~= path@.skip(g@.len() as int));
    r.append(rest.as_str());
    r
}

pub proof fn lemma_head_len(path: Seq<char>)
    ensures
        0 <= head_len(path) <= path.len(),
        head_len(path) + leaf_name(path).len() == path.len(),
        leaf_name(path) == path.skip(head_len(path)),
        head_len(path) > 0 ==> path[head_len(path) - 1] == '.',
        forall|i: int| head_len(path) <= i < path.len() ==> path[i] != '.',
{
    lemma_last_index(path, '.', path.len() as int);
    assert(path.skip(0) =~= path);
}

/// A file name that starts with the word `old_leaf`, with another first word. None where it
/// starts with another word.
pub open spec fn leading_word_renamed(
    file: Seq<char>,
    old_leaf: Seq<char>,
    new_name: Seq<char>,
) -> Option<Seq<char>> {
    match after_prefix(file, old_leaf) {
        Some(rest) => if rest.len() > 0 && (rest[0] == ' ' || rest[0] == '.') {
            Some(new_name + rest)
        } else {
            None
        },
        None => None,
    }
}

/// A file name with another first word.
pub fn rewrite_filename_group_segment(file: &str, old_leaf: &str, new_name: &str) -> (r: Option<
    String,
>)
    ensures
        r.deep_view() == leading_word_renamed(file@, old_leaf@, new_name@),
{
    match strip_prefix(&chars(file), &chars(old_leaf)) {
        Some(rest) => {
            assert(rest.deep_view() =~= rest@);
            if rest.len() > 0 && (rest[0] == ' ' || rest[0] == '.') {
                let mut r = new_name.to_owned();
                r.append(string(&rest).as_str());
                Some(r)
            } else {
                None
            }
        },
        None => None,
    }
}

// ---------------------------------------------------------------------------
// The project file
// ---------------------------------------------------------------------------

/// The edits of the first `k` names that are the group's or of something below it.
pub open spec fn name_edits_upto(
    s: Seq<char>,
    spans: Seq<(usize, usize)>,
    group: Seq<char>,
    new_name: Seq<char>,
    enc: PositionEncoding,
    k: int,
) -> Seq<TextEditView>
    decreases k,
{
    if k <= 0 {
        Seq::empty()
    } else {
        let (a, z) = spans[k - 1];
        let rest = name_edits_upto(s, spans, group, new_name, enc, k - 1);
        if in_group(s.subrange(a as int, z as int), group) {
            rest.push(
                TextEditView {
                    range: range_of(
                        s,
                        byte_at(s, a + head_len(group)) as int,
                        byte_at(s, a + group.len()) as int,
                        enc,
                    ),
                    new_text: new_name,
                },
            )
        } else {
            rest
        }
    }
}

/// The edits of the names in the project file.
pub open spec fn name_edits(
    s: Seq<char>,
    group: Seq<char>,
    new_name: Seq<char>,
    enc: PositionEncoding,
) -> Seq<TextEditView> {
    let spans = values_of(s, "Name=\""@);
    name_edits_upto(s, spans, group, new_name, enc, spans.len() as int)
}

fn is_in_group(path: &str, group: &str) -> (r: bool)
    ensures
        r == in_group(path@, group@),
{
    same(path, group) || starts_with(path, concat(group, ".").as_str())
}

fn m1prj_group_edits(prj: &LineIndex, group: &str, new_name: &str, enc: PositionEncoding) -> (r: Vec<
    TextEdit,
>)
    ensures
        r.deep_view() == name_edits(prj@, group@, new_name@, enc),
{
    let v = prj.characters();
    let size: usize = v.len();
    let spans = attribute_values(v, "Name=\"");
    let g: usize = chars(group).len();
    proof {
        lemma_head_len(group@);
    }
    let h: usize = g - chars(leaf(group).as_str()).len();
    let mut r: Vec<TextEdit> = fresh();
    let mut k: usize = 0;
    while k < spans.len()
        invariant
            k <= spans@.len(),
            v@ == prj@,
            size == v@.len(),
            g == group@.len(),
            h == head_len(group@),
            h <= g,
            forall|i: int| 0 <= i < spans@.len() ==> span_in(v@, #[trigger] spans@[i]),
            r.deep_view() == name_edits_upto(v@, spans@, group@, new_name@, enc, k as int),
        decreases spans@.len() - k,
    {
        let (a, z) = spans[k];
        assert(span_in(v@, spans@[k as int]));
        if is_in_group(substring(v, a, z).as_str(), group) {
            assert(a + g <= size);
            put(&mut r, edit_span(prj, a + h, a + g, new_name, enc));
        }
        k = k + 1;
    }
    r
}

/// The file of the symbol, if it lies below the group and starts with the group's name: with
/// another name for the group.
pub open spec fn group_file(sym: SymbolView, group: Seq<char>, new_name: Seq<char>) -> Option<
    (Seq<char>, Seq<char>),
> {
    match sym.filename {
        Some(f) => match leading_word_renamed(f, leaf_name(group), new_name) {
            Some(g) if begins(sym.path, group + "."@) => Some((f, g)),
            _ => None,
        },
        None => None,
    }
}

/// One of the first `k` symbols has the file.
pub open spec fn file_seen(
    syms: Seq<SymbolView>,
    group: Seq<char>,
    new_name: Seq<char>,
    file: Seq<char>,
    k: int,
) -> bool {
    exists|j: int|
        0 <= j < k && (match group_file(#[trigger] syms[j], group, new_name) {
            Some((f, g)) => f == file,
            None => false,
        })
}

/// The edits of the first `k` places of a file name.
pub open spec fn place_edits(
    s: Seq<char>,
    places: Seq<usize>,
    file: Seq<char>,
    new_file: Seq<char>,
    enc: PositionEncoding,
    k: int,
) -> Seq<TextEditView>
    decreases k,
{
    if k <= 0 {
        Seq::empty()
    } else {
        let a = places[k - 1] + "Filename=\""@.len();
        place_edits(s, places, file, new_file, enc, k - 1).push(
            TextEditView {
                range: range_of(
                    s,
                    byte_at(s, a) as int,
                    byte_at(s, a + file.len()) as int,
                    enc,
                ),
                new_text: new_file,
            },
        )
    }
}

/// The edits of every `Filename` attribute with that value.
pub open spec fn all_filename_edits(
    s: Seq<char>,
    file: Seq<char>,
    new_file: Seq<char>,
    enc: PositionEncoding,
) -> Seq<TextEditView> {
    let places = places_from(s, "Filename=\""@ + file + "\""@, 0);
    place_edits(s, places, file, new_file, enc, places.len() as int)
}

/// The edits of the files of the first `k` symbols, each file once.
pub open spec fn file_edits_upto(
    s: Seq<char>,
    syms: Seq<SymbolView>,
    group: Seq<char>,
    new_name: Seq<char>,
    enc: PositionEncoding,
    k: int,
) -> Seq<TextEditView>
    decreases k,
{
    if k <= 0 {
        Seq::empty()
    } else {
        let rest = file_edits_upto(s, syms, group, new_name, enc, k - 1);
        match group_file(syms[k - 1], group, new_name) {
            Some((f, g)) => if file_seen(syms, group, new_name, f, k - 1) {
                rest
            } else {
                rest + all_filename_edits(s, f, g, enc)
            },
            None => rest,
        }
    }
}

/// The edits of every `Filename` attribute with that value.
pub(crate) fn filename_edits(prj: &LineIndex, file: &str, new_file: &str, enc: PositionEncoding) -> (r:
    Vec<TextEdit>)
    ensures
        r.deep_view() == all_filename_edits(prj@, file@, new_file@, enc),
{
    let v = prj.characters();
    let size: usize = v.len();
    let n: usize = chars(file).len();
    let mut needle = "Filename=\"".to_string();
    needle.append(file);
    needle.append("\"");
    let p = chars(needle.as_str());
    proof {
        reveal_strlit("Filename=\"");
        reveal_strlit("\"");
    }
    let places = places_of(v, &p);
    let mut r: Vec<TextEdit> = fresh();
    let mut k: usize = 0;
    while k < places.len()
        invariant
            k <= places@.len(),
            v@ == prj@,
            size == v@.len(),
            n == file@.len(),
            p@.len() == 10 + n + 1,
            "Filename=\""@.len() == 10,
            forall|i: int| 0 <= i < places@.len() ==> (#[trigger] places@[i]) + p@.len() <= v@.len(),
            r.deep_view() == place_edits(v@, places@, file@, new_file@, enc, k as int),
        decreases places@.len() - k,
    {
        let m: usize = places[k];
        assert(m + p@.len() <= size);
        put(&mut r, edit_span(prj, m + 10, m + 10 + n, new_file, enc));
        k = k + 1;
    }
    r
}

fn moved_file(sym: &Symbol, group: &str, new_name: &str) -> (r: Option<(String, String)>)
    ensures
        r.deep_view() == group_file(sym.deep_view(), group@, new_name@),
{
    match &sym.filename {
        Some(f) => {
            if !starts_with(sym.path.as_str(), concat(group, ".").as_str()) {
                return None;
            }
            match rewrite_filename_group_segment(f.as_str(), leaf(group).as_str(), new_name) {
                Some(g) => Some((f.clone(), g)),
                None => None,
            }
        },
        None => None,
    }
}

fn was_seen(project: &Project, group: &str, new_name: &str, file: &str, k: usize) -> (r: bool)
    requires
        k <= project.symbols@.len(),
    ensures
        r == file_seen(project.deep_view().symbols, group@, new_name@, file@, k as int),
{
    let ghost syms = project.deep_view().symbols;
    let mut j: usize = 0;
    while j < k
        invariant
            j <= k <= project.symbols@.len(),
            syms == project.deep_view().symbols,
            !file_seen(syms, group@, new_name@, file@, j as int),
        decreases k - j,
    {
        assert(syms[j as int] == project.symbols@[j as int].deep_view());
        if let Some((f, g)) = moved_file(&project.symbols[j], group, new_name) {
            if same(f.as_str(), file) {
                return true;
            }
        }
        j = j + 1;
    }
    false
}

fn m1prj_filename_edits(
    prj: &LineIndex,
    project: &Project,
    group: &str,
    new_name: &str,
    enc: PositionEncoding,
) -> (r: Vec<TextEdit>)
    ensures
        r.deep_view() == file_edits_upto(
            prj@,
            project.deep_view().symbols,
            group@,
            new_name@,
            enc,
            project.symbols@.len() as int,
        ),
{
    let ghost syms = project.deep_view().symbols;
    let mut r: Vec<TextEdit> = fresh();
    let mut k: usize = 0;
    while k < project.symbols.len()
        invariant
            k <= project.symbols@.len(),
            syms == project.deep_view().symbols,
            r.deep_view() == file_edits_upto(prj@, syms, group@, new_name@, enc, k as int),
        decreases project.symbols@.len() - k,
    {
        assert(syms[k as int] == project.symbols@[k as int].deep_view());
        if let Some((f, g)) = moved_file(&project.symbols[k], group, new_name) {
            if !was_seen(project, group, new_name, f.as_str(), k) {
                extend(&mut r, filename_edits(prj, f.as_str(), g.as_str(), enc));
            }
        }
        k = k + 1;
    }
    r
}

// ---------------------------------------------------------------------------
// References
// ---------------------------------------------------------------------------

/// How many segments a path has.
pub open spec fn depth(path: Seq<char>) -> int {
    split(path, '.').len() as int
}

/// The segment of path `n` that spells the group, if the path names the group or something
/// below it.
pub open spec fn group_segment(
    t: Tree,
    n: usize,
    group: Seq<char>,
    scope: ScopeView,
    project: ProjectView,
) -> Option<usize> {
    match prefix_named(t.text_of(n), scope, project) {
        Some((sym, k)) => {
            let segs = segments(t, n);
            let i = k - 1 - (depth(sym.path) - depth(group));
            if in_group(sym.path, group) && depth(group) <= depth(sym.path) && 0 <= i < segs.len()
                && t.text_of(segs[i]) == leaf_name(group) {
                Some(segs[i])
            } else {
                None
            }
        },
        None => None,
    }
}

/// The segments that spell the group, in the first `k` paths.
pub open spec fn group_segments(
    t: Tree,
    group: Seq<char>,
    scope: ScopeView,
    project: ProjectView,
    ps: Seq<(usize, bool)>,
    k: int,
) -> Seq<usize>
    decreases k,
{
    if k <= 0 {
        Seq::empty()
    } else {
        let rest = group_segments(t, group, scope, project, ps, k - 1);
        match group_segment(t, ps[k - 1].0, group, scope, project) {
            Some(seg) => rest.push(seg),
            None => rest,
        }
    }
}

/// The edits that give the group its new name in one script.
pub open spec fn group_reference_edits(
    script: ScriptView,
    group: Seq<char>,
    new_name: Seq<char>,
    project: ProjectView,
    enc: PositionEncoding,
) -> Seq<TextEditView> {
    let ps = top_path_seq(script.tree);
    renamed(
        script.tree,
        group_segments(script.tree, group, script.scope, project, ps, ps.len() as int),
        new_name,
        script.index,
        enc,
    )
}

fn find_group_segment(tree: &SyntaxTree, n: usize, group: &str, scope: &Scope, project: &Project) -> (r:
    Option<usize>)
    requires
        tree@.has(n),
    ensures
        r == group_segment(tree@, n, group@, scope.deep_view(), project.deep_view()),
        r matches Some(seg) ==> tree@.has(seg),
{
    match resolve_prefix(tree.text_of(n).as_str(), scope, project) {
        Some((sym, k)) => {
            if !is_in_group(sym.path.as_str(), group) {
                return None;
            }
            let a_parts = split_on(sym.path.as_str(), '.');
            let g_parts = split_on(group, '.');
            assert(a_parts.deep_view().len() == a_parts@.len());
            assert(g_parts.deep_view().len() == g_parts@.len());
            let a: usize = a_parts.len();
            let g: usize = g_parts.len();
            if a < g || k - 1 < a - g {
                return None;
            }
            let i: usize = k - 1 - (a - g);
            let segs = segment_nodes(tree, n);
            if i < segs.len() && same(tree.text_of(segs[i]).as_str(), leaf(group).as_str()) {
                Some(segs[i])
            } else {
                None
            }
        },
        None => None,
    }
}

fn collect_group_ref_edits(
    script: &Script,
    group: &str,
    new_name: &str,
    project: &Project,
    enc: PositionEncoding,
) -> (r: Vec<TextEdit>)
    ensures
        r.deep_view() == group_reference_edits(
            script.deep_view(),
            group@,
            new_name@,
            project.deep_view(),
            enc,
        ),
{
    let tree = &script.tree;
    let scope = &script.scope;
    let ps = top_paths(tree);
    let mut ns: Vec<usize> = Vec::new();
    let mut k: usize = 0;
    while k < ps.len()
        invariant
            k <= ps@.len(),
            ps@ == top_path_seq(tree@),
            forall|i: int| 0 <= i < ps@.len() ==> tree@.has((#[trigger] ps@[i]).0),
            forall|i: int| 0 <= i < ns@.len() ==> tree@.has(#[trigger] ns@[i]),
            ns@ == group_segments(
                tree@,
                group@,
                scope.deep_view(),
                project.deep_view(),
                ps@,
                k as int,
            ),
        decreases ps@.len() - k,
    {
        if let Some(seg) = find_group_segment(tree, ps[k].0, group, scope, project) {
            ns.push(seg);
        }
        k = k + 1;
    }
    rename_nodes(tree, &ns, new_name, &script.index, enc)
}

/// The steps with the edits of the first `k` scripts.
pub open spec fn with_group_steps(
    ops: Seq<DocumentChangeOperationView>,
    scripts: Seq<ScriptView>,
    group: Seq<char>,
    new_name: Seq<char>,
    project: ProjectView,
    enc: PositionEncoding,
    k: int,
) -> Seq<DocumentChangeOperationView>
    decreases k,
{
    if k <= 0 {
        ops
    } else {
        let rest = with_group_steps(ops, scripts, group, new_name, project, enc, k - 1);
        let edits = group_reference_edits(scripts[k - 1], group, new_name, project, enc);
        if edits.len() == 0 {
            rest
        } else {
            rest.push(edit_step(scripts[k - 1].uri, edits))
        }
    }
}

// ---------------------------------------------------------------------------
// Files
// ---------------------------------------------------------------------------

/// The file of a script below the group, and the name that it gets. None where the name of
/// the file does not hold the group.
pub open spec fn script_move(sym: SymbolView, group: Seq<char>, new_name: Seq<char>) -> Option<
    (Seq<char>, Seq<char>),
> {
    match sym.filename {
        Some(f) => match leading_word_renamed(f, leaf_name(group), new_name) {
            Some(g) => Some((f, g)),
            None => None,
        },
        None => Some(
            (
                unrooted(sym.path) + ".m1scr"@,
                unrooted(group_renamed(sym.path, group, new_name)) + ".m1scr"@,
            ),
        ),
    }
}

/// Why a group cannot be renamed that holds a script whose file is not there.
pub open spec fn no_group_script(path: Seq<char>, file: Seq<char>) -> Seq<char> {
    "‘"@ + path + "’ has no locatable backing script ("@ + file
        + "); rename that file before renaming the group so references aren't silently broken"@
}

/// The moves that the first `k` symbols take, or why one of them is not possible.
pub open spec fn moves_upto(
    loaded: LoadedProjectView,
    group: Seq<char>,
    new_name: Seq<char>,
    k: int,
) -> Result<Seq<RenameFileView>, Seq<char>>
    decreases k,
{
    if k <= 0 {
        Ok(Seq::empty())
    } else {
        match moves_upto(loaded, group, new_name, k - 1) {
            Ok(rest) => {
                let sym = loaded.project.symbols[k - 1];
                if is_callable(sym.kind) && begins(sym.path, group + "."@) {
                    match script_move(sym, group, new_name) {
                        Some((old_file, new_file)) => match script_path_at(
                            loaded.script_files,
                            old_file,
                            0,
                        ) {
                            Some(path) => match file_move(path, new_file) {
                                Some(m) => Ok(rest.push(m)),
                                None => Ok(rest),
                            },
                            None => if is_user_script(sym) {
                                Err(no_group_script(sym.path, old_file))
                            } else {
                                Ok(rest)
                            },
                        },
                        None => Ok(rest),
                    }
                } else {
                    Ok(rest)
                }
            },
            Err(m) => Err(m),
        }
    }
}

proof fn lemma_moves_stop(
    loaded: LoadedProjectView,
    group: Seq<char>,
    new_name: Seq<char>,
    i: int,
    k: int,
)
    requires
        i <= k,
        moves_upto(loaded, group, new_name, i) is Err,
    ensures
        moves_upto(loaded, group, new_name, k) == moves_upto(loaded, group, new_name, i),
    decreases k - i,
{
    if i < k {
        lemma_moves_stop(loaded, group, new_name, i, k - 1);
    }
}

fn move_of(sym: &Symbol, group: &str, new_name: &str) -> (r: Option<(String, String)>)
    requires
        in_group(sym.path@, group@),
    ensures
        r.deep_view() == script_move(sym.deep_view(), group@, new_name@),
{
    match &sym.filename {
        Some(f) => match rewrite_filename_group_segment(
            f.as_str(),
            leaf(group).as_str(),
            new_name,
        ) {
            Some(g) => Some((f.clone(), g)),
            None => None,
        },
        None => {
            let mut old_file = without_root(sym.path.as_str());
            old_file.append(".m1scr");
            let old_leaf = leaf(group);
            proof {
                lemma_head_len(group@);
                assert(ends(group@, old_leaf@));
            }
            let full = rename_group_segment(
                sym.path.as_str(),
                group,
                old_leaf.as_str(),
                new_name,
            );
            let mut new_file = without_root(full.as_str());
            new_file.append(".m1scr");
            Some((old_file, new_file))
        },
    }
}

fn group_file_renames(loaded: &LoadedProject, group: &str, new_name: &str) -> (r: Result<
    Vec<RenameFile>,
    String,
>)
    ensures
        ({
            let all = moves_upto(
                loaded.deep_view(),
                group@,
                new_name@,
                loaded.project.symbols@.len() as int,
            );
            match r {
                Ok(v) => all == Ok::<Seq<RenameFileView>, Seq<char>>(v.deep_view()),
                Err(m) => all == Err::<Seq<RenameFileView>, Seq<char>>(m@),
            }
        }),
{
    let ghost lv = loaded.deep_view();
    let symbols = &loaded.project.symbols;
    let mut out: Vec<RenameFile> = fresh();
    let mut k: usize = 0;
    while k < symbols.len()
        invariant
            k <= symbols@.len(),
            symbols == &loaded.project.symbols,
            lv == loaded.deep_view(),
            moves_upto(lv, group@, new_name@, k as int) == Ok::<Seq<RenameFileView>, Seq<char>>(
                out.deep_view(),
            ),
        decreases symbols@.len() - k,
    {
        let sym = &symbols[k];
        assert(lv.project.symbols[k as int] == sym.deep_view());
        if (sym.kind == SymbolKind::Function || sym.kind == SymbolKind::Method) && starts_with(
            sym.path.as_str(),
            concat(group, ".").as_str(),
        ) {
            if let Some((old_file, new_file)) = move_of(sym, group, new_name) {
                match script_path(&loaded.script_files, old_file.as_str()) {
                    Some(path) => {
                        if let Some(m) = move_file(path.as_str(), new_file.as_str()) {
                            put(&mut out, m);
                        }
                    },
                    None => {
                        if is_user_authored_script(sym) {
                            let mut m = "‘".to_string();
                            m.append(sym.path.as_str());
                            m.append("’ has no locatable backing script (");
                            m.append(old_file.as_str());
                            m.append(
                                "); rename that file before renaming the group so references aren't silently broken",
                            );
                            proof {
                                lemma_moves_stop(
                                    lv,
                                    group@,
                                    new_name@,
                                    k + 1,
                                    symbols@.len() as int,
                                );
                            }
                            return Err(m);
                        }
                    },
                }
            }
        }
        k = k + 1;
    }
    Ok(out)
}

pub open spec fn move_steps(ms: Seq<RenameFileView>) -> Seq<DocumentChangeOperationView> {
    ms.map_values(|m: RenameFileView| DocumentChangeOperationView::Rename(m))
}

/// The rename of a group.
pub open spec fn group_rename(
    loaded: LoadedProjectView,
    group: Seq<char>,
    new_name: Seq<char>,
    prj: Option<Seq<char>>,
    scripts: Seq<ScriptView>,
    enc: PositionEncoding,
) -> Result<WorkspaceEditView, Seq<char>> {
    let n = loaded.project.symbols.len() as int;
    match name_conflict(loaded.project, group, new_name) {
        Some(m) => Err(m),
        None => match moves_upto(loaded, group, new_name, n) {
            Err(m) => Err(m),
            Ok(moves) => match project_file(loaded, prj) {
                Err(m) => Err(m),
                Ok(uri) => {
                    let text = prj.unwrap();
                    let names = name_edits(text, group, new_name, enc);
                    if names.len() == 0 {
                        Err(not_declared(group))
                    } else {
                        let edits = names + file_edits_upto(
                            text,
                            loaded.project.symbols,
                            group,
                            new_name,
                            enc,
                            n,
                        );
                        let ops = with_group_steps(
                            seq![edit_step(uri, edits)],
                            scripts,
                            group,
                            new_name,
                            loaded.project,
                            enc,
                            scripts.len() as int,
                        );
                        Ok(by_steps(ops + move_steps(moves)))
                    }
                },
            },
        },
    }
}

/// Renames a group: its declaration and those below it, every reference that spells it, and
/// the scripts whose names hold it. Nothing is renamed where one of the scripts is missing.
pub(crate) fn execute_group(
    group: &str,
    new_name: &str,
    enc: PositionEncoding,
    loaded: &LoadedProject,
    prj: Option<&LineIndex>,
    scripts: &Vec<Script>,
) -> (r: Result<WorkspaceEdit, String>)
    ensures
        outcome(r) == group_rename(
            loaded.deep_view(),
            group@,
            new_name@,
            index_text(prj),
            scripts.deep_view(),
            enc,
        ),
{
    let project = &loaded.project;
    assert(loaded.deep_view().project.symbols.len() == project.symbols@.len());
    if let Some(m) = check_new_name(project, group, new_name) {
        return Err(m);
    }
    let moves = match group_file_renames(loaded, group, new_name) {
        Ok(v) => v,
        Err(m) => {
            return Err(m);
        },
    };
    let (uri, li) = match load_prj_text(loaded, prj) {
        Ok(p) => p,
        Err(m) => {
            return Err(m);
        },
    };
    let mut edits = m1prj_group_edits(li, group, new_name, enc);
    assert(edits.deep_view().len() == edits@.len());
    if edits.len() == 0 {
        return Err(not_declared_text(group));
    }
    extend(&mut edits, m1prj_filename_edits(li, project, group, new_name, enc));
    let mut ops = one(text_doc_edit(uri.as_str(), &edits));
    let ghost first = ops.deep_view();
    let ghost ss = scripts.deep_view();
    let mut k: usize = 0;
    while k < scripts.len()
        invariant
            k <= scripts@.len(),
            ss == scripts.deep_view(),
            ops.deep_view() == with_group_steps(
                first,
                ss,
                group@,
                new_name@,
                project.deep_view(),
                enc,
                k as int,
            ),
        decreases scripts@.len() - k,
    {
        assert(ss[k as int] == scripts@[k as int].deep_view());
        let edits = collect_group_ref_edits(&scripts[k], group, new_name, project, enc);
        assert(edits.deep_view().len() == edits@.len());
        if edits.len() > 0 {
            put(&mut ops, text_doc_edit(scripts[k].uri.as_str(), &edits));
        }
        k = k + 1;
    }
    let ghost before = ops.deep_view();
    let ghost ms = moves.deep_view();
    let mut i: usize = 0;
    assert(ops.deep_view() =~= before + move_steps(ms.take(0)));
    while i < moves.len()
        invariant
            i <= moves@.len(),
            ms == moves.deep_view(),
            ops.deep_view() == before + move_steps(ms.take(i as int)),
        decreases moves@.len() - i,
    {
        assert(ms[i as int] == moves@[i as int].deep_view());
        let m = &moves[i];
        put(
            &mut ops,
            DocumentChangeOperation::Rename(
                RenameFile {
                    old_uri: m.old_uri.clone(),
                    new_uri: m.new_uri.clone(),
                    options: m.options,
                    annotation_id: copied_opt(&m.annotation_id),
                },
            ),
        );
        assert(ops.deep_view() =~= before + move_steps(ms.take(i + 1)));
        i = i + 1;
    }
    assert(ms.take(ms.len() as int) =~= ms);
    Ok(
        WorkspaceEdit {
            changes: None,
            document_changes: Some(DocumentChanges::Operations(ops)),
            change_annotations: None,
        },
    )
}

// ---------------------------------------------------------------------------
// Laws
// ---------------------------------------------------------------------------

/// Renaming a group and back gives every path below it back. In between, the path is that of
/// something below the renamed group, and the same behind it.
pub proof fn group_rename_inverts(
    path: Seq<char>,
    group: Seq<char>,
    old_leaf: Seq<char>,
    new_name: Seq<char>,
)
    requires
        in_group(path, group),
        ends(group, old_leaf),
    ensures
        ({
            let other = group.take(group.len() - old_leaf.len()) + new_name;
            let moved = end_renamed(path, group, old_leaf, new_name);
            &&& ends(other, new_name)
            &&& in_group(moved, other)
            &&& moved.skip(other.len() as int) == path.skip(group.len() as int)
            &&& end_renamed(moved, other, new_name, old_leaf) == path
        }),
{
    reveal_strlit(".");
    lemma_in_group_prefix(path, group);
    let h = group.len() - old_leaf.len();
    let other = group.take(h) + new_name;
    let moved = end_renamed(path, group, old_leaf, new_name);
    assert(path.take(h) =~= group.take(h)) by {
        assert(path.take(group.len() as int).take(h) =~= path.take(h));
    }
    assert(other.subrange(other.len() - new_name.len(), other.len() as int) =~= new_name);
    let rest = path.skip(group.len() as int);
    assert(moved =~= other + rest);
    assert(moved.skip(other.len() as int) =~= rest);
    assert(moved.take(h) =~= group.take(h));
    assert(group.take(h) + old_leaf =~= group);
    assert(path =~= group + rest);
    if path == group {
        assert(rest =~= Seq::empty());
        assert(moved =~= other);
    } else {
        let d = group + "."@;
        assert(path.subrange(0, d.len() as int)[group.len() as int] == '.');
        assert(moved.subrange(0, other.len() as int + 1) =~= other + "."@);
    }
}

/// A group that gets a name without a dot has the path that ends in that name.
pub proof fn renamed_group_has_its_name(group: Seq<char>, new_name: Seq<char>)
    requires
        !new_name.contains('.'),
    ensures
        group_renamed(group, group, new_name) == with_leaf(group, new_name),
        leaf_name(group_renamed(group, group, new_name)) == new_name,
{
    lemma_head_len(group);
    lemma_with_leaf(group, new_name);
    assert(group_renamed(group, group, new_name) =~= with_leaf(group, new_name));
}

pub proof fn lemma_in_group_prefix(path: Seq<char>, group: Seq<char>)
    requires
        in_group(path, group),
    ensures
        group.len() <= path.len(),
        path.take(group.len() as int) == group,
{
    if path == group {
        assert(path.take(group.len() as int) =~= group);
    } else {
        let d = group + "."@;
        assert(path.subrange(0, d.len() as int) == d);
        assert(path.take(group.len() as int) =~= d.take(group.len() as int));
        assert(d.take(group.len() as int) =~= group);
    }
}

/// A path with another last segment has that last segment, and the same head.
pub proof fn lemma_with_leaf(path: Seq<char>, leaf: Seq<char>)
    requires
        !leaf.contains('.'),
    ensures
        head_len(with_leaf(path, leaf)) == head_len(path),
        leaf_name(with_leaf(path, leaf)) == leaf,
        with_leaf(path, leaf) == path.take(head_len(path)) + leaf,
{
    reveal_strlit(".");
    lemma_head_len(path);
    let h = head_len(path);
    let w = with_leaf(path, leaf);
    lemma_last_index(path, '.', path.len() as int);
    assert(w =~= path.take(h) + leaf);
    lemma_last_index(w, '.', w.len() as int);
    assert forall|i: int| h <= i < w.len() implies w[i] != '.' by {
        assert(w[i] == leaf[i - h]);
        assert(leaf.contains(leaf[i - h]));
    }
    match last_index(w, '.', w.len() as int) {
        Some(i) => {
            if h > 0 {
                assert(w[h - 1] == path[h - 1]);
                assert(i == h - 1);
            }
            assert(w.skip(i + 1) =~= leaf);
        },
        None => {
            if h > 0 {
                assert(w[h - 1] == path[h - 1]);
            }
            assert(w =~= leaf);
        },
    }
}

/// Renaming the first word of a file name and back gives the file name.
pub proof fn leading_word_rename_inverts(
    file: Seq<char>,
    old_leaf: Seq<char>,
    new_name: Seq<char>,
)
    requires
        leading_word_renamed(file, old_leaf, new_name) is Some,
    ensures
        leading_word_renamed(
            leading_word_renamed(file, old_leaf, new_name).unwrap(),
            new_name,
            old_leaf,
        ) == Some(file),
{
    let rest = after_prefix(file, old_leaf).unwrap();
    let r = new_name + rest;
    assert(r.subrange(0, new_name.len() as int) =~= new_name);
    assert(r.skip(new_name.len() as int) =~= rest);
    assert(old_leaf + rest =~= file);
}

} // verus!
