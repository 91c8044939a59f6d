//! What a rename does to the project file, to the scripts and to their files.
use crate::attributes::places_from;
use crate::call_hierarchy::is_callable;
use crate::code_lens::leaf_name;
use crate::edits::{
    DocumentChangeOperationView, DocumentChangesView, edit_step, plain_edits, RenameFileView,
    TextEditView, WorkspaceEditView,
};
use crate::hover::hovered;
use crate::laws::{lemma_either_holds, lemma_pushed_holds};
use crate::laws::text::{lemma_one_segment, segments_add_up, siblings_have_their_name};
use crate::line_index::{PositionEncoding, range_of};
use crate::locate::{dotted, path_node, segments, top_path_seq, touched};
use crate::model::{
    key_index, lemma_key_index, LoadedProjectView, ProjectView, ScopeView, SymbolKind, SymbolView,
    value_of,
};
use crate::outside::file_uri;
use crate::paths::{base_name, beside, prefix_len};
use crate::references::{local_at, ScriptView};
use crate::rename::{editable_node, rename_at};
use crate::rename::apply::{
    bare_edits, edited, edits_for, replaced_upto, separate_edits_land_in_any_order, span_edit,
    span_edits, step_edits,
};
use crate::rename::changes::{
    file_move, leaf_rename, merged, script_path_at, with_reference_steps, with_references,
};
use crate::rename::effect::{group_references_are_renamed_exactly, references_are_renamed_exactly};
use crate::rename::func::{
    backing_move, filename_edit, script_declaration_edits, script_rename, trailing_leaf_renamed,
};
use crate::rename::group::{
    all_filename_edits, file_edits_upto, file_seen, group_file, group_reference_edits,
    group_rename, group_segment, group_segments, head_len, lemma_head_len, lemma_with_leaf,
    move_steps, moves_upto, name_edits, place_edits, script_move, with_group_steps,
};
use crate::rename::local::local_edits;
use crate::rename::m1prj::{m1prj_rename, name_at, name_attr, renameable};
use crate::rename::names::{is_local_name, is_structural, is_symbol_name};
use crate::rename::resolve::{
    declaration_edit, kind_label, prefix_named, prefix_upto, reference_edits, rename_kind,
    RenameKind, symbol_named, target_at, target_segment, target_segments, with_leaf,
};
use crate::search::{
    before_suffix, begins, ends, first_match, has, joined, lemma_first_match, trimmed,
};
use crate::syntax::Tree;
use crate::text::{byte_at, byte_len, lemma_byte_len_bounds, matches_at};
use vstd::prelude::*;
use vstd::string::*;

verus! {

// ---------------------------------------------------------------------------
// Steps
// ---------------------------------------------------------------------------

proof fn lemma_step_prefix(
    ops: Seq<DocumentChangeOperationView>,
    x: DocumentChangeOperationView,
    uri: Seq<char>,
    k: int,
)
    requires
        0 <= k <= ops.len(),
    ensures
        step_edits(ops.push(x), uri, k) == step_edits(ops, uri, k),
    decreases k,
{
    if k > 0 {
        lemma_step_prefix(ops, x, uri, k - 1);
        assert(ops.push(x)[k - 1] == ops[k - 1]);
    }
}

proof fn lemma_reference_steps(
    uri: Seq<char>,
    es: Seq<TextEditView>,
    scripts: Seq<ScriptView>,
    target: Seq<char>,
    new_name: Seq<char>,
    project: ProjectView,
    enc: PositionEncoding,
    k: int,
)
    requires
        0 <= k <= scripts.len(),
        forall|i: int| 0 <= i < scripts.len() ==> (#[trigger] scripts[i]).uri != uri,
    ensures
        ({
            let ops = with_reference_steps(
                seq![edit_step(uri, es)],
                scripts,
                target,
                new_name,
                project,
                enc,
                k,
            );
            &&& ops.len() >= 1
            &&& step_edits(ops, uri, ops.len() as int) == es
            &&& forall|q: int| 0 <= q < ops.len() ==> (#[trigger] ops[q]) is Edit
        }),
    decreases k,
{
    let first = seq![edit_step(uri, es)];
    let ops = with_reference_steps(first, scripts, target, new_name, project, enc, k);
    if k > 0 {
        lemma_reference_steps(uri, es, scripts, target, new_name, project, enc, k - 1);
        let rest = with_reference_steps(first, scripts, target, new_name, project, enc, k - 1);
        let edits = reference_edits(scripts[k - 1], target, new_name, project, enc);
        if edits.len() > 0 {
            let x = edit_step(scripts[k - 1].uri, edits);
            lemma_step_prefix(rest, x, uri, rest.len() as int);
            assert(ops.drop_last() =~= rest);
            assert(step_edits(ops, uri, ops.len() as int) =~= es);
            assert forall|q: int| 0 <= q < ops.len() implies (#[trigger] ops[q]) is Edit by {
                if q < rest.len() {
                    assert(ops[q] == rest[q]);
                }
            }
        }
    } else {
        assert(bare_edits(plain_edits(es)) =~= es);
        assert(step_edits(first, uri, 0) =~= Seq::empty());
        assert(step_edits(first, uri, 1) =~= es);
    }
}

/// The steps of a change.
pub open spec fn steps_of(edit: WorkspaceEditView) -> Seq<DocumentChangeOperationView> {
    match edit.document_changes {
        Some(DocumentChangesView::Operations(ops)) => ops,
        _ => Seq::empty(),
    }
}

/// The change moves the file at one place to another.
pub open spec fn moves(edit: WorkspaceEditView, m: RenameFileView) -> bool {
    steps_of(edit).contains(DocumentChangeOperationView::Rename(m))
}

// ---------------------------------------------------------------------------
// The file of a script
// ---------------------------------------------------------------------------

proof fn lemma_path_at(files: Seq<Seq<char>>, name: Seq<char>, i: int)
    requires
        0 <= i <= files.len(),
    ensures
        match script_path_at(files, name, i) {
            Some(path) => files.contains(path) && base_name(path) == Some(name),
            None => forall|j: int|
                i <= j < files.len() ==> base_name(#[trigger] files[j]) != Some(name),
        },
    decreases files.len() - i,
{
    if i < files.len() {
        if base_name(files[i]) != Some(name) {
            lemma_path_at(files, name, i + 1);
        }
    }
}

/// The name of a file whose last word, in front of the extension, is the leaf of `path`, with
/// `new_name` in the place of that word.
pub open spec fn new_file_name(file: Seq<char>, path: Seq<char>, new_name: Seq<char>) -> Seq<char> {
    file.take(file.len() - ".m1scr"@.len() - leaf_name(path).len()) + new_name + ".m1scr"@
}

/// Where the rename of a script that has a file name in the project moves a file, it is a
/// script file of that name, which moves to the name with the new last word, in its directory.
/// The file name ends in the old name of the symbol.
pub proof fn named_scripts_move_with_their_symbol(
    loaded: LoadedProjectView,
    sym: SymbolView,
    new_name: Seq<char>,
    prj: Seq<char>,
    scripts: Seq<ScriptView>,
    enc: PositionEncoding,
    file: Seq<char>,
    m: RenameFileView,
)
    requires
        script_rename(loaded, sym, new_name, Some(prj), scripts, enc) is Ok,
        moves(script_rename(loaded, sym, new_name, Some(prj), scripts, enc)->Ok_0, m),
        sym.filename == Some(file),
        forall|i: int|
            0 <= i < scripts.len() ==> Some((#[trigger] scripts[i]).uri) != file_uri(
                loaded.m1prj_path,
            ),
    ensures
        ends(file, leaf_name(sym.path) + ".m1scr"@),
        exists|path: Seq<char>| #[trigger]
            loaded.script_files.contains(path) && base_name(path) == Some(file) && file_uri(path)
                == Some(m.old_uri) && file_uri(
                beside(path, new_file_name(file, sym.path, new_name)),
            ) == Some(m.new_uri),
{
    let edit = script_rename(loaded, sym, new_name, Some(prj), scripts, enc)->Ok_0;
    let ops = steps_of(edit);
    let backing = backing_move(sym, new_name);
    let uri = file_uri(loaded.m1prj_path).unwrap();
    let e = declaration_edit(prj, sym.path, new_name, enc).unwrap();
    let es = script_declaration_edits(prj, e, backing, enc);
    lemma_reference_steps(
        uri,
        es,
        scripts,
        sym.path,
        new_name,
        loaded.project,
        enc,
        scripts.len() as int,
    );
    let q = choose|q: int|
        0 <= q < ops.len() && ops[q] == DocumentChangeOperationView::Rename(m);
    assert(backing is Some);
    let (old_file, new_file, named) = backing.unwrap();
    lemma_path_at(loaded.script_files, old_file, 0);
    let path = script_path_at(loaded.script_files, old_file, 0).unwrap();
    assert(file_move(path, new_file) == Some(m));
    let leaf = leaf_name(sym.path);
    let ext = ".m1scr"@;
    reveal_strlit(".m1scr");
    let stem = before_suffix(file, ext).unwrap();
    let head = before_suffix(stem, leaf).unwrap();
    assert(head =~= file.take(file.len() - ext.len() - leaf.len()));
    assert(file.subrange(file.len() - ext.len(), file.len() as int) == ext);
    assert(stem.subrange(stem.len() - leaf.len(), stem.len() as int) == leaf);
    assert(file.subrange(file.len() - (leaf + ext).len(), file.len() as int) =~= leaf + ext) by {
        assert(file.subrange(file.len() - (leaf + ext).len(), file.len() as int) =~= stem.subrange(
            stem.len() - leaf.len(),
            stem.len() as int,
        ) + file.subrange(file.len() - ext.len(), file.len() as int));
    }
    assert(new_file == new_file_name(file, sym.path, new_name));
    assert(loaded.script_files.contains(path));
}

pub proof fn lemma_value_at(s: Seq<char>, name: Seq<char>, v: Seq<char>, m: int)
    requires
        matches_at(s, name + v + "\""@, m),
        name.len() > 0,
        name.last() == '"',
        !v.contains('"'),
    ensures
        ({
            let a = m + name.len();
            let z = a + v.len();
            &&& 0 <= m && z < s.len()
            &&& s.subrange(a, z) == v
            &&& s.subrange(m, a) == name
            &&& s[a - 1] == '"' && s[z] == '"'
            &&& forall|i: int| a <= i < z ==> s[i] != '"'
        }),
{
    reveal_strlit("\"");
    let p = name + v + "\""@;
    let a = m + name.len();
    let z = a + v.len();
    assert(s.subrange(m, m + p.len()) == p);
    assert forall|i: int| 0 <= i < p.len() implies #[trigger] s[m + i] == p[i] by {
        assert(s.subrange(m, m + p.len())[i] == p[i]);
    }
    assert(s.subrange(a, z) =~= v) by {
        assert forall|i: int| 0 <= i < v.len() implies s[a + i] == v[i] by {
            assert(s[m + (name.len() + i)] == p[name.len() + i]);
        }
    }
    assert(s.subrange(m, a) =~= name) by {
        assert forall|i: int| 0 <= i < name.len() implies s[m + i] == name[i] by {
            assert(s[m + i] == p[i]);
        }
    }
    assert(s[m + (name.len() - 1)] == p[name.len() - 1]);
    assert(s[m + (name.len() + v.len())] == p[(name.len() + v.len()) as int]);
    assert forall|i: int| a <= i < z implies s[i] != '"' by {
        assert(s.subrange(a, z)[i - a] == v[i - a]);
        if v[i - a] == '"' {
            assert(v.contains('"'));
        }
    }
}

/// The values of `Name` and of `Filename` stand apart.
proof fn lemma_values_apart(
    s: Seq<char>,
    path: Seq<char>,
    file: Seq<char>,
    m: int,
    f: int,
)
    requires
        matches_at(s, "Name=\""@ + path + "\""@, m),
        matches_at(s, "Filename=\""@ + file + "\""@, f),
        !path.contains('"'),
        !file.contains('"'),
        file.len() > 0,
    ensures
        ({
            let a = m + "Name=\""@.len();
            let z = a + path.len();
            let b = f + "Filename=\""@.len();
            let y = b + file.len();
            z < b || y < a
        }),
{
    reveal_strlit("Name=\"");
    reveal_strlit("Filename=\"");
    lemma_value_at(s, "Name=\""@, path, m);
    lemma_value_at(s, "Filename=\""@, file, f);
    let a = m + "Name=\""@.len();
    let z = a + path.len();
    let b = f + "Filename=\""@.len();
    let y = b + file.len();
    if z >= b && y >= a {
        if a == b {
            assert(s.subrange(m, a)[0] == 'N');
            assert(s.subrange(f, b)[4] == 'n');
            assert(s[m] == s[f + 4]);
        } else if a < b {
            assert(s[b - 1] == '"');
            assert(a <= b - 1 < z);
        } else {
            assert(s[a - 1] == '"');
            assert(b <= a - 1 < y);
        }
    }
}

/// The text in which two values that stand apart are others.
pub open spec fn two_values_replaced(
    s: Seq<char>,
    a: int,
    z: int,
    x: Seq<char>,
    b: int,
    y: int,
    v: Seq<char>,
) -> Seq<char> {
    if z < b {
        s.take(a) + x + s.subrange(z, b) + v + s.skip(y)
    } else {
        s.take(b) + v + s.subrange(y, a) + x + s.skip(z)
    }
}

proof fn lemma_two_edits(
    s: Seq<char>,
    p: (int, int),
    x: Seq<char>,
    q: (int, int),
    v: Seq<char>,
    enc: PositionEncoding,
)
    requires
        byte_len(s) <= u32::MAX,
        0 <= p.0 <= p.1 <= s.len(),
        0 <= q.0 <= q.1 <= s.len(),
        p.1 < q.0 || q.1 < p.0,
    ensures
        edited(s, seq![span_edit(s, p, x, enc), span_edit(s, q, v, enc)], enc)
            == two_values_replaced(s, p.0, p.1, x, q.0, q.1, v),
{
    let edits = seq![span_edit(s, p, x, enc), span_edit(s, q, v, enc)];
    let n = s.len() as int;
    if p.1 < q.0 {
        let spans = seq![p, q];
        let texts = seq![x, v];
        assert(edits =~= span_edits(s, spans, texts, enc));
        separate_edits_land_in_any_order(s, spans, texts, edits, enc);
        let zero = replaced_upto(s, spans, texts, 0, p.0);
        let one = replaced_upto(s, spans, texts, 1, q.0);
        let two = replaced_upto(s, spans, texts, 2, n);
        assert(zero == s.take(p.0));
        assert(one == zero + x + s.subrange(p.1, q.0));
        assert(two == one + v + s.subrange(q.1, n));
        assert(s.subrange(q.1, n) =~= s.skip(q.1));
        assert(two =~= two_values_replaced(s, p.0, p.1, x, q.0, q.1, v));
    } else {
        let spans = seq![q, p];
        let texts = seq![v, x];
        let listed = span_edits(s, spans, texts, enc);
        assert(listed =~= seq![edits[1], edits[0]]);
        lemma_swapped(edits[0], edits[1]);
        separate_edits_land_in_any_order(s, spans, texts, edits, enc);
        let zero = replaced_upto(s, spans, texts, 0, q.0);
        let one = replaced_upto(s, spans, texts, 1, p.0);
        let two = replaced_upto(s, spans, texts, 2, n);
        assert(zero == s.take(q.0));
        assert(one == zero + v + s.subrange(q.1, p.0));
        assert(two == one + x + s.subrange(p.1, n));
        assert(s.subrange(p.1, n) =~= s.skip(p.1));
        assert(two =~= two_values_replaced(s, p.0, p.1, x, q.0, q.1, v));
    }
}

proof fn lemma_swapped(x: TextEditView, y: TextEditView)
    ensures
        seq![x, y].to_multiset() == seq![y, x].to_multiset(),
{
    let e = Seq::<TextEditView>::empty();
    e.to_multiset_ensures();
    e.push(x).to_multiset_ensures();
    e.push(y).to_multiset_ensures();
    assert(seq![x, y] =~= e.push(x).push(y));
    assert(seq![y, x] =~= e.push(y).push(x));
    assert(e.push(x).push(y).to_multiset() =~= e.push(y).push(x).to_multiset());
}

/// Where the rename of a script moves a file that the project file names, the project file
/// names the moved file afterwards, in the place where it named the old one, and declares the
/// symbol under its new path. The rest of it is the same.
pub proof fn moved_scripts_are_named_anew(
    loaded: LoadedProjectView,
    sym: SymbolView,
    new_name: Seq<char>,
    prj: Seq<char>,
    scripts: Seq<ScriptView>,
    enc: PositionEncoding,
    file: Seq<char>,
    mv: RenameFileView,
    uri: Seq<char>,
)
    requires
        byte_len(prj) <= u32::MAX,
        is_symbol_name(new_name),
        script_rename(loaded, sym, new_name, Some(prj), scripts, enc) is Ok,
        moves(script_rename(loaded, sym, new_name, Some(prj), scripts, enc)->Ok_0, mv),
        sym.filename == Some(file),
        has(prj, "Filename=\""@ + file + "\""@),
        !file.contains('"'),
        !sym.path.contains('"'),
        !ends(sym.path, "Filename="@),
        file_uri(loaded.m1prj_path) == Some(uri),
        forall|i: int| 0 <= i < scripts.len() ==> (#[trigger] scripts[i]).uri != uri,
    ensures
        ({
            let edit = script_rename(loaded, sym, new_name, Some(prj), scripts, enc)->Ok_0;
            let text = edited(prj, edits_for(edit, uri), enc);
            let m = first_match(prj, "Name=\""@ + sym.path + "\""@, 0).unwrap();
            let f = first_match(prj, "Filename=\""@ + file + "\""@, 0).unwrap();
            let a = m + "Name=\""@.len();
            let b = f + "Filename=\""@.len();
            let full = with_leaf(sym.path, new_name);
            let moved = new_file_name(file, sym.path, new_name);
            &&& text == two_values_replaced(
                prj,
                a,
                a + sym.path.len(),
                full,
                b,
                b + file.len(),
                moved,
            )
            &&& matches_at(
                text,
                "Filename=\""@ + moved + "\""@,
                if m < f {
                    f + full.len() - sym.path.len()
                } else {
                    f
                },
            )
            &&& matches_at(
                text,
                "Name=\""@ + full + "\""@,
                if m < f {
                    m
                } else {
                    m + moved.len() - file.len()
                },
            )
        }),
{
    let edit = script_rename(loaded, sym, new_name, Some(prj), scripts, enc)->Ok_0;
    let ops = steps_of(edit);
    let backing = backing_move(sym, new_name);
    let path = sym.path;
    let e = declaration_edit(prj, path, new_name, enc).unwrap();
    let es = script_declaration_edits(prj, e, backing, enc);
    let moved = new_file_name(file, path, new_name);
    named_scripts_move_with_their_symbol(loaded, sym, new_name, prj, scripts, enc, file, mv);
    lemma_reference_steps(uri, es, scripts, path, new_name, loaded.project, enc, scripts.len() as int);
    let calls = with_reference_steps(
        seq![edit_step(uri, es)],
        scripts,
        path,
        new_name,
        loaded.project,
        enc,
        scripts.len() as int,
    );
    let q = choose|q: int|
        0 <= q < ops.len() && ops[q] == DocumentChangeOperationView::Rename(mv);
    assert(backing is Some);
    lemma_step_prefix(calls, DocumentChangeOperationView::Rename(mv), uri, calls.len() as int);
    assert(ops =~= calls.push(DocumentChangeOperationView::Rename(mv)));
    assert(step_edits(ops, uri, ops.len() as int) =~= es);
    assert(edits_for(edit, uri) =~= es);
    lemma_moved_name(sym, new_name, file);
    let m = first_match(prj, "Name=\""@ + path + "\""@, 0).unwrap();
    let f = first_match(prj, "Filename=\""@ + file + "\""@, 0).unwrap();
    lemma_first_match(prj, "Name=\""@ + path + "\""@, 0);
    lemma_first_match(prj, "Filename=\""@ + file + "\""@, 0);
    let a = m + "Name=\""@.len();
    let z = a + path.len();
    let b = f + "Filename=\""@.len();
    let y = b + file.len();
    reveal_strlit("Name=\"");
    reveal_strlit("Filename=\"");
    lemma_value_at(prj, "Name=\""@, path, m);
    lemma_value_at(prj, "Filename=\""@, file, f);
    lemma_values_apart(prj, path, file, m, f);
    lemma_head_len(path);
    let h = head_len(path);
    let e2 = filename_edit(prj, file, moved, enc).unwrap();
    assert(es =~= seq![e, e2]);
    assert(e == span_edit(prj, (a + h, z), new_name, enc));
    assert(e2 == span_edit(prj, (b, y), moved, enc));
    lemma_two_edits(prj, (a + h, z), new_name, (b, y), moved, enc);
    lemma_no_dot(new_name);
    lemma_with_leaf(path, new_name);
    let full = with_leaf(path, new_name);
    let text = edited(prj, edits_for(edit, uri), enc);
    assert(prj.subrange(a, a + h) =~= path.take(h)) by {
        assert(prj.subrange(a, z).subrange(0, h) =~= path.subrange(0, h));
        assert(prj.subrange(a, a + h) =~= prj.subrange(a, z).subrange(0, h));
    }
    lemma_two_places(prj, a, z, h, new_name, b, y, moved, path);
    lemma_read_back(prj, m, path, full, f, file, moved);
}

proof fn lemma_no_dot(new_name: Seq<char>)
    requires
        is_symbol_name(new_name),
    ensures
        !new_name.contains('.'),
{
    if new_name.contains('.') {
        let i = choose|i: int| 0 <= i < new_name.len() && new_name[i] == '.';
        assert(!is_structural(new_name[i]));
    }
}

proof fn lemma_moved_name(sym: SymbolView, new_name: Seq<char>, file: Seq<char>)
    requires
        sym.filename == Some(file),
        backing_move(sym, new_name) is Some,
    ensures
        backing_move(sym, new_name) == Some((file, new_file_name(file, sym.path, new_name), true)),
        file.len() > 0,
        file.last() != '=',
{
    reveal_strlit(".m1scr");
    let ext = ".m1scr"@;
    let leaf = leaf_name(sym.path);
    let stem = before_suffix(file, ext).unwrap();
    let head = before_suffix(stem, leaf).unwrap();
    assert(head =~= file.take(file.len() - ext.len() - leaf.len()));
    assert(file.subrange(file.len() - ext.len(), file.len() as int)[5] == 'r');
}

proof fn lemma_two_places(
    s: Seq<char>,
    a: int,
    z: int,
    h: int,
    new_name: Seq<char>,
    b: int,
    y: int,
    v: Seq<char>,
    path: Seq<char>,
)
    requires
        0 <= a <= a + h <= z <= s.len(),
        0 <= b <= y <= s.len(),
        z < b || y < a,
        0 <= h <= path.len(),
        s.subrange(a, a + h) == path.take(h),
    ensures
        two_values_replaced(s, a + h, z, new_name, b, y, v) == two_values_replaced(
            s,
            a,
            z,
            path.take(h) + new_name,
            b,
            y,
            v,
        ),
{
    let l = two_values_replaced(s, a + h, z, new_name, b, y, v);
    let r = two_values_replaced(s, a, z, path.take(h) + new_name, b, y, v);
    if z < b {
        assert(s.take(a + h) =~= s.take(a) + s.subrange(a, a + h));
        assert(l =~= r);
    } else {
        assert(s.subrange(y, a + h) =~= s.subrange(y, a) + s.subrange(a, a + h));
        assert(l =~= r);
    }
}

proof fn lemma_read_back(
    s: Seq<char>,
    m: int,
    path: Seq<char>,
    full: Seq<char>,
    f: int,
    file: Seq<char>,
    moved: Seq<char>,
)
    requires
        matches_at(s, "Name=\""@ + path + "\""@, m),
        matches_at(s, "Filename=\""@ + file + "\""@, f),
        !path.contains('"'),
        !file.contains('"'),
        file.len() > 0,
        file.last() != '=',
        !ends(path, "Filename="@),
    ensures
        ({
            let a = m + "Name=\""@.len();
            let b = f + "Filename=\""@.len();
            let text = two_values_replaced(s, a, a + path.len(), full, b, b + file.len(), moved);
            &&& matches_at(
                text,
                "Filename=\""@ + moved + "\""@,
                if m < f {
                    f + full.len() - path.len()
                } else {
                    f
                },
            )
            &&& matches_at(
                text,
                "Name=\""@ + full + "\""@,
                if m < f {
                    m
                } else {
                    m + moved.len() - file.len()
                },
            )
        }),
{
    reveal_strlit("Name=\"");
    reveal_strlit("Filename=\"");
    reveal_strlit("\"");
    lemma_value_at(s, "Name=\""@, path, m);
    lemma_value_at(s, "Filename=\""@, file, f);
    lemma_values_apart(s, path, file, m, f);
    let a = m + "Name=\""@.len();
    let z = a + path.len();
    let b = f + "Filename=\""@.len();
    let y = b + file.len();
    let text = two_values_replaced(s, a, z, full, b, y, moved);
    let name = "Name=\""@;
    let fname = "Filename=\""@;
    lemma_names_apart(s, path, file, m, f);
    if z < b {
        let d = full.len() - path.len();
        assert(text.subrange(m, m + name.len() + full.len() + 1) =~= name + full + "\""@) by {
            assert(text.subrange(m, a) =~= s.subrange(m, a));
            assert(text.subrange(a, a + full.len()) =~= full);
            assert(text[a + full.len()] == s[z]);
        }
        assert(text.subrange(f + d, f + d + fname.len() + moved.len() + 1) =~= fname + moved + "\""@)
            by {
            assert(text.subrange(f + d, b + d) =~= s.subrange(f, b));
            assert(text.subrange(b + d, b + d + moved.len()) =~= moved);
            assert(text[b + d + moved.len()] == s[y]);
        }
    } else {
        let d = moved.len() - file.len();
        assert(text.subrange(f, f + fname.len() + moved.len() + 1) =~= fname + moved + "\""@) by {
            assert(text.subrange(f, b) =~= s.subrange(f, b));
            assert(text.subrange(b, b + moved.len()) =~= moved);
            assert(text[b + moved.len()] == s[y]);
        }
        assert(text.subrange(m + d, m + d + name.len() + full.len() + 1) =~= name + full + "\""@) by {
            assert(text.subrange(m + d, a + d) =~= s.subrange(m, a));
            assert(text.subrange(a + d, a + d + full.len()) =~= full);
            assert(text[a + d + full.len()] == s[z]);
        }
    }
}

/// Neither attribute starts in the value of the other, nor in its name.
proof fn lemma_names_apart(s: Seq<char>, path: Seq<char>, file: Seq<char>, m: int, f: int)
    requires
        matches_at(s, "Name=\""@ + path + "\""@, m),
        matches_at(s, "Filename=\""@ + file + "\""@, f),
        !path.contains('"'),
        !file.contains('"'),
        file.len() > 0,
        file.last() != '=',
        !ends(path, "Filename="@),
    ensures
        ({
            let z = m + "Name=\""@.len() + path.len();
            let y = f + "Filename=\""@.len() + file.len();
            (z < f && m < f) || (y < m && f < m)
        }),
{
    reveal_strlit("Name=\"");
    reveal_strlit("Filename=\"");
    lemma_value_at(s, "Name=\""@, path, m);
    lemma_value_at(s, "Filename=\""@, file, f);
    lemma_values_apart(s, path, file, m, f);
    let a = m + 6;
    let z = a + path.len();
    let b = f + 10;
    let y = b + file.len();
    assert("Name=\""@.len() == 6);
    assert("Filename=\""@.len() == 10);
    assert forall|i: int| 0 <= i < 6 implies #[trigger] s[m + i] == "Name=\""@[i] by {
        assert(s.subrange(m, a)[i] == s[m + i]);
    }
    assert forall|i: int| 0 <= i < 10 implies #[trigger] s[f + i] == "Filename=\""@[i] by {
        assert(s.subrange(f, b)[i] == s[f + i]);
    }
    if z < b {
        if f <= z {
            // The quote behind the path is then the one in `Filename="`.
            assert(s[f + (z - f)] == "Filename=\""@[z - f]);
            assert(z == f + 9);
            reveal_strlit("Filename=");
            if path.len() < 9 {
                assert(s[f + (a - 1 - f)] == "Filename=\""@[a - 1 - f]);
            } else {
                let n = path.len() as int;
                let end = path.subrange(n - 9, n);
                assert forall|i: int| 0 <= i < 9 implies #[trigger] end[i] == "Filename="@[i] by {
                    assert(s[f + i] == "Filename=\""@[i]);
                    assert(s.subrange(a, z)[n - 9 + i] == s[a + (n - 9 + i)]);
                    assert(end[i] == path[n - 9 + i]);
                }
                assert("Filename="@.len() == 9);
                assert(path.subrange(n - 9, n) =~= "Filename="@);
            }
        }
    } else {
        if m <= y {
            assert(s[m + (y - m)] == "Name=\""@[y - m]);
            assert(y == m + 5);
            assert(s[m + 4] == "Name=\""@[4]);
            assert(s.subrange(b, y)[file.len() - 1] == s[y - 1]);
        }
    }
}

// ---------------------------------------------------------------------------
// When a rename succeeds
// ---------------------------------------------------------------------------

/// The file in which the script is kept has the name of the symbol: the project names a file
/// that ends in the leaf of the path, behind a dot or a blank or from the start, or it names
/// none, and the file goes by the path.
pub open spec fn is_kept_by_name(sym: SymbolView, file: Seq<char>) -> bool {
    match sym.filename {
        Some(f) => f == file && exists|head: Seq<char>| #[trigger]
            (head + leaf_name(sym.path) + ".m1scr"@) == file && (head.len() == 0 || head.last() == '.'
                || head.last() == ' '),
        None => if begins(sym.path, "Root."@) {
            "Root."@ + file == sym.path + ".m1scr"@
        } else {
            file == sym.path + ".m1scr"@
        },
    }
}

proof fn lemma_kept_by_name(sym: SymbolView, new_name: Seq<char>, file: Seq<char>)
    ensures
        is_kept_by_name(sym, file) <==> match backing_move(sym, new_name) {
            Some((old_file, new_file, named)) => old_file == file,
            None => false,
        },
{
    reveal_strlit(".m1scr");
    reveal_strlit("Root.");
    let ext = ".m1scr"@;
    let leaf = leaf_name(sym.path);
    if let Some(f) = sym.filename {
        if let Some(g) = trailing_leaf_renamed(f, leaf, new_name) {
            let stem = before_suffix(f, ext).unwrap();
            let head = before_suffix(stem, leaf).unwrap();
            assert(stem =~= head + leaf) by {
                assert(stem.subrange(stem.len() - leaf.len(), stem.len() as int) == leaf);
                assert(stem =~= stem.take(stem.len() - leaf.len()) + stem.subrange(
                    stem.len() - leaf.len(),
                    stem.len() as int,
                ));
            }
            assert(f =~= stem + ext) by {
                assert(f.subrange(f.len() - ext.len(), f.len() as int) == ext);
                assert(f =~= f.take(f.len() - ext.len()) + f.subrange(
                    f.len() - ext.len(),
                    f.len() as int,
                ));
            }
            assert(head + leaf + ext == f);
        }
        if is_kept_by_name(sym, file) {
            let head = choose|head: Seq<char>| #[trigger]
                (head + leaf + ext) == file && (head.len() == 0 || head.last() == '.' || head.last()
                    == ' ');
            assert(file.subrange(file.len() - ext.len(), file.len() as int) =~= ext);
            let stem = before_suffix(file, ext).unwrap();
            assert(stem =~= head + leaf);
            assert(stem.subrange(stem.len() - leaf.len(), stem.len() as int) =~= leaf);
            assert(stem.take(stem.len() - leaf.len()) =~= head);
        }
    } else {
        let root = "Root."@;
        if begins(sym.path, root) {
            let rest = sym.path.skip(root.len() as int);
            assert(sym.path =~= root + rest) by {
                assert(sym.path =~= sym.path.subrange(0, root.len() as int) + rest);
            }
            assert(root + (rest + ext) =~= sym.path + ext);
            if root + file == sym.path + ext {
                assert(file =~= (root + file).skip(root.len() as int));
                assert(rest + ext =~= (sym.path + ext).skip(root.len() as int));
            }
        }
    }
}

/// The rename of a script succeeds exactly when the new name is another and free, the file of
/// a script that is kept by its name is there, and the project file can be read and declares
/// the symbol.
pub proof fn script_renames_succeed_when_owed(
    loaded: LoadedProjectView,
    sym: SymbolView,
    new_name: Seq<char>,
    prj: Option<Seq<char>>,
    scripts: Seq<ScriptView>,
    enc: PositionEncoding,
)
    ensures
        script_rename(loaded, sym, new_name, prj, scripts, enc) is Ok <==> {
            &&& new_name != leaf_name(sym.path)
            &&& loaded.project.get(with_leaf(sym.path, new_name)) is None
            &&& forall|file: Seq<char>| #[trigger]
                is_kept_by_name(sym, file) ==> is_there(loaded.script_files, file)
            &&& file_uri(loaded.m1prj_path) is Some
            &&& prj is Some
            &&& has(prj.unwrap(), "Name=\""@ + sym.path + "\""@)
        },
{
    let backing = backing_move(sym, new_name);
    assert forall|file: Seq<char>| #[trigger] is_kept_by_name(sym, file) <==> match backing {
        Some((old_file, new_file, named)) => old_file == file,
        None => false,
    } by {
        lemma_kept_by_name(sym, new_name, file);
    }
    if let Some((old_file, new_file, named)) = backing {
        lemma_path_at(loaded.script_files, old_file, 0);
        assert(is_kept_by_name(sym, old_file));
        if is_there(loaded.script_files, old_file) {
            let j = choose|j: int|
                0 <= j < loaded.script_files.len() && base_name(#[trigger] loaded.script_files[j])
                    == Some(old_file);
            assert(base_name(loaded.script_files[j]) == Some(old_file));
        }
        if script_path_at(loaded.script_files, old_file, 0) is Some {
            let path = script_path_at(loaded.script_files, old_file, 0).unwrap();
            let j = choose|j: int|
                0 <= j < loaded.script_files.len() && loaded.script_files[j] == path;
            assert(base_name(loaded.script_files[j]) == Some(old_file));
        }
    }
}

/// One of the script files has that name.
pub open spec fn is_there(files: Seq<Seq<char>>, name: Seq<char>) -> bool {
    exists|j: int| 0 <= j < files.len() && base_name(#[trigger] files[j]) == Some(name)
}

proof fn lemma_first_path(files: Seq<Seq<char>>, name: Seq<char>, i: int, j: int)
    requires
        0 <= i <= j < files.len(),
        base_name(files[j]) == Some(name),
        forall|q: int| i <= q < j ==> base_name(#[trigger] files[q]) != Some(name),
    ensures
        script_path_at(files, name, i) == Some(files[j]),
    decreases j - i,
{
    if i < j {
        assert(base_name(files[i]) != Some(name));
        lemma_first_path(files, name, i + 1, j);
    }
}

/// A script that is kept by its name moves with its symbol: the first script file of that name
/// goes, in its directory, to the name with the new leaf; where the project names no file, to
/// the new path.
pub proof fn scripts_kept_by_name_move(
    loaded: LoadedProjectView,
    sym: SymbolView,
    new_name: Seq<char>,
    prj: Seq<char>,
    scripts: Seq<ScriptView>,
    enc: PositionEncoding,
    file: Seq<char>,
    j: int,
    to: Seq<char>,
    m: RenameFileView,
)
    requires
        script_rename(loaded, sym, new_name, Some(prj), scripts, enc) is Ok,
        is_kept_by_name(sym, file),
        0 <= j < loaded.script_files.len(),
        base_name(loaded.script_files[j]) == Some(file),
        forall|q: int|
            0 <= q < j ==> base_name(#[trigger] loaded.script_files[q]) != Some(file),
        to == (match sym.filename {
            Some(f) => new_file_name(file, sym.path, new_name),
            None => if begins(with_leaf(sym.path, new_name), "Root."@) {
                with_leaf(sym.path, new_name).skip(5) + ".m1scr"@
            } else {
                with_leaf(sym.path, new_name) + ".m1scr"@
            },
        }),
        file_uri(loaded.script_files[j]) == Some(m.old_uri),
        file_uri(beside(loaded.script_files[j], to)) == Some(m.new_uri),
        m.options is None,
        m.annotation_id is None,
    ensures
        moves(script_rename(loaded, sym, new_name, Some(prj), scripts, enc)->Ok_0, m),
{
    reveal_strlit("Root.");
    lemma_kept_by_name(sym, new_name, file);
    lemma_first_path(loaded.script_files, file, 0, j);
    if sym.filename is Some {
        lemma_moved_name(sym, new_name, file);
    }
    let edit = script_rename(loaded, sym, new_name, Some(prj), scripts, enc)->Ok_0;
    let ops = steps_of(edit);
    assert(file_move(loaded.script_files[j], to) == Some(m));
    assert(ops[ops.len() - 1] == DocumentChangeOperationView::Rename(m));
}

/// The rename of a script says why it is refused.
pub proof fn refused_script_renames_say_why(
    loaded: LoadedProjectView,
    sym: SymbolView,
    new_name: Seq<char>,
    prj: Seq<char>,
    scripts: Seq<ScriptView>,
    enc: PositionEncoding,
    file: Seq<char>,
)
    ensures
        new_name == leaf_name(sym.path) ==> script_rename(
            loaded,
            sym,
            new_name,
            Some(prj),
            scripts,
            enc,
        ) == Err::<WorkspaceEditView, Seq<char>>("the new name is the same as the current name"@),
        new_name != leaf_name(sym.path) && loaded.project.get(with_leaf(sym.path, new_name)) is Some
            ==> script_rename(loaded, sym, new_name, Some(prj), scripts, enc) == Err::<
            WorkspaceEditView,
            Seq<char>,
        >(
            "a symbol named ‘"@ + new_name + "’ already exists at ‘"@ + with_leaf(sym.path, new_name)
                + "’"@,
        ),
        new_name != leaf_name(sym.path) && loaded.project.get(with_leaf(sym.path, new_name)) is None
            && is_kept_by_name(sym, file) && !is_there(loaded.script_files, file) ==> script_rename(
            loaded,
            sym,
            new_name,
            Some(prj),
            scripts,
            enc,
        ) == Err::<WorkspaceEditView, Seq<char>>(
            "‘"@ + sym.path + "’ has no locatable backing script ("@ + file
                + "); rename that file before renaming the symbol so references aren't silently broken"@,
        ),
{
    lemma_kept_by_name(sym, new_name, file);
    lemma_path_at(loaded.script_files, file, 0);
    if let Some(path) = script_path_at(loaded.script_files, file, 0) {
        let j = choose|j: int| 0 <= j < loaded.script_files.len() && loaded.script_files[j] == path;
        assert(base_name(loaded.script_files[j]) == Some(file));
    }
}

// ---------------------------------------------------------------------------
// What can be renamed
// ---------------------------------------------------------------------------

/// The class of a script that the user writes.
pub open spec fn is_user_class(c: Seq<char>) -> bool {
    begins(c, "BuiltIn.FuncUser"@) || begins(c, "BuiltIn.CalFuncUser"@) || c == "BuiltIn.MethodUser"@
}

/// A symbol can be renamed exactly when it is a script of the user, or is not kept in a file
/// and is a group or an object with something below it, or a channel, a parameter, a constant
/// or a reference with nothing below it.
pub proof fn what_can_be_renamed(project: ProjectView, sym: SymbolView)
    ensures
        ({
            let by_user = match sym.classname {
                Some(c) => is_user_class(c),
                None => false,
            };
            let children = project.immediate_children(sym.path).len();
            let holds = sym.kind == SymbolKind::Group || sym.kind == SymbolKind::Object;
            let valued = sym.kind == SymbolKind::Channel || sym.kind == SymbolKind::Parameter
                || sym.kind == SymbolKind::Constant || sym.kind == SymbolKind::Reference;
            &&& rename_kind(project, sym) == Ok::<RenameKind, Seq<char>>(RenameKind::FileBacked)
                <==> by_user
            &&& rename_kind(project, sym) == Ok::<RenameKind, Seq<char>>(RenameKind::Group)
                <==> !by_user && sym.filename is None && holds && children > 0
            &&& rename_kind(project, sym) == Ok::<RenameKind, Seq<char>>(RenameKind::Leaf)
                <==> !by_user && sym.filename is None && valued && children == 0
        }),
{
}

/// In the project file a component can be renamed exactly when it is a symbol that is a script
/// of the user, or is a channel, a parameter, a constant or a reference that is not kept in a
/// file and has nothing below it.
pub proof fn what_can_be_renamed_in_the_project_file(project: ProjectView, path: Seq<char>)
    ensures
        renameable(project, path) is Ok <==> match project.get(path) {
            Some(sym) => (match sym.classname {
                Some(c) => is_user_class(c),
                None => false,
            }) || (sym.filename is None && (sym.kind == SymbolKind::Channel || sym.kind
                == SymbolKind::Parameter || sym.kind == SymbolKind::Constant || sym.kind
                == SymbolKind::Reference) && project.immediate_children(sym.path).len() == 0),
            None => false,
        },
        renameable(project, path) is Ok ==> project.get(path) == Some(
            renameable(project, path)->Ok_0,
        ),
{
}

/// The label of a kind.
pub proof fn kinds_have_labels()
    ensures
        kind_label(SymbolKind::Channel) == "Channel"@,
        kind_label(SymbolKind::Parameter) == "Parameter"@,
        kind_label(SymbolKind::Constant) == "Constant"@,
        kind_label(SymbolKind::Function) == "Function"@,
        kind_label(SymbolKind::Method) == "Method"@,
        kind_label(SymbolKind::Table) == "Table"@,
        kind_label(SymbolKind::Group) == "Group"@,
        kind_label(SymbolKind::Reference) == "Reference"@,
        kind_label(SymbolKind::Object) == "Object"@,
        kind_label(SymbolKind::Other) == "Other"@,
{
}

/// A reference is to the longest start of it that names a symbol.
pub proof fn references_are_to_the_longest_name(
    parts: Seq<Seq<char>>,
    scope: ScopeView,
    project: ProjectView,
    k: int,
    j: int,
)
    requires
        0 <= k <= parts.len(),
        0 < j <= k,
        symbol_named(joined(parts.take(j), "."@), scope, project) is Some,
    ensures
        match prefix_upto(parts, scope, project, k) {
            Some((sym, n)) => j <= n <= k && symbol_named(
                joined(parts.take(n), "."@),
                scope,
                project,
            ) == Some(sym) && forall|q: int|
                n < q <= k ==> symbol_named(joined(#[trigger] parts.take(q), "."@), scope, project)
                    is None,
            None => false,
        },
    decreases k,
{
    if symbol_named(joined(parts.take(k), "."@), scope, project) is None {
        references_are_to_the_longest_name(parts, scope, project, k - 1, j);
    }
}

/// Every reference whose longest start names the symbol gets the new name, in the segment
/// where that start ends.
pub proof fn every_reference_is_renamed(
    script: ScriptView,
    target: Seq<char>,
    new_name: Seq<char>,
    project: ProjectView,
    enc: PositionEncoding,
    n: usize,
    written: bool,
    sym: SymbolView,
    k: int,
)
    requires
        top_path_seq(script.tree).contains((n, written)),
        prefix_named(script.tree.text_of(n), script.scope, project) == Some((sym, k)),
        sym.path == target,
        0 < k <= segments(script.tree, n).len(),
    ensures
        ({
            let t = script.tree;
            let seg = segments(t, n)[k - 1];
            reference_edits(script, target, new_name, project, enc).contains(
                TextEditView {
                    range: range_of(script.index, t.start(seg), t.end(seg), enc),
                    new_text: new_name,
                },
            )
        }),
{
    let t = script.tree;
    let ps = top_path_seq(t);
    let seg = segments(t, n)[k - 1];
    let j = choose|j: int| 0 <= j < ps.len() && ps[j] == (n, written);
    assert(target_segment(t, ps[j].0, target, script.scope, project) == Some(seg));
    references_are_renamed_exactly(t, target, script.scope, project, ps, ps.len() as int, seg);
    let ns = target_segments(t, target, script.scope, project, ps, ps.len() as int);
    let i = choose|i: int| 0 <= i < ns.len() && ns[i] == seg;
    let edits = reference_edits(script, target, new_name, project, enc);
    assert(edits[i] == TextEditView {
        range: range_of(script.index, t.start(seg), t.end(seg), enc),
        new_text: new_name,
    });
}

// ---------------------------------------------------------------------------
// The files of a group
// ---------------------------------------------------------------------------

proof fn lemma_group_steps(
    uri: Seq<char>,
    es: Seq<TextEditView>,
    scripts: Seq<ScriptView>,
    group: Seq<char>,
    new_name: Seq<char>,
    project: ProjectView,
    enc: PositionEncoding,
    k: int,
)
    requires
        0 <= k <= scripts.len(),
    ensures
        ({
            let ops = with_group_steps(
                seq![edit_step(uri, es)],
                scripts,
                group,
                new_name,
                project,
                enc,
                k,
            );
            ops.len() >= 1 && ops[0] == edit_step(uri, es)
        }),
    decreases k,
{
    if k > 0 {
        lemma_group_steps(uri, es, scripts, group, new_name, project, enc, k - 1);
    }
}

pub proof fn lemma_step_held(
    ops: Seq<DocumentChangeOperationView>,
    uri: Seq<char>,
    es: Seq<TextEditView>,
    x: TextEditView,
    k: int,
)
    requires
        0 < k <= ops.len(),
        ops[0] == edit_step(uri, es),
        es.contains(x),
    ensures
        step_edits(ops, uri, k).contains(x),
    decreases k,
{
    let all = step_edits(ops, uri, k);
    let rest = step_edits(ops, uri, k - 1);
    if k == 1 {
        assert(bare_edits(plain_edits(es)) =~= es);
        assert(rest =~= Seq::empty());
        assert(all =~= es);
    } else {
        lemma_step_held(ops, uri, es, x, k - 1);
        let j = choose|j: int| 0 <= j < rest.len() && rest[j] == x;
        assert(all[j] == x);
    }
}

pub proof fn lemma_places(s: Seq<char>, p: Seq<char>, i: int, q: int)
    requires
        0 <= i <= q,
        matches_at(s, p, q),
        p.len() > 0,
        s.len() <= usize::MAX,
        forall|a: int, b: int|
            matches_at(s, p, a) && #[trigger] matches_at(s, p, b) && #[trigger] matches_at(s, p, a) && a
                < b ==> a + p.len() <= b,
    ensures
        places_from(s, p, i).contains(q as usize),
    decreases s.len() - i,
{
    lemma_first_match(s, p, i);
    let m = first_match(s, p, i).unwrap();
    let rest = places_from(s, p, m + p.len());
    let all = places_from(s, p, i);
    assert(matches_at(s, p, m));
    assert(all == seq![m as usize] + rest);
    if m == q {
        assert(all[0] == q as usize);
    } else {
        assert(m < q);
        lemma_places(s, p, m + p.len(), q);
        let j = choose|j: int| 0 <= j < rest.len() && rest[j] == q as usize;
        assert(all[j + 1] == q as usize);
    }
}

pub proof fn lemma_place_edits(
    s: Seq<char>,
    places: Seq<usize>,
    file: Seq<char>,
    new_file: Seq<char>,
    enc: PositionEncoding,
    k: int,
    j: int,
)
    requires
        0 <= j < k <= places.len(),
    ensures
        ({
            let a = places[j] + "Filename=\""@.len();
            place_edits(s, places, file, new_file, enc, k).contains(
                span_edit(s, (a, a + file.len()), new_file, enc),
            )
        }),
    decreases k,
{
    let all = place_edits(s, places, file, new_file, enc, k);
    let rest = place_edits(s, places, file, new_file, enc, k - 1);
    let a = places[j] + "Filename=\""@.len();
    let x = span_edit(s, (a, a + file.len()), new_file, enc);
    if j == k - 1 {
        assert(all[rest.len() as int] == x);
    } else {
        lemma_place_edits(s, places, file, new_file, enc, k - 1, j);
        let i = choose|i: int| 0 <= i < rest.len() && rest[i] == x;
        assert(all[i] == x);
    }
}

proof fn lemma_file_edits(
    s: Seq<char>,
    syms: Seq<SymbolView>,
    group: Seq<char>,
    new_name: Seq<char>,
    enc: PositionEncoding,
    k: int,
    j: int,
    x: TextEditView,
)
    requires
        0 <= j < k <= syms.len(),
        group_file(syms[j], group, new_name) is Some,
        ({
            let (f, g) = group_file(syms[j], group, new_name).unwrap();
            all_filename_edits(s, f, g, enc).contains(x)
        }),
    ensures
        file_edits_upto(s, syms, group, new_name, enc, k).contains(x),
    decreases k, j,
{
    let (f, g) = group_file(syms[j], group, new_name).unwrap();
    let all = file_edits_upto(s, syms, group, new_name, enc, k);
    let rest = file_edits_upto(s, syms, group, new_name, enc, k - 1);
    if j < k - 1 {
        lemma_file_edits(s, syms, group, new_name, enc, k - 1, j, x);
        let i = choose|i: int| 0 <= i < rest.len() && rest[i] == x;
        assert(all[i] == x);
    } else if file_seen(syms, group, new_name, f, k - 1) {
        let q = choose|q: int|
            0 <= q < k - 1 && (match group_file(#[trigger] syms[q], group, new_name) {
                Some((f2, g2)) => f2 == f,
                None => false,
            });
        lemma_file_edits(s, syms, group, new_name, enc, k - 1, q, x);
    } else {
        let here = all_filename_edits(s, f, g, enc);
        let i = choose|i: int| 0 <= i < here.len() && here[i] == x;
        assert(all[rest.len() + i] == x);
    }
}

/// Where a group is renamed, every `Filename` in the project file that is of something below
/// the group and starts with the name of the group gets the new name in the place of that
/// word.
pub proof fn files_of_a_group_are_named_anew(
    loaded: LoadedProjectView,
    group: Seq<char>,
    new_name: Seq<char>,
    prj: Seq<char>,
    scripts: Seq<ScriptView>,
    enc: PositionEncoding,
    uri: Seq<char>,
    j: int,
    rest: Seq<char>,
    p: int,
)
    requires
        group_rename(loaded, group, new_name, Some(prj), scripts, enc) is Ok,
        file_uri(loaded.m1prj_path) == Some(uri),
        byte_len(prj) <= u32::MAX,
        0 <= j < loaded.project.symbols.len(),
        begins(loaded.project.symbols[j].path, group + "."@),
        loaded.project.symbols[j].filename == Some(leaf_name(group) + rest),
        rest.len() > 0,
        rest[0] == ' ' || rest[0] == '.',
        !(leaf_name(group) + rest).contains('='),
        matches_at(prj, "Filename=\""@ + (leaf_name(group) + rest) + "\""@, p),
    ensures
        ({
            let edit = group_rename(loaded, group, new_name, Some(prj), scripts, enc)->Ok_0;
            let a = p + "Filename=\""@.len();
            edits_for(edit, uri).contains(
                span_edit(prj, (a, a + (leaf_name(group) + rest).len()), new_name + rest, enc),
            )
        }),
{
    let n = loaded.project.symbols.len() as int;
    let sym = loaded.project.symbols[j];
    let file = leaf_name(group) + rest;
    let leaf = leaf_name(group);
    assert(file.subrange(0, leaf.len() as int) =~= leaf);
    assert(file.skip(leaf.len() as int) =~= rest);
    assert(group_file(sym, group, new_name) == Some((file, new_name + rest)));
    let needle = "Filename=\""@ + file + "\""@;
    reveal_strlit("Filename=\"");
    reveal_strlit("\"");
    lemma_byte_len_bounds(prj);
    assert forall|a: int, b: int|
        matches_at(prj, needle, a) && #[trigger] matches_at(prj, needle, b) && #[trigger] matches_at(
            prj,
            needle,
            a,
        ) && a < b implies a + needle.len() <= b by {
        lemma_no_overlap(prj, file, a, b);
    }
    lemma_places(prj, needle, 0, p);
    let places = places_from(prj, needle, 0);
    let i = choose|i: int| 0 <= i < places.len() && places[i] == p as usize;
    lemma_place_edits(prj, places, file, new_name + rest, enc, places.len() as int, i);
    let a = p + "Filename=\""@.len();
    let x = span_edit(prj, (a, a + file.len()), new_name + rest, enc);
    lemma_file_edits(prj, loaded.project.symbols, group, new_name, enc, n, j, x);
    let names = name_edits(prj, group, new_name, enc);
    let files = file_edits_upto(prj, loaded.project.symbols, group, new_name, enc, n);
    let es = names + files;
    let w = choose|w: int| 0 <= w < files.len() && files[w] == x;
    assert(es[names.len() + w] == x);
    lemma_group_steps(uri, es, scripts, group, new_name, loaded.project, enc, scripts.len() as int);
    let edit = group_rename(loaded, group, new_name, Some(prj), scripts, enc)->Ok_0;
    let ops = steps_of(edit);
    lemma_step_held(ops, uri, es, x, ops.len() as int);
    let held = step_edits(ops, uri, ops.len() as int);
    assert(edits_for(edit, uri) =~= held);
}

pub proof fn lemma_no_overlap(s: Seq<char>, file: Seq<char>, a: int, b: int)
    requires
        !file.contains('='),
        matches_at(s, "Filename=\""@ + file + "\""@, a),
        matches_at(s, "Filename=\""@ + file + "\""@, b),
        a < b,
    ensures
        a + ("Filename=\""@ + file + "\""@).len() <= b,
{
    reveal_strlit("Filename=\"");
    reveal_strlit("\"");
    let needle = "Filename=\""@ + file + "\""@;
    let n = needle.len() as int;
    if b < a + n {
        assert(s.subrange(a, a + n) == needle);
        assert(s.subrange(b, b + n) == needle);
        // The equals sign of the second attribute stands at `b + 8`.
        assert(s.subrange(b, b + n)[8] == '=');
        assert(s.subrange(b, b + n)[9] == '"');
        if b + 8 < a + n {
            let i = b + 8 - a;
            assert(s.subrange(a, a + n)[i] == needle[i]);
            if i < 10 {
                assert(needle[i] == "Filename=\""@[i]);
            } else if i < n - 1 {
                assert(needle[i] == file[i - 10]);
                assert(file.contains('='));
            }
        } else {
            // The quote at the end of the first stands inside `Filename` of the second.
            let i = a + n - 1 - b;
            assert(s.subrange(b, b + n)[i] == "Filename=\""@[i]);
            assert(s.subrange(a, a + n)[n - 1] == '"');
        }
    }
}

proof fn lemma_moves(loaded: LoadedProjectView, group: Seq<char>, new_name: Seq<char>, k: int, j: int, m: RenameFileView)
    requires
        0 <= j < k <= loaded.project.symbols.len(),
        moves_upto(loaded, group, new_name, k) is Ok,
        ({
            let sym = loaded.project.symbols[j];
            &&& is_callable(sym.kind) && begins(sym.path, group + "."@)
            &&& match script_move(sym, group, new_name) {
                Some((old_file, new_file)) => match script_path_at(loaded.script_files, old_file, 0) {
                    Some(path) => file_move(path, new_file) == Some(m),
                    None => false,
                },
                None => false,
            }
        }),
    ensures
        moves_upto(loaded, group, new_name, k)->Ok_0.contains(m),
    decreases k,
{
    let all = moves_upto(loaded, group, new_name, k)->Ok_0;
    let rest = moves_upto(loaded, group, new_name, k - 1)->Ok_0;
    if j == k - 1 {
        assert(all[rest.len() as int] == m);
    } else {
        lemma_moves(loaded, group, new_name, k - 1, j, m);
        let i = choose|i: int| 0 <= i < rest.len() && rest[i] == m;
        assert(all[i] == m);
    }
}

/// Where a group is renamed, the file of every function and method below it moves whose name
/// starts with the name of the group: the first script file of that name, in its directory, to
/// the name that starts with the new name.
pub proof fn files_of_a_group_move(
    loaded: LoadedProjectView,
    group: Seq<char>,
    new_name: Seq<char>,
    prj: Option<Seq<char>>,
    scripts: Seq<ScriptView>,
    enc: PositionEncoding,
    j: int,
    rest: Seq<char>,
    q: int,
    m: RenameFileView,
)
    requires
        group_rename(loaded, group, new_name, prj, scripts, enc) is Ok,
        0 <= j < loaded.project.symbols.len(),
        loaded.project.symbols[j].kind == SymbolKind::Function || loaded.project.symbols[j].kind
            == SymbolKind::Method,
        begins(loaded.project.symbols[j].path, group + "."@),
        loaded.project.symbols[j].filename == Some(leaf_name(group) + rest),
        rest.len() > 0,
        rest[0] == ' ' || rest[0] == '.',
        0 <= q < loaded.script_files.len(),
        base_name(loaded.script_files[q]) == Some(leaf_name(group) + rest),
        forall|i: int|
            0 <= i < q ==> base_name(#[trigger] loaded.script_files[i]) != Some(
                leaf_name(group) + rest,
            ),
        file_uri(loaded.script_files[q]) == Some(m.old_uri),
        file_uri(beside(loaded.script_files[q], new_name + rest)) == Some(m.new_uri),
        m.options is None,
        m.annotation_id is None,
    ensures
        moves(group_rename(loaded, group, new_name, prj, scripts, enc)->Ok_0, m),
{
    let n = loaded.project.symbols.len() as int;
    let sym = loaded.project.symbols[j];
    let leaf = leaf_name(group);
    let file = leaf + rest;
    assert(file.subrange(0, leaf.len() as int) =~= leaf);
    assert(file.skip(leaf.len() as int) =~= rest);
    assert(script_move(sym, group, new_name) == Some((file, new_name + rest)));
    lemma_first_path(loaded.script_files, file, 0, q);
    assert(file_move(loaded.script_files[q], new_name + rest) == Some(m));
    lemma_moves(loaded, group, new_name, n, j, m);
    let ms = moves_upto(loaded, group, new_name, n)->Ok_0;
    let i = choose|i: int| 0 <= i < ms.len() && ms[i] == m;
    let edit = group_rename(loaded, group, new_name, prj, scripts, enc)->Ok_0;
    let ops = steps_of(edit);
    let at = ops.len() - ms.len() + i;
    assert(move_steps(ms)[i] == DocumentChangeOperationView::Rename(m));
    assert(ops[at] == DocumentChangeOperationView::Rename(m));
}

// ---------------------------------------------------------------------------
// Every script
// ---------------------------------------------------------------------------

proof fn lemma_merged_value(
    m: Seq<(Seq<char>, Seq<TextEditView>)>,
    uri: Seq<char>,
    edits: Seq<TextEditView>,
    key: Seq<char>,
)
    ensures
        value_of(merged(m, uri, edits), key) == (if key == uri {
            Some(
                (match value_of(m, uri) {
                    Some(old_edits) => old_edits,
                    None => Seq::empty(),
                }) + edits,
            )
        } else {
            value_of(m, key)
        }),
{
    let all = merged(m, uri, edits);
    lemma_key_index(m, uri, 0);
    lemma_key_index(m, key, 0);
    lemma_key_index(all, key, 0);
    match key_index(m, uri, 0) {
        Some(i) => {
            assert forall|j: int| 0 <= j < m.len() implies (#[trigger] all[j]).0 == m[j].0 by {}
            if key == uri {
                assert(all[i].0 == key);
                assert forall|j: int| 0 <= j < i implies (#[trigger] all[j]).0 != key by {
                    assert(m[j].0 != key);
                }
            } else if let Some(q) = key_index(m, key, 0) {
                assert(all[q].0 == key);
                assert forall|j: int| 0 <= j < q implies (#[trigger] all[j]).0 != key by {
                    assert(m[j].0 != key);
                }
            } else {
                assert forall|j: int| 0 <= j < all.len() implies (#[trigger] all[j]).0 != key by {
                    assert(m[j].0 != key);
                }
            }
        },
        None => {
            assert(all[m.len() as int].0 == uri);
            assert forall|j: int| 0 <= j < m.len() implies #[trigger] all[j] == m[j] by {}
            if key == uri {
                assert forall|j: int| 0 <= j < m.len() implies (#[trigger] all[j]).0 != key by {
                    assert(m[j].0 != key);
                }
                assert(Seq::<TextEditView>::empty() + edits =~= edits);
            } else if let Some(q) = key_index(m, key, 0) {
                assert(all[q].0 == key);
                assert forall|j: int| 0 <= j < q implies (#[trigger] all[j]).0 != key by {
                    assert(m[j].0 != key);
                }
            } else {
                assert forall|j: int| 0 <= j < all.len() implies (#[trigger] all[j]).0 != key by {
                    if j < m.len() {
                        assert(m[j].0 != key);
                    }
                }
            }
        },
    }
}

proof fn lemma_references_held(
    m: Seq<(Seq<char>, Seq<TextEditView>)>,
    scripts: Seq<ScriptView>,
    target: Seq<char>,
    new_name: Seq<char>,
    project: ProjectView,
    enc: PositionEncoding,
    k: int,
    j: int,
    x: TextEditView,
)
    requires
        0 <= j < k <= scripts.len(),
        reference_edits(scripts[j], target, new_name, project, enc).contains(x),
    ensures
        match value_of(with_references(m, scripts, target, new_name, project, enc, k), scripts[j].uri) {
            Some(es) => es.contains(x),
            None => false,
        },
    decreases k,
{
    let rest = with_references(m, scripts, target, new_name, project, enc, k - 1);
    let edits = reference_edits(scripts[k - 1], target, new_name, project, enc);
    let uri = scripts[j].uri;
    if j < k - 1 {
        lemma_references_held(m, scripts, target, new_name, project, enc, k - 1, j, x);
    }
    if edits.len() > 0 {
        lemma_merged_value(rest, scripts[k - 1].uri, edits, uri);
        if uri == scripts[k - 1].uri {
            let before = match value_of(rest, uri) {
                Some(old_edits) => old_edits,
                None => Seq::empty(),
            };
            lemma_either_holds(before, edits, x);
        }
    }
}

/// The rename of a symbol changes every script that names it: each of its references there.
pub proof fn every_script_follows_a_symbol(
    project: ProjectView,
    path: Seq<char>,
    new_name: Seq<char>,
    prj_uri: Seq<char>,
    prj: Seq<char>,
    scripts: Seq<ScriptView>,
    enc: PositionEncoding,
    j: int,
    x: TextEditView,
)
    requires
        leaf_rename(project, path, new_name, prj_uri, prj, scripts, enc) is Ok,
        0 <= j < scripts.len(),
        reference_edits(scripts[j], path, new_name, project, enc).contains(x),
    ensures
        edits_for(
            leaf_rename(project, path, new_name, prj_uri, prj, scripts, enc)->Ok_0,
            scripts[j].uri,
        ).contains(x),
{
    let e = declaration_edit(prj, path, new_name, enc).unwrap();
    let first = seq![(prj_uri, seq![e])];
    lemma_references_held(
        first,
        scripts,
        path,
        new_name,
        project,
        enc,
        scripts.len() as int,
        j,
        x,
    );
    let edit = leaf_rename(project, path, new_name, prj_uri, prj, scripts, enc)->Ok_0;
    let es = value_of(edit.changes.unwrap(), scripts[j].uri).unwrap();
    assert(edits_for(edit, scripts[j].uri) =~= es);
}

/// The rename of a symbol succeeds exactly when the project file declares it.
pub proof fn declared_symbols_can_be_renamed(
    project: ProjectView,
    path: Seq<char>,
    new_name: Seq<char>,
    prj_uri: Seq<char>,
    prj: Seq<char>,
    scripts: Seq<ScriptView>,
    enc: PositionEncoding,
)
    ensures
        leaf_rename(project, path, new_name, prj_uri, prj, scripts, enc) is Ok <==> has(
            prj,
            "Name=\""@ + path + "\""@,
        ),
{
}

proof fn lemma_any_step_held(
    ops: Seq<DocumentChangeOperationView>,
    uri: Seq<char>,
    es: Seq<TextEditView>,
    x: TextEditView,
    k: int,
    q: int,
)
    requires
        0 <= q < k <= ops.len(),
        ops[q] == edit_step(uri, es),
        es.contains(x),
    ensures
        step_edits(ops, uri, k).contains(x),
    decreases k,
{
    let rest = step_edits(ops, uri, k - 1);
    let here = match ops[k - 1] {
        DocumentChangeOperationView::Edit(d) if d.uri == uri => bare_edits(d.edits),
        _ => Seq::empty(),
    };
    lemma_either_holds(rest, here, x);
    if q < k - 1 {
        lemma_any_step_held(ops, uri, es, x, k - 1, q);
    } else {
        assert(bare_edits(plain_edits(es)) =~= es);
    }
}

proof fn lemma_reference_step(
    ops: Seq<DocumentChangeOperationView>,
    scripts: Seq<ScriptView>,
    target: Seq<char>,
    new_name: Seq<char>,
    project: ProjectView,
    enc: PositionEncoding,
    k: int,
    j: int,
)
    requires
        0 <= j < k <= scripts.len(),
        reference_edits(scripts[j], target, new_name, project, enc).len() > 0,
    ensures
        with_reference_steps(ops, scripts, target, new_name, project, enc, k).contains(
            edit_step(
                scripts[j].uri,
                reference_edits(scripts[j], target, new_name, project, enc),
            ),
        ),
    decreases k,
{
    let rest = with_reference_steps(ops, scripts, target, new_name, project, enc, k - 1);
    let edits = reference_edits(scripts[k - 1], target, new_name, project, enc);
    let x = edit_step(scripts[j].uri, reference_edits(scripts[j], target, new_name, project, enc));
    if j < k - 1 {
        lemma_reference_step(ops, scripts, target, new_name, project, enc, k - 1, j);
    }
    if edits.len() > 0 {
        lemma_pushed_holds(rest, edit_step(scripts[k - 1].uri, edits), x);
    }
}

/// The rename of a function or a method changes every script that names it.
pub proof fn every_script_follows_a_script(
    loaded: LoadedProjectView,
    sym: SymbolView,
    new_name: Seq<char>,
    prj: Option<Seq<char>>,
    scripts: Seq<ScriptView>,
    enc: PositionEncoding,
    j: int,
    x: TextEditView,
)
    requires
        script_rename(loaded, sym, new_name, prj, scripts, enc) is Ok,
        0 <= j < scripts.len(),
        reference_edits(scripts[j], sym.path, new_name, loaded.project, enc).contains(x),
    ensures
        edits_for(
            script_rename(loaded, sym, new_name, prj, scripts, enc)->Ok_0,
            scripts[j].uri,
        ).contains(x),
{
    let edit = script_rename(loaded, sym, new_name, prj, scripts, enc)->Ok_0;
    let ops = steps_of(edit);
    let es = reference_edits(scripts[j], sym.path, new_name, loaded.project, enc);
    let uri = file_uri(loaded.m1prj_path).unwrap();
    let e = declaration_edit(prj.unwrap(), sym.path, new_name, enc).unwrap();
    let first = edit_step(
        uri,
        script_declaration_edits(prj.unwrap(), e, backing_move(sym, new_name), enc),
    );
    let n = scripts.len() as int;
    lemma_reference_step(seq![first], scripts, sym.path, new_name, loaded.project, enc, n, j);
    let rest = with_reference_steps(
        seq![first],
        scripts,
        sym.path,
        new_name,
        loaded.project,
        enc,
        n,
    );
    let step = edit_step(scripts[j].uri, es);
    let q = choose|q: int| 0 <= q < rest.len() && rest[q] == step;
    assert(ops[q] == step);
    lemma_any_step_held(ops, scripts[j].uri, es, x, ops.len() as int, q);
    assert(edits_for(edit, scripts[j].uri) =~= step_edits(ops, scripts[j].uri, ops.len() as int));
}

proof fn lemma_group_step(
    ops: Seq<DocumentChangeOperationView>,
    scripts: Seq<ScriptView>,
    group: Seq<char>,
    new_name: Seq<char>,
    project: ProjectView,
    enc: PositionEncoding,
    k: int,
    j: int,
)
    requires
        0 <= j < k <= scripts.len(),
        group_reference_edits(scripts[j], group, new_name, project, enc).len() > 0,
    ensures
        with_group_steps(ops, scripts, group, new_name, project, enc, k).contains(
            edit_step(
                scripts[j].uri,
                group_reference_edits(scripts[j], group, new_name, project, enc),
            ),
        ),
    decreases k,
{
    let rest = with_group_steps(ops, scripts, group, new_name, project, enc, k - 1);
    let edits = group_reference_edits(scripts[k - 1], group, new_name, project, enc);
    let x = edit_step(
        scripts[j].uri,
        group_reference_edits(scripts[j], group, new_name, project, enc),
    );
    if j < k - 1 {
        lemma_group_step(ops, scripts, group, new_name, project, enc, k - 1, j);
    }
    if edits.len() > 0 {
        lemma_pushed_holds(rest, edit_step(scripts[k - 1].uri, edits), x);
    }
}

/// The rename of a group changes every script that names it or something below it: the segment
/// `seg` that spells the group in path `n` gets the new name.
pub proof fn every_script_follows_a_group(
    loaded: LoadedProjectView,
    group: Seq<char>,
    new_name: Seq<char>,
    prj: Option<Seq<char>>,
    scripts: Seq<ScriptView>,
    enc: PositionEncoding,
    j: int,
    n: usize,
    written: bool,
    seg: usize,
)
    requires
        group_rename(loaded, group, new_name, prj, scripts, enc) is Ok,
        0 <= j < scripts.len(),
        top_path_seq(scripts[j].tree).contains((n, written)),
        group_segment(scripts[j].tree, n, group, scripts[j].scope, loaded.project) == Some(seg),
    ensures
        edits_for(
            group_rename(loaded, group, new_name, prj, scripts, enc)->Ok_0,
            scripts[j].uri,
        ).contains(
            TextEditView {
                range: range_of(
                    scripts[j].index,
                    scripts[j].tree.start(seg),
                    scripts[j].tree.end(seg),
                    enc,
                ),
                new_text: new_name,
            },
        ),
{
    let s = scripts[j];
    let t = s.tree;
    let ps = top_path_seq(t);
    let w = choose|w: int| 0 <= w < ps.len() && ps[w] == (n, written);
    assert(group_segment(t, ps[w].0, group, s.scope, loaded.project) == Some(seg));
    group_references_are_renamed_exactly(
        t,
        group,
        s.scope,
        loaded.project,
        ps,
        ps.len() as int,
        seg,
    );
    let ns = group_segments(t, group, s.scope, loaded.project, ps, ps.len() as int);
    let i = choose|i: int| 0 <= i < ns.len() && ns[i] == seg;
    let es = group_reference_edits(s, group, new_name, loaded.project, enc);
    let x = TextEditView {
        range: range_of(s.index, t.start(seg), t.end(seg), enc),
        new_text: new_name,
    };
    assert(es[i] == x);
    assert(es.contains(x));
    let edit = group_rename(loaded, group, new_name, prj, scripts, enc)->Ok_0;
    let ops = steps_of(edit);
    let count = loaded.project.symbols.len() as int;
    let uri = file_uri(loaded.m1prj_path).unwrap();
    let text = prj.unwrap();
    let first = edit_step(
        uri,
        name_edits(text, group, new_name, enc) + file_edits_upto(
            text,
            loaded.project.symbols,
            group,
            new_name,
            enc,
            count,
        ),
    );
    lemma_group_step(
        seq![first],
        scripts,
        group,
        new_name,
        loaded.project,
        enc,
        scripts.len() as int,
        j,
    );
    let rest = with_group_steps(
        seq![first],
        scripts,
        group,
        new_name,
        loaded.project,
        enc,
        scripts.len() as int,
    );
    let q = choose|q: int| 0 <= q < rest.len() && rest[q] == edit_step(s.uri, es);
    assert(ops[q] == edit_step(s.uri, es));
    lemma_any_step_held(ops, s.uri, es, x, ops.len() as int, q);
    assert(edits_for(edit, s.uri) =~= step_edits(ops, s.uri, ops.len() as int));
}

/// In a reference to a group, the group is spelled by the last segment of the name; in a
/// reference to something directly below it, by the segment in front of that.
pub proof fn groups_are_spelled_by_their_segment(
    t: Tree,
    n: usize,
    group: Seq<char>,
    scope: ScopeView,
    project: ProjectView,
    sym: SymbolView,
    k: int,
    leaf: Seq<char>,
)
    requires
        prefix_named(t.text_of(n), scope, project) == Some((sym, k)),
        k <= segments(t, n).len(),
        !leaf.contains('.'),
    ensures
        sym.path == group && k >= 1 && t.text_of(segments(t, n)[k - 1]) == leaf_name(group)
            ==> group_segment(t, n, group, scope, project) == Some(segments(t, n)[k - 1]),
        sym.path == group + "."@ + leaf && k >= 2 && t.text_of(segments(t, n)[k - 2]) == leaf_name(
            group,
        ) ==> group_segment(t, n, group, scope, project) == Some(segments(t, n)[k - 2]),
        sym.path != group && !begins(sym.path, group + "."@) ==> group_segment(
            t,
            n,
            group,
            scope,
            project,
        ) is None,
{
    reveal_strlit(".");
    if sym.path == group + "."@ + leaf {
        assert("."@ =~= seq!['.']);
        segments_add_up(group, '.', leaf);
        lemma_one_segment(leaf, '.');
        let p = group + "."@;
        assert(sym.path.subrange(0, p.len() as int) =~= p);
        assert(sym.path != group) by {
            assert(sym.path.len() > group.len());
        }
    }
}

// ---------------------------------------------------------------------------
// What the cursor renames
// ---------------------------------------------------------------------------

/// A local under the cursor gets its new name in the document alone, if a local can have that
/// name; the project plays no part.
pub proof fn locals_are_renamed_in_their_document(
    t: Tree,
    b: int,
    new_name: Seq<char>,
    uri: Seq<char>,
    s: Seq<char>,
    enc: PositionEncoding,
    loaded: Option<LoadedProjectView>,
    scope: ScopeView,
    prj: Option<Seq<char>>,
    scripts: Seq<ScriptView>,
    name: Seq<char>,
)
    requires
        local_at(t, b) == Some(name),
    ensures
        ({
            let r = rename_at(t, b, new_name, uri, s, enc, loaded, scope, prj, scripts);
            &&& is_local_name(new_name) ==> r is Ok && edits_for(r->Ok_0, uri) == local_edits(
                t,
                name,
                new_name,
                s,
                enc,
            ) && r->Ok_0.document_changes is None && r->Ok_0.changes.unwrap().len() == 1
            &&& !is_local_name(new_name) ==> r == Err::<WorkspaceEditView, Seq<char>>(
                "‘"@ + new_name
                    + "’ is not a valid local name (letters, digits, underscore and internal spaces; no leading digit or surrounding space)"@,
            )
        }),
{
    let r = rename_at(t, b, new_name, uri, s, enc, loaded, scope, prj, scripts);
    if is_local_name(new_name) {
        let edits = local_edits(t, name, new_name, s, enc);
        let changes = r->Ok_0.changes.unwrap();
        assert(changes[0] == (uri, edits));
        assert(key_index(changes, uri, 0) == Some(0int));
        assert(edits_for(r->Ok_0, uri) =~= edits);
    }
}

/// A name that a local can have: letters, digits, underscores and blanks, with no digit and no
/// blank in front and no blank at the end.
pub proof fn local_names_are_words(s: Seq<char>)
    ensures
        is_local_name(s) <==> {
            &&& s.len() > 0
            &&& !('0' <= s[0] <= '9') && s[0] != ' ' && s[s.len() - 1] != ' '
            &&& forall|i: int|
                0 <= i < s.len() ==> ('a' <= #[trigger] s[i] <= 'z') || ('A' <= s[i] <= 'Z') || ('0'
                    <= s[i] <= '9') || s[i] == '_' || s[i] == ' '
        },
{
    if s.len() > 0 {
        assert(s.last() == s[s.len() - 1]);
    }
}

/// A symbol under the cursor is renamed as its sort asks for, to the name without white space
/// at its ends: a group with everything below it, a script with its file, anything else by its
/// declaration and its references.
pub proof fn symbols_are_renamed_by_their_sort(
    t: Tree,
    b: int,
    new_name: Seq<char>,
    uri: Seq<char>,
    s: Seq<char>,
    enc: PositionEncoding,
    lp: LoadedProjectView,
    scope: ScopeView,
    prj: Seq<char>,
    scripts: Seq<ScriptView>,
    sym: SymbolView,
    kind: RenameKind,
    prj_uri: Seq<char>,
)
    requires
        local_at(t, b) is None,
        target_at(t, b, scope, lp.project) == Ok::<Option<(SymbolView, RenameKind)>, Seq<char>>(
            Some((sym, kind)),
        ),
        is_symbol_name(trimmed(new_name)),
        file_uri(lp.m1prj_path) == Some(prj_uri),
    ensures
        ({
            let name = trimmed(new_name);
            let r = rename_at(t, b, new_name, uri, s, enc, Some(lp), scope, Some(prj), scripts);
            &&& kind == RenameKind::Group ==> r == group_rename(
                lp,
                sym.path,
                name,
                Some(prj),
                scripts,
                enc,
            )
            &&& kind == RenameKind::FileBacked ==> r == script_rename(
                lp,
                sym,
                name,
                Some(prj),
                scripts,
                enc,
            )
            &&& kind == RenameKind::Leaf && name != leaf_name(sym.path) && lp.project.get(
                with_leaf(sym.path, name),
            ) is None ==> r == leaf_rename(
                lp.project,
                sym.path,
                name,
                prj_uri,
                prj,
                scripts,
                enc,
            )
            &&& kind == RenameKind::Leaf && (name == leaf_name(sym.path) || lp.project.get(
                with_leaf(sym.path, name),
            ) is Some) ==> r is Err
        }),
{
}

/// The cursor is on the symbol that the path up to its segment names: on the longest start of
/// it that names any.
pub proof fn the_cursor_is_on_the_symbol_up_to_its_segment(
    t: Tree,
    b: int,
    scope: ScopeView,
    project: ProjectView,
    segs: Seq<usize>,
    i: int,
)
    requires
        hovered(t, b) == Some((segs, i)),
    ensures
        match prefix_named(dotted(t, segs, i + 1), scope, project) {
            Some((sym, k)) => match rename_kind(project, sym) {
                Ok(kind) => target_at(t, b, scope, project) == Ok::<
                    Option<(SymbolView, RenameKind)>,
                    Seq<char>,
                >(Some((sym, kind))),
                Err(m) => target_at(t, b, scope, project) == Err::<
                    Option<(SymbolView, RenameKind)>,
                    Seq<char>,
                >(m),
            },
            None => target_at(t, b, scope, project) == Ok::<
                Option<(SymbolView, RenameKind)>,
                Seq<char>,
            >(None),
        },
{
}

/// What a rename would change at the cursor: a local itself, of a group the segment that the
/// cursor touches, of anything else the segment in which the name of the symbol ends.
pub proof fn the_segment_of_the_symbol_is_edited(
    t: Tree,
    b: int,
    p: ProjectView,
    scope: ScopeView,
    top: usize,
    sym: SymbolView,
    kind: RenameKind,
    k: int,
    i: usize,
)
    requires
        local_at(t, b) is None,
        path_node(t, b) == Some(top),
        target_at(t, b, scope, p) == Ok::<Option<(SymbolView, RenameKind)>, Seq<char>>(
            Some((sym, kind)),
        ),
        prefix_named(t.text_of(top), scope, p) == Some((sym, k)),
        0 < k <= segments(t, top).len(),
        touched(t, segments(t, top), b, 0) == Some(i),
        i < segments(t, top).len(),
    ensures
        kind == RenameKind::Group ==> editable_node(t, b, Some(p), scope) == Some(
            segments(t, top)[i as int],
        ),
        kind != RenameKind::Group ==> editable_node(t, b, Some(p), scope) == Some(
            segments(t, top)[k - 1],
        ),
{
}

/// In the project file the rename is of the component whose name the cursor touches.
pub proof fn names_in_the_project_file_are_touched(
    s: Seq<char>,
    spans: Seq<(usize, usize)>,
    b: int,
    k: int,
)
    requires
        0 <= k <= spans.len(),
    ensures
        match name_at(s, spans, b, k) {
            Some((a, z)) => byte_at(s, a as int) <= b <= byte_at(s, z as int) && exists|j: int|
                k <= j < spans.len() && #[trigger] spans[j] == (a, z) && forall|i: int|
                    k <= i < j ==> !touches(s, #[trigger] spans[i], b),
            None => forall|i: int| k <= i < spans.len() ==> !touches(s, #[trigger] spans[i], b),
        },
    decreases spans.len() - k,
{
    if k < spans.len() {
        if touches(s, spans[k], b) {
            assert(spans[k] == name_at(s, spans, b, k).unwrap());
        } else {
            names_in_the_project_file_are_touched(s, spans, b, k + 1);
        }
    }
}

/// The byte stands in the value, or at one of its ends.
pub open spec fn touches(s: Seq<char>, span: (usize, usize), b: int) -> bool {
    byte_at(s, span.0 as int) <= b <= byte_at(s, span.1 as int)
}

/// In the project file a script is renamed with its file, and any other component by its
/// declaration and its references.
pub proof fn components_are_renamed_by_their_sort(
    prj: Seq<char>,
    b: int,
    new_name: Seq<char>,
    prj_uri: Seq<char>,
    loaded: LoadedProjectView,
    scripts: Seq<ScriptView>,
    enc: PositionEncoding,
    path: Seq<char>,
    a: usize,
    z: usize,
    sym: SymbolView,
)
    requires
        name_attr(prj, b) == Some((path, a, z)),
        renameable(loaded.project, path) == Ok::<SymbolView, Seq<char>>(sym),
        is_symbol_name(trimmed(new_name)),
    ensures
        ({
            let name = trimmed(new_name);
            let r = m1prj_rename(prj, b, new_name, prj_uri, loaded, scripts, enc);
            let by_user = match sym.classname {
                Some(c) => is_user_class(c),
                None => false,
            };
            &&& by_user ==> r == script_rename(loaded, sym, name, Some(prj), scripts, enc)
            &&& !by_user && name != leaf_name(path) && loaded.project.get(with_leaf(path, name)) is None
                ==> r == leaf_rename(loaded.project, path, name, prj_uri, prj, scripts, enc)
            &&& !by_user && name == leaf_name(path) ==> r is Err
            &&& !by_user && loaded.project.get(with_leaf(path, name)) is Some ==> r is Err
        }),
{
}

/// The file to which a script moves has the name that the project file then gives it.
pub proof fn moved_files_have_the_new_name(path: Seq<char>, file: Seq<char>, symbol: Seq<char>, new_name: Seq<char>)
    requires
        base_name(path) == Some(file),
        prefix_len(path) == 0,
        prefix_len(new_file_name(file, symbol, new_name)) == 0,
        !new_file_name(file, symbol, new_name).contains('/'),
    ensures
        base_name(beside(path, new_file_name(file, symbol, new_name))) == Some(
            new_file_name(file, symbol, new_name),
        ),
{
    reveal_strlit(".m1scr");
    let name = new_file_name(file, symbol, new_name);
    assert(name.last() == 'r');
    siblings_have_their_name(path, name);
}

} // verus!
