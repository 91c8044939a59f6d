//! Refactorings of a selection: an expression becomes a local, or a local its value.
use crate::code_action::{
    action_of, CodeAction, CodeActionKind, CodeActionView, indent_of, line_indent, source_action,
};
use crate::code_action::suppress::{enclosing_statement, statement_of};
use crate::edits::{TextEdit, TextEditView};
use crate::format::{decimal, decimal_text, digit};
use crate::goto::{at_line, line_range};
use crate::line_index::{LineIndex, offset_of, Position, position_of, PositionEncoding, Range};
use crate::list::{extend, fresh, one, put};
use crate::locate::{
    collect_locals, declared_name, in_annotation, in_type_annotation, is_local, locals_of,
    locals_upto, plays,
};
use crate::model::{find_key, key_index, lemma_key_index, ValueType};
use crate::order::has_key;
use crate::references::{local_at, names_local};
use crate::rename::local::{is_local_ref, local_ident_at, rename_nodes, renamed};
use crate::search::{trim, trimmed};
use crate::syntax::{Field, Kind, SyntaxTree, Tree};
use crate::text::{
    byte_at, bytes_before, char_at, char_is_space, chars, index_of_byte, is_boundary, is_space,
    lemma_byte_at_ends, lemma_byte_at_monotone, lemma_char_at_unique, same, string,
};
use vstd::prelude::*;
use vstd::string::*;

verus! {

// ---------------------------------------------------------------------------
// Expressions
// ---------------------------------------------------------------------------

pub open spec fn is_expression(k: Kind) -> bool {
    match k {
        Kind::Identifier
        | Kind::Interpolation
        | Kind::MemberExpression
        | Kind::CallExpression
        | Kind::UnaryExpression
        | Kind::BinaryExpression
        | Kind::TernaryExpression
        | Kind::ParenthesizedExpression
        | Kind::Number
        | Kind::Boolean
        | Kind::String => true,
        _ => false,
    }
}

fn is_expression_kind(k: Kind) -> (r: bool)
    ensures
        r == is_expression(k),
{
    match k {
        Kind::Identifier
        | Kind::Interpolation
        | Kind::MemberExpression
        | Kind::CallExpression
        | Kind::UnaryExpression
        | Kind::BinaryExpression
        | Kind::TernaryExpression
        | Kind::ParenthesizedExpression
        | Kind::Number
        | Kind::Boolean
        | Kind::String => true,
        _ => false,
    }
}

/// `n` lies in what the nearest assignment around it assigns to.
pub open spec fn in_target(t: Tree, n: usize) -> bool
    decreases n,
{
    match t.parent(n) {
        Some(p) if p < n => if t.kind(p) == Kind::AssignmentStatement {
            match t.child_by_field(p, Field::Target) {
                Some(c) => t.start(c) <= t.start(n) && t.end(n) <= t.end(c),
                None => false,
            }
        } else {
            in_target(t, p)
        },
        _ => false,
    }
}

fn within_assignment_target(tree: &SyntaxTree, n: usize) -> (r: bool)
    requires
        tree@.has(n),
    ensures
        r == in_target(tree@, n),
{
    let mut cur: usize = n;
    loop
        invariant
            tree@.has(cur),
            in_target(tree@, n) == in_target(tree@, cur),
        decreases cur,
    {
        match tree.parent(cur) {
            Some(p) => {
                if tree.kind(p) == Kind::AssignmentStatement {
                    return match tree.child_by_field(p, Field::Target) {
                        Some(c) => {
                            let d = tree.node(c);
                            let e = tree.node(cur);
                            d.start <= e.start && e.end <= d.end
                        },
                        None => false,
                    };
                }
                cur = p;
            },
            None => {
                return false;
            },
        }
    }
}

/// `n` is the name that a declaration gives a local.
pub open spec fn is_declared(t: Tree, n: usize) -> bool {
    match t.parent(n) {
        Some(p) => t.kind(p) == Kind::LocalDeclaration && plays(t, p, n, Field::Name),
        None => false,
    }
}

fn is_local_decl_name(tree: &SyntaxTree, n: usize) -> (r: bool)
    requires
        tree@.has(n),
    ensures
        r == is_declared(tree@, n),
{
    match tree.parent(n) {
        Some(p) => {
            if tree.kind(p) != Kind::LocalDeclaration {
                return false;
            }
            match tree.child_by_field(p, Field::Name) {
                Some(c) => tree.same_span(c, n),
                None => false,
            }
        },
        None => false,
    }
}

/// `n` is an expression that stands for a value.
pub open spec fn is_value(t: Tree, n: usize) -> bool {
    is_expression(t.kind(n)) && !in_target(t, n) && !in_annotation(t, n) && !is_declared(t, n)
}

fn is_value_expression(tree: &SyntaxTree, n: usize) -> (r: bool)
    requires
        tree@.has(n),
    ensures
        r == is_value(tree@, n),
{
    is_expression_kind(tree.kind(n)) && !within_assignment_target(tree, n) && !in_type_annotation(
        tree,
        n,
    ) && !is_local_decl_name(tree, n)
}

// ---------------------------------------------------------------------------
// A fresh name
// ---------------------------------------------------------------------------

/// The `i`-th name for a new local.
pub open spec fn candidate(i: nat) -> Seq<char> {
    if i <= 1 {
        "myValue"@
    } else {
        "myValue"@ + decimal(i)
    }
}

/// The first name from the `i`-th on that is not taken, among the next `n`.
pub open spec fn free_name(locals: Seq<(Seq<char>, ValueType)>, i: nat, n: nat) -> Seq<char>
    decreases n,
{
    if n == 0 || !has_key(locals, candidate(i)) {
        candidate(i)
    } else {
        free_name(locals, i + 1, (n - 1) as nat)
    }
}

/// A name that no local of the script has.
pub open spec fn fresh_name(t: Tree) -> Seq<char> {
    let locals = locals_of(t, Seq::empty());
    free_name(locals, 1, locals.len())
}

fn candidate_name(i: usize) -> (r: String)
    ensures
        r@ == candidate(i as nat),
{
    let mut r = "myValue".to_string();
    if i > 1 {
        r.append(decimal_text(i as u64).as_str());
    }
    r
}

proof fn lemma_locals_len(t: Tree, types: Seq<(usize, ValueType)>, k: int)
    requires
        0 <= k,
    ensures
        locals_upto(t, types, k).len() <= k,
    decreases k,
{
    if k > 0 {
        lemma_locals_len(t, types, k - 1);
        if let Some(c) = declared_name(t, (k - 1) as usize) {
            lemma_key_index(locals_upto(t, types, k - 1), t.text_of(c), 0);
        }
    }
}

fn fresh_local_name(tree: &SyntaxTree) -> (r: String)
    ensures
        r@ == fresh_name(tree@),
{
    let none: Vec<(usize, ValueType)> = Vec::new();
    assert(none@ =~= Seq::empty());
    let locals = collect_locals(tree, &none);
    let count: usize = locals.len();
    let ghost ls = locals.deep_view();
    let size: usize = tree.len();
    tree.well_formed();
    proof {
        lemma_locals_len(tree@, none@, size - 1);
        tree_last_declares_nothing(tree@);
        assert(count < size);
    }
    let mut i: usize = 1;
    while i <= count
        invariant
            1 <= i <= count + 1,
            count < usize::MAX,
            count == ls.len(),
            ls == locals.deep_view(),
            fresh_name(tree@) == free_name(ls, i as nat, (count + 1 - i) as nat),
        decreases count + 1 - i,
    {
        let name = candidate_name(i);
        if find_key(&locals, name.as_str()).is_none() {
            return name;
        }
        i = i + 1;
    }
    candidate_name(i)
}

// ---------------------------------------------------------------------------
// Extraction
// ---------------------------------------------------------------------------

/// The selection from index `a` up to `z` without the white space at its ends.
pub open spec fn trimmed_span(s: Seq<char>, a: int, z: int) -> (int, int)
    decreases z - a,
{
    if 0 <= a < z <= s.len() && is_space(s[a]) {
        trimmed_span(s, a + 1, z)
    } else if 0 <= a < z <= s.len() && is_space(s[z - 1]) {
        trimmed_span(s, a, z - 1)
    } else {
        (a, z)
    }
}

fn trim_span(v: &Vec<char>, a: usize, z: usize) -> (r: (usize, usize))
    requires
        a <= z <= v@.len(),
    ensures
        (r.0 as int, r.1 as int) == trimmed_span(v@, a as int, z as int),
        a <= r.0 <= r.1 <= z,
{
    let mut i: usize = a;
    let mut j: usize = z;
    loop
        invariant
            a <= i <= j <= z <= v@.len(),
            trimmed_span(v@, a as int, z as int) == trimmed_span(v@, i as int, j as int),
        decreases j - i,
    {
        if i < j && char_is_space(v[i]) {
            i = i + 1;
        } else if i < j && char_is_space(v[j - 1]) {
            j = j - 1;
        } else {
            return (i, j);
        }
    }
}

/// The longest expression, among the first `k` nodes, between two byte offsets; of
/// expressions of one length the last.
pub open spec fn widest_expression(t: Tree, a: int, z: int, k: int) -> Option<usize>
    decreases k,
{
    if k <= 0 {
        None
    } else {
        let n = (k - 1) as usize;
        let best = widest_expression(t, a, z, k - 1);
        if is_expression(t.kind(n)) && a <= t.start(n) && t.end(n) <= z {
            match best {
                Some(m) if t.end(m) - t.start(m) > t.end(n) - t.start(n) => best,
                _ => Some(n),
            }
        } else {
            best
        }
    }
}

fn find_expression(tree: &SyntaxTree, a: usize, z: usize) -> (r: Option<usize>)
    ensures
        r == widest_expression(tree@, a as int, z as int, tree@.size() as int),
        r matches Some(n) ==> tree@.has(n),
{
    let size: usize = tree.len();
    let mut best: Option<usize> = None;
    let mut k: usize = 0;
    while k < size
        invariant
            k <= size == tree@.size(),
            best == widest_expression(tree@, a as int, z as int, k as int),
            best matches Some(m) ==> tree@.has(m),
        decreases size - k,
    {
        let d = tree.node(k);
        if is_expression_kind(d.kind) && a <= d.start && d.end <= z {
            let keep = match best {
                Some(m) => {
                    let e = tree.node(m);
                    e.end - e.start > d.end - d.start
                },
                None => false,
            };
            if !keep {
                best = Some(k);
            }
        }
        k = k + 1;
    }
    best
}

/// `ns`, in the order of their starts, with `n` in it unless one starts there already.
pub open spec fn with_start(t: Tree, ns: Seq<usize>, n: usize) -> Seq<usize>
    decreases ns.len(),
{
    if ns.len() == 0 || t.start(ns.last()) < t.start(n) {
        ns.push(n)
    } else if t.start(ns.last()) == t.start(n) {
        ns
    } else {
        with_start(t, ns.drop_last(), n).push(ns.last())
    }
}

/// The values among the first `k` nodes that read like `needle`, in the order of their
/// starts, one for each start.
pub open spec fn alike_upto(t: Tree, needle: Seq<char>, k: int) -> Seq<usize>
    decreases k,
{
    if k <= 0 {
        Seq::empty()
    } else {
        let n = (k - 1) as usize;
        if is_value(t, n) && trimmed(t.text_of(n)) == needle {
            with_start(t, alike_upto(t, needle, k - 1), n)
        } else {
            alike_upto(t, needle, k - 1)
        }
    }
}

proof fn lemma_with_start(t: Tree, ns: Seq<usize>, n: usize, j: int)
    requires
        0 <= j <= ns.len(),
        forall|i: int| j <= i < ns.len() ==> t.start(#[trigger] ns[i]) > t.start(n),
    ensures
        j == 0 || t.start(ns[j - 1]) < t.start(n) ==> with_start(t, ns, n) == ns.insert(j, n),
        j > 0 && t.start(ns[j - 1]) == t.start(n) ==> with_start(t, ns, n) == ns,
    decreases ns.len(),
{
    if j == ns.len() {
        assert(ns.insert(j, n) =~= ns.push(n));
    } else {
        assert(ns.last() == ns[ns.len() - 1]);
        lemma_with_start(t, ns.drop_last(), n, j);
        assert(ns.insert(j, n) =~= ns.drop_last().insert(j, n).push(ns.last()));
        assert(ns.drop_last().push(ns.last()) =~= ns);
    }
}

fn insert_by_start(tree: &SyntaxTree, ns: &mut Vec<usize>, n: usize)
    requires
        tree@.has(n),
        forall|i: int| 0 <= i < old(ns)@.len() ==> tree@.has(#[trigger] old(ns)@[i]),
    ensures
        final(ns)@ == with_start(tree@, old(ns)@, n),
        forall|i: int| 0 <= i < final(ns)@.len() ==> tree@.has(#[trigger] final(ns)@[i]),
{
    let start: usize = tree.start(n);
    let mut j: usize = ns.len();
    while j > 0 && tree.start(ns[j - 1]) > start
        invariant
            j <= ns@.len(),
            start == tree@.start(n),
            forall|i: int| 0 <= i < ns@.len() ==> tree@.has(#[trigger] ns@[i]),
            forall|i: int| j <= i < ns@.len() ==> tree@.start(#[trigger] ns@[i]) > start,
        decreases j,
    {
        j = j - 1;
    }
    proof {
        lemma_with_start(tree@, ns@, n, j as int);
    }
    if j > 0 && tree.start(ns[j - 1]) == start {
        return;
    }
    ns.insert(j, n);
}

fn find_alike(tree: &SyntaxTree, needle: &str) -> (r: Vec<usize>)
    ensures
        r@ == alike_upto(tree@, needle@, tree@.size() as int),
        forall|i: int| 0 <= i < r@.len() ==> tree@.has(#[trigger] r@[i]),
{
    let size: usize = tree.len();
    let mut r: Vec<usize> = Vec::new();
    let mut k: usize = 0;
    while k < size
        invariant
            k <= size == tree@.size(),
            r@ == alike_upto(tree@, needle@, k as int),
            forall|i: int| 0 <= i < r@.len() ==> tree@.has(#[trigger] r@[i]),
        decreases size - k,
    {
        if is_value_expression(tree, k) {
            let text = string(&trim(&chars(tree.text_of(k).as_str())));
            if same(text.as_str(), needle) {
                insert_by_start(tree, &mut r, k);
            }
        }
        k = k + 1;
    }
    r
}

/// The edits that make a local of the text `needle`: its declaration above the first
/// statement that has it, and its name wherever it stands as a value.
pub open spec fn extract_edits(
    t: Tree,
    needle: Seq<char>,
    s: Seq<char>,
    enc: PositionEncoding,
) -> Option<Seq<TextEditView>> {
    let occ = alike_upto(t, needle, t.size() as int);
    if needle.len() == 0 || occ.len() == 0 {
        None
    } else {
        let name = fresh_name(t);
        let line = position_of(s, t.start(statement_of(t, occ[0])), enc).line;
        let declaration = TextEditView {
            range: line_range(line),
            new_text: indent_of(s, line) + "local "@ + name + " = "@ + needle + ";\n"@,
        };
        Some(seq![declaration] + renamed(t, occ, name, s, enc))
    }
}

/// The extraction of the expression that the selection covers, if it covers one that stands
/// for a value.
pub open spec fn extraction(
    t: Tree,
    s: Seq<char>,
    enc: PositionEncoding,
    uri: Seq<char>,
    r: Range,
) -> Option<CodeActionView> {
    let a = offset_of(s, r.start, enc);
    let z = offset_of(s, r.end, enc);
    if a <= z && is_boundary(s, a) && is_boundary(s, z) {
        let (i, j) = trimmed_span(s, char_at(s, a), char_at(s, z));
        if i >= j {
            None
        } else {
            match widest_expression(
                t,
                byte_at(s, i) as int,
                byte_at(s, j) as int,
                t.size() as int,
            ) {
                Some(n) if is_value(t, n) => match extract_edits(
                    t,
                    trimmed(t.text_of(n)),
                    s,
                    enc,
                ) {
                    Some(edits) => Some(
                        source_action(
                            "Extract to local"@,
                            CodeActionKind::RefactorExtract,
                            uri,
                            edits,
                        ),
                    ),
                    None => None,
                },
                _ => None,
            }
        }
    } else {
        None
    }
}

fn extract_needle(tree: &SyntaxTree, needle: &str, li: &LineIndex, enc: PositionEncoding) -> (r:
    Option<Vec<TextEdit>>)
    ensures
        r.deep_view() == extract_edits(tree@, needle@, li@, enc),
{
    proof {
        reveal_strlit("");
        assert(needle@.len() == 0 ==> needle@ =~= ""@);
    }
    let occ = find_alike(tree, needle);
    if same(needle, "") || occ.len() == 0 {
        return None;
    }
    let name = fresh_local_name(tree);
    let stmt: usize = enclosing_statement(tree, occ[0]);
    let line: u32 = li.position(tree.start(stmt), enc).line;
    let mut new_text = line_indent(li, line);
    new_text.append("local ");
    new_text.append(name.as_str());
    new_text.append(" = ");
    new_text.append(needle);
    new_text.append(";\n");
    let mut edits = one(TextEdit { range: at_line(line), new_text });
    extend(&mut edits, rename_nodes(tree, &occ, name.as_str(), li, enc));
    Some(edits)
}

fn extract_local(
    tree: &SyntaxTree,
    li: &LineIndex,
    enc: PositionEncoding,
    uri: &str,
    r: Range,
) -> (action: Option<CodeAction>)
    ensures
        action.deep_view() == extraction(tree@, li@, enc, uri@, r),
{
    let v = li.characters();
    let a: usize = li.offset(r.start, enc);
    let z: usize = li.offset(r.end, enc);
    if a > z {
        return None;
    }
    let (i0, j0) = match (index_of_byte(v, a), index_of_byte(v, z)) {
        (Some(i), Some(j)) => (i, j),
        _ => {
            return None;
        },
    };
    proof {
        if j0 < i0 {
            lemma_byte_at_monotone(v@, j0 as int, i0 as int);
        }
        lemma_char_at_unique(v@, i0 as int);
        lemma_char_at_unique(v@, j0 as int);
    }
    let (i, j) = trim_span(v, i0, j0);
    if i >= j {
        return None;
    }
    proof {
        lemma_byte_at_monotone(v@, i as int, v@.len() as int);
        lemma_byte_at_monotone(v@, j as int, v@.len() as int);
        lemma_byte_at_ends(v@);
    }
    let n: usize = match find_expression(tree, bytes_before(v, i), bytes_before(v, j)) {
        Some(n) => n,
        None => {
            return None;
        },
    };
    if !is_value_expression(tree, n) {
        return None;
    }
    let needle = string(&trim(&chars(tree.text_of(n).as_str())));
    match extract_needle(tree, needle.as_str(), li, enc) {
        Some(edits) => Some(
            action_of("Extract to local", CodeActionKind::RefactorExtract, uri, edits),
        ),
        None => None,
    }
}

// ---------------------------------------------------------------------------
// Inlining
// ---------------------------------------------------------------------------

/// The first declaration, from node `k` on, of a local of that name.
pub open spec fn declaration_from(t: Tree, name: Seq<char>, k: int) -> Option<usize>
    decreases t.size() - k,
{
    if k < 0 || k >= t.size() {
        None
    } else {
        let n = k as usize;
        match t.child_by_field(n, Field::Name) {
            Some(c) if t.kind(n) == Kind::LocalDeclaration && t.text_of(c) == name => Some(n),
            _ => declaration_from(t, name, k + 1),
        }
    }
}

/// `n` refers to the local, and is not the name in its declaration.
pub open spec fn is_use(t: Tree, n: usize, name: Seq<char>, decl_name: usize) -> bool {
    names_local(t, n, name) && !t.same_span(n, decl_name)
}

/// The uses of the local among the first `k` nodes.
pub open spec fn uses_before(t: Tree, name: Seq<char>, decl_name: usize, k: int) -> Seq<usize>
    decreases k,
{
    if k <= 0 {
        Seq::empty()
    } else if is_use(t, (k - 1) as usize, name, decl_name) {
        uses_before(t, name, decl_name, k - 1).push((k - 1) as usize)
    } else {
        uses_before(t, name, decl_name, k - 1)
    }
}

/// One of the first `k` nodes assigns to the local.
pub open spec fn reassigned(t: Tree, name: Seq<char>, decl_name: usize, k: int) -> bool {
    exists|n: usize| n < k && #[trigger] is_use(t, n, name, decl_name) && in_target(t, n)
}

/// The next line, if lines can be counted so far.
pub open spec fn line_after(line: u32) -> u32 {
    if line < u32::MAX {
        (line + 1) as u32
    } else {
        line
    }
}

/// The removal of a line.
pub open spec fn delete_line(line: u32) -> TextEditView {
    TextEditView {
        range: Range {
            start: Position { line, character: 0 },
            end: Position { line: line_after(line), character: 0 },
        },
        new_text: ""@,
    }
}

/// The edits that put the value of the local in the place of its name, and remove its
/// declaration. None where the local has no first value, or gets another.
pub open spec fn inline_edits(t: Tree, name: Seq<char>, s: Seq<char>, enc: PositionEncoding) -> Option<
    Seq<TextEditView>,
> {
    match declaration_from(t, name, 0) {
        Some(decl) => match (
            t.child_by_field(decl, Field::Name),
            t.child_by_field(decl, Field::Value),
        ) {
            (Some(decl_name), Some(init)) => if reassigned(t, name, decl_name, t.size() as int) {
                None
            } else {
                Some(
                    renamed(
                        t,
                        uses_before(t, name, decl_name, t.size() as int),
                        t.text_of(init),
                        s,
                        enc,
                    ).push(delete_line(position_of(s, t.start(decl), enc).line)),
                )
            },
            _ => None,
        },
        None => None,
    }
}

/// The inlining of the local at the start of the selection.
pub open spec fn inlining(
    t: Tree,
    s: Seq<char>,
    enc: PositionEncoding,
    uri: Seq<char>,
    r: Range,
) -> Option<CodeActionView> {
    match local_at(t, offset_of(s, r.start, enc)) {
        Some(name) => match inline_edits(t, name, s, enc) {
            Some(edits) => Some(
                source_action("Inline local"@, CodeActionKind::RefactorInline, uri, edits),
            ),
            None => None,
        },
        None => None,
    }
}

fn find_declaration(tree: &SyntaxTree, name: &str) -> (r: Option<usize>)
    ensures
        r == declaration_from(tree@, name@, 0),
        r matches Some(n) ==> tree@.has(n),
{
    let size: usize = tree.len();
    let mut k: usize = 0;
    while k < size
        invariant
            k <= size == tree@.size(),
            declaration_from(tree@, name@, 0) == declaration_from(tree@, name@, k as int),
        decreases size - k,
    {
        if tree.kind(k) == Kind::LocalDeclaration {
            if let Some(c) = tree.child_by_field(k, Field::Name) {
                if same(tree.text_of(c).as_str(), name) {
                    return Some(k);
                }
            }
        }
        k = k + 1;
    }
    None
}

fn find_uses(tree: &SyntaxTree, name: &str, decl_name: usize) -> (r: Option<Vec<usize>>)
    requires
        tree@.has(decl_name),
    ensures
        match r {
            Some(ns) => !reassigned(tree@, name@, decl_name, tree@.size() as int) && ns@
                == uses_before(tree@, name@, decl_name, tree@.size() as int) && forall|i: int|
                0 <= i < ns@.len() ==> tree@.has(#[trigger] ns@[i]),
            None => reassigned(tree@, name@, decl_name, tree@.size() as int),
        },
{
    let size: usize = tree.len();
    let mut r: Vec<usize> = Vec::new();
    let mut k: usize = 0;
    while k < size
        invariant
            k <= size == tree@.size(),
            tree@.has(decl_name),
            r@ == uses_before(tree@, name@, decl_name, k as int),
            !reassigned(tree@, name@, decl_name, k as int),
            forall|i: int| 0 <= i < r@.len() ==> tree@.has(#[trigger] r@[i]),
        decreases size - k,
    {
        if is_local_ref(tree, k, name) && !tree.same_span(k, decl_name) {
            assert(is_use(tree@, k, name@, decl_name));
            if within_assignment_target(tree, k) {
                return None;
            }
            r.push(k);
        }
        k = k + 1;
    }
    Some(r)
}

fn inline_name(tree: &SyntaxTree, name: &str, li: &LineIndex, enc: PositionEncoding) -> (r: Option<
    Vec<TextEdit>,
>)
    ensures
        r.deep_view() == inline_edits(tree@, name@, li@, enc),
{
    let decl: usize = match find_declaration(tree, name) {
        Some(d) => d,
        None => {
            return None;
        },
    };
    match (tree.child_by_field(decl, Field::Name), tree.child_by_field(decl, Field::Value)) {
        (Some(decl_name), Some(init)) => match find_uses(tree, name, decl_name) {
            Some(ns) => {
                let value = tree.text_of(init);
                let mut edits = rename_nodes(tree, &ns, value.as_str(), li, enc);
                let line: u32 = li.position(tree.start(decl), enc).line;
                let after: u32 = if line < u32::MAX {
                    line + 1
                } else {
                    line
                };
                let range = Range {
                    start: Position { line, character: 0 },
                    end: Position { line: after, character: 0 },
                };
                put(&mut edits, TextEdit { range, new_text: "".to_string() });
                Some(edits)
            },
            None => None,
        },
        _ => None,
    }
}

fn inline_local(
    tree: &SyntaxTree,
    li: &LineIndex,
    enc: PositionEncoding,
    uri: &str,
    r: Range,
) -> (action: Option<CodeAction>)
    ensures
        action.deep_view() == inlining(tree@, li@, enc, uri@, r),
{
    let b: usize = li.offset(r.start, enc);
    let n: usize = match local_ident_at(tree, b) {
        Some(n) => n,
        None => {
            return None;
        },
    };
    match inline_name(tree, tree.text_of(n).as_str(), li, enc) {
        Some(edits) => Some(action_of("Inline local", CodeActionKind::RefactorInline, uri, edits)),
        None => None,
    }
}

pub open spec fn action_seq(a: Option<CodeActionView>) -> Seq<CodeActionView> {
    match a {
        Some(x) => seq![x],
        None => Seq::empty(),
    }
}

/// The refactorings of a selection: the expression that it covers becomes a local, the
/// local that it starts on its value.
pub fn refactors(
    tree: &SyntaxTree,
    li: &LineIndex,
    enc: PositionEncoding,
    uri: &str,
    range: Range,
) -> (r: Vec<CodeAction>)
    ensures
        r.deep_view() == action_seq(extraction(tree@, li@, enc, uri@, range)) + action_seq(
            inlining(tree@, li@, enc, uri@, range),
        ),
{
    let mut out: Vec<CodeAction> = fresh();
    if let Some(a) = extract_local(tree, li, enc, uri, range) {
        put(&mut out, a);
    }
    assert(out.deep_view() =~= action_seq(extraction(tree@, li@, enc, uri@, range)));
    let ghost first = out.deep_view();
    if let Some(a) = inline_local(tree, li, enc, uri, range) {
        put(&mut out, a);
    }
    assert(out.deep_view() =~= first + action_seq(inlining(tree@, li@, enc, uri@, range)));
    out
}

// ---------------------------------------------------------------------------
// Laws
// ---------------------------------------------------------------------------

proof fn tree_last_declares_nothing(t: Tree)
    requires
        t.wf(),
    ensures
        declared_name(t, (t.size() - 1) as usize) is None,
{
    let n = (t.size() - 1) as usize;
    t.lemma_kids(n, t.size() as int);
    if t.kids(n).len() > 0 {
        t.lemma_kid(n, 0);
    }
}

proof fn lemma_decimal_len(n: nat)
    ensures
        decimal(n).len() > 0,
    decreases n,
{
    if n >= 10 {
        lemma_decimal_len(n / 10);
    }
}

proof fn lemma_digit_injective(a: nat, b: nat)
    requires
        a < 10,
        b < 10,
        digit(a) == digit(b),
    ensures
        a == b,
{
    assert(digit(a) as u32 == 48 + a);
    assert(digit(b) as u32 == 48 + b);
}

proof fn lemma_decimal_injective(a: nat, b: nat)
    requires
        decimal(a) == decimal(b),
    ensures
        a == b,
    decreases a,
{
    if a < 10 && b < 10 {
        assert(seq![digit(a)][0] == seq![digit(b)][0]);
        lemma_digit_injective(a, b);
    } else if a >= 10 && b >= 10 {
        assert(decimal(a).drop_last() =~= decimal(a / 10));
        assert(decimal(b).drop_last() =~= decimal(b / 10));
        assert(decimal(a) == decimal(a / 10).push(digit(a % 10)));
        assert(decimal(b) == decimal(b / 10).push(digit(b % 10)));
        let last = decimal(a).len() - 1;
        assert(decimal(a)[last] == digit(a % 10));
        assert(decimal(b)[last] == digit(b % 10));
        lemma_digit_injective(a % 10, b % 10);
        lemma_decimal_injective(a / 10, b / 10);
    } else if a >= 10 {
        lemma_decimal_len(a / 10);
        assert(decimal(a).len() == decimal(b).len());
    } else {
        lemma_decimal_len(b / 10);
        assert(decimal(a).len() == decimal(b).len());
    }
}

proof fn lemma_candidate_injective(a: nat, b: nat)
    requires
        1 <= a,
        1 <= b,
        candidate(a) == candidate(b),
    ensures
        a == b,
{
    let base = "myValue"@;
    lemma_decimal_len(a);
    lemma_decimal_len(b);
    if a > 1 && b > 1 {
        assert((base + decimal(a)).skip(base.len() as int) =~= decimal(a));
        assert((base + decimal(b)).skip(base.len() as int) =~= decimal(b));
        lemma_decimal_injective(a, b);
    } else if a > 1 {
        assert((base + decimal(a)).len() > base.len());
    } else if b > 1 {
        assert((base + decimal(b)).len() > base.len());
    }
}

/// Of `n` keys, one of the first `n + 1` candidates is none.
proof fn lemma_some_free(locals: Seq<(Seq<char>, ValueType)>)
    ensures
        exists|i: nat| 1 <= i <= locals.len() + 1 && !has_key(locals, #[trigger] candidate(i)),
{
    let n = locals.len();
    if forall|i: nat| 1 <= i <= n + 1 ==> has_key(locals, #[trigger] candidate(i)) {
        let keys = locals.map_values(|p: (Seq<char>, ValueType)| p.0);
        let names = Seq::new(n + 1, |i: int| candidate((i + 1) as nat));
        assert(names.no_duplicates()) by {
            assert forall|i: int, j: int| 0 <= i < names.len() && 0 <= j < names.len() && i
                != j implies names[i] != names[j] by {
                if names[i] == names[j] {
                    lemma_candidate_injective((i + 1) as nat, (j + 1) as nat);
                }
            }
        }
        names.unique_seq_to_set();
        keys.lemma_cardinality_of_set();
        assert(names.to_set().subset_of(keys.to_set())) by {
            assert forall|x: Seq<char>| names.to_set().contains(x) implies keys.to_set().contains(
                x,
            ) by {
                let i = choose|i: int| 0 <= i < names.len() && names[i] == x;
                assert(has_key(locals, candidate((i + 1) as nat)));
                lemma_key_index(locals, x, 0);
                let k = key_index(locals, x, 0).unwrap();
                assert(keys[k] == x);
            }
        }
        vstd::set_lib::lemma_len_subset(names.to_set(), keys.to_set());
    }
}

proof fn lemma_free_name(locals: Seq<(Seq<char>, ValueType)>, i: nat, n: nat)
    requires
        exists|j: nat| i <= j <= i + n && !has_key(locals, #[trigger] candidate(j)),
    ensures
        !has_key(locals, free_name(locals, i, n)),
    decreases n,
{
    let j = choose|j: nat| i <= j <= i + n && !has_key(locals, #[trigger] candidate(j));
    if n > 0 && has_key(locals, candidate(i)) {
        assert(i + 1 <= j <= i + 1 + (n - 1) as nat);
        lemma_free_name(locals, i + 1, (n - 1) as nat);
    }
}

/// The name of an extracted local is one that no local has.
pub proof fn extracted_name_is_new(t: Tree)
    ensures
        !is_local(t, fresh_name(t)),
{
    let locals = locals_of(t, Seq::empty());
    lemma_some_free(locals);
    let i = choose|i: nat| 1 <= i <= locals.len() + 1 && !has_key(locals, #[trigger] candidate(i));
    lemma_free_name(locals, 1, locals.len());
}

proof fn lemma_uses(t: Tree, name: Seq<char>, decl_name: usize, k: int, n: usize)
    requires
        0 <= k <= t.size() <= usize::MAX,
    ensures
        uses_before(t, name, decl_name, k).contains(n) <==> n < k && is_use(t, n, name, decl_name),
    decreases k,
{
    let all = uses_before(t, name, decl_name, k);
    if k > 0 {
        lemma_uses(t, name, decl_name, k - 1, n);
        let rest = uses_before(t, name, decl_name, k - 1);
        if rest.contains(n) {
            let j = choose|j: int| 0 <= j < rest.len() && rest[j] == n;
            assert(all[j] == n);
        }
        if n == k - 1 && is_use(t, n, name, decl_name) {
            assert(all[rest.len() as int] == n);
        }
        if all.contains(n) {
            let j = choose|j: int| 0 <= j < all.len() && all[j] == n;
            if j < rest.len() {
                assert(rest[j] == n);
            }
        }
    } else {
        assert(all =~= Seq::empty());
    }
}

/// Where a local is inlined, its value takes the place of every use of it, and no use is
/// assigned to.
pub proof fn inlining_reaches_every_use(
    t: Tree,
    name: Seq<char>,
    decl: usize,
    decl_name: usize,
    s: Seq<char>,
    enc: PositionEncoding,
    n: usize,
)
    requires
        t.wf(),
        t.has(n),
        declaration_from(t, name, 0) == Some(decl),
        t.child_by_field(decl, Field::Name) == Some(decl_name),
        inline_edits(t, name, s, enc) is Some,
    ensures
        uses_before(t, name, decl_name, t.size() as int).contains(n) <==> is_use(
            t,
            n,
            name,
            decl_name,
        ),
        is_use(t, n, name, decl_name) ==> !in_target(t, n),
{
    lemma_uses(t, name, decl_name, t.size() as int, n);
}

} // verus!
