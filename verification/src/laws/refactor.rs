//! What can be extracted and inlined, and where.
use crate::code_action::{
    bulk_upto, CodeActionKind, DiagnosticView, FixContext, indent_end, indent_of, operator_change,
};
use crate::code_action::refactor::{
    declaration_from, extract_edits, extraction, in_target, inline_edits, inlining, is_expression,
    is_use, is_value, reassigned, trimmed_span, uses_before, widest_expression,
};
use crate::code_action::suppress::statement_of;
use crate::edits::TextEditView;
use crate::laws::lemma_pushed_holds;
use crate::laws::actions::{means, operators_have_their_keywords};
use crate::line_index::{offset_of, PositionEncoding, Range, range_of, start_of_line};
use crate::locate::{in_annotation, is_property};
use crate::references::local_at;
use crate::search::trimmed;
use crate::syntax::{Field, Kind, Tree};
use crate::text::{byte_at, char_at, is_boundary, is_space};
use vstd::prelude::*;
use vstd::string::*;

verus! {

/// What can be extracted: an expression that is not assigned to, not part of a type, and not
/// the name in a declaration.
pub proof fn values_can_be_extracted(t: Tree, n: usize)
    ensures
        is_value(t, n) <==> {
            &&& t.kind(n) == Kind::Identifier || t.kind(n) == Kind::Interpolation || t.kind(n)
                == Kind::MemberExpression || t.kind(n) == Kind::CallExpression || t.kind(n)
                == Kind::UnaryExpression || t.kind(n) == Kind::BinaryExpression || t.kind(n)
                == Kind::TernaryExpression || t.kind(n) == Kind::ParenthesizedExpression || t.kind(n)
                == Kind::Number || t.kind(n) == Kind::Boolean || t.kind(n) == Kind::String
            &&& !in_target(t, n)
            &&& !in_annotation(t, n)
            &&& !(match t.parent(n) {
                Some(p) => t.kind(p) == Kind::LocalDeclaration && match t.child_by_field(
                    p,
                    Field::Name,
                ) {
                    Some(c) => t.start(c) == t.start(n) && t.end(c) == t.end(n),
                    None => false,
                },
                None => false,
            })
        },
{
}

/// A node lies in a target where it lies in what the nearest assignment around it assigns to.
pub proof fn targets_are_assigned_to(t: Tree, n: usize, p: usize)
    requires
        t.parent(n) == Some(p),
        p < n,
    ensures
        t.kind(p) == Kind::AssignmentStatement ==> (in_target(t, n) <==> match t.child_by_field(
            p,
            Field::Target,
        ) {
            Some(c) => t.start(c) <= t.start(n) && t.end(n) <= t.end(c),
            None => false,
        }),
        t.kind(p) != Kind::AssignmentStatement ==> in_target(t, n) == in_target(t, p),
{
}

/// The expression that is extracted is the longest of those in the selection.
pub proof fn the_longest_expression_is_extracted(t: Tree, a: int, z: int, k: int, n: usize)
    requires
        0 <= k <= t.size() <= usize::MAX,
        n < k,
        is_expression(t.kind(n)),
        a <= t.start(n),
        t.end(n) <= z,
    ensures
        match widest_expression(t, a, z, k) {
            Some(m) => m < k && is_expression(t.kind(m)) && a <= t.start(m) && t.end(m) <= z && t.end(n)
                - t.start(n) <= t.end(m) - t.start(m),
            None => false,
        },
    decreases k,
{
    if n < k - 1 {
        the_longest_expression_is_extracted(t, a, z, k - 1, n);
    } else {
        lemma_widest_fits(t, a, z, k - 1);
    }
}

proof fn lemma_widest_fits(t: Tree, a: int, z: int, k: int)
    requires
        0 <= k <= t.size() <= usize::MAX,
    ensures
        match widest_expression(t, a, z, k) {
            Some(m) => m < k && is_expression(t.kind(m)) && a <= t.start(m) && t.end(m) <= z,
            None => true,
        },
    decreases k,
{
    if k > 0 {
        lemma_widest_fits(t, a, z, k - 1);
    }
}

/// The selection is taken without the white space at its ends, and nothing else is left out.
pub proof fn selections_are_trimmed(s: Seq<char>, a: int, z: int)
    requires
        0 <= a <= z <= s.len(),
    ensures
        ({
            let (i, j) = trimmed_span(s, a, z);
            &&& a <= i <= j <= z
            &&& forall|k: int| a <= k < i ==> is_space(#[trigger] s[k])
            &&& forall|k: int| j <= k < z ==> is_space(#[trigger] s[k])
            &&& i < j ==> !is_space(s[i]) && !is_space(s[j - 1])
        }),
    decreases z - a,
{
    if a < z && is_space(s[a]) {
        selections_are_trimmed(s, a + 1, z);
    } else if a < z && is_space(s[z - 1]) {
        selections_are_trimmed(s, a, z - 1);
    }
}

/// The extraction of a value is offered where the longest expression in the selection is one.
pub proof fn extraction_is_offered(
    t: Tree,
    s: Seq<char>,
    enc: PositionEncoding,
    uri: Seq<char>,
    r: Range,
    i: int,
    j: int,
    n: usize,
    edits: Seq<TextEditView>,
)
    requires
        is_boundary(s, offset_of(s, r.start, enc)),
        is_boundary(s, offset_of(s, r.end, enc)),
        offset_of(s, r.start, enc) <= offset_of(s, r.end, enc),
        trimmed_span(
            s,
            char_at(s, offset_of(s, r.start, enc)),
            char_at(s, offset_of(s, r.end, enc)),
        ) == (i, j),
        i < j,
        widest_expression(t, byte_at(s, i) as int, byte_at(s, j) as int, t.size() as int) == Some(n),
        is_value(t, n),
        extract_edits(t, trimmed(t.text_of(n)), s, enc) == Some(edits),
    ensures
        match extraction(t, s, enc, uri, r) {
            Some(x) => {
                &&& x.title == "Extract to local"@
                &&& x.kind == CodeActionKind::RefactorExtract
                &&& x.diagnostic is None
                &&& match x.edit.changes {
                    Some(changes) => changes == seq![(uri, edits)],
                    None => false,
                }
            },
            None => false,
        },
{
}

/// The uses that an inlining replaces are exactly the names of the local but for the one in
/// its declaration.
pub proof fn every_use_is_inlined(t: Tree, name: Seq<char>, decl_name: usize, k: int, n: usize)
    requires
        0 <= k <= t.size() <= usize::MAX,
    ensures
        uses_before(t, name, decl_name, k).contains(n) <==> {
            &&& n < k
            &&& t.kind(n) == Kind::Identifier
            &&& t.text_of(n) == name
            &&& !is_property(t, n)
            &&& !in_annotation(t, n)
            &&& t.start(n) != t.start(decl_name) || t.end(n) != t.end(decl_name)
        },
    decreases k,
{
    if k > 0 {
        every_use_is_inlined(t, name, decl_name, k - 1, n);
        lemma_pushed_holds(uses_before(t, name, decl_name, k - 1), (k - 1) as usize, n);
    } else {
        assert(uses_before(t, name, decl_name, k) =~= Seq::empty());
    }
}

/// A local can be inlined exactly when it is declared with a value, and no use of it is
/// assigned to. Each use gets the value.
pub proof fn unassigned_locals_are_inlined(
    t: Tree,
    name: Seq<char>,
    s: Seq<char>,
    enc: PositionEncoding,
    decl: usize,
    decl_name: usize,
    n: usize,
)
    requires
        t.size() <= usize::MAX,
        declaration_from(t, name, 0) == Some(decl),
        t.child_by_field(decl, Field::Name) == Some(decl_name),
    ensures
        inline_edits(t, name, s, enc) is Some <==> t.child_by_field(decl, Field::Value) is Some
            && !(exists|m: usize| #[trigger] is_assigned_use(t, name, decl_name, m)),
        inline_edits(t, name, s, enc) is Some && uses_before(
            t,
            name,
            decl_name,
            t.size() as int,
        ).contains(n) ==> inline_edits(t, name, s, enc).unwrap().contains(
            TextEditView {
                range: range_of(s, t.start(n), t.end(n), enc),
                new_text: t.text_of(t.child_by_field(decl, Field::Value).unwrap()),
            },
        ),
{
    if exists|m: usize| #[trigger] is_assigned_use(t, name, decl_name, m) {
        let m = choose|m: usize| #[trigger] is_assigned_use(t, name, decl_name, m);
        assert(is_use(t, m, name, decl_name) && in_target(t, m));
    }
    if reassigned(t, name, decl_name, t.size() as int) {
        let m = choose|m: usize|
            m < t.size() && #[trigger] is_use(t, m, name, decl_name) && in_target(t, m);
        assert(is_assigned_use(t, name, decl_name, m));
    }
    if let Some(init) = t.child_by_field(decl, Field::Value) {
        let ns = uses_before(t, name, decl_name, t.size() as int);
        if inline_edits(t, name, s, enc) is Some && ns.contains(n) {
            let j = choose|j: int| 0 <= j < ns.len() && ns[j] == n;
            let edits = inline_edits(t, name, s, enc).unwrap();
            assert(edits[j] == TextEditView {
                range: range_of(s, t.start(n), t.end(n), enc),
                new_text: t.text_of(init),
            });
        }
    }
}

/// Node `m` is a use of the local that is assigned to.
pub open spec fn is_assigned_use(t: Tree, name: Seq<char>, decl_name: usize, m: usize) -> bool {
    &&& m < t.size()
    &&& t.kind(m) == Kind::Identifier
    &&& t.text_of(m) == name
    &&& !is_property(t, m)
    &&& !in_annotation(t, m)
    &&& t.start(m) != t.start(decl_name) || t.end(m) != t.end(decl_name)
    &&& in_target(t, m)
}

/// The declaration of a local is the first one that gives it its name.
pub proof fn the_first_declaration_counts(t: Tree, name: Seq<char>, k: int)
    requires
        0 <= k <= t.size() <= usize::MAX,
    ensures
        match declaration_from(t, name, k) {
            Some(n) => k <= n < t.size() && gives_name(t, n, name) && forall|m: usize|
                k <= m < n ==> !#[trigger] gives_name(t, m, name),
            None => forall|m: usize| k <= m < t.size() ==> !#[trigger] gives_name(t, m, name),
        },
    decreases t.size() - k,
{
    if k < t.size() {
        let n = k as usize;
        if !gives_name(t, n, name) {
            the_first_declaration_counts(t, name, k + 1);
        }
    }
}

/// Node `n` is a declaration that gives a local the name.
pub open spec fn gives_name(t: Tree, n: usize, name: Seq<char>) -> bool {
    t.kind(n) == Kind::LocalDeclaration && match t.child_by_field(n, Field::Name) {
        Some(c) => t.text_of(c) == name,
        None => false,
    }
}

/// The inlining of the local under the start of the selection is offered, where it can be
/// inlined.
pub proof fn inlining_is_offered(
    t: Tree,
    s: Seq<char>,
    enc: PositionEncoding,
    uri: Seq<char>,
    r: Range,
    name: Seq<char>,
    edits: Seq<TextEditView>,
)
    requires
        local_at(t, offset_of(s, r.start, enc)) == Some(name),
        inline_edits(t, name, s, enc) == Some(edits),
    ensures
        match inlining(t, s, enc, uri, r) {
            Some(x) => {
                &&& x.title == "Inline local"@
                &&& x.kind == CodeActionKind::RefactorInline
                &&& x.diagnostic is None
                &&& match x.edit.changes {
                    Some(changes) => changes == seq![(uri, edits)],
                    None => false,
                }
            },
            None => false,
        },
{
}

proof fn lemma_indent_end(s: Seq<char>, i: int)
    requires
        0 <= i <= s.len(),
    ensures
        i <= indent_end(s, i) <= s.len(),
        forall|k: int| i <= k < indent_end(s, i) ==> (#[trigger] s[k]) == ' ' || s[k] == '\t',
        indent_end(s, i) < s.len() ==> s[indent_end(s, i)] != ' ' && s[indent_end(s, i)] != '\t',
    decreases s.len() - i,
{
    if i < s.len() && (s[i] == ' ' || s[i] == '\t') {
        lemma_indent_end(s, i + 1);
    }
}

/// The indent of a line is all of the blanks and tabs that it starts with.
pub proof fn indents_are_whole(s: Seq<char>, line: u32, i: int)
    requires
        start_of_line(s, line as int) == Some(i),
        0 <= i <= s.len(),
    ensures
        ({
            let n = indent_of(s, line).len() as int;
            &&& i + n <= s.len()
            &&& indent_of(s, line) == s.subrange(i, i + n)
            &&& forall|k: int| i <= k < i + n ==> (#[trigger] s[k]) == ' ' || s[k] == '\t'
            &&& i + n < s.len() ==> s[i + n] != ' ' && s[i + n] != '\t'
        }),
{
    lemma_indent_end(s, i);
}

/// The statement of a node stands directly in a block or in the script, and holds the node.
pub proof fn statements_stand_in_blocks(t: Tree, n: usize)
    requires
        forall|c: usize| (#[trigger] t.parent(c)) is Some ==> t.parent(c).unwrap() < c,
    ensures
        t.encloses(statement_of(t, n), n),
        t.parent_kind(statement_of(t, n)) is None || t.parent_kind(statement_of(t, n)) == Some(
            Kind::SourceFile,
        ) || t.parent_kind(statement_of(t, n)) == Some(Kind::Block),
    decreases n,
{
    if let Some(p) = t.parent(n) {
        if t.kind(p) != Kind::SourceFile && t.kind(p) != Kind::Block {
            statements_stand_in_blocks(t, p);
        }
    }
}

/// A fix of all operators at once edits only places of diagnostics with that code.
pub proof fn only_operators_of_the_code_are_replaced(
    c: FixContext,
    code: Seq<char>,
    ds: Seq<DiagnosticView>,
    k: int,
    e: TextEditView,
)
    requires
        0 <= k <= ds.len(),
        bulk_upto(c, code, ds, k).contains(e),
    ensures
        exists|i: int|
            0 <= i < k && (#[trigger] ds[i]).code == Some(code) && e.range == ds[i].range && match operator_change(
                c.text,
                ds[i].range,
                c.enc,
            ) {
                Some((op, keyword, edit)) => e == edit && means(op, keyword),
                None => false,
            },
    decreases k,
{
    if k > 0 {
        let rest = bulk_upto(c, code, ds, k - 1);
        if rest.contains(e) {
            only_operators_of_the_code_are_replaced(c, code, ds, k - 1, e);
        } else {
            let (op, keyword, edit) = operator_change(c.text, ds[k - 1].range, c.enc).unwrap();
            lemma_pushed_holds(rest, edit, e);
            operators_have_their_keywords(op);
            assert(ds[k - 1].code == Some(code));
        }
    } else {
        assert(bulk_upto(c, code, ds, k) =~= Seq::empty());
    }
}

} // verus!
