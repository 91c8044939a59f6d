//! What code actions do.
use crate::code_action::{
    bulk_fix, bulk_upto, CodeActionKind, CodeActionView, conventional, DiagnosticView, Fix,
    fix_for, FixContext, fixes_of, fixes_upto, has_space, indent_of, keyword_for, missing_token,
    operator_change, padded_keyword, text_in,
};
use crate::code_action::nearest::{closest_upto, distance, folded_member, nearest};
use crate::code_action::refactor::{
    alike_upto, declaration_from, extract_edits, fresh_name, inline_edits, is_value, with_start,
};
use crate::code_action::suppress::{
    allow_edit, allow_edit_at, is_indent, is_rule_code, statement_of,
};
use crate::edits::TextEditView;
use crate::laws::lemma_holds;
use crate::line_index::{
    line_start, lines_before, offset_of, Position, position_of, PositionEncoding, Range, range_of,
};
use crate::model::same_fold;
use crate::references::{local_at, local_idents};
use crate::rename::local::local_edits;
use crate::rename::names::is_local_name;
use crate::search::{
    begins, has, last_index, lemma_last_index, lemma_skip_space, lemma_skip_space_back,
    lemma_trimmed_id, skip_space, trimmed, trimmed_end,
};
use crate::syntax::{Field, Tree};
use crate::text::{byte_len, char_at, is_space, lower, lowered, matches_at};
use vstd::prelude::*;
use vstd::string::*;

verus! {

// ---------------------------------------------------------------------------
// Operators
// ---------------------------------------------------------------------------

/// Each operator that the language does not have has a keyword of its own, of the same
/// meaning, and nothing else has one.
pub proof fn operators_have_their_keywords(op: Seq<char>)
    ensures
        keyword_for("=="@) == Some("eq"@),
        keyword_for("!="@) == Some("neq"@),
        keyword_for("&&"@) == Some("and"@),
        keyword_for("||"@) == Some("or"@),
        keyword_for("!"@) == Some("not"@),
        keyword_for(op) is Some ==> op == "=="@ || op == "!="@ || op == "&&"@ || op == "||"@ || op
            == "!"@,
{
    reveal_strlit("==");
    reveal_strlit("!=");
    reveal_strlit("&&");
    reveal_strlit("||");
    reveal_strlit("!");
    assert("=="@[0] != "!="@[0]);
    assert("=="@[0] != "&&"@[0]);
    assert("=="@[0] != "||"@[0]);
    assert("!="@[0] != "&&"@[0]);
    assert("!="@[0] != "||"@[0]);
    assert("&&"@[0] != "||"@[0]);
    assert("!"@.len() == 1);
}

/// No two operators have one keyword.
pub proof fn operators_differ(a: Seq<char>, b: Seq<char>)
    requires
        keyword_for(a) is Some,
        keyword_for(a) == keyword_for(b),
    ensures
        a == b,
{
    operators_have_their_keywords(a);
    operators_have_their_keywords(b);
    lemma_keywords_differ();
}

proof fn lemma_keywords_differ()
    ensures
        "eq"@ != "neq"@,
        "eq"@ != "and"@,
        "eq"@ != "or"@,
        "eq"@ != "not"@,
        "neq"@ != "and"@,
        "neq"@ != "or"@,
        "neq"@ != "not"@,
        "and"@ != "or"@,
        "and"@ != "not"@,
        "or"@ != "not"@,
{
    reveal_strlit("eq");
    reveal_strlit("neq");
    reveal_strlit("and");
    reveal_strlit("or");
    reveal_strlit("not");
    assert("eq"@[0] != "or"@[0]);
    assert("neq"@[0] != "and"@[0]);
    assert("neq"@[1] != "not"@[1]);
    assert("and"@[0] != "not"@[0]);
}

/// In the text after the fix the keyword stands apart: white space or a parenthesis or an end
/// of the text is on either side of it. Blanks are added only where something touched the
/// operator, and nothing else is.
pub proof fn keywords_stand_apart(s: Seq<char>, a: int, z: int, keyword: Seq<char>)
    requires
        0 <= a <= z <= s.len(),
    ensures
        ({
            let new_text = padded_keyword(s, a, z, keyword);
            let touches_left = a > 0 && !is_space(s[a - 1]) && s[a - 1] != '(';
            let touches_right = z < s.len() && !is_space(s[z]) && s[z] != ')';
            let front = if touches_left {
                1int
            } else {
                0
            };
            let back = if touches_right {
                1int
            } else {
                0
            };
            &&& new_text.len() == front + keyword.len() + back
            &&& new_text.subrange(front, front + keyword.len()) == keyword
            &&& touches_left ==> new_text[0] == ' '
            &&& touches_right ==> new_text.last() == ' '
        }),
{
    reveal_strlit(" ");
    reveal_strlit("");
    let new_text = padded_keyword(s, a, z, keyword);
    let touches_left = a > 0 && !is_space(s[a - 1]) && s[a - 1] != '(';
    let front = if touches_left {
        1int
    } else {
        0
    };
    assert(new_text.subrange(front, front + keyword.len()) =~= keyword);
}

// ---------------------------------------------------------------------------
// Which fixes there are
// ---------------------------------------------------------------------------

proof fn lemma_fix_is_listed(c: FixContext, which: Fix, ds: Seq<DiagnosticView>, k: int, i: int)
    requires
        0 <= i < k <= ds.len() <= usize::MAX,
        fix_for(c, which, ds[i], i as usize) is Some,
    ensures
        fixes_upto(c, which, ds, k).contains(fix_for(c, which, ds[i], i as usize).unwrap()),
    decreases k,
{
    let a = fix_for(c, which, ds[i], i as usize).unwrap();
    let all = fixes_upto(c, which, ds, k);
    let rest = fixes_upto(c, which, ds, k - 1);
    if i == k - 1 {
        assert(all[rest.len() as int] == a);
    } else {
        lemma_fix_is_listed(c, which, ds, k - 1, i);
        let j = choose|j: int| 0 <= j < rest.len() && rest[j] == a;
        assert(all[j] == a);
    }
}

proof fn lemma_listed_fix(c: FixContext, which: Fix, ds: Seq<DiagnosticView>, k: int, a: CodeActionView)
    requires
        0 <= k <= ds.len() <= usize::MAX,
        fixes_upto(c, which, ds, k).contains(a),
    ensures
        exists|i: int|
            0 <= i < k && fix_for(c, which, #[trigger] ds[i], i as usize) == Some(a),
    decreases k,
{
    if k <= 0 {
        assert(fixes_upto(c, which, ds, k) =~= Seq::empty());
    } else {
        let all = fixes_upto(c, which, ds, k);
        let rest = fixes_upto(c, which, ds, k - 1);
        let j = choose|j: int| 0 <= j < all.len() && all[j] == a;
        if j < rest.len() {
            assert(rest[j] == a);
            lemma_listed_fix(c, which, ds, k - 1, a);
            let i = choose|i: int|
                0 <= i < k - 1 && fix_for(c, which, #[trigger] ds[i], i as usize) == Some(a);
            assert(fix_for(c, which, ds[i], i as usize) == Some(a));
        } else {
            assert(fix_for(c, which, ds[k - 1], (k - 1) as usize) == Some(a));
        }
    }
}

proof fn lemma_in_sum(a: Seq<CodeActionView>, b: Seq<CodeActionView>, x: CodeActionView)
    ensures
        (a + b).contains(x) <==> a.contains(x) || b.contains(x),
{
    let s = a + b;
    if a.contains(x) {
        let j = choose|j: int| 0 <= j < a.len() && a[j] == x;
        assert(s[j] == x);
    }
    if b.contains(x) {
        let j = choose|j: int| 0 <= j < b.len() && b[j] == x;
        assert(s[a.len() + j] == x);
    }
    if s.contains(x) {
        let j = choose|j: int| 0 <= j < s.len() && s[j] == x;
        if j < a.len() {
            assert(a[j] == x);
        } else {
            assert(b[j - a.len()] == x);
        }
    }
}

/// Every fix of one of the seven sorts is offered, and nothing but those and the fixes of all
/// operators at once.
pub proof fn every_fix_is_offered(c: FixContext, ds: Seq<DiagnosticView>, x: CodeActionView)
    ensures
        fixes_of(c, ds).contains(x) <==> {
            ||| fixes_upto(c, Fix::Member, ds, ds.len() as int).contains(x)
            ||| fixes_upto(c, Fix::Operator, ds, ds.len() as int).contains(x)
            ||| fixes_upto(c, Fix::Naming, ds, ds.len() as int).contains(x)
            ||| fixes_upto(c, Fix::Token, ds, ds.len() as int).contains(x)
            ||| fixes_upto(c, Fix::Blank, ds, ds.len() as int).contains(x)
            ||| fixes_upto(c, Fix::Loop, ds, ds.len() as int).contains(x)
            ||| fixes_upto(c, Fix::Suppress, ds, ds.len() as int).contains(x)
            ||| bulk_fix(c, "L004"@, ds).contains(x)
            ||| bulk_fix(c, "L005"@, ds).contains(x)
        },
{
    let n = ds.len() as int;
    let f1 = fixes_upto(c, Fix::Member, ds, n);
    let f2 = fixes_upto(c, Fix::Operator, ds, n);
    let f3 = fixes_upto(c, Fix::Naming, ds, n);
    let f4 = fixes_upto(c, Fix::Token, ds, n);
    let f5 = fixes_upto(c, Fix::Blank, ds, n);
    let f6 = fixes_upto(c, Fix::Loop, ds, n);
    let f7 = fixes_upto(c, Fix::Suppress, ds, n);
    let f8 = bulk_fix(c, "L004"@, ds);
    let f9 = bulk_fix(c, "L005"@, ds);
    lemma_in_sum(f1, f2, x);
    lemma_in_sum(f1 + f2, f3, x);
    lemma_in_sum(f1 + f2 + f3, f4, x);
    lemma_in_sum(f1 + f2 + f3 + f4, f5, x);
    lemma_in_sum(f1 + f2 + f3 + f4 + f5, f6, x);
    lemma_in_sum(f1 + f2 + f3 + f4 + f5 + f6, f7, x);
    lemma_in_sum(f1 + f2 + f3 + f4 + f5 + f6 + f7, f8, x);
    lemma_in_sum(f1 + f2 + f3 + f4 + f5 + f6 + f7 + f8, f9, x);
}

/// What every quick fix for the diagnostic with index `i` is like.
pub open spec fn fixes_with(
    actions: Seq<CodeActionView>,
    uri: Seq<char>,
    i: int,
    title: Seq<char>,
    edits: Seq<TextEditView>,
    preferred: bool,
) -> bool {
    exists|x: CodeActionView| #[trigger]
        actions.contains(x) && x.title == title && x.kind == CodeActionKind::QuickFix && x.diagnostic
            == Some(i as usize) && x.is_preferred == Some(preferred) && x.edit.changes == Some(
            seq![(uri, edits)],
        ) && x.edit.document_changes is None && x.edit.change_annotations is None
}

proof fn lemma_fix(c: FixContext, which: Fix, ds: Seq<DiagnosticView>, i: int)
    requires
        0 <= i < ds.len() <= usize::MAX,
        fix_for(c, which, ds[i], i as usize) is Some,
    ensures
        fixes_of(c, ds).contains(fix_for(c, which, ds[i], i as usize).unwrap()),
{
    lemma_fix_is_listed(c, which, ds, ds.len() as int, i);
    every_fix_is_offered(c, ds, fix_for(c, which, ds[i], i as usize).unwrap());
}

/// The keyword that means the same as the operator.
pub open spec fn means(op: Seq<char>, keyword: Seq<char>) -> bool {
    ||| op == "=="@ && keyword == "eq"@
    ||| op == "!="@ && keyword == "neq"@
    ||| op == "&&"@ && keyword == "and"@
    ||| op == "||"@ && keyword == "or"@
    ||| op == "!"@ && keyword == "not"@
}

/// The diagnostic is about an operator.
pub open spec fn is_about_operator(d: DiagnosticView) -> bool {
    d.code == Some("unsupported-c-token"@) || d.code == Some("L004"@) || d.code == Some("L005"@)
}

/// Every diagnostic about an operator that it covers has the fix that puts the keyword in its
/// place.
pub open spec fn operators_replaced(
    c: FixContext,
    ds: Seq<DiagnosticView>,
    actions: Seq<CodeActionView>,
) -> bool {
    forall|i: int, op: Seq<char>, keyword: Seq<char>|
        0 <= i < ds.len() && is_about_operator(#[trigger] ds[i]) && text_in(
            c.text,
            ds[i].range,
            c.enc,
        ) == Some(op) && #[trigger] means(op, keyword) ==> fixes_with(
            actions,
            c.uri,
            i,
            "Replace `"@ + op + "` with `"@ + keyword + "`"@,
            seq![
                TextEditView {
                    range: ds[i].range,
                    new_text: padded_keyword(
                        c.text,
                        char_at(c.text, offset_of(c.text, ds[i].range.start, c.enc)),
                        char_at(c.text, offset_of(c.text, ds[i].range.end, c.enc)),
                        keyword,
                    ),
                },
            ],
            true,
        )
}

/// Quick fixes put the keyword of the same meaning in the place of each operator that a
/// diagnostic covers.
pub proof fn operators_are_replaced(c: FixContext, ds: Seq<DiagnosticView>)
    requires
        ds.len() <= usize::MAX,
    ensures
        operators_replaced(c, ds, fixes_of(c, ds)),
{
    assert forall|i: int, op: Seq<char>, keyword: Seq<char>|
        0 <= i < ds.len() && is_about_operator(#[trigger] ds[i]) && text_in(
            c.text,
            ds[i].range,
            c.enc,
        ) == Some(op) && #[trigger] means(op, keyword) implies fixes_with(
        fixes_of(c, ds),
        c.uri,
        i,
        "Replace `"@ + op + "` with `"@ + keyword + "`"@,
        seq![
            TextEditView {
                range: ds[i].range,
                new_text: padded_keyword(
                    c.text,
                    char_at(c.text, offset_of(c.text, ds[i].range.start, c.enc)),
                    char_at(c.text, offset_of(c.text, ds[i].range.end, c.enc)),
                    keyword,
                ),
            },
        ],
        true,
    ) by {
        operators_have_their_keywords(op);
        assert(keyword_for(op) == Some(keyword));
        lemma_fix(c, Fix::Operator, ds, i);
    }
}

/// A diagnostic about a missing token, whose message says which, has the fix that puts it
/// where it is missing.
pub proof fn missing_tokens_are_inserted(
    c: FixContext,
    ds: Seq<DiagnosticView>,
    i: int,
    tok: Seq<char>,
)
    requires
        0 <= i < ds.len() <= usize::MAX,
        ds[i].code == Some("missing-token"@),
        ds[i].message == "missing "@ + tok,
        0 < byte_len(tok) <= 3,
        forall|k: int| 0 <= k < tok.len() ==> !is_space(#[trigger] tok[k]),
    ensures
        fixes_with(
            fixes_of(c, ds),
            c.uri,
            i,
            "Insert `"@ + tok + "`"@,
            seq![
                TextEditView {
                    range: Range { start: ds[i].range.start, end: ds[i].range.start },
                    new_text: tok,
                },
            ],
            true,
        ),
{
    let m = "missing "@;
    let msg = m + tok;
    assert(msg.subrange(0, m.len() as int) =~= m);
    assert(msg.skip(m.len() as int) =~= tok);
    assert(tok.len() > 0) by {
        if tok.len() == 0 {
            assert(byte_len(tok) == 0);
        }
    }
    lemma_trimmed_id(tok);
    assert(!has_space(tok));
    lemma_fix(c, Fix::Token, ds, i);
}

/// No token is inserted that the message does not name.
pub proof fn only_missing_tokens_are_inserted(message: Seq<char>)
    ensures
        match missing_token(message) {
            Some(tok) => begins(message, "missing "@) && has(message, tok) && 0 < tok.len() && byte_len(
                tok,
            ) <= 3,
            None => true,
        },
{
    if let Some(tok) = missing_token(message) {
        let rest = message.skip("missing "@.len() as int);
        lemma_trimmed_part(rest);
        let i = choose|i: int| matches_at(rest, trimmed(rest), i);
        let k = i + "missing "@.len();
        assert(message.subrange(k, k + tok.len()) =~= rest.subrange(i, i + tok.len()));
        lemma_holds(message, tok, k);
    }
}

proof fn lemma_trimmed_part(s: Seq<char>)
    ensures
        exists|i: int| matches_at(s, trimmed(s), i),
{
    let e = trimmed_end(s);
    lemma_skip_space_back(s, s.len() as int);
    lemma_skip_space(e, 0);
    let i = skip_space(e, 0);
    assert(s.subrange(i, i + trimmed(s).len()) =~= trimmed(s));
    assert(matches_at(s, trimmed(s), i));
}

/// A diagnostic about blanks at the end of a line has the fix that removes them.
pub proof fn trailing_blanks_are_removed(c: FixContext, ds: Seq<DiagnosticView>, i: int)
    requires
        0 <= i < ds.len() <= usize::MAX,
        ds[i].code == Some("L002"@),
    ensures
        fixes_with(
            fixes_of(c, ds),
            c.uri,
            i,
            "Remove trailing whitespace"@,
            seq![TextEditView { range: ds[i].range, new_text: ""@ }],
            true,
        ),
{
    lemma_fix(c, Fix::Blank, ds, i);
}

/// A diagnostic about a loop keyword has the fix that puts a skeleton above it, indented as
/// the line is.
pub proof fn loops_get_a_skeleton(c: FixContext, ds: Seq<DiagnosticView>, i: int, word: Seq<char>)
    requires
        0 <= i < ds.len() <= usize::MAX,
        ds[i].code == Some("unsupported-c-token"@),
        text_in(c.text, ds[i].range, c.enc) == Some(word),
        word == "while"@ || word == "for"@ || word == "do"@,
    ensures
        ({
            let line = ds[i].range.start.line;
            let at = Position { line, character: 0 };
            let indent = indent_of(c.text, line);
            fixes_with(
                fixes_of(c, ds),
                c.uri,
                i,
                "Insert WhenStatement template"@,
                seq![
                    TextEditView {
                        range: Range { start: at, end: at },
                        new_text: indent + "-- TODO: `"@ + word
                            + "` is not supported in M1 — rewrite as a WhenStatement\n"@ + indent
                            + "When State.Phase {\n"@ + indent + "    Is Phase.Init: -- …\n"@
                            + indent + "}\n"@,
                    },
                ],
                true,
            )
        }),
{
    lemma_fix(c, Fix::Loop, ds, i);
}

/// A diagnostic of a rule, where a note can silence it, has the fix that writes the note. It
/// is never preferred.
pub proof fn rules_can_be_silenced(
    c: FixContext,
    ds: Seq<DiagnosticView>,
    i: int,
    code: Seq<char>,
    edit: TextEditView,
)
    requires
        0 <= i < ds.len() <= usize::MAX,
        ds[i].code == Some(code),
        code.len() == 4,
        code[0] == 'L' || code[0] == 'T',
        forall|k: int| 1 <= k < 4 ==> '0' <= #[trigger] code[k] && code[k] <= '9',
        allow_edit(c.tree, c.text, c.enc, ds[i].range.start, code) == Some(edit),
    ensures
        fixes_with(
            fixes_of(c, ds),
            c.uri,
            i,
            "Suppress "@ + code + " for this statement"@,
            seq![edit],
            false,
        ),
{
    assert('0' <= code[1] && '0' <= code[2] && '0' <= code[3]);
    assert(is_rule_code(code));
    lemma_fix(c, Fix::Suppress, ds, i);
}

/// A note names the code: on a line of its own above the statement, indented as the statement
/// is, or behind the codes of the note that is there.
pub proof fn notes_name_the_code(s: Seq<char>, i: int, enc: PositionEncoding, code: Seq<char>)
    ensures
        match allow_edit_at(s, i, enc, code) {
            Some(e) => e.new_text == ", "@ + code || e.new_text == s.subrange(line_start(s, i), i)
                + "// @m1:allow("@ + code + ")\n"@,
            None => true,
        },
        line_start(s, i) == 0 && is_indent(s, 0, i) ==> allow_edit_at(s, i, enc, code) == Some(
            TextEditView {
                range: Range {
                    start: Position { line: lines_before(s, i) as u32, character: 0 },
                    end: Position { line: lines_before(s, i) as u32, character: 0 },
                },
                new_text: s.subrange(0, i) + "// @m1:allow("@ + code + ")\n"@,
            },
        ),
        !is_indent(s, line_start(s, i), i) ==> allow_edit_at(s, i, enc, code) is None,
{
}

/// A badly named local has the fix that renames it wherever it is named.
pub proof fn locals_are_renamed(
    c: FixContext,
    ds: Seq<DiagnosticView>,
    i: int,
    name: Seq<char>,
    better: Seq<char>,
)
    requires
        0 <= i < ds.len() <= usize::MAX,
        ds[i].code == Some("L016"@),
        text_in(c.text, ds[i].range, c.enc) == Some(name),
        local_at(c.tree, offset_of(c.text, ds[i].range.start, c.enc)) == Some(name),
        local_idents(c.tree, name).len() > 0,
        better.len() == name.len(),
        better != name,
        forall|k: int|
            0 <= k < name.len() ==> #[trigger] better[k] == (if name[k] == ' ' {
                '_'
            } else if k == 0 {
                lower(name[k])
            } else {
                name[k]
            }),
        is_local_name(better),
    ensures
        fixes_with(
            fixes_of(c, ds),
            c.uri,
            i,
            "Rename `"@ + name + "` to `"@ + better + "`"@,
            local_edits(c.tree, name, better, c.text, c.enc),
            true,
        ),
{
    assert(conventional(name) =~= better);
    lemma_fix(c, Fix::Naming, ds, i);
}

/// A member that an enumeration does not have has the fix that puts the nearest one in its
/// place, if there is one near enough.
pub proof fn members_are_corrected(
    c: FixContext,
    ds: Seq<DiagnosticView>,
    i: int,
    head: Seq<char>,
    member: Seq<char>,
    id: usize,
    best: Seq<char>,
)
    requires
        0 <= i < ds.len() <= usize::MAX,
        ds[i].code == Some("T020"@),
        text_in(c.text, ds[i].range, c.enc) == Some(head + "."@ + member),
        !member.contains('.'),
        trimmed(head) == head,
        trimmed(member) == member,
        c.project is Some,
        c.project.unwrap().enum_by_name(head) == Some(id),
        nearest(c.project.unwrap().enums[id as int].members, member) == Some(best),
        best != member,
    ensures
        fixes_with(
            fixes_of(c, ds),
            c.uri,
            i,
            "Replace `"@ + member + "` with `"@ + best + "`"@,
            seq![TextEditView { range: ds[i].range, new_text: head + "."@ + best }],
            true,
        ),
{
    reveal_strlit(".");
    let t = head + "."@ + member;
    let k = head.len() as int;
    lemma_last_index(t, '.', t.len() as int);
    assert(t[k] == '.');
    assert forall|j: int| k < j < t.len() implies t[j] != '.' by {
        assert(t[j] == member[j - k - 1]);
        assert(member.contains(member[j - k - 1]));
    }
    assert(last_index(t, '.', t.len() as int) == Some(k));
    assert(t.take(k) =~= head);
    assert(t.skip(k + 1) =~= member);
    lemma_fix(c, Fix::Member, ds, i);
}

proof fn lemma_bulk(
    c: FixContext,
    code: Seq<char>,
    ds: Seq<DiagnosticView>,
    k: int,
    i: int,
    op: Seq<char>,
    keyword: Seq<char>,
)
    requires
        0 <= i < k <= ds.len(),
        ds[i].code == Some(code),
        text_in(c.text, ds[i].range, c.enc) == Some(op),
        means(op, keyword),
    ensures
        exists|e: TextEditView| #[trigger]
            bulk_upto(c, code, ds, k).contains(e) && e.range == ds[i].range,
    decreases k,
{
    let all = bulk_upto(c, code, ds, k);
    let rest = bulk_upto(c, code, ds, k - 1);
    if i == k - 1 {
        operators_have_their_keywords(op);
        let e = operator_change(c.text, ds[i].range, c.enc).unwrap().2;
        assert(all[rest.len() as int] == e);
        assert(all.contains(e));
    } else {
        lemma_bulk(c, code, ds, k - 1, i, op, keyword);
        let e = choose|e: TextEditView| #[trigger] rest.contains(e) && e.range == ds[i].range;
        let j = choose|j: int| 0 <= j < rest.len() && rest[j] == e;
        assert(all[j] == e);
        assert(all.contains(e));
    }
}

/// Where two diagnostics of the code are about operators, there is a fix of all of them at
/// once: it edits both places.
pub proof fn operators_are_replaced_at_once(
    c: FixContext,
    code: Seq<char>,
    ds: Seq<DiagnosticView>,
    i: int,
    j: int,
    op: Seq<char>,
    keyword: Seq<char>,
    other: Seq<char>,
    word: Seq<char>,
)
    requires
        0 <= i < j < ds.len() <= usize::MAX,
        code == "L004"@ || code == "L005"@,
        ds[i].code == Some(code),
        ds[j].code == Some(code),
        ds[i].range != ds[j].range,
        text_in(c.text, ds[i].range, c.enc) == Some(op),
        means(op, keyword),
        text_in(c.text, ds[j].range, c.enc) == Some(other),
        means(other, word),
    ensures
        exists|x: CodeActionView| #[trigger]
            fixes_of(c, ds).contains(x) && x.title == "Fix all "@ + code + " in file"@ && x.kind
                == CodeActionKind::QuickFix && x.diagnostic is None && match x.edit.changes {
                Some(changes) => changes.len() == 1 && changes[0].0 == c.uri && (exists|
                    e: TextEditView,
                | #[trigger]
                    changes[0].1.contains(e) && e.range == ds[i].range) && (exists|e: TextEditView| #[trigger]
                    changes[0].1.contains(e) && e.range == ds[j].range),
                None => false,
            },
{
    let edits = bulk_upto(c, code, ds, ds.len() as int);
    lemma_bulk(c, code, ds, ds.len() as int, i, op, keyword);
    lemma_bulk(c, code, ds, ds.len() as int, j, other, word);
    let e1 = choose|e: TextEditView| #[trigger] edits.contains(e) && e.range == ds[i].range;
    let e2 = choose|e: TextEditView| #[trigger] edits.contains(e) && e.range == ds[j].range;
    let a = choose|a: int| 0 <= a < edits.len() && edits[a] == e1;
    let b = choose|b: int| 0 <= b < edits.len() && edits[b] == e2;
    assert(a != b);
    let x = bulk_fix(c, code, ds)[0];
    assert(bulk_fix(c, code, ds).contains(x));
    every_fix_is_offered(c, ds, x);
    let changes = x.edit.changes.unwrap();
    assert(changes[0].1 == edits);
    assert(fixes_of(c, ds).contains(x));
}

/// Every quick fix changes the document alone. One for a diagnostic is for one of a code that
/// has fixes.
pub proof fn fixes_stay_in_the_document(c: FixContext, ds: Seq<DiagnosticView>, x: CodeActionView)
    requires
        ds.len() <= usize::MAX,
        fixes_of(c, ds).contains(x),
    ensures
        x.kind == CodeActionKind::QuickFix,
        match x.edit.changes {
            Some(changes) => changes.len() == 1 && changes[0].0 == c.uri,
            None => false,
        },
        x.edit.document_changes is None,
        match x.diagnostic {
            Some(i) => i < ds.len() && match ds[i as int].code {
                Some(code) => code == "T020"@ || code == "unsupported-c-token"@ || code
                    == "missing-token"@ || code == "L002"@ || code == "L004"@ || code == "L005"@
                    || code == "L016"@ || is_rule_code(code),
                None => false,
            },
            None => true,
        },
{
    every_fix_is_offered(c, ds, x);
    let n = ds.len() as int;
    if fixes_upto(c, Fix::Member, ds, n).contains(x) {
        lemma_listed_fix(c, Fix::Member, ds, n, x);
    } else if fixes_upto(c, Fix::Operator, ds, n).contains(x) {
        lemma_listed_fix(c, Fix::Operator, ds, n, x);
    } else if fixes_upto(c, Fix::Naming, ds, n).contains(x) {
        lemma_listed_fix(c, Fix::Naming, ds, n, x);
    } else if fixes_upto(c, Fix::Token, ds, n).contains(x) {
        lemma_listed_fix(c, Fix::Token, ds, n, x);
    } else if fixes_upto(c, Fix::Blank, ds, n).contains(x) {
        lemma_listed_fix(c, Fix::Blank, ds, n, x);
    } else if fixes_upto(c, Fix::Loop, ds, n).contains(x) {
        lemma_listed_fix(c, Fix::Loop, ds, n, x);
    } else if fixes_upto(c, Fix::Suppress, ds, n).contains(x) {
        lemma_listed_fix(c, Fix::Suppress, ds, n, x);
    }
}

// ---------------------------------------------------------------------------
// The nearest member
// ---------------------------------------------------------------------------

proof fn lemma_folded(ms: Seq<(Seq<char>, i64)>, typo: Seq<char>, i: int)
    requires
        0 <= i <= ms.len(),
    ensures
        match folded_member(ms, typo, i) {
            Some(name) => exists|k: int|
                i <= k < ms.len() && (#[trigger] ms[k]).0 == name && lowered(name) == lowered(typo),
            None => forall|k: int| i <= k < ms.len() ==> lowered((#[trigger] ms[k]).0) != lowered(typo),
        },
    decreases ms.len() - i,
{
    if i < ms.len() && !same_fold(ms[i].0, typo) {
        lemma_folded(ms, typo, i + 1);
    }
}

proof fn lemma_closest(ms: Seq<(Seq<char>, i64)>, typo: Seq<char>, k: int)
    requires
        0 <= k <= ms.len(),
    ensures
        match closest_upto(ms, typo, k) {
            Some((name, d)) => d == distance(lowered(typo), lowered(name)) && (exists|i: int|
                0 <= i < k && (#[trigger] ms[i]).0 == name) && forall|i: int|
                0 <= i < k ==> d <= distance(lowered(typo), lowered((#[trigger] ms[i]).0)),
            None => k == 0,
        },
    decreases k,
{
    if k > 0 {
        lemma_closest(ms, typo, k - 1);
        assert(ms[k - 1].0 == ms[k - 1].0);
    }
}

/// The member that a misspelled one is taken for is one of the members. One that differs in
/// case alone is taken first. Any other is no further away than every member is, and at most
/// as many edits as a third of its letters, or one.
pub proof fn nearest_is_near(ms: Seq<(Seq<char>, i64)>, typo: Seq<char>)
    ensures
        match nearest(ms, typo) {
            Some(best) => (exists|i: int| 0 <= i < ms.len() && (#[trigger] ms[i]).0 == best) && (
            lowered(best) == lowered(typo) || ((forall|i: int|
                0 <= i < ms.len() ==> lowered((#[trigger] ms[i]).0) != lowered(typo) && distance(
                    lowered(typo),
                    lowered(best),
                ) <= distance(lowered(typo), lowered(ms[i].0))) && (distance(
                lowered(typo),
                lowered(best),
            ) <= 1 || 3 * distance(lowered(typo), lowered(best)) <= best.len()))),
            None => (forall|i: int|
                0 <= i < ms.len() ==> lowered((#[trigger] ms[i]).0) != lowered(typo)) && (ms.len()
                == 0 || exists|i: int|
                0 <= i < ms.len() && distance(lowered(typo), lowered((#[trigger] ms[i]).0)) > 1 && 3
                    * distance(lowered(typo), lowered(ms[i].0)) > ms[i].0.len() && forall|j: int|
                    0 <= j < ms.len() ==> distance(lowered(typo), lowered(ms[i].0)) <= distance(
                        lowered(typo),
                        lowered((#[trigger] ms[j]).0),
                    )),
        },
{
    lemma_folded(ms, typo, 0);
    lemma_closest(ms, typo, ms.len() as int);
}

// ---------------------------------------------------------------------------
// Refactorings
// ---------------------------------------------------------------------------

proof fn lemma_with_start_has(t: Tree, ns: Seq<usize>, n: usize, m: usize)
    ensures
        with_start(t, ns, n).contains(m) ==> ns.contains(m) || m == n,
        ns.contains(m) ==> with_start(t, ns, n).contains(m),
        exists|x: usize| #[trigger] with_start(t, ns, n).contains(x) && t.start(x) == t.start(n),
    decreases ns.len(),
{
    let all = with_start(t, ns, n);
    if ns.len() == 0 || t.start(ns.last()) < t.start(n) {
        assert(all[ns.len() as int] == n);
        assert(all.contains(n));
        if ns.contains(m) {
            let j = choose|j: int| 0 <= j < ns.len() && ns[j] == m;
            assert(all[j] == m);
        }
        if all.contains(m) && m != n {
            let j = choose|j: int| 0 <= j < all.len() && all[j] == m;
            assert(ns[j] == m);
        }
    } else if t.start(ns.last()) == t.start(n) {
        assert(all.contains(ns.last()));
    } else {
        let front = ns.drop_last();
        let last = ns.last();
        lemma_with_start_has(t, front, n, m);
        let rest = with_start(t, front, n);
        if ns.contains(m) {
            let j = choose|j: int| 0 <= j < ns.len() && ns[j] == m;
            if j < front.len() {
                assert(front[j] == m);
                let i = choose|i: int| 0 <= i < rest.len() && rest[i] == m;
                assert(all[i] == m);
            } else {
                assert(all[rest.len() as int] == m);
            }
        }
        if all.contains(m) {
            let j = choose|j: int| 0 <= j < all.len() && all[j] == m;
            if j < rest.len() {
                assert(rest[j] == m);
                if front.contains(m) {
                    let i = choose|i: int| 0 <= i < front.len() && front[i] == m;
                    assert(ns[i] == m);
                }
            } else {
                assert(ns[ns.len() - 1] == m);
            }
        }
        let x = choose|x: usize| #[trigger] rest.contains(x) && t.start(x) == t.start(n);
        let i = choose|i: int| 0 <= i < rest.len() && rest[i] == x;
        assert(all[i] == x);
        assert(all.contains(x));
    }
}

/// An extraction replaces values that read like the extracted one, and no others; and at every
/// place where such a value starts.
pub proof fn extraction_reaches_every_value(t: Tree, needle: Seq<char>, k: int, n: usize)
    requires
        0 <= k <= t.size() <= usize::MAX,
    ensures
        alike_upto(t, needle, k).contains(n) ==> n < k && is_value(t, n) && trimmed(t.text_of(n))
            == needle,
        n < k && is_value(t, n) && trimmed(t.text_of(n)) == needle ==> exists|x: usize| #[trigger]
            alike_upto(t, needle, k).contains(x) && t.start(x) == t.start(n),
    decreases k,
{
    let all = alike_upto(t, needle, k);
    if k > 0 {
        let last = (k - 1) as usize;
        extraction_reaches_every_value(t, needle, k - 1, n);
        let rest = alike_upto(t, needle, k - 1);
        if is_value(t, last) && trimmed(t.text_of(last)) == needle {
            lemma_with_start_has(t, rest, last, n);
            if n < k - 1 && is_value(t, n) && trimmed(t.text_of(n)) == needle {
                let x = choose|x: usize| #[trigger] rest.contains(x) && t.start(x) == t.start(n);
                lemma_with_start_has(t, rest, last, x);
                assert(all.contains(x));
            }
        }
    } else {
        assert(all =~= Seq::empty());
    }
}

/// An extraction declares the new local above the statement of the first value, with the text
/// that is extracted, and names it in the place of each value.
pub proof fn extraction_declares_the_value(
    t: Tree,
    needle: Seq<char>,
    s: Seq<char>,
    enc: PositionEncoding,
)
    ensures
        match extract_edits(t, needle, s, enc) {
            Some(edits) => ({
                let occ = alike_upto(t, needle, t.size() as int);
                let line = position_of(s, t.start(statement_of(t, occ[0])), enc).line;
                let at = Position { line, character: 0 };
                &&& occ.len() > 0 && edits.len() == occ.len() + 1
                &&& edits[0].range == (Range { start: at, end: at })
                &&& edits[0].new_text == indent_of(s, line) + "local "@ + fresh_name(t) + " = "@
                    + needle + ";\n"@
                &&& forall|i: int|
                    0 <= i < occ.len() ==> (#[trigger] edits[i + 1]).range == range_of(
                        s,
                        t.start(occ[i]),
                        t.end(occ[i]),
                        enc,
                    ) && edits[i + 1].new_text == fresh_name(t)
            }),
            None => needle.len() == 0 || alike_upto(t, needle, t.size() as int).len() == 0,
        },
{
}

/// An inlining puts the text of the first value in the place of each use, and removes the
/// line of the declaration.
pub proof fn inlining_removes_the_declaration(
    t: Tree,
    name: Seq<char>,
    s: Seq<char>,
    enc: PositionEncoding,
)
    ensures
        match inline_edits(t, name, s, enc) {
            Some(edits) => ({
                let decl = declaration_from(t, name, 0).unwrap();
                let init = t.child_by_field(decl, Field::Value).unwrap();
                let line = position_of(s, t.start(decl), enc).line;
                &&& edits.last().new_text.len() == 0
                &&& edits.last().range.start == (Position { line, character: 0 })
                &&& line < u32::MAX ==> edits.last().range.end == (Position {
                    line: (line + 1) as u32,
                    character: 0,
                })
                &&& forall|i: int|
                    0 <= i < edits.len() - 1 ==> (#[trigger] edits[i]).new_text == t.text_of(init)
            }),
            None => true,
        },
{
    reveal_strlit("");
}

} // verus!
