//! Quick fixes for diagnostics, and refactorings.
pub mod nearest;
pub mod refactor;
pub mod suppress;

use crate::code_action::nearest::{nearest, nearest_enum_member};
use crate::code_action::suppress::{allow_edit, suppress_code, suppress_edit, suppressible};
use crate::edits::{
    one_document, single_document, TextEdit, TextEditView, WorkspaceEdit, WorkspaceEditView,
};
use crate::goto::{at_line, line_range};
use crate::laws::actions::{operators_are_replaced, operators_replaced};
use crate::line_index::{
    lemma_floor_boundary, LineIndex, offset_inverts_position, offset_of, Position, position_of,
    PositionEncoding, Range, start_of_line,
};
use crate::list::{extend, fresh, one, put};
use crate::model::{Project, ProjectView};
use crate::references::local_at;
use crate::rename::local::{local_edits, local_rename_edits};
use crate::rename::names::is_local_name;
use crate::search::{after_prefix, cut_last, rsplit_once, strip_prefix, trim, trimmed};
use crate::syntax::{SyntaxTree, Tree};
use crate::text::{
    byte_len, byte_slice, bytes_of, char_at, char_is_space, char_lower, chars, index_of_byte,
    is_space, lemma_byte_at_ends, lemma_byte_at_monotone, lemma_byte_len_bounds,
    lemma_char_at_unique, lower, same, same_chars, slice, string, substring,
};
use vstd::prelude::*;
use vstd::string::*;

verus! {

#[derive(Clone, Copy, Debug, PartialEq, Eq, Structural)]
pub enum CodeActionKind {
    QuickFix,
    RefactorExtract,
    RefactorInline,
    Source,
    SourceFixAll,
}

/// A finding. `code` is its code, where that is a text.
#[derive(Debug)]
pub struct Diagnostic {
    pub range: Range,
    pub code: Option<String>,
    pub message: String,
}

/// What a [`Diagnostic`] stands for.
pub struct DiagnosticView {
    pub range: Range,
    pub code: Option<Seq<char>>,
    pub message: Seq<char>,
}

impl DeepView for Diagnostic {
    type V = DiagnosticView;

    open spec fn deep_view(&self) -> DiagnosticView {
        DiagnosticView {
            range: self.range,
            code: self.code.deep_view(),
            message: self.message.deep_view(),
        }
    }
}

/// An offer to change the workspace.
#[derive(Debug)]
pub struct CodeAction {
    pub title: String,
    pub kind: CodeActionKind,
    /// The index of the diagnostic that it is a fix for.
    pub diagnostic: Option<usize>,
    pub edit: WorkspaceEdit,
    pub is_preferred: Option<bool>,
}

/// What a [`CodeAction`] stands for.
pub struct CodeActionView {
    pub title: Seq<char>,
    pub kind: CodeActionKind,
    pub diagnostic: Option<usize>,
    pub edit: WorkspaceEditView,
    pub is_preferred: Option<bool>,
}

impl DeepView for CodeAction {
    type V = CodeActionView;

    open spec fn deep_view(&self) -> CodeActionView {
        CodeActionView {
            title: self.title.deep_view(),
            kind: self.kind,
            diagnostic: self.diagnostic,
            edit: self.edit.deep_view(),
            is_preferred: self.is_preferred,
        }
    }
}

/// What fixes are made from: the text and its encoding, the document, its tree, and the
/// project.
pub struct FixContext {
    pub text: Seq<char>,
    pub enc: PositionEncoding,
    pub uri: Seq<char>,
    pub tree: Tree,
    pub project: Option<ProjectView>,
}

/// A quick fix of one document. One for a diagnostic is preferred.
pub open spec fn fix_action(
    title: Seq<char>,
    uri: Seq<char>,
    edits: Seq<TextEditView>,
    diagnostic: Option<usize>,
) -> CodeActionView {
    CodeActionView {
        title,
        kind: CodeActionKind::QuickFix,
        diagnostic,
        edit: one_document(uri, edits),
        is_preferred: Some(diagnostic is Some),
    }
}

fn quickfix(title: String, uri: &str, edits: Vec<TextEdit>, diagnostic: Option<usize>) -> (r:
    CodeAction)
    ensures
        r.deep_view() == fix_action(title@, uri@, edits.deep_view(), diagnostic),
{
    CodeAction {
        title,
        kind: CodeActionKind::QuickFix,
        diagnostic,
        edit: single_document(uri, edits),
        is_preferred: Some(diagnostic.is_some()),
    }
}

/// An edit.
pub open spec fn edit_of(range: Range, new_text: Seq<char>) -> TextEditView {
    TextEditView { range, new_text }
}

/// The text of a range, if its ends stand between characters.
pub open spec fn text_in(s: Seq<char>, r: Range, enc: PositionEncoding) -> Option<Seq<char>> {
    byte_slice(s, offset_of(s, r.start, enc), offset_of(s, r.end, enc))
}

fn text_of_range(li: &LineIndex, r: Range, enc: PositionEncoding) -> (t: Option<Vec<char>>)
    ensures
        match t {
            Some(v) => text_in(li@, r, enc) == Some(v@),
            None => text_in(li@, r, enc) is None,
        },
{
    slice(li.characters(), li.offset(r.start, enc), li.offset(r.end, enc))
}

pub open spec fn has_code(d: DiagnosticView, code: Seq<char>) -> bool {
    d.code == Some(code)
}

fn is_code(d: &Diagnostic, code: &str) -> (r: bool)
    ensures
        r == has_code(d.deep_view(), code@),
{
    match &d.code {
        Some(c) => same(c.as_str(), code),
        None => false,
    }
}

// ---------------------------------------------------------------------------
// Misspelled members
// ---------------------------------------------------------------------------

/// The nearest member of the enumeration, in place of one that it does not have.
pub open spec fn member_fix(c: FixContext, d: DiagnosticView, i: usize) -> Option<CodeActionView> {
    if !has_code(d, "T020"@) {
        None
    } else {
        match (c.project, text_in(c.text, d.range, c.enc)) {
            (Some(p), Some(text)) => match cut_last(text, '.') {
                Some((h, m)) => {
                    let head = trimmed(h);
                    let member = trimmed(m);
                    match p.enum_by_name(head) {
                        Some(id) => match nearest(p.enums[id as int].members, member) {
                            Some(best) if best != member => Some(
                                fix_action(
                                    "Replace `"@ + member + "` with `"@ + best + "`"@,
                                    c.uri,
                                    seq![edit_of(d.range, head + "."@ + best)],
                                    Some(i),
                                ),
                            ),
                            _ => None,
                        },
                        None => None,
                    }
                },
                None => None,
            },
            _ => None,
        }
    }
}

fn fix_member(
    li: &LineIndex,
    enc: PositionEncoding,
    uri: &str,
    project: Option<&Project>,
    d: &Diagnostic,
    i: usize,
    Ghost(c): Ghost<FixContext>,
) -> (r: Option<CodeAction>)
    requires
        c.text == li@,
        c.enc == enc,
        c.uri == uri@,
        c.project == project.deep_view(),
    ensures
        r.deep_view() == member_fix(c, d.deep_view(), i),
{
    if !is_code(d, "T020") {
        return None;
    }
    let p = match project {
        Some(p) => p,
        None => {
            return None;
        },
    };
    let text = match text_of_range(li, d.range, enc) {
        Some(v) => string(&v),
        None => {
            return None;
        },
    };
    let (head, member) = match rsplit_once(text.as_str(), '.') {
        Some((h, m)) => (
            string(&trim(&chars(h.as_str()))),
            string(&trim(&chars(m.as_str()))),
        ),
        None => {
            return None;
        },
    };
    let id: usize = match p.enum_by_name(head.as_str()) {
        Some(id) => id,
        None => {
            return None;
        },
    };
    assert(p.deep_view().enums[id as int] == p.enums@[id as int].deep_view());
    match nearest_enum_member(member.as_str(), &p.enums[id].members) {
        Some(best) => {
            if same(best.as_str(), member.as_str()) {
                return None;
            }
            let mut title = "Replace `".to_string();
            title.append(member.as_str());
            title.append("` with `");
            title.append(best.as_str());
            title.append("`");
            let mut new_text = head;
            new_text.append(".");
            new_text.append(best.as_str());
            Some(quickfix(title, uri, one(TextEdit { range: d.range, new_text }), Some(i)))
        },
        None => None,
    }
}

// ---------------------------------------------------------------------------
// Operators
// ---------------------------------------------------------------------------

/// The keyword in place of an operator that the language does not have.
pub open spec fn keyword_for(op: Seq<char>) -> Option<Seq<char>> {
    if op == "=="@ {
        Some("eq"@)
    } else if op == "!="@ {
        Some("neq"@)
    } else if op == "&&"@ {
        Some("and"@)
    } else if op == "||"@ {
        Some("or"@)
    } else if op == "!"@ {
        Some("not"@)
    } else {
        None
    }
}

fn replacement(op: &str) -> (r: Option<&'static str>)
    ensures
        r.deep_view() == keyword_for(op@),
{
    if same(op, "==") {
        Some("eq")
    } else if same(op, "!=") {
        Some("neq")
    } else if same(op, "&&") {
        Some("and")
    } else if same(op, "||") {
        Some("or")
    } else if same(op, "!") {
        Some("not")
    } else {
        None
    }
}

/// The keyword, with a blank where the operator from index `a` up to `z` touches a token.
pub open spec fn padded_keyword(s: Seq<char>, a: int, z: int, keyword: Seq<char>) -> Seq<char> {
    let lead = a > 0 && !is_space(s[a - 1]) && s[a - 1] != '(';
    let trail = z < s.len() && !is_space(s[z]) && s[z] != ')';
    (if lead {
        " "@
    } else {
        ""@
    }) + keyword + (if trail {
        " "@
    } else {
        ""@
    })
}

fn padded(v: &Vec<char>, a: usize, z: usize, keyword: &str) -> (r: String)
    requires
        a <= z <= v@.len(),
    ensures
        r@ == padded_keyword(v@, a as int, z as int, keyword@),
{
    let lead = a > 0 && !char_is_space(v[a - 1]) && v[a - 1] != '(';
    let trail = z < v.len() && !char_is_space(v[z]) && v[z] != ')';
    let mut r = (if lead {
        " "
    } else {
        ""
    }).to_string();
    r.append(keyword);
    r.append(
        if trail {
            " "
        } else {
            ""
        },
    );
    r
}

/// The operator in a range, its keyword, and the edit that replaces it.
pub open spec fn operator_change(s: Seq<char>, r: Range, enc: PositionEncoding) -> Option<
    (Seq<char>, Seq<char>, TextEditView),
> {
    match text_in(s, r, enc) {
        Some(op) => match keyword_for(op) {
            Some(keyword) => Some(
                (
                    op,
                    keyword,
                    edit_of(
                        r,
                        padded_keyword(
                            s,
                            char_at(s, offset_of(s, r.start, enc)),
                            char_at(s, offset_of(s, r.end, enc)),
                            keyword,
                        ),
                    ),
                ),
            ),
            None => None,
        },
        None => None,
    }
}

fn operator_edit(li: &LineIndex, r: Range, enc: PositionEncoding) -> (e: Option<
    (String, &'static str, TextEdit),
>)
    ensures
        e.deep_view() == operator_change(li@, r, enc),
{
    let v = li.characters();
    let start: usize = li.offset(r.start, enc);
    let end: usize = li.offset(r.end, enc);
    if start > end {
        return None;
    }
    match (index_of_byte(v, start), index_of_byte(v, end)) {
        (Some(a), Some(z)) => {
            proof {
                if z < a {
                    lemma_byte_at_monotone(v@, z as int, a as int);
                }
                lemma_char_at_unique(v@, a as int);
                lemma_char_at_unique(v@, z as int);
            }
            let op = substring(v, a, z);
            match replacement(op.as_str()) {
                Some(keyword) => {
                    let new_text = padded(v, a, z, keyword);
                    Some((op, keyword, TextEdit { range: r, new_text }))
                },
                None => None,
            }
        },
        _ => None,
    }
}

pub open spec fn is_operator_code(d: DiagnosticView) -> bool {
    has_code(d, "unsupported-c-token"@) || has_code(d, "L004"@) || has_code(d, "L005"@)
}

/// The keyword in place of an operator.
pub open spec fn operator_fix(c: FixContext, d: DiagnosticView, i: usize) -> Option<CodeActionView> {
    if !is_operator_code(d) {
        None
    } else {
        match operator_change(c.text, d.range, c.enc) {
            Some((op, keyword, edit)) => Some(
                fix_action(
                    "Replace `"@ + op + "` with `"@ + keyword + "`"@,
                    c.uri,
                    seq![edit],
                    Some(i),
                ),
            ),
            None => None,
        }
    }
}

fn fix_operator(
    li: &LineIndex,
    enc: PositionEncoding,
    uri: &str,
    d: &Diagnostic,
    i: usize,
    Ghost(c): Ghost<FixContext>,
) -> (r: Option<CodeAction>)
    requires
        c.text == li@,
        c.enc == enc,
        c.uri == uri@,
    ensures
        r.deep_view() == operator_fix(c, d.deep_view(), i),
{
    if !is_code(d, "unsupported-c-token") && !is_code(d, "L004") && !is_code(d, "L005") {
        return None;
    }
    match operator_edit(li, d.range, enc) {
        Some((op, keyword, edit)) => {
            let mut title = "Replace `".to_string();
            title.append(op.as_str());
            title.append("` with `");
            title.append(keyword);
            title.append("`");
            Some(quickfix(title, uri, one(edit), Some(i)))
        },
        None => None,
    }
}

// ---------------------------------------------------------------------------
// Names of locals
// ---------------------------------------------------------------------------

pub open spec fn no_blank(c: char) -> char {
    if c == ' ' {
        '_'
    } else {
        c
    }
}

/// `name` with underscores for its blanks, and a small first letter.
pub open spec fn conventional(name: Seq<char>) -> Seq<char> {
    Seq::new(
        name.len(),
        |i: int|
            if i == 0 {
                lower(no_blank(name[0]))
            } else {
                no_blank(name[i])
            },
    )
}

/// The name that a local should have, where it has another.
pub open spec fn corrected(name: Seq<char>) -> Option<Seq<char>> {
    if conventional(name) == name {
        None
    } else {
        Some(conventional(name))
    }
}

/// The name that a local should have, where it has another.
pub fn corrected_local_name(name: &str) -> (r: Option<String>)
    ensures
        r.deep_view() == corrected(name@),
{
    let name = chars(name);
    let mut v: Vec<char> = Vec::new();
    let mut k: usize = 0;
    while k < name.len()
        invariant
            k <= name@.len(),
            v@ =~= conventional(name@).take(k as int),
        decreases name@.len() - k,
    {
        let c = if name[k] == ' ' {
            '_'
        } else {
            name[k]
        };
        if k == 0 {
            v.push(char_lower(c));
        } else {
            v.push(c);
        }
        k = k + 1;
    }
    assert(v@ =~= conventional(name@));
    if same_chars(&v, &name) {
        None
    } else {
        Some(string(&v))
    }
}

/// The rename of a local to the name that it should have.
pub open spec fn naming_fix(c: FixContext, d: DiagnosticView, i: usize) -> Option<CodeActionView> {
    if !has_code(d, "L016"@) {
        None
    } else {
        match text_in(c.text, d.range, c.enc) {
            Some(name) => match corrected(name) {
                Some(better) => match local_at(c.tree, offset_of(c.text, d.range.start, c.enc)) {
                    Some(local) => {
                        let edits = local_edits(c.tree, local, better, c.text, c.enc);
                        if is_local_name(better) && edits.len() > 0 {
                            Some(
                                fix_action(
                                    "Rename `"@ + name + "` to `"@ + better + "`"@,
                                    c.uri,
                                    edits,
                                    Some(i),
                                ),
                            )
                        } else {
                            None
                        }
                    },
                    None => None,
                },
                None => None,
            },
            None => None,
        }
    }
}

fn fix_naming(
    li: &LineIndex,
    enc: PositionEncoding,
    uri: &str,
    tree: &SyntaxTree,
    d: &Diagnostic,
    i: usize,
    Ghost(c): Ghost<FixContext>,
) -> (r: Option<CodeAction>)
    requires
        c.text == li@,
        c.enc == enc,
        c.uri == uri@,
        c.tree == tree@,
    ensures
        r.deep_view() == naming_fix(c, d.deep_view(), i),
{
    if !is_code(d, "L016") {
        return None;
    }
    let name = match text_of_range(li, d.range, enc) {
        Some(v) => string(&v),
        None => {
            return None;
        },
    };
    let better = match corrected_local_name(name.as_str()) {
        Some(b) => b,
        None => {
            return None;
        },
    };
    let start: usize = li.offset(d.range.start, enc);
    match local_rename_edits(tree, start, better.as_str(), li, enc) {
        Some(edits) => {
            assert(edits.deep_view().len() == edits@.len());
            if edits.len() == 0 {
                return None;
            }
            let mut title = "Rename `".to_string();
            title.append(name.as_str());
            title.append("` to `");
            title.append(better.as_str());
            title.append("`");
            Some(quickfix(title, uri, edits, Some(i)))
        },
        None => None,
    }
}

// ---------------------------------------------------------------------------
// Missing tokens, trailing blanks, loops
// ---------------------------------------------------------------------------

pub open spec fn has_space(s: Seq<char>) -> bool {
    exists|i: int| 0 <= i < s.len() && is_space(#[trigger] s[i])
}

/// The token that the message says is missing.
pub open spec fn missing_token(message: Seq<char>) -> Option<Seq<char>> {
    match after_prefix(message, "missing "@) {
        Some(rest) => {
            let tok = trimmed(rest);
            if 0 < tok.len() && byte_len(tok) <= 3 && !has_space(tok) {
                Some(tok)
            } else {
                None
            }
        },
        None => None,
    }
}

fn any_space(v: &Vec<char>) -> (r: bool)
    ensures
        r == has_space(v@),
{
    let mut k: usize = 0;
    while k < v.len()
        invariant
            k <= v@.len(),
            forall|i: int| 0 <= i < k ==> !is_space(#[trigger] v@[i]),
        decreases v@.len() - k,
    {
        if char_is_space(v[k]) {
            return true;
        }
        k = k + 1;
    }
    false
}

fn expected_missing_token(message: &str) -> (r: Option<String>)
    ensures
        r.deep_view() == missing_token(message@),
{
    match strip_prefix(&chars(message), &chars("missing ")) {
        Some(rest) => {
            assert(rest.deep_view() =~= rest@);
            let tok = trim(&rest);
            proof {
                lemma_byte_len_bounds(tok@);
            }
            if tok.len() == 0 || tok.len() > 3 {
                return None;
            }
            if bytes_of(&tok) <= 3 && !any_space(&tok) {
                Some(string(&tok))
            } else {
                None
            }
        },
        None => None,
    }
}

/// The missing token, put where it is missing.
pub open spec fn token_fix(c: FixContext, d: DiagnosticView, i: usize) -> Option<CodeActionView> {
    if !has_code(d, "missing-token"@) {
        None
    } else {
        match missing_token(d.message) {
            Some(tok) => Some(
                fix_action(
                    "Insert `"@ + tok + "`"@,
                    c.uri,
                    seq![edit_of(Range { start: d.range.start, end: d.range.start }, tok)],
                    Some(i),
                ),
            ),
            None => None,
        }
    }
}

fn fix_token(uri: &str, d: &Diagnostic, i: usize, Ghost(c): Ghost<FixContext>) -> (r: Option<
    CodeAction,
>)
    requires
        c.uri == uri@,
    ensures
        r.deep_view() == token_fix(c, d.deep_view(), i),
{
    if !is_code(d, "missing-token") {
        return None;
    }
    match expected_missing_token(d.message.as_str()) {
        Some(tok) => {
            let mut title = "Insert `".to_string();
            title.append(tok.as_str());
            title.append("`");
            let range = Range { start: d.range.start, end: d.range.start };
            Some(quickfix(title, uri, one(TextEdit { range, new_text: tok }), Some(i)))
        },
        None => None,
    }
}

/// The removal of blanks at the end of a line.
pub open spec fn blank_fix(c: FixContext, d: DiagnosticView, i: usize) -> Option<CodeActionView> {
    if has_code(d, "L002"@) {
        Some(
            fix_action(
                "Remove trailing whitespace"@,
                c.uri,
                seq![edit_of(d.range, ""@)],
                Some(i),
            ),
        )
    } else {
        None
    }
}

fn fix_blank(uri: &str, d: &Diagnostic, i: usize, Ghost(c): Ghost<FixContext>) -> (r: Option<
    CodeAction,
>)
    requires
        c.uri == uri@,
    ensures
        r.deep_view() == blank_fix(c, d.deep_view(), i),
{
    if is_code(d, "L002") {
        let edit = TextEdit { range: d.range, new_text: "".to_string() };
        Some(quickfix("Remove trailing whitespace".to_string(), uri, one(edit), Some(i)))
    } else {
        None
    }
}

/// The end of the run of blanks and tabs that starts at index `i`.
pub open spec fn indent_end(s: Seq<char>, i: int) -> int
    decreases s.len() - i,
{
    if 0 <= i < s.len() && (s[i] == ' ' || s[i] == '\t') {
        indent_end(s, i + 1)
    } else {
        i
    }
}

/// The blanks and tabs that a line starts with.
pub open spec fn indent_of(s: Seq<char>, line: u32) -> Seq<char> {
    match start_of_line(s, line as int) {
        Some(i) => s.subrange(i, indent_end(s, i)),
        None => ""@,
    }
}

/// The blanks and tabs that a line starts with.
pub fn line_indent(li: &LineIndex, line: u32) -> (r: String)
    ensures
        r@ == indent_of(li@, line),
{
    let v = li.characters();
    match li.line_start_index(line) {
        Some(a) => {
            let mut z: usize = a;
            while z < v.len() && (v[z] == ' ' || v[z] == '\t')
                invariant
                    a <= z <= v@.len(),
                    indent_end(v@, a as int) == indent_end(v@, z as int),
                decreases v@.len() - z,
            {
                z = z + 1;
            }
            substring(v, a, z)
        },
        None => "".to_string(),
    }
}

/// The loop keyword that the diagnostic is about.
pub open spec fn loop_word(c: FixContext, d: DiagnosticView) -> Option<Seq<char>> {
    if !has_code(d, "unsupported-c-token"@) {
        None
    } else {
        match text_in(c.text, d.range, c.enc) {
            Some(w) if w == "while"@ || w == "for"@ || w == "do"@ => Some(w),
            _ => None,
        }
    }
}

fn loop_keyword(li: &LineIndex, enc: PositionEncoding, d: &Diagnostic, Ghost(c): Ghost<FixContext>) -> (r:
    Option<String>)
    requires
        c.text == li@,
        c.enc == enc,
    ensures
        r.deep_view() == loop_word(c, d.deep_view()),
{
    if !is_code(d, "unsupported-c-token") {
        return None;
    }
    match text_of_range(li, d.range, enc) {
        Some(v) => {
            let w = string(&v);
            if same(w.as_str(), "while") || same(w.as_str(), "for") || same(w.as_str(), "do") {
                Some(w)
            } else {
                None
            }
        },
        None => None,
    }
}

/// The skeleton that stands in for a loop.
pub open spec fn loop_stub(indent: Seq<char>, word: Seq<char>) -> Seq<char> {
    indent + "-- TODO: `"@ + word
        + "` is not supported in M1 — rewrite as a WhenStatement\n"@ + indent
        + "When State.Phase {\n"@ + indent + "    Is Phase.Init: -- …\n"@ + indent + "}\n"@
}

/// A skeleton above a loop, which the language does not have.
pub open spec fn loop_fix(c: FixContext, d: DiagnosticView, i: usize) -> Option<CodeActionView> {
    match loop_word(c, d) {
        Some(word) => Some(
            fix_action(
                "Insert WhenStatement template"@,
                c.uri,
                seq![
                    edit_of(
                        line_range(d.range.start.line),
                        loop_stub(indent_of(c.text, d.range.start.line), word),
                    ),
                ],
                Some(i),
            ),
        ),
        None => None,
    }
}

fn fix_loop(
    li: &LineIndex,
    enc: PositionEncoding,
    uri: &str,
    d: &Diagnostic,
    i: usize,
    Ghost(c): Ghost<FixContext>,
) -> (r: Option<CodeAction>)
    requires
        c.text == li@,
        c.enc == enc,
        c.uri == uri@,
    ensures
        r.deep_view() == loop_fix(c, d.deep_view(), i),
{
    match loop_keyword(li, enc, d, Ghost(c)) {
        Some(word) => {
            let line: u32 = d.range.start.line;
            let indent = line_indent(li, line);
            let mut stub = indent.clone();
            stub.append("-- TODO: `");
            stub.append(word.as_str());
            stub.append("` is not supported in M1 — rewrite as a WhenStatement\n");
            stub.append(indent.as_str());
            stub.append("When State.Phase {\n");
            stub.append(indent.as_str());
            stub.append("    Is Phase.Init: -- …\n");
            stub.append(indent.as_str());
            stub.append("}\n");
            let edit = TextEdit { range: at_line(line), new_text: stub };
            Some(quickfix("Insert WhenStatement template".to_string(), uri, one(edit), Some(i)))
        },
        None => None,
    }
}

/// The note that silences a diagnostic. It is never preferred.
pub open spec fn suppress_fix(c: FixContext, d: DiagnosticView, i: usize) -> Option<CodeActionView> {
    match suppressible(d.code) {
        Some(code) => match allow_edit(c.tree, c.text, c.enc, d.range.start, code) {
            Some(edit) => Some(
                CodeActionView {
                    is_preferred: Some(false),
                    ..fix_action(
                        "Suppress "@ + code + " for this statement"@,
                        c.uri,
                        seq![edit],
                        Some(i),
                    )
                },
            ),
            None => None,
        },
        None => None,
    }
}

fn fix_suppress(
    li: &LineIndex,
    enc: PositionEncoding,
    uri: &str,
    tree: &SyntaxTree,
    d: &Diagnostic,
    i: usize,
    Ghost(c): Ghost<FixContext>,
) -> (r: Option<CodeAction>)
    requires
        c.text == li@,
        c.enc == enc,
        c.uri == uri@,
        c.tree == tree@,
        li@ == tree@.text,
    ensures
        r.deep_view() == suppress_fix(c, d.deep_view(), i),
{
    match suppress_code(&d.code) {
        Some(code) => match suppress_edit(tree, li, enc, d.range.start, code) {
            Some(edit) => {
                let mut title = "Suppress ".to_string();
                title.append(code);
                title.append(" for this statement");
                let mut action = quickfix(title, uri, one(edit), Some(i));
                action.is_preferred = Some(false);
                Some(action)
            },
            None => None,
        },
        None => None,
    }
}

// ---------------------------------------------------------------------------
// All fixes
// ---------------------------------------------------------------------------

/// The fixes that one diagnostic can have, in the order in which they are offered.
#[derive(Clone, Copy, Debug, PartialEq, Eq, Structural)]
pub enum Fix {
    Member,
    Operator,
    Naming,
    Token,
    Blank,
    Loop,
    Suppress,
}

/// The fix of that sort for the diagnostic with index `i`.
pub open spec fn fix_for(c: FixContext, which: Fix, d: DiagnosticView, i: usize) -> Option<
    CodeActionView,
> {
    match which {
        Fix::Member => member_fix(c, d, i),
        Fix::Operator => operator_fix(c, d, i),
        Fix::Naming => naming_fix(c, d, i),
        Fix::Token => token_fix(c, d, i),
        Fix::Blank => blank_fix(c, d, i),
        Fix::Loop => loop_fix(c, d, i),
        Fix::Suppress => suppress_fix(c, d, i),
    }
}

/// The fixes of that sort for the first `k` diagnostics.
pub open spec fn fixes_upto(c: FixContext, which: Fix, ds: Seq<DiagnosticView>, k: int) -> Seq<
    CodeActionView,
>
    decreases k,
{
    if k <= 0 {
        Seq::empty()
    } else {
        match fix_for(c, which, ds[k - 1], (k - 1) as usize) {
            Some(a) => fixes_upto(c, which, ds, k - 1).push(a),
            None => fixes_upto(c, which, ds, k - 1),
        }
    }
}

/// The edits of the operators among the first `k` diagnostics that have the code.
pub open spec fn bulk_upto(c: FixContext, code: Seq<char>, ds: Seq<DiagnosticView>, k: int) -> Seq<
    TextEditView,
>
    decreases k,
{
    if k <= 0 {
        Seq::empty()
    } else {
        match operator_change(c.text, ds[k - 1].range, c.enc) {
            Some((op, keyword, edit)) if has_code(ds[k - 1], code) => bulk_upto(
                c,
                code,
                ds,
                k - 1,
            ).push(edit),
            _ => bulk_upto(c, code, ds, k - 1),
        }
    }
}

/// The fix of every operator with the code at once, where there are more than one.
pub open spec fn bulk_fix(c: FixContext, code: Seq<char>, ds: Seq<DiagnosticView>) -> Seq<
    CodeActionView,
> {
    let edits = bulk_upto(c, code, ds, ds.len() as int);
    if edits.len() > 1 {
        seq![fix_action("Fix all "@ + code + " in file"@, c.uri, edits, None)]
    } else {
        Seq::empty()
    }
}

/// The quick fixes for the diagnostics.
pub open spec fn fixes_of(c: FixContext, ds: Seq<DiagnosticView>) -> Seq<CodeActionView> {
    let n = ds.len() as int;
    fixes_upto(c, Fix::Member, ds, n) + fixes_upto(c, Fix::Operator, ds, n) + fixes_upto(
        c,
        Fix::Naming,
        ds,
        n,
    ) + fixes_upto(c, Fix::Token, ds, n) + fixes_upto(c, Fix::Blank, ds, n) + fixes_upto(
        c,
        Fix::Loop,
        ds,
        n,
    ) + fixes_upto(c, Fix::Suppress, ds, n) + bulk_fix(c, "L004"@, ds) + bulk_fix(c, "L005"@, ds)
}

fn fixes(
    which: Fix,
    li: &LineIndex,
    enc: PositionEncoding,
    uri: &str,
    tree: &SyntaxTree,
    ds: &Vec<Diagnostic>,
    project: Option<&Project>,
    Ghost(c): Ghost<FixContext>,
) -> (r: Vec<CodeAction>)
    requires
        c.text == li@,
        c.enc == enc,
        c.uri == uri@,
        c.tree == tree@,
        c.project == project.deep_view(),
        li@ == tree@.text,
    ensures
        r.deep_view() == fixes_upto(c, which, ds.deep_view(), ds@.len() as int),
{
    let ghost dv = ds.deep_view();
    let mut r: Vec<CodeAction> = fresh();
    let mut k: usize = 0;
    while k < ds.len()
        invariant
            k <= ds@.len(),
            dv == ds.deep_view(),
            c.text == li@,
            c.enc == enc,
            c.uri == uri@,
            c.tree == tree@,
            c.project == project.deep_view(),
            li@ == tree@.text,
            r.deep_view() == fixes_upto(c, which, dv, k as int),
        decreases ds@.len() - k,
    {
        let d = &ds[k];
        assert(dv[k as int] == d.deep_view());
        let fix = match which {
            Fix::Member => fix_member(li, enc, uri, project, d, k, Ghost(c)),
            Fix::Operator => fix_operator(li, enc, uri, d, k, Ghost(c)),
            Fix::Naming => fix_naming(li, enc, uri, tree, d, k, Ghost(c)),
            Fix::Token => fix_token(uri, d, k, Ghost(c)),
            Fix::Blank => fix_blank(uri, d, k, Ghost(c)),
            Fix::Loop => fix_loop(li, enc, uri, d, k, Ghost(c)),
            Fix::Suppress => fix_suppress(li, enc, uri, tree, d, k, Ghost(c)),
        };
        if let Some(a) = fix {
            put(&mut r, a);
        }
        k = k + 1;
    }
    r
}

fn fix_all(
    code: &str,
    li: &LineIndex,
    enc: PositionEncoding,
    uri: &str,
    ds: &Vec<Diagnostic>,
    Ghost(c): Ghost<FixContext>,
) -> (r: Vec<CodeAction>)
    requires
        c.text == li@,
        c.enc == enc,
        c.uri == uri@,
    ensures
        r.deep_view() == bulk_fix(c, code@, ds.deep_view()),
{
    let ghost dv = ds.deep_view();
    let mut edits: Vec<TextEdit> = fresh();
    let mut k: usize = 0;
    while k < ds.len()
        invariant
            k <= ds@.len(),
            dv == ds.deep_view(),
            c.text == li@,
            c.enc == enc,
            edits.deep_view() == bulk_upto(c, code@, dv, k as int),
        decreases ds@.len() - k,
    {
        assert(dv[k as int] == ds@[k as int].deep_view());
        if is_code(&ds[k], code) {
            if let Some((op, keyword, edit)) = operator_edit(li, ds[k].range, enc) {
                put(&mut edits, edit);
            }
        }
        k = k + 1;
    }
    assert(edits.deep_view().len() == edits@.len());
    if edits.len() > 1 {
        let mut title = "Fix all ".to_string();
        title.append(code);
        title.append(" in file");
        one(quickfix(title, uri, edits, None))
    } else {
        fresh()
    }
}

/// The quick fixes for the diagnostics of a document. `tree` is the tree of the text that
/// `li` holds.
pub fn code_actions(
    li: &LineIndex,
    enc: PositionEncoding,
    uri: &str,
    tree: &SyntaxTree,
    diagnostics: &Vec<Diagnostic>,
    project: Option<&Project>,
) -> (r: Vec<CodeAction>)
    requires
        li@ == tree@.text,
    ensures
        r.deep_view() == fixes_of(
            FixContext {
                text: li@,
                enc,
                uri: uri@,
                tree: tree@,
                project: project.deep_view(),
            },
            diagnostics.deep_view(),
        ),
        operators_replaced(
            FixContext {
                text: li@,
                enc,
                uri: uri@,
                tree: tree@,
                project: project.deep_view(),
            },
            diagnostics.deep_view(),
            r.deep_view(),
        ),
{
    let ghost c = FixContext {
        text: li@,
        enc,
        uri: uri@,
        tree: tree@,
        project: project.deep_view(),
    };
    let ds = diagnostics;
    let size: usize = ds.len();
    assert(ds.deep_view().len() == size);
    let mut out = fixes(Fix::Member, li, enc, uri, tree, ds, project, Ghost(c));
    extend(&mut out, fixes(Fix::Operator, li, enc, uri, tree, ds, project, Ghost(c)));
    extend(&mut out, fixes(Fix::Naming, li, enc, uri, tree, ds, project, Ghost(c)));
    extend(&mut out, fixes(Fix::Token, li, enc, uri, tree, ds, project, Ghost(c)));
    extend(&mut out, fixes(Fix::Blank, li, enc, uri, tree, ds, project, Ghost(c)));
    extend(&mut out, fixes(Fix::Loop, li, enc, uri, tree, ds, project, Ghost(c)));
    extend(&mut out, fixes(Fix::Suppress, li, enc, uri, tree, ds, project, Ghost(c)));
    extend(&mut out, fix_all("L004", li, enc, uri, ds, Ghost(c)));
    extend(&mut out, fix_all("L005", li, enc, uri, ds, Ghost(c)));
    proof {
        operators_are_replaced(c, ds.deep_view());
    }
    out
}

// ---------------------------------------------------------------------------
// Source actions
// ---------------------------------------------------------------------------

/// An action of another kind, on one document.
pub open spec fn source_action(
    title: Seq<char>,
    kind: CodeActionKind,
    uri: Seq<char>,
    edits: Seq<TextEditView>,
) -> CodeActionView {
    CodeActionView {
        title,
        kind,
        diagnostic: None,
        edit: one_document(uri, edits),
        is_preferred: None,
    }
}

pub(crate) fn action_of(title: &str, kind: CodeActionKind, uri: &str, edits: Vec<TextEdit>) -> (r:
    CodeAction)
    ensures
        r.deep_view() == source_action(title@, kind, uri@, edits.deep_view()),
{
    CodeAction {
        title: title.to_owned(),
        kind,
        diagnostic: None,
        edit: single_document(uri, edits),
        is_preferred: None,
    }
}

/// The action that formats a document, or a part of it.
pub fn format_action(title: &str, uri: &str, edits: Vec<TextEdit>) -> (r: CodeAction)
    ensures
        r.deep_view() == source_action(title@, CodeActionKind::Source, uri@, edits.deep_view()),
{
    action_of(title, CodeActionKind::Source, uri, edits)
}

/// The action that replaces a document by its text with every lint issue fixed.
pub fn fix_all_lint_action(uri: &str, li: &LineIndex, enc: PositionEncoding, fixed: String) -> (r:
    CodeAction)
    ensures
        r.deep_view() == source_action(
            "Fix all auto-fixable lint issues (m1-lint)"@,
            CodeActionKind::SourceFixAll,
            uri@,
            seq![
                edit_of(
                    Range {
                        start: Position { line: 0, character: 0 },
                        end: position_of(li@, byte_len(li@) as int, enc),
                    },
                    fixed@,
                ),
            ],
        ),
{
    let v = li.characters();
    let end = li.position(bytes_of(v), enc);
    let range = Range { start: Position { line: 0, character: 0 }, end };
    action_of(
        "Fix all auto-fixable lint issues (m1-lint)",
        CodeActionKind::SourceFixAll,
        uri,
        one(TextEdit { range, new_text: fixed }),
    )
}

// ---------------------------------------------------------------------------
// Laws
// ---------------------------------------------------------------------------

/// The fix for every lint issue replaces the whole document.
pub proof fn fix_all_covers_document(s: Seq<char>, enc: PositionEncoding)
    requires
        byte_len(s) <= u32::MAX,
    ensures
        offset_of(s, Position { line: 0, character: 0 }, enc) == 0,
        offset_of(s, position_of(s, byte_len(s) as int, enc), enc) == byte_len(s),
{
    lemma_byte_at_ends(s);
    offset_inverts_position(s, byte_len(s) as int, enc);
    offset_inverts_position(s, 0, enc);
    lemma_floor_boundary(s, 0);
    assert(s.subrange(0, 0) =~= Seq::empty());
    assert(position_of(s, 0, enc) == (Position { line: 0, character: 0 }));
}

/// A corrected name needs no further correction. It is another name, of the same length and
/// without blanks, that differs from the first one only in underscores for its blanks and in
/// the case of its first letter.
pub proof fn correction_is_final(name: Seq<char>, better: Seq<char>)
    requires
        corrected(name) == Some(better),
    ensures
        corrected(better) is None,
        better != name,
        !better.contains(' '),
        better.len() == name.len(),
        forall|i: int|
            0 <= i < name.len() ==> #[trigger] better[i] == (if name[i] == ' ' {
                '_'
            } else if i == 0 {
                lower(name[i])
            } else {
                name[i]
            }),
{
    assert(conventional(better) =~= better);
}

} // verus!
