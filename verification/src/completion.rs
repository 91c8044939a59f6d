//! Completion: members behind a dot, else locals, project symbols, library objects and
//! keywords.
use crate::edits::{TextEdit, TextEditView};
use crate::format::{decimal, decimal_text, signed_decimal, signed_text};
use crate::hover::symbol::{symbol_enum, symbol_enum_type, value_type_name, value_type_str};
use crate::line_index::{line_start, LineIndex, PositionEncoding, Range, range, range_of};
use crate::list::{extend, fresh, one, put};
use crate::locate::{collect_locals, locals_of};
use crate::model::{
    EnumTypeView, Intrinsics, IntrinsicsView, LibraryObject, LibraryObjectView, Overload,
    OverloadView, ParamView, Project, ProjectView, Scope, ScopeView, Symbol, SymbolView,
    ValueType,
};
use crate::order::{before, before_from};
use crate::search::{
    after_prefix, begins, concat, cut_last, join, joined, rsplit_once, starts_with, trim,
    trim_end, trim_start, trimmed, trimmed_end, trimmed_start,
};
use crate::syntax::{Kind, SyntaxTree, Tree};
use crate::text::{
    byte_at, byte_len, bytes_before, char_at, chars, holds_at, index_of_byte, is_boundary,
    lemma_byte_at_ends, lemma_byte_at_monotone, part, same, string, substring,
    unicode_alphanumeric,
};
use vstd::prelude::*;
use vstd::string::*;

verus! {

#[derive(Clone, Copy, Debug, PartialEq, Eq, Structural)]
pub enum CompletionItemKind {
    Method,
    Field,
    EnumMember,
    Module,
    Keyword,
    Variable,
}

/// One offer.
#[derive(Debug)]
pub struct CompletionItem {
    pub label: String,
    pub kind: CompletionItemKind,
    pub detail: Option<String>,
    pub documentation: Option<String>,
    /// By this the offers are ranked.
    pub sort_text: Option<String>,
    /// By this the offer is matched with what was typed.
    pub filter_text: Option<String>,
    pub insert_text: Option<String>,
    /// Whether the inserted text has tab stops.
    pub is_snippet: bool,
    pub text_edit: Option<TextEdit>,
}

/// What a [`CompletionItem`] stands for.
pub struct CompletionItemView {
    pub label: Seq<char>,
    pub kind: CompletionItemKind,
    pub detail: Option<Seq<char>>,
    pub documentation: Option<Seq<char>>,
    pub sort_text: Option<Seq<char>>,
    pub filter_text: Option<Seq<char>>,
    pub insert_text: Option<Seq<char>>,
    pub is_snippet: bool,
    pub text_edit: Option<TextEditView>,
}

impl DeepView for CompletionItem {
    type V = CompletionItemView;

    open spec fn deep_view(&self) -> CompletionItemView {
        CompletionItemView {
            label: self.label.deep_view(),
            kind: self.kind,
            detail: self.detail.deep_view(),
            documentation: self.documentation.deep_view(),
            sort_text: self.sort_text.deep_view(),
            filter_text: self.filter_text.deep_view(),
            insert_text: self.insert_text.deep_view(),
            is_snippet: self.is_snippet,
            text_edit: self.text_edit.deep_view(),
        }
    }
}

// ---------------------------------------------------------------------------
// The text around the cursor
// ---------------------------------------------------------------------------

/// A character of a dotted path without blanks.
pub open spec fn is_chain_char(c: char) -> bool {
    unicode_alphanumeric(c) || c == '_' || c == '.'
}

/// The start of the run of path characters that ends at index `i`.
pub open spec fn run_start(s: Seq<char>, spaces: bool, i: int) -> int
    decreases i,
{
    if 0 < i <= s.len() && (is_chain_char(s[i - 1]) || (spaces && s[i - 1] == ' ')) {
        run_start(s, spaces, i - 1)
    } else {
        i
    }
}

/// The end of the run of path characters that starts at index `i`.
pub open spec fn run_end(s: Seq<char>, i: int) -> int
    decreases s.len() - i,
{
    if 0 <= i < s.len() && is_chain_char(s[i]) {
        run_end(s, i + 1)
    } else {
        i
    }
}

fn chain_char(c: char) -> (r: bool)
    ensures
        r == is_chain_char(c),
{
    c.is_alphanumeric() || c == '_' || c == '.'
}

/// The start of the run of path characters that ends at index `i`.
pub fn chain_start(v: &Vec<char>, spaces: bool, i: usize) -> (k: usize)
    requires
        i <= v@.len(),
    ensures
        k == run_start(v@, spaces, i as int),
        k <= i,
{
    let mut k: usize = i;
    while k > 0 && (chain_char(v[k - 1]) || (spaces && v[k - 1] == ' '))
        invariant
            k <= i <= v@.len(),
            run_start(v@, spaces, i as int) == run_start(v@, spaces, k as int),
        decreases k,
    {
        k = k - 1;
    }
    k
}

/// The end of the run of path characters that starts at index `i`.
pub fn chain_end(v: &Vec<char>, i: usize) -> (k: usize)
    requires
        i <= v@.len(),
    ensures
        k == run_end(v@, i as int),
        i <= k <= v@.len(),
{
    let mut k: usize = i;
    while k < v.len() && chain_char(v[k])
        invariant
            i <= k <= v@.len(),
            run_end(v@, i as int) == run_end(v@, k as int),
        decreases v@.len() - k,
    {
        k = k + 1;
    }
    k
}

/// The path in front of the last dot before index `i`.
pub open spec fn parent_before(s: Seq<char>, i: int) -> Option<Seq<char>> {
    match cut_last(s.subrange(run_start(s, false, i), i), '.') {
        Some((head, leaf)) => Some(head),
        None => None,
    }
}

/// The same, where the segments can hold blanks.
pub open spec fn spaced_parent_before(s: Seq<char>, i: int) -> Option<Seq<char>> {
    match cut_last(trimmed_start(s.subrange(run_start(s, true, i), i)), '.') {
        Some((head, leaf)) => if trimmed(head).len() == 0 {
            None
        } else {
            Some(trimmed(head))
        },
        None => None,
    }
}

/// The left side of the assignment whose right side index `i` stands on. A comparison is no
/// assignment.
pub open spec fn assigned_before(s: Seq<char>, i: int) -> Option<Seq<char>> {
    let line = s.subrange(line_start(s, i), i);
    match cut_last(line, '=') {
        Some((left, right)) => {
            let l = trimmed_end(left);
            if l.len() > 0 && (l.last() == '=' || l.last() == '<' || l.last() == '>' || l.last()
                == '!') {
                None
            } else if trimmed(left).len() == 0 {
                None
            } else {
                Some(trimmed(left))
            }
        },
        None => None,
    }
}

fn member_parent(v: &Vec<char>, i: usize) -> (r: Option<String>)
    requires
        i <= v@.len(),
    ensures
        r.deep_view() == parent_before(v@, i as int),
{
    let start: usize = chain_start(v, false, i);
    match rsplit_once(substring(v, start, i).as_str(), '.') {
        Some((head, leaf)) => Some(head),
        None => None,
    }
}

fn member_parent_with_spaces(v: &Vec<char>, i: usize) -> (r: Option<String>)
    requires
        i <= v@.len(),
    ensures
        r.deep_view() == spaced_parent_before(v@, i as int),
{
    let start: usize = chain_start(v, true, i);
    let chain = string(&trim_start(&part(v, start, i)));
    match rsplit_once(chain.as_str(), '.') {
        Some((head, leaf)) => {
            let parent = trim(&chars(head.as_str()));
            if parent.len() == 0 {
                None
            } else {
                Some(string(&parent))
            }
        },
        None => None,
    }
}

pub fn line_begin(v: &Vec<char>, i: usize) -> (k: usize)
    requires
        i <= v@.len(),
    ensures
        k == line_start(v@, i as int),
        k <= i,
{
    let mut k: usize = i;
    while k > 0 && v[k - 1] != '\n'
        invariant
            k <= i <= v@.len(),
            line_start(v@, i as int) == line_start(v@, k as int),
        decreases k,
    {
        k = k - 1;
    }
    k
}

fn assigned(v: &Vec<char>, i: usize) -> (r: Option<String>)
    requires
        i <= v@.len(),
    ensures
        r.deep_view() == assigned_before(v@, i as int),
{
    let start: usize = line_begin(v, i);
    let line = substring(v, start, i);
    match rsplit_once(line.as_str(), '=') {
        Some((left, right)) => {
            let left = chars(left.as_str());
            let l = trim_end(&left);
            if l.len() > 0 {
                let c = l[l.len() - 1];
                if c == '=' || c == '<' || c == '>' || c == '!' {
                    return None;
                }
            }
            let name = trim(&left);
            if name.len() == 0 {
                None
            } else {
                Some(string(&name))
            }
        },
        None => None,
    }
}

/// The left side of the assignment whose right side `byte` stands on, as it is written.
pub fn assignment_lhs(text: &str, byte: usize) -> (r: Option<String>)
    requires
        is_boundary(text@, byte as int),
    ensures
        r.deep_view() == assigned_before(text@, char_at(text@, byte as int)),
{
    let v = chars(text);
    match index_of_byte(&v, byte) {
        Some(i) => assigned(&v, i),
        None => None,
    }
}

// ---------------------------------------------------------------------------
// Comments and strings
// ---------------------------------------------------------------------------

/// The smallest node, among the first `k`, that byte `b` lies in; of nodes of one size the
/// first.
pub open spec fn smallest_upto(t: Tree, b: int, k: int) -> Option<usize>
    decreases k,
{
    if k <= 0 {
        None
    } else {
        let n = (k - 1) as usize;
        let best = smallest_upto(t, b, k - 1);
        if t.start(n) <= b < t.end(n) {
            match best {
                Some(m) if t.end(m) - t.start(m) <= t.end(n) - t.start(n) => best,
                _ => Some(n),
            }
        } else {
            best
        }
    }
}

/// Text of this kind is not code.
pub open spec fn is_prose(k: Kind) -> bool {
    k == Kind::LineComment || k == Kind::BlockComment || k == Kind::String || k
        == Kind::Interpolation
}

/// Byte `b` lies in a comment or a string.
pub open spec fn in_prose(t: Tree, b: int) -> bool {
    match smallest_upto(t, b, t.size() as int) {
        Some(n) => is_prose(t.kind(n)),
        None => false,
    }
}

fn in_comment_or_string(tree: &SyntaxTree, byte: usize) -> (r: bool)
    ensures
        r == in_prose(tree@, byte as int),
{
    let size: usize = tree.len();
    let mut best: Option<usize> = None;
    let mut k: usize = 0;
    while k < size
        invariant
            k <= size == tree@.size(),
            best == smallest_upto(tree@, byte as int, k as int),
            best matches Some(m) ==> tree@.has(m),
        decreases size - k,
    {
        let d = tree.node(k);
        if d.start <= byte && byte < d.end {
            let keep = match best {
                Some(m) => {
                    let e = tree.node(m);
                    e.end - e.start <= d.end - d.start
                },
                None => false,
            };
            if !keep {
                best = Some(k);
            }
        }
        k = k + 1;
    }
    match best {
        Some(n) => match tree.kind(n) {
            Kind::LineComment | Kind::BlockComment | Kind::String | Kind::Interpolation => true,
            _ => false,
        },
        None => false,
    }
}

// ---------------------------------------------------------------------------
// Members of a library object
// ---------------------------------------------------------------------------

/// What is inserted for a word that begins a construct.
pub open spec fn skeleton(word: Seq<char>) -> Option<Seq<char>> {
    if word == "if"@ {
        Some("if (${1:condition})\n{\n\t$0\n}"@)
    } else if word == "when"@ {
        Some("when (${1:subject})\n{\n\tis (${2:Value})\n\t{\n\t\t$0\n\t}\n}"@)
    } else if word == "expand"@ {
        Some("expand (${1:i} = ${2:0} to ${3:count})\n{\n\t$0\n}"@)
    } else if word == "local"@ {
        Some("local ${1:name} = ${2:0};$0"@)
    } else if word == "static"@ {
        Some("static local ${1:name} = ${2:0};$0"@)
    } else {
        None
    }
}

fn construct_snippet(word: &str) -> (r: Option<String>)
    ensures
        r.deep_view() == skeleton(word@),
{
    if same(word, "if") {
        Some("if (${1:condition})\n{\n\t$0\n}".to_string())
    } else if same(word, "when") {
        Some("when (${1:subject})\n{\n\tis (${2:Value})\n\t{\n\t\t$0\n\t}\n}".to_string())
    } else if same(word, "expand") {
        Some("expand (${1:i} = ${2:0} to ${3:count})\n{\n\t$0\n}".to_string())
    } else if same(word, "local") {
        Some("local ${1:name} = ${2:0};$0".to_string())
    } else if same(word, "static") {
        Some("static local ${1:name} = ${2:0};$0".to_string())
    } else {
        None
    }
}

/// A tab stop for each of the first `k` parameters.
pub open spec fn tab_stops(ps: Seq<ParamView>, k: int) -> Seq<Seq<char>>
    decreases k,
{
    if k <= 0 {
        Seq::empty()
    } else {
        tab_stops(ps, k - 1).push("${"@ + decimal(k as nat) + ":"@ + ps[k - 1].name + "}"@)
    }
}

/// What is inserted for a call.
pub open spec fn call_text(name: Seq<char>, ps: Seq<ParamView>) -> Seq<char> {
    name + "("@ + joined(tab_stops(ps, ps.len() as int), ", "@) + ")"@
}

pub open spec fn param_names(ps: Seq<ParamView>, k: int) -> Seq<Seq<char>>
    decreases k,
{
    if k <= 0 {
        Seq::empty()
    } else {
        param_names(ps, k - 1).push(ps[k - 1].name)
    }
}

/// `(a, b) -> Return`.
pub open spec fn call_detail(ov: OverloadView) -> Seq<char> {
    "("@ + joined(param_names(ov.params, ov.params.len() as int), ", "@) + ") -> "@ + ov.returns
}

fn call_snippet(ov: &Overload) -> (r: String)
    ensures
        r@ == call_text(ov.deep_view().name, ov.deep_view().params),
{
    let ghost ps = ov.params.deep_view();
    let mut stops: Vec<String> = fresh();
    let mut k: usize = 0;
    while k < ov.params.len()
        invariant
            k <= ov.params@.len(),
            ps == ov.params.deep_view(),
            stops@.len() == k,
            stops.deep_view() == tab_stops(ps, k as int),
        decreases ov.params@.len() - k,
    {
        assert(ps[k as int] == ov.params@[k as int].deep_view());
        let mut stop = "${".to_string();
        stop.append(decimal_text(k as u64 + 1).as_str());
        stop.append(":");
        stop.append(ov.params[k].name.as_str());
        stop.append("}");
        put(&mut stops, stop);
        k = k + 1;
    }
    let mut r = ov.name.clone();
    r.append("(");
    assert(stops.deep_view().take(stops@.len() as int) =~= stops.deep_view());
    r.append(join(&stops, stops.len(), ", ").as_str());
    r.append(")");
    r
}

fn signature_detail(ov: &Overload) -> (r: String)
    ensures
        r@ == call_detail(ov.deep_view()),
{
    let ghost ps = ov.params.deep_view();
    let mut names: Vec<String> = fresh();
    let mut k: usize = 0;
    while k < ov.params.len()
        invariant
            k <= ov.params@.len(),
            ps == ov.params.deep_view(),
            names@.len() == k,
            names.deep_view() == param_names(ps, k as int),
        decreases ov.params@.len() - k,
    {
        assert(ps[k as int] == ov.params@[k as int].deep_view());
        put(&mut names, ov.params[k].name.clone());
        k = k + 1;
    }
    let mut r = "(".to_string();
    assert(names.deep_view().take(names@.len() as int) =~= names.deep_view());
    r.append(join(&names, names.len(), ", ").as_str());
    r.append(") -> ");
    r.append(ov.returns.as_str());
    r
}

pub open spec fn method_item(ov: OverloadView) -> CompletionItemView {
    CompletionItemView {
        label: ov.name,
        kind: CompletionItemKind::Method,
        detail: Some(call_detail(ov)),
        documentation: if ov.doc.len() == 0 {
            None
        } else {
            Some(ov.doc)
        },
        sort_text: None,
        filter_text: None,
        insert_text: Some(call_text(ov.name, ov.params)),
        is_snippet: true,
        text_edit: None,
    }
}

/// A function of that name can be called in a script, and is one of the first `k`.
pub open spec fn offered_before(fs: Seq<OverloadView>, name: Seq<char>, k: int) -> bool {
    exists|j: int| 0 <= j < k && !(#[trigger] fs[j]).calibration_only && fs[j].name == name
}

/// The offers for the first `k` functions: each name once, and none that only calibration
/// can call.
pub open spec fn methods_upto(fs: Seq<OverloadView>, k: int) -> Seq<CompletionItemView>
    decreases k,
{
    if k <= 0 {
        Seq::empty()
    } else if !fs[k - 1].calibration_only && !offered_before(fs, fs[k - 1].name, k - 1) {
        methods_upto(fs, k - 1).push(method_item(fs[k - 1]))
    } else {
        methods_upto(fs, k - 1)
    }
}

fn was_offered(fs: &Vec<Overload>, name: &str, k: usize) -> (r: bool)
    requires
        k <= fs@.len(),
    ensures
        r == offered_before(fs.deep_view(), name@, k as int),
{
    let mut j: usize = 0;
    while j < k
        invariant
            j <= k <= fs@.len(),
            !offered_before(fs.deep_view(), name@, j as int),
        decreases k - j,
    {
        assert(fs.deep_view()[j as int] == fs@[j as int].deep_view());
        if !fs[j].calibration_only && same(fs[j].name.as_str(), name) {
            return true;
        }
        j = j + 1;
    }
    false
}

fn method_completions(fs: &Vec<Overload>) -> (r: Vec<CompletionItem>)
    ensures
        r.deep_view() == methods_upto(fs.deep_view(), fs@.len() as int),
{
    let mut r: Vec<CompletionItem> = fresh();
    let mut k: usize = 0;
    while k < fs.len()
        invariant
            k <= fs@.len(),
            r.deep_view() == methods_upto(fs.deep_view(), k as int),
        decreases fs@.len() - k,
    {
        assert(fs.deep_view()[k as int] == fs@[k as int].deep_view());
        let f = &fs[k];
        if !f.calibration_only && !was_offered(fs, f.name.as_str(), k) {
            proof {
                reveal_strlit("");
                assert(f.doc@.len() == 0 ==> f.doc@ =~= ""@);
            }
            let documentation = if same(f.doc.as_str(), "") {
                None
            } else {
                Some(f.doc.clone())
            };
            put(
                &mut r,
                CompletionItem {
                    label: f.name.clone(),
                    kind: CompletionItemKind::Method,
                    detail: Some(signature_detail(f)),
                    documentation,
                    sort_text: None,
                    filter_text: None,
                    insert_text: Some(call_snippet(f)),
                    is_snippet: true,
                    text_edit: None,
                },
            );
        }
        k = k + 1;
    }
    r
}

// ---------------------------------------------------------------------------
// Signals of a CAN message, members of an enumeration
// ---------------------------------------------------------------------------

/// An offer with a label, and a detail if there is one.
pub open spec fn plain_item(
    label: Seq<char>,
    kind: CompletionItemKind,
    detail: Option<Seq<char>>,
) -> CompletionItemView {
    CompletionItemView {
        label,
        kind,
        detail,
        documentation: None,
        sort_text: None,
        filter_text: None,
        insert_text: None,
        is_snippet: false,
        text_edit: None,
    }
}

fn simple_item(label: String, kind: CompletionItemKind, detail: Option<String>) -> (r:
    CompletionItem)
    ensures
        r.deep_view() == plain_item(label@, kind, detail.deep_view()),
{
    CompletionItem {
        label,
        kind,
        detail,
        documentation: None,
        sort_text: None,
        filter_text: None,
        insert_text: None,
        is_snippet: false,
        text_edit: None,
    }
}

/// The type, the unit and the access level of a symbol; none where the type is not known.
pub open spec fn detail_text(sym: SymbolView, project: ProjectView) -> Option<Seq<char>> {
    let ty = match sym.value_type {
        ValueType::Enum(id) => match project.enum_type(id) {
            Some(e) => Some("Enum ("@ + e.name + ")"@),
            None => None,
        },
        ValueType::Unknown => None,
        other => Some(value_type_name(other)),
    };
    match ty {
        Some(ty) => {
            let s = match sym.unit {
                Some(u) => ty + " · "@ + u,
                None => ty,
            };
            Some(
                match sym.security {
                    Some(level) => s + " · "@ + level,
                    None => s,
                },
            )
        },
        None => None,
    }
}

fn type_unit_detail(sym: &Symbol, project: &Project) -> (r: Option<String>)
    ensures
        r.deep_view() == detail_text(sym.deep_view(), project.deep_view()),
{
    let mut s = match sym.value_type {
        ValueType::Enum(id) => match project.enum_type(id) {
            Some(e) => {
                let mut s = "Enum (".to_string();
                s.append(e.name.as_str());
                s.append(")");
                s
            },
            None => {
                return None;
            },
        },
        ValueType::Unknown => {
            return None;
        },
        other => value_type_str(other).to_string(),
    };
    if let Some(u) = &sym.unit {
        s.append(" · ");
        s.append(u.as_str());
    }
    if let Some(level) = &sym.security {
        s.append(" · ");
        s.append(level.as_str());
    }
    Some(s)
}

/// The CAN message that a path names, with or without its root.
pub open spec fn message_at(project: ProjectView, path: Seq<char>) -> Option<SymbolView> {
    let sym = match project.get(path) {
        Some(s) => Some(s),
        None => project.get("Root."@ + path),
    };
    match sym {
        Some(s) => match s.classname {
            Some(c) if begins(c, "BuiltIn.CAN.Message"@) => Some(s),
            _ => None,
        },
        None => None,
    }
}

fn find_message<'a>(project: &'a Project, path: &str) -> (r: Option<&'a Symbol>)
    ensures
        r.deep_view() == message_at(project.deep_view(), path@),
{
    let found = match project.get(path) {
        Some(s) => Some(s),
        None => {
            let mut rooted = "Root.".to_string();
            rooted.append(path);
            project.get(rooted.as_str())
        },
    };
    match found {
        Some(s) => match &s.classname {
            Some(c) => if starts_with(c.as_str(), "BuiltIn.CAN.Message") {
                Some(s)
            } else {
                None
            },
            None => None,
        },
        None => None,
    }
}

/// The offers for the first `k` signals.
pub open spec fn signals_upto(sigs: Seq<SymbolView>, project: ProjectView, k: int) -> Seq<
    CompletionItemView,
>
    decreases k,
{
    if k <= 0 {
        Seq::empty()
    } else {
        match cut_last(sigs[k - 1].path, '.') {
            Some((head, leaf)) => signals_upto(sigs, project, k - 1).push(
                plain_item(leaf, CompletionItemKind::Field, detail_text(sigs[k - 1], project)),
            ),
            None => signals_upto(sigs, project, k - 1),
        }
    }
}

/// The offers for the signals of a message.
pub open spec fn signal_items(project: ProjectView, msg: SymbolView) -> Seq<CompletionItemView> {
    let sigs = project.immediate_children(msg.path);
    signals_upto(sigs, project, sigs.len() as int)
}

fn signal_completions(project: &Project, msg: &Symbol) -> (r: Vec<CompletionItem>)
    ensures
        r.deep_view() == signal_items(project.deep_view(), msg.deep_view()),
{
    let sigs = project.immediate_children(msg.path.as_str());
    let ghost ss = sigs.deep_view();
    let mut r: Vec<CompletionItem> = fresh();
    let mut k: usize = 0;
    while k < sigs.len()
        invariant
            k <= sigs@.len(),
            ss == sigs.deep_view(),
            r.deep_view() == signals_upto(ss, project.deep_view(), k as int),
        decreases sigs@.len() - k,
    {
        let sig = sigs[k];
        assert(ss[k as int] == sig.deep_view());
        if let Some((head, leaf)) = rsplit_once(sig.path.as_str(), '.') {
            put(
                &mut r,
                simple_item(leaf, CompletionItemKind::Field, type_unit_detail(sig, project)),
            );
        }
        k = k + 1;
    }
    r
}

/// The offers for the first `k` members of an enumeration.
pub open spec fn enum_items_upto(e: EnumTypeView, k: int) -> Seq<CompletionItemView>
    decreases k,
{
    if k <= 0 {
        Seq::empty()
    } else {
        enum_items_upto(e, k - 1).push(
            plain_item(
                e.name + "."@ + e.members[k - 1].0,
                CompletionItemKind::EnumMember,
                Some("= "@ + signed_decimal(e.members[k - 1].1 as int)),
            ),
        )
    }
}

/// The offers for what can be assigned to a symbol that an enumeration types.
pub open spec fn enum_items(sym: Option<SymbolView>, project: ProjectView) -> Option<
    Seq<CompletionItemView>,
> {
    match sym {
        Some(s) => match symbol_enum(s, Some(project)) {
            Some(e) => Some(enum_items_upto(e, e.members.len() as int)),
            None => None,
        },
        None => None,
    }
}

fn enum_member_completions(sym: Option<&Symbol>, project: &Project) -> (r: Option<
    Vec<CompletionItem>,
>)
    ensures
        r.deep_view() == enum_items(sym.deep_view(), project.deep_view()),
{
    let sym = match sym {
        Some(s) => s,
        None => {
            return None;
        },
    };
    let e = match symbol_enum_type(sym, Some(project)) {
        Some(e) => e,
        None => {
            return None;
        },
    };
    let ghost ev = e.deep_view();
    let mut r: Vec<CompletionItem> = fresh();
    let mut k: usize = 0;
    while k < e.members.len()
        invariant
            k <= e.members@.len(),
            ev == e.deep_view(),
            r.deep_view() == enum_items_upto(ev, k as int),
        decreases e.members@.len() - k,
    {
        assert(ev.members[k as int] == e.members@[k as int].deep_view());
        let mut label = e.name.clone();
        label.append(".");
        label.append(e.members[k].0.as_str());
        let mut detail = "= ".to_string();
        detail.append(signed_text(e.members[k].1).as_str());
        put(&mut r, simple_item(label, CompletionItemKind::EnumMember, Some(detail)));
        k = k + 1;
    }
    Some(r)
}

// ---------------------------------------------------------------------------
// Everything in scope
// ---------------------------------------------------------------------------

/// Only calibration can call the first `k` functions.
pub open spec fn all_calibration(fs: Seq<OverloadView>, k: int) -> bool {
    forall|j: int| 0 <= j < k ==> (#[trigger] fs[j]).calibration_only
}

pub open spec fn ranked_item(
    label: Seq<char>,
    kind: CompletionItemKind,
    detail: Option<Seq<char>>,
    rank: Seq<char>,
) -> CompletionItemView {
    CompletionItemView {
        label,
        kind,
        detail,
        documentation: None,
        sort_text: Some(rank + label),
        filter_text: None,
        insert_text: None,
        is_snippet: false,
        text_edit: None,
    }
}

/// The offers for the first `k` library objects, but for those of calibration alone.
pub open spec fn objects_upto(objs: Seq<LibraryObjectView>, k: int) -> Seq<CompletionItemView>
    decreases k,
{
    if k <= 0 {
        Seq::empty()
    } else {
        let fs = objs[k - 1].functions;
        if fs.len() > 0 && all_calibration(fs, fs.len() as int) {
            objects_upto(objs, k - 1)
        } else {
            objects_upto(objs, k - 1).push(
                ranked_item(
                    objs[k - 1].name,
                    CompletionItemKind::Module,
                    Some("library object"@),
                    "2"@,
                ),
            )
        }
    }
}

pub open spec fn keyword_item(word: Seq<char>) -> CompletionItemView {
    CompletionItemView {
        label: word,
        kind: CompletionItemKind::Keyword,
        detail: None,
        documentation: None,
        sort_text: Some("3"@ + word),
        filter_text: None,
        insert_text: skeleton(word),
        is_snippet: skeleton(word) is Some,
        text_edit: None,
    }
}

pub open spec fn words_upto(words: Seq<Seq<char>>, k: int) -> Seq<CompletionItemView>
    decreases k,
{
    if k <= 0 {
        Seq::empty()
    } else {
        words_upto(words, k - 1).push(keyword_item(words[k - 1]))
    }
}

/// The offers for the first `k` groups of keywords.
pub open spec fn keywords_upto(groups: Seq<Seq<Seq<char>>>, k: int) -> Seq<CompletionItemView>
    decreases k,
{
    if k <= 0 {
        Seq::empty()
    } else {
        keywords_upto(groups, k - 1) + words_upto(groups[k - 1], groups[k - 1].len() as int)
    }
}

/// The offers for the first `k` locals.
pub open spec fn local_items_upto(locals: Seq<(Seq<char>, ValueType)>, k: int) -> Seq<
    CompletionItemView,
>
    decreases k,
{
    if k <= 0 {
        Seq::empty()
    } else {
        local_items_upto(locals, k - 1).push(
            ranked_item(locals[k - 1].0, CompletionItemKind::Variable, None, "0"@),
        )
    }
}

/// An offer that replaces the path under the cursor.
pub open spec fn path_offer(text: Seq<char>, r: Range, detail: Option<Seq<char>>) -> CompletionItemView {
    CompletionItemView {
        label: text,
        kind: CompletionItemKind::Field,
        detail,
        documentation: None,
        sort_text: Some("1"@ + text),
        filter_text: Some(text),
        insert_text: None,
        is_snippet: false,
        text_edit: Some(TextEditView { range: r, new_text: text }),
    }
}

/// `path` without its root.
pub open spec fn unrooted(path: Seq<char>) -> Seq<char> {
    match after_prefix(path, "Root."@) {
        Some(rest) => rest,
        None => path,
    }
}

/// The offers for one symbol: by its path, and by its path in the script's own group.
pub open spec fn symbol_items(
    sym: SymbolView,
    project: ProjectView,
    group: Option<Seq<char>>,
    r: Range,
) -> Seq<CompletionItemView> {
    let rel = unrooted(sym.path);
    let ty = detail_text(sym, project);
    if rel.len() == 0 {
        Seq::empty()
    } else {
        let tail = match group {
            Some(g) => after_prefix(sym.path, g + "."@),
            None => None,
        };
        let first = seq![path_offer(rel, r, ty)];
        match tail {
            Some(tail) => first.push(
                path_offer(
                    tail,
                    r,
                    Some(
                        match ty {
                            Some(t) => rel + "  ·  "@ + t,
                            None => rel,
                        },
                    ),
                ),
            ),
            None => first,
        }
    }
}

/// The offers for the first `k` symbols.
pub open spec fn symbols_upto(
    project: ProjectView,
    group: Option<Seq<char>>,
    r: Range,
    k: int,
) -> Seq<CompletionItemView>
    decreases k,
{
    if k <= 0 {
        Seq::empty()
    } else {
        symbols_upto(project, group, r, k - 1) + symbol_items(
            project.symbols[k - 1],
            project,
            group,
            r,
        )
    }
}

fn ranked(label: &str, kind: CompletionItemKind, detail: Option<String>, rank: &str) -> (r:
    CompletionItem)
    ensures
        r.deep_view() == ranked_item(label@, kind, detail.deep_view(), rank@),
{
    CompletionItem {
        label: label.to_owned(),
        kind,
        detail,
        documentation: None,
        sort_text: Some(concat(rank, label)),
        filter_text: None,
        insert_text: None,
        is_snippet: false,
        text_edit: None,
    }
}

fn only_calibration(fs: &Vec<Overload>) -> (r: bool)
    ensures
        r == all_calibration(fs.deep_view(), fs@.len() as int),
{
    let mut j: usize = 0;
    while j < fs.len()
        invariant
            j <= fs@.len(),
            all_calibration(fs.deep_view(), j as int),
        decreases fs@.len() - j,
    {
        assert(fs.deep_view()[j as int] == fs@[j as int].deep_view());
        if !fs[j].calibration_only {
            return false;
        }
        j = j + 1;
    }
    true
}

fn object_completions(objs: &Vec<LibraryObject>) -> (r: Vec<CompletionItem>)
    ensures
        r.deep_view() == objects_upto(objs.deep_view(), objs@.len() as int),
{
    let mut r: Vec<CompletionItem> = fresh();
    let mut k: usize = 0;
    while k < objs.len()
        invariant
            k <= objs@.len(),
            r.deep_view() == objects_upto(objs.deep_view(), k as int),
        decreases objs@.len() - k,
    {
        assert(objs.deep_view()[k as int] == objs@[k as int].deep_view());
        assert(objs@[k as int].functions.deep_view().len() == objs@[k as int].functions@.len());
        if !(objs[k].functions.len() > 0 && only_calibration(&objs[k].functions)) {
            put(
                &mut r,
                ranked(
                    objs[k].name.as_str(),
                    CompletionItemKind::Module,
                    Some("library object".to_string()),
                    "2",
                ),
            );
        }
        k = k + 1;
    }
    r
}

fn word_completions(words: &Vec<String>) -> (r: Vec<CompletionItem>)
    ensures
        r.deep_view() == words_upto(words.deep_view(), words@.len() as int),
{
    let mut r: Vec<CompletionItem> = fresh();
    let mut k: usize = 0;
    while k < words.len()
        invariant
            k <= words@.len(),
            r.deep_view() == words_upto(words.deep_view(), k as int),
        decreases words@.len() - k,
    {
        assert(words.deep_view()[k as int] == words@[k as int]@);
        let word = words[k].as_str();
        let insert_text = construct_snippet(word);
        let is_snippet = insert_text.is_some();
        put(
            &mut r,
            CompletionItem {
                label: word.to_owned(),
                kind: CompletionItemKind::Keyword,
                detail: None,
                documentation: None,
                sort_text: Some(concat("3", word)),
                filter_text: None,
                insert_text,
                is_snippet,
                text_edit: None,
            },
        );
        k = k + 1;
    }
    r
}

fn keyword_completions(groups: &Vec<Vec<String>>) -> (r: Vec<CompletionItem>)
    ensures
        r.deep_view() == keywords_upto(groups.deep_view(), groups@.len() as int),
{
    let mut r: Vec<CompletionItem> = fresh();
    let mut k: usize = 0;
    while k < groups.len()
        invariant
            k <= groups@.len(),
            r.deep_view() == keywords_upto(groups.deep_view(), k as int),
        decreases groups@.len() - k,
    {
        assert(groups.deep_view()[k as int] == groups@[k as int].deep_view());
        assert(groups@[k as int].deep_view().len() == groups@[k as int]@.len());
        extend(&mut r, word_completions(&groups[k]));
        k = k + 1;
    }
    r
}

fn local_completions(tree: &SyntaxTree) -> (r: Vec<CompletionItem>)
    ensures
        r.deep_view() == local_items_upto(
            locals_of(tree@, Seq::empty()),
            locals_of(tree@, Seq::empty()).len() as int,
        ),
{
    let none: Vec<(usize, ValueType)> = Vec::new();
    assert(none@ =~= Seq::empty());
    let locals = collect_locals(tree, &none);
    let mut r: Vec<CompletionItem> = fresh();
    let mut k: usize = 0;
    while k < locals.len()
        invariant
            k <= locals@.len(),
            r.deep_view() == local_items_upto(locals.deep_view(), k as int),
        decreases locals@.len() - k,
    {
        assert(locals.deep_view()[k as int] == locals@[k as int].deep_view());
        put(&mut r, ranked(locals[k].0.as_str(), CompletionItemKind::Variable, None, "0"));
        k = k + 1;
    }
    r
}

fn path_item(text: &str, r: Range, detail: Option<String>) -> (i: CompletionItem)
    ensures
        i.deep_view() == path_offer(text@, r, detail.deep_view()),
{
    CompletionItem {
        label: text.to_owned(),
        kind: CompletionItemKind::Field,
        detail,
        documentation: None,
        sort_text: Some(concat("1", text)),
        filter_text: Some(text.to_owned()),
        insert_text: None,
        is_snippet: false,
        text_edit: Some(TextEdit { range: r, new_text: text.to_owned() }),
    }
}

/// `path` without the prefix.
pub fn without_prefix(path: &str, prefix: &str) -> (r: Option<String>)
    ensures
        r.deep_view() == after_prefix(path@, prefix@),
{
    let v = chars(path);
    let p = chars(prefix);
    if holds_at(&v, &p, 0) {
        let r = substring(&v, p.len(), v.len());
        assert(r@ =~= path@.skip(p@.len() as int));
        Some(r)
    } else {
        None
    }
}

/// `path` without its root.
pub fn without_root(path: &str) -> (r: String)
    ensures
        r@ == unrooted(path@),
{
    match without_prefix(path, "Root.") {
        Some(rest) => rest,
        None => path.to_owned(),
    }
}

fn symbol_offers(sym: &Symbol, project: &Project, group: Option<&str>, r: Range) -> (v: Vec<
    CompletionItem,
>)
    ensures
        v.deep_view() == symbol_items(sym.deep_view(), project.deep_view(), group.deep_view(), r),
{
    let rel = without_root(sym.path.as_str());
    proof {
        reveal_strlit("");
        assert(rel@.len() == 0 ==> rel@ =~= ""@);
    }
    if same(rel.as_str(), "") {
        return fresh();
    }
    let mut v = one(path_item(rel.as_str(), r, type_unit_detail(sym, project)));
    if let Some(g) = group {
        if let Some(tail) = without_prefix(sym.path.as_str(), concat(g, ".").as_str()) {
            let mut detail = rel;
            if let Some(t) = type_unit_detail(sym, project) {
                detail.append("  ·  ");
                detail.append(t.as_str());
            }
            put(&mut v, path_item(tail.as_str(), r, Some(detail)));
        }
    }
    v
}

fn symbol_completions(project: &Project, group: Option<&str>, r: Range) -> (v: Vec<CompletionItem>)
    ensures
        v.deep_view() == symbols_upto(
            project.deep_view(),
            group.deep_view(),
            r,
            project.symbols@.len() as int,
        ),
{
    let ghost p = project.deep_view();
    let mut v: Vec<CompletionItem> = fresh();
    let mut k: usize = 0;
    while k < project.symbols.len()
        invariant
            k <= project.symbols@.len(),
            p == project.deep_view(),
            v.deep_view() == symbols_upto(p, group.deep_view(), r, k as int),
        decreases project.symbols@.len() - k,
    {
        assert(p.symbols[k as int] == project.symbols@[k as int].deep_view());
        extend(&mut v, symbol_offers(&project.symbols[k], project, group, r));
        k = k + 1;
    }
    v
}

/// Everything that can be named: library objects, keywords, locals, and the symbols of the
/// project, which replace the path around index `i`.
pub open spec fn scope_items(
    t: Tree,
    project: Option<ProjectView>,
    group: Option<Seq<char>>,
    text: Seq<char>,
    i: int,
    s: Seq<char>,
    enc: PositionEncoding,
    intr: IntrinsicsView,
) -> Seq<CompletionItemView> {
    let locals = locals_of(t, Seq::empty());
    let items = objects_upto(intr.library, intr.library.len() as int) + keywords_upto(
        intr.keywords,
        intr.keywords.len() as int,
    ) + local_items_upto(locals, locals.len() as int);
    match project {
        Some(p) => {
            let r = range_of(
                s,
                byte_at(text, run_start(text, false, i)) as int,
                byte_at(text, run_end(text, i)) as int,
                enc,
            );
            items + symbols_upto(p, group, r, p.symbols.len() as int)
        },
        None => items,
    }
}

/// The index of byte `b`; past the end it is the end.
pub open spec fn cursor_index(text: Seq<char>, b: int) -> int {
    if b > byte_len(text) {
        text.len() as int
    } else {
        char_at(text, b)
    }
}

/// The offers at byte `b`.
pub open spec fn completions_at(
    t: Tree,
    project: Option<ProjectView>,
    targets: ScopeView,
    text: Seq<char>,
    b: int,
    s: Seq<char>,
    enc: PositionEncoding,
    intr: IntrinsicsView,
) -> Seq<CompletionItemView> {
    let i = cursor_index(text, b);
    let object = match parent_before(text, i) {
        Some(parent) => intr.library_object(parent),
        None => None,
    };
    let message = match (project, spaced_parent_before(text, i)) {
        (Some(p), Some(parent)) => message_at(p, parent),
        _ => None,
    };
    let members = match (project, assigned_before(text, i)) {
        (Some(p), Some(lhs)) => enum_items(targets.symbol(lhs), p),
        _ => None,
    };
    if in_prose(t, b) {
        Seq::empty()
    } else if object is Some {
        methods_upto(object.unwrap().functions, object.unwrap().functions.len() as int)
    } else if message is Some {
        signal_items(project.unwrap(), message.unwrap())
    } else if members is Some {
        members.unwrap()
    } else {
        scope_items(t, project, targets.group, text, i, s, enc, intr)
    }
}

/// The offers at `byte`: none in a comment or a string, the functions behind a library
/// object, the signals behind a CAN message, the members that can be assigned, or else
/// everything in scope. `targets` says what paths name outside of the script's locals, and
/// which group the script belongs to.
pub fn completions(
    tree: &SyntaxTree,
    project: Option<&Project>,
    targets: &Scope,
    text: &str,
    byte: usize,
    li: &LineIndex,
    enc: PositionEncoding,
    intr: &Intrinsics,
) -> (r: Vec<CompletionItem>)
    requires
        in_prose(tree@, byte as int) || is_boundary(text@, byte as int) || byte > byte_len(text@),
        byte_len(text@) <= usize::MAX,
    ensures
        r.deep_view() == completions_at(
            tree@,
            project.deep_view(),
            targets.deep_view(),
            text@,
            byte as int,
            li@,
            enc,
            intr.deep_view(),
        ),
{
    if in_comment_or_string(tree, byte) {
        return fresh();
    }
    let v = chars(text);
    let i: usize = match index_of_byte(&v, byte) {
        Some(i) => i,
        None => v.len(),
    };
    proof {
        lemma_byte_at_monotone(v@, i as int, v@.len() as int);
        lemma_byte_at_ends(v@);
    }
    assert(i == cursor_index(v@, byte as int));
    if let Some(parent) = member_parent(&v, i) {
        if let Some(obj) = intr.library_object(parent.as_str()) {
            assert(obj.functions.deep_view().len() == obj.functions@.len());
            return method_completions(&obj.functions);
        }
    }
    if let Some(p) = project {
        if let Some(parent) = member_parent_with_spaces(&v, i) {
            if let Some(msg) = find_message(p, parent.as_str()) {
                return signal_completions(p, msg);
            }
        }
        if let Some(lhs) = assigned(&v, i) {
            if let Some(items) = enum_member_completions(targets.symbol(lhs.as_str()), p) {
                return items;
            }
        }
    }
    assert(intr.deep_view().library.len() == intr.library@.len());
    assert(intr.deep_view().keywords.len() == intr.keywords@.len());
    let mut items = object_completions(&intr.library);
    extend(&mut items, keyword_completions(&intr.keywords));
    extend(&mut items, local_completions(tree));
    if let Some(p) = project {
        let a: usize = chain_start(&v, false, i);
        let z: usize = chain_end(&v, i);
        proof {
            lemma_byte_at_monotone(v@, a as int, z as int);
            lemma_byte_at_monotone(v@, z as int, v@.len() as int);
            lemma_byte_at_ends(v@);
        }
        let r = range(bytes_before(&v, a), bytes_before(&v, z), li, enc);
        let group = match &targets.group {
            Some(g) => Some(g.as_str()),
            None => None,
        };
        assert(p.deep_view().symbols.len() == p.symbols@.len());
        extend(&mut items, symbol_completions(p, group, r));
    }
    items
}

// ---------------------------------------------------------------------------
// Laws
// ---------------------------------------------------------------------------

/// What a completed path replaces holds the cursor, and is path characters alone, in front
/// of which and behind which there is none.
pub proof fn replaced_run_is_whole(s: Seq<char>, i: int)
    requires
        0 <= i <= s.len(),
    ensures
        0 <= run_start(s, false, i) <= i <= run_end(s, i) <= s.len(),
        forall|k: int| run_start(s, false, i) <= k < run_end(s, i) ==> is_chain_char(
            #[trigger] s[k],
        ),
        run_start(s, false, i) > 0 ==> !is_chain_char(s[run_start(s, false, i) - 1]),
        run_end(s, i) < s.len() ==> !is_chain_char(s[run_end(s, i)]),
{
    lemma_run_start(s, i);
    lemma_run_end(s, i);
}

proof fn lemma_same_start(s: Seq<char>, a: int, c: int)
    requires
        0 <= a <= c <= s.len(),
        a > 0 ==> !is_chain_char(s[a - 1]),
        forall|k: int| a <= k < c ==> is_chain_char(#[trigger] s[k]),
    ensures
        run_start(s, false, c) == a,
    decreases c,
{
    if a < c {
        assert(is_chain_char(s[c - 1]));
        lemma_same_start(s, a, c - 1);
    }
}

proof fn lemma_same_end(s: Seq<char>, c: int, z: int)
    requires
        0 <= c <= z <= s.len(),
        z < s.len() ==> !is_chain_char(s[z]),
        forall|k: int| c <= k < z ==> is_chain_char(#[trigger] s[k]),
    ensures
        run_end(s, c) == z,
    decreases z - c,
{
    if c < z {
        assert(is_chain_char(s[c]));
        lemma_same_end(s, c + 1, z);
    }
}

/// Every cursor in a run of path characters sees the same run.
pub proof fn cursors_in_a_run_agree(s: Seq<char>, i: int, c: int)
    requires
        0 <= i <= s.len(),
        run_start(s, false, i) <= c <= run_end(s, i),
    ensures
        run_start(s, false, c) == run_start(s, false, i),
        run_end(s, c) == run_end(s, i),
{
    replaced_run_is_whole(s, i);
    lemma_same_start(s, run_start(s, false, i), c);
    lemma_same_end(s, c, run_end(s, i));
}

proof fn lemma_run_start(s: Seq<char>, i: int)
    requires
        0 <= i <= s.len(),
    ensures
        0 <= run_start(s, false, i) <= i,
        forall|k: int| run_start(s, false, i) <= k < i ==> is_chain_char(#[trigger] s[k]),
        run_start(s, false, i) > 0 ==> !is_chain_char(s[run_start(s, false, i) - 1]),
    decreases i,
{
    if i > 0 && is_chain_char(s[i - 1]) {
        lemma_run_start(s, i - 1);
    }
}

proof fn lemma_run_end(s: Seq<char>, i: int)
    requires
        0 <= i <= s.len(),
    ensures
        i <= run_end(s, i) <= s.len(),
        forall|k: int| i <= k < run_end(s, i) ==> is_chain_char(#[trigger] s[k]),
        run_end(s, i) < s.len() ==> !is_chain_char(s[run_end(s, i)]),
    decreases s.len() - i,
{
    if i < s.len() && is_chain_char(s[i]) {
        lemma_run_end(s, i + 1);
    }
}

/// The rank of an offer: locals come first, then symbols, library objects and keywords.
pub open spec fn rank_of(item: CompletionItemView) -> Option<Seq<char>> {
    match item.kind {
        CompletionItemKind::Variable => Some("0"@),
        CompletionItemKind::Field => Some("1"@),
        CompletionItemKind::Module => Some("2"@),
        CompletionItemKind::Keyword => Some("3"@),
        _ => None,
    }
}

pub open spec fn is_ranked(item: CompletionItemView) -> bool {
    match rank_of(item) {
        Some(rank) => item.sort_text == Some(rank + item.label),
        None => false,
    }
}

pub open spec fn all_ranked(items: Seq<CompletionItemView>) -> bool {
    forall|i: int| 0 <= i < items.len() ==> is_ranked(#[trigger] items[i])
}

proof fn lemma_ranked_add(a: Seq<CompletionItemView>, b: Seq<CompletionItemView>)
    requires
        all_ranked(a),
        all_ranked(b),
    ensures
        all_ranked(a + b),
{
    assert forall|i: int| 0 <= i < (a + b).len() implies is_ranked(#[trigger] (a + b)[i]) by {
        if i < a.len() {
            assert((a + b)[i] == a[i]);
        } else {
            assert((a + b)[i] == b[i - a.len()]);
        }
    }
}

proof fn lemma_ranked_objects(objs: Seq<LibraryObjectView>, k: int)
    ensures
        all_ranked(objects_upto(objs, k)),
    decreases k,
{
    if k > 0 {
        lemma_ranked_objects(objs, k - 1);
    }
}

proof fn lemma_ranked_words(words: Seq<Seq<char>>, k: int)
    ensures
        all_ranked(words_upto(words, k)),
    decreases k,
{
    if k > 0 {
        lemma_ranked_words(words, k - 1);
    }
}

proof fn lemma_ranked_locals(locals: Seq<(Seq<char>, ValueType)>, k: int)
    ensures
        all_ranked(local_items_upto(locals, k)),
    decreases k,
{
    if k > 0 {
        lemma_ranked_locals(locals, k - 1);
    }
}

proof fn lemma_ranked_keywords(groups: Seq<Seq<Seq<char>>>, k: int)
    ensures
        all_ranked(keywords_upto(groups, k)),
    decreases k,
{
    if k > 0 {
        lemma_ranked_keywords(groups, k - 1);
        lemma_ranked_words(groups[k - 1], groups[k - 1].len() as int);
        lemma_ranked_add(
            keywords_upto(groups, k - 1),
            words_upto(groups[k - 1], groups[k - 1].len() as int),
        );
    }
}

proof fn lemma_ranked_symbols(p: ProjectView, group: Option<Seq<char>>, r: Range, k: int)
    ensures
        all_ranked(symbols_upto(p, group, r, k)),
    decreases k,
{
    if k > 0 {
        lemma_ranked_symbols(p, group, r, k - 1);
        lemma_ranked_add(
            symbols_upto(p, group, r, k - 1),
            symbol_items(p.symbols[k - 1], p, group, r),
        );
    }
}

/// Every offer of what is in scope is ranked by what it is.
pub proof fn scope_items_are_ranked(
    t: Tree,
    project: Option<ProjectView>,
    group: Option<Seq<char>>,
    text: Seq<char>,
    i: int,
    s: Seq<char>,
    enc: PositionEncoding,
    intr: IntrinsicsView,
)
    ensures
        all_ranked(scope_items(t, project, group, text, i, s, enc, intr)),
{
    let locals = locals_of(t, Seq::empty());
    let a = objects_upto(intr.library, intr.library.len() as int);
    let b = keywords_upto(intr.keywords, intr.keywords.len() as int);
    let c = local_items_upto(locals, locals.len() as int);
    lemma_ranked_objects(intr.library, intr.library.len() as int);
    lemma_ranked_locals(locals, locals.len() as int);
    lemma_ranked_keywords(intr.keywords, intr.keywords.len() as int);
    lemma_ranked_add(a, b);
    lemma_ranked_add(a + b, c);
    if let Some(p) = project {
        let r = range_of(
            s,
            byte_at(text, run_start(text, false, i)) as int,
            byte_at(text, run_end(text, i)) as int,
            enc,
        );
        lemma_ranked_symbols(p, group, r, p.symbols.len() as int);
        lemma_ranked_add(a + b + c, symbols_upto(p, group, r, p.symbols.len() as int));
    }
}

/// The place of an offer in the order of the ranks.
pub open spec fn rank_place(kind: CompletionItemKind) -> int {
    match kind {
        CompletionItemKind::Variable => 0,
        CompletionItemKind::Field => 1,
        CompletionItemKind::Module => 2,
        _ => 3,
    }
}

/// In the order of their sort texts, locals come before symbols, symbols before library
/// objects, and those before keywords, whatever their names.
pub proof fn ranks_decide_order(a: CompletionItemView, b: CompletionItemView)
    requires
        is_ranked(a),
        is_ranked(b),
        rank_place(a.kind) < rank_place(b.kind),
    ensures
        before(a.sort_text.unwrap(), b.sort_text.unwrap()),
{
    reveal_strlit("0");
    reveal_strlit("1");
    reveal_strlit("2");
    reveal_strlit("3");
    let x = a.sort_text.unwrap();
    let y = b.sort_text.unwrap();
    assert(x[0] == rank_of(a).unwrap()[0]);
    assert(y[0] == rank_of(b).unwrap()[0]);
    assert(before_from(x, y, 0));
}

} // verus!
