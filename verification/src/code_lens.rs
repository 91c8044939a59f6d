//! Badges above a script: how often it runs, what of its output is logged, and who may
//! change what it writes.
use crate::call_hierarchy::{script_symbol, script_symbol_at};
use crate::format::{decimal, decimal_text};
use crate::goto::{at_line, line_range};
use crate::line_index::Range;
use crate::list::{fresh, one, put};
use crate::locate::{top_path_seq, top_paths};
use crate::model::{
    LoadedProject, LoadedProjectView, Scope, ScopeView, Symbol, SymbolKind, SymbolView,
};
use crate::order::{set_insert, set_with};
use crate::outside::{file_uri, uri_of_path};
use crate::paths::{file_name_of, uri_file_name};
use crate::search::{concat, cut_last, ends, ends_with, join, joined, rsplit_once};
use crate::syntax::{SyntaxTree, Tree};
use crate::text::same;
use vstd::prelude::*;
use vstd::string::*;

verus! {

/// An argument of a command.
#[derive(Debug)]
pub enum Argument {
    Text(String),
    Number(u32),
}

/// What a [`Argument`] stands for.
pub enum ArgumentView {
    Text(Seq<char>),
    Number(u32),
}

impl DeepView for Argument {
    type V = ArgumentView;

    open spec fn deep_view(&self) -> ArgumentView {
        match self {
            Argument::Text(x) => ArgumentView::Text(x.deep_view()),
            Argument::Number(x) => ArgumentView::Number(*x),
        }
    }
}

/// A title, and the command behind it: none where it is empty.
#[derive(Debug)]
pub struct Command {
    pub title: String,
    pub command: String,
    pub arguments: Option<Vec<Argument>>,
}

/// What a [`Command`] stands for.
pub struct CommandView {
    pub title: Seq<char>,
    pub command: Seq<char>,
    pub arguments: Option<Seq<ArgumentView>>,
}

impl DeepView for Command {
    type V = CommandView;

    open spec fn deep_view(&self) -> CommandView {
        CommandView {
            title: self.title.deep_view(),
            command: self.command.deep_view(),
            arguments: self.arguments.deep_view(),
        }
    }
}

/// A command shown at a range.
#[derive(Debug)]
pub struct CodeLens {
    pub range: Range,
    pub command: Command,
}

/// What a [`CodeLens`] stands for.
pub struct CodeLensView {
    pub range: Range,
    pub command: CommandView,
}

impl DeepView for CodeLens {
    type V = CodeLensView;

    open spec fn deep_view(&self) -> CodeLensView {
        CodeLensView {
            range: self.range,
            command: self.command.deep_view(),
        }
    }
}

/// A script that was parsed.
#[derive(Clone, Copy)]
pub struct ParsedScript<'a> {
    pub tree: &'a SyntaxTree,
    pub scope: &'a Scope,
    pub has_errors: bool,
}

/// What a [`ParsedScript`] stands for.
pub struct ParsedScriptView {
    pub tree: Tree,
    pub scope: ScopeView,
    pub has_errors: bool,
}

impl<'a> DeepView for ParsedScript<'a> {
    type V = ParsedScriptView;

    open spec fn deep_view(&self) -> ParsedScriptView {
        ParsedScriptView {
            tree: self.tree@,
            scope: self.scope.deep_view(),
            has_errors: self.has_errors,
        }
    }
}

/// The command that shows a line of the project file; only a title where there is none.
pub open spec fn reveal_line(loaded: LoadedProjectView, title: Seq<char>, line: Option<u32>) -> CommandView {
    match (line, file_uri(loaded.m1prj_path)) {
        (Some(n), Some(uri)) => CommandView {
            title,
            command: "m1.revealLocation"@,
            arguments: Some(seq![ArgumentView::Text(uri), ArgumentView::Number(n)]),
        },
        _ => CommandView { title, command: ""@, arguments: None },
    }
}

pub open spec fn badge(command: CommandView) -> CodeLensView {
    CodeLensView { range: line_range(0), command }
}

fn reveal_command(loaded: &LoadedProject, title: String, line: Option<u32>) -> (r: Command)
    ensures
        r.deep_view() == reveal_line(loaded.deep_view(), title@, line),
{
    if let Some(n) = line {
        if let Some(uri) = uri_of_path(loaded.m1prj_path.as_str()) {
            let mut arguments = one(Argument::Text(uri));
            put(&mut arguments, Argument::Number(n));
            assert(arguments.deep_view() =~= seq![
                ArgumentView::Text(uri@),
                ArgumentView::Number(n),
            ]);
            return Command {
                title,
                command: "m1.revealLocation".to_string(),
                arguments: Some(arguments),
            };
        }
    }
    Command { title, command: "".to_string(), arguments: None }
}

fn lens_at_top(command: Command) -> (r: CodeLens)
    ensures
        r.deep_view() == badge(command.deep_view()),
{
    CodeLens { range: at_line(0), command }
}

// ---------------------------------------------------------------------------
// What a script writes
// ---------------------------------------------------------------------------

/// One of the symbols has that path.
pub open spec fn lists(s: Seq<SymbolView>, path: Seq<char>) -> bool {
    exists|i: int| 0 <= i < s.len() && (#[trigger] s[i]).path == path
}

/// The channels and parameters that the first `k` paths write, each once.
pub open spec fn written_upto(t: Tree, scope: ScopeView, ps: Seq<(usize, bool)>, k: int) -> Seq<
    SymbolView,
>
    decreases k,
{
    if k <= 0 {
        Seq::empty()
    } else {
        let rest = written_upto(t, scope, ps, k - 1);
        match scope.symbol(t.text_of(ps[k - 1].0)) {
            Some(s) if ps[k - 1].1 && (s.kind == SymbolKind::Channel || s.kind
                == SymbolKind::Parameter) && !lists(rest, s.path) => rest.push(s),
            _ => rest,
        }
    }
}

/// The channels and parameters that a script writes; none where it does not parse.
pub open spec fn written_by(script: ParsedScriptView) -> Seq<SymbolView> {
    if script.has_errors {
        Seq::empty()
    } else {
        let ps = top_path_seq(script.tree);
        written_upto(script.tree, script.scope, ps, ps.len() as int)
    }
}

fn has_path(v: &Vec<&Symbol>, path: &str) -> (r: bool)
    ensures
        r == lists(v.deep_view(), path@),
{
    let mut i: usize = 0;
    while i < v.len()
        invariant
            i <= v@.len(),
            forall|j: int| 0 <= j < i ==> (#[trigger] v.deep_view()[j]).path != path@,
        decreases v@.len() - i,
    {
        assert(v.deep_view()[i as int] == v@[i as int].deep_view());
        if same(v[i].path.as_str(), path) {
            return true;
        }
        i = i + 1;
    }
    false
}

fn written_symbols<'a>(script: &ParsedScript<'a>) -> (r: Vec<&'a Symbol>)
    ensures
        r.deep_view() == written_by(script.deep_view()),
{
    let mut r: Vec<&'a Symbol> = fresh();
    if script.has_errors {
        return r;
    }
    let tree = script.tree;
    let scope: &'a Scope = script.scope;
    let ps = top_paths(tree);
    let mut k: usize = 0;
    while k < ps.len()
        invariant
            k <= ps@.len(),
            ps@ == top_path_seq(tree@),
            forall|i: int| 0 <= i < ps@.len() ==> tree@.has((#[trigger] ps@[i]).0),
            r.deep_view() == written_upto(tree@, scope.deep_view(), ps@, k as int),
        decreases ps@.len() - k,
    {
        let (n, written) = ps[k];
        if written {
            if let Some(s) = scope.symbol(tree.text_of(n).as_str()) {
                if (s.kind == SymbolKind::Channel || s.kind == SymbolKind::Parameter) && !has_path(
                    &r,
                    s.path.as_str(),
                ) {
                    put(&mut r, s);
                }
            }
        }
        k = k + 1;
    }
    r
}

// ---------------------------------------------------------------------------
// The badges
// ---------------------------------------------------------------------------

/// How often the script runs.
pub open spec fn rate_badge(loaded: LoadedProjectView, sym: SymbolView) -> Option<CodeLensView> {
    match sym.call_rate {
        Some(rate) => Some(
            badge(reveal_line(loaded, "⚡ "@ + rate.plain + " Hz"@, sym.def_line)),
        ),
        None => None,
    }
}

fn rate_lens(loaded: &LoadedProject, sym: &Symbol) -> (r: Option<CodeLens>)
    ensures
        r.deep_view() == rate_badge(loaded.deep_view(), sym.deep_view()),
{
    match &sym.call_rate {
        Some(rate) => {
            let mut title = "⚡ ".to_string();
            title.append(rate.plain.as_str());
            title.append(" Hz");
            Some(lens_at_top(reveal_command(loaded, title, sym.def_line)))
        },
        None => None,
    }
}

/// The last segment of a path.
pub open spec fn leaf_name(path: Seq<char>) -> Seq<char> {
    match cut_last(path, '.') {
        Some((head, leaf)) => leaf,
        None => path,
    }
}

/// The last segment of a path.
pub fn leaf(path: &str) -> (r: String)
    ensures
        r@ == leaf_name(path@),
{
    match rsplit_once(path, '.') {
        Some((head, leaf)) => leaf,
        None => path.to_owned(),
    }
}

/// Those of the first `k` symbols that are logged.
pub open spec fn logged_upto(s: Seq<SymbolView>, k: int) -> Seq<SymbolView>
    decreases k,
{
    if k <= 0 {
        Seq::empty()
    } else if s[k - 1].log_rate is Some {
        logged_upto(s, k - 1).push(s[k - 1])
    } else {
        logged_upto(s, k - 1)
    }
}

/// What of the script's output is logged.
pub open spec fn logging_badge(loaded: LoadedProjectView, written: Seq<SymbolView>) -> Option<
    CodeLensView,
> {
    let logged = logged_upto(written, written.len() as int);
    if logged.len() == 0 {
        None
    } else {
        let title = if logged.len() == 1 {
            "📊 logs "@ + leaf_name(logged[0].path) + " @ "@ + logged[0].log_rate.unwrap().plain
                + " Hz"@
        } else {
            "📊 logs "@ + decimal(logged.len()) + " channels"@
        };
        Some(badge(reveal_line(loaded, title, logged[0].def_line)))
    }
}

fn logging_lens(loaded: &LoadedProject, written: &Vec<&Symbol>) -> (r: Option<CodeLens>)
    ensures
        r.deep_view() == logging_badge(loaded.deep_view(), written.deep_view()),
{
    let ghost w = written.deep_view();
    let mut logged: Vec<&Symbol> = fresh();
    let mut k: usize = 0;
    while k < written.len()
        invariant
            k <= written@.len(),
            w == written.deep_view(),
            logged.deep_view() == logged_upto(w, k as int),
            forall|i: int| 0 <= i < logged@.len() ==> (#[trigger] logged@[i]).log_rate is Some,
        decreases written@.len() - k,
    {
        assert(w[k as int] == written@[k as int].deep_view());
        if written[k].log_rate.is_some() {
            put(&mut logged, written[k]);
        }
        k = k + 1;
    }
    assert(logged.deep_view().len() == logged@.len());
    if logged.len() == 0 {
        return None;
    }
    let first = logged[0];
    assert(logged.deep_view()[0] == first.deep_view());
    let mut title = "📊 logs ".to_string();
    if logged.len() == 1 {
        title.append(leaf(first.path.as_str()).as_str());
        title.append(" @ ");
        if let Some(rate) = &first.log_rate {
            title.append(rate.plain.as_str());
        }
        title.append(" Hz");
    } else {
        title.append(decimal_text(logged.len() as u64).as_str());
        title.append(" channels");
    }
    Some(lens_at_top(reveal_command(loaded, title, first.def_line)))
}

/// The access levels of the first `k` symbols, in order, each once.
pub open spec fn levels_upto(s: Seq<SymbolView>, k: int) -> Seq<Seq<char>>
    decreases k,
{
    if k <= 0 {
        Seq::empty()
    } else {
        match s[k - 1].security {
            Some(level) => set_with(levels_upto(s, k - 1), level),
            None => levels_upto(s, k - 1),
        }
    }
}

/// The first symbol, from index `i` on, with an access level.
pub open spec fn first_secured(s: Seq<SymbolView>, i: int) -> Option<SymbolView>
    decreases s.len() - i,
{
    if i < 0 || i >= s.len() {
        None
    } else if s[i].security is Some {
        Some(s[i])
    } else {
        first_secured(s, i + 1)
    }
}

/// The access level of the script, or else the levels of what it writes.
pub open spec fn security_badge(
    loaded: LoadedProjectView,
    sym: SymbolView,
    written: Seq<SymbolView>,
) -> Option<CodeLensView> {
    match sym.security {
        Some(own) => Some(badge(reveal_line(loaded, "🔒 "@ + own, sym.def_line))),
        None => match first_secured(written, 0) {
            Some(first) => Some(
                badge(
                    reveal_line(
                        loaded,
                        "🔒 writes "@ + joined(
                            levels_upto(written, written.len() as int),
                            ", "@,
                        ),
                        first.def_line,
                    ),
                ),
            ),
            None => None,
        },
    }
}

fn security_lens(loaded: &LoadedProject, sym: &Symbol, written: &Vec<&Symbol>) -> (r: Option<
    CodeLens,
>)
    ensures
        r.deep_view() == security_badge(
            loaded.deep_view(),
            sym.deep_view(),
            written.deep_view(),
        ),
{
    if let Some(own) = &sym.security {
        let title = concat("🔒 ", own.as_str());
        return Some(lens_at_top(reveal_command(loaded, title, sym.def_line)));
    }
    let ghost w = written.deep_view();
    let mut levels: Vec<String> = fresh();
    let mut first: Option<&Symbol> = None;
    let mut k: usize = 0;
    while k < written.len()
        invariant
            k <= written@.len(),
            w == written.deep_view(),
            levels.deep_view() == levels_upto(w, k as int),
            first is None ==> first_secured(w, 0) == first_secured(w, k as int),
            first is Some ==> first_secured(w, 0) == first.deep_view(),
        decreases written@.len() - k,
    {
        assert(w[k as int] == written@[k as int].deep_view());
        if let Some(level) = &written[k].security {
            set_insert(&mut levels, level.as_str());
            if first.is_none() {
                first = Some(written[k]);
            }
        }
        k = k + 1;
    }
    match first {
        Some(s) => {
            assert(levels.deep_view().take(levels@.len() as int) =~= levels.deep_view());
            let title = concat("🔒 writes ", join(&levels, levels.len(), ", ").as_str());
            Some(lens_at_top(reveal_command(loaded, title, s.def_line)))
        },
        None => None,
    }
}

pub open spec fn and_badge(s: Seq<CodeLensView>, l: Option<CodeLensView>) -> Seq<CodeLensView> {
    match l {
        Some(x) => s.push(x),
        None => s,
    }
}

/// The badges of a script: none where the document is no script of the project.
pub open spec fn badges_of(
    loaded: LoadedProjectView,
    uri: Seq<char>,
    script: Option<ParsedScriptView>,
) -> Seq<CodeLensView> {
    let sym = match uri_file_name(uri) {
        Some(name) if ends(name, ".m1scr"@) => script_symbol_at(loaded.project.symbols, name, 0),
        _ => None,
    };
    match sym {
        Some(sym) => {
            let s = and_badge(Seq::empty(), rate_badge(loaded, sym));
            match script {
                Some(script) => {
                    let written = written_by(script);
                    and_badge(
                        and_badge(s, logging_badge(loaded, written)),
                        security_badge(loaded, sym, written),
                    )
                },
                None => s,
            }
        },
        None => Seq::empty(),
    }
}

/// The badges of a script. `script` is `None` where its text cannot be had.
pub fn code_lens(loaded: &LoadedProject, uri: &str, script: Option<ParsedScript>) -> (r: Vec<
    CodeLens,
>)
    ensures
        r.deep_view() == badges_of(loaded.deep_view(), uri@, script.deep_view()),
{
    let name = match file_name_of(uri) {
        Some(n) => n,
        None => {
            return fresh();
        },
    };
    if !ends_with(name.as_str(), ".m1scr") {
        return fresh();
    }
    let sym = match script_symbol(&loaded.project, name.as_str()) {
        Some(s) => s,
        None => {
            return fresh();
        },
    };
    let mut lenses: Vec<CodeLens> = fresh();
    if let Some(l) = rate_lens(loaded, sym) {
        put(&mut lenses, l);
    }
    if let Some(script) = script {
        let written = written_symbols(&script);
        if let Some(l) = logging_lens(loaded, &written) {
            put(&mut lenses, l);
        }
        if let Some(l) = security_lens(loaded, sym, &written) {
            put(&mut lenses, l);
        }
    }
    lenses
}

} // verus!
