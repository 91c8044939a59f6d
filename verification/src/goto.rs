//! Definitions: of a project symbol, of the enumeration that types it, and of a local.
use crate::line_index::{LineIndex, Position, PositionEncoding, Range, range};
use crate::locate::{declaration_name, declared_name, path_at_byte, path_node};
use crate::model::{
    LoadedProject, LoadedProjectView, Project, ProjectView, Scope, ScopeView, Symbol, SymbolView,
    ValueType,
};
use crate::outside::{file_uri, uri_of_path};
use crate::paths::{below, contained_join, is_contained};
use crate::references::{Location, location_of, LocationView};
use crate::search::{contains_char, split, split_on};
use crate::syntax::{SyntaxTree, Tree};
use crate::text::{char_is_space, chars, holds_at, is_space, matches_at, same};
use vstd::prelude::*;
use vstd::string::*;

verus! {

/// An empty range at the start of a line.
pub open spec fn line_range(line: u32) -> Range {
    Range {
        start: Position { line, character: 0 },
        end: Position { line, character: 0 },
    }
}

pub fn at_line(line: u32) -> (r: Range)
    ensures
        r == line_range(line),
{
    Range { start: Position { line, character: 0 }, end: Position { line, character: 0 } }
}

/// The file and line that define a symbol: the start of the file that backs it, or its line
/// in the project file. A file outside the project directory defines nothing.
pub open spec fn definition_site(loaded: LoadedProjectView, sym: SymbolView) -> Option<
    (Seq<char>, u32),
> {
    match sym.filename {
        Some(f) => if is_contained(loaded.root, f) {
            Some((below(loaded.root, f), 0u32))
        } else {
            None
        },
        None => match sym.def_line {
            Some(line) => Some((loaded.m1prj_path, line)),
            None => None,
        },
    }
}

/// The start of a line of the file at `path`.
pub open spec fn line_location(path: Seq<char>, line: u32) -> Option<LocationView> {
    match file_uri(path) {
        Some(uri) => Some(LocationView { uri, range: line_range(line) }),
        None => None,
    }
}

/// Where a symbol is defined.
pub open spec fn definition_of(loaded: LoadedProjectView, sym: SymbolView) -> Option<LocationView> {
    match definition_site(loaded, sym) {
        Some((path, line)) => line_location(path, line),
        None => None,
    }
}

fn location_at(path: &str, line: u32) -> (r: Option<Location>)
    ensures
        r.deep_view() == line_location(path@, line),
{
    match uri_of_path(path) {
        Some(uri) => Some(Location { uri, range: at_line(line) }),
        None => None,
    }
}

/// Where a symbol is defined.
pub fn symbol_location(loaded: &LoadedProject, sym: &Symbol) -> (r: Option<Location>)
    ensures
        r.deep_view() == definition_of(loaded.deep_view(), sym.deep_view()),
{
    match &sym.filename {
        Some(f) => match contained_join(loaded.root.as_str(), f.as_str()) {
            Some(path) => location_at(path.as_str(), 0),
            None => None,
        },
        None => match sym.def_line {
            Some(line) => location_at(loaded.m1prj_path.as_str(), line),
            None => None,
        },
    }
}

/// The project symbol that the path at byte `b` names.
pub open spec fn symbol_under(t: Tree, scope: ScopeView, b: int) -> Option<SymbolView> {
    match path_node(t, b) {
        Some(n) => scope.symbol(t.text_of(n)),
        None => None,
    }
}

fn symbol_at_byte<'a>(tree: &SyntaxTree, scope: &'a Scope, byte: usize) -> (r: Option<&'a Symbol>)
    ensures
        r.deep_view() == symbol_under(tree@, scope.deep_view(), byte as int),
{
    match path_at_byte(tree, byte) {
        Some((n, path)) => scope.symbol(path.as_str()),
        None => None,
    }
}

/// The definition of the symbol at `byte`.
pub fn goto(tree: &SyntaxTree, byte: usize, loaded: &LoadedProject, scope: &Scope) -> (r: Option<
    Location,
>)
    ensures
        r.deep_view() == (match symbol_under(tree@, scope.deep_view(), byte as int) {
            Some(sym) => definition_of(loaded.deep_view(), sym),
            None => None,
        }),
{
    match symbol_at_byte(tree, scope, byte) {
        Some(sym) => symbol_location(loaded, sym),
        None => None,
    }
}

// ---------------------------------------------------------------------------
// Type definitions
// ---------------------------------------------------------------------------

/// The quotation mark that is open at index `k` of a tag that starts at index `i`.
pub open spec fn open_quote(line: Seq<char>, i: int, k: int) -> Option<char>
    decreases k - i,
{
    if k <= i {
        None
    } else {
        let c = line[k - 1];
        match open_quote(line, i, k - 1) {
            Some(q) => if c == q {
                None
            } else {
                Some(q)
            },
            None => if c == '"' || c == '\'' {
                Some(c)
            } else {
                None
            },
        }
    }
}

/// Index `k` stands in the tag that starts at index `i`, and not in one of its values.
pub open spec fn in_tag(line: Seq<char>, i: int, k: int) -> bool {
    &&& open_quote(line, i, k) is None
    &&& forall|j: int| i <= j < k && line[j] == '>' ==> #[trigger] open_quote(line, i, j) is Some
}

/// A `Type` element starts at index `i`.
pub open spec fn starts_type(line: Seq<char>, i: int) -> bool {
    matches_at(line, "<Type"@, i) && i + 5 < line.len() && is_space(line[i + 5])
}

/// The attribute `Name` with that value stands at index `k` of the tag that starts at index
/// `i`.
pub open spec fn names_tag(line: Seq<char>, name: Seq<char>, i: int, k: int) -> bool {
    &&& i + 5 < k <= line.len()
    &&& in_tag(line, i, k)
    &&& is_space(line[k - 1])
    &&& matches_at(line, "Name=\""@ + name + "\""@, k)
}

/// The line declares the type: it has the start of a `Type` element that has the name.
pub open spec fn declares_type(line: Seq<char>, name: Seq<char>) -> bool {
    exists|i: int, k: int|
        0 <= i && starts_type(line, i) && #[trigger] names_tag(line, name, i, k)
}

/// The first of the lines, from `i` on, that declares the type.
pub open spec fn type_line_from(lines: Seq<Seq<char>>, name: Seq<char>, i: int) -> Option<u32>
    decreases lines.len() - i,
{
    if i < 0 || i >= lines.len() {
        None
    } else if declares_type(lines[i], name) {
        Some(i as u32)
    } else {
        type_line_from(lines, name, i + 1)
    }
}

/// The line of the project file that declares the type.
pub open spec fn type_line(xml: Seq<char>, name: Seq<char>) -> Option<u32> {
    type_line_from(split(xml, '\n'), name, 0)
}

fn tag_has_name(line: &Vec<char>, needle: &Vec<char>, i: usize, Ghost(name): Ghost<Seq<char>>) -> (r:
    bool)
    requires
        starts_type(line@, i as int),
        needle@ == "Name=\""@ + name + "\""@,
    ensures
        r == exists|k: int| #[trigger] names_tag(line@, name, i as int, k),
{
    let n: usize = line.len();
    let ghost s = line@;
    let mut quote: Option<char> = None;
    let mut k: usize = i;
    while k < n
        invariant
            i <= k <= n == line@.len(),
            i + 5 < n,
            s == line@,
            needle@ == "Name=\""@ + name + "\""@,
            quote == open_quote(s, i as int, k as int),
            forall|j: int|
                i <= j < k && s[j] == '>' ==> #[trigger] open_quote(s, i as int, j) is Some,
            forall|j: int| j < k ==> !(#[trigger] names_tag(s, name, i as int, j)),
        decreases n - k,
    {
        let c = line[k];
        match quote {
            Some(q) => {
                if c == q {
                    quote = None;
                }
            },
            None => {
                if k > i + 5 && char_is_space(line[k - 1]) && holds_at(line, needle, k) {
                    assert(in_tag(s, i as int, k as int));
                    assert(names_tag(s, name, i as int, k as int));
                    return true;
                }
                if c == '>' {
                    assert forall|j: int| !(#[trigger] names_tag(s, name, i as int, j)) by {
                        if j > k {
                            assert(open_quote(s, i as int, k as int) is None);
                        }
                    }
                    return false;
                }
                if c == '"' || c == '\'' {
                    quote = Some(c);
                }
            },
        }
        assert(!names_tag(s, name, i as int, k as int));
        k = k + 1;
    }
    assert forall|j: int| !(#[trigger] names_tag(s, name, i as int, j)) by {
        reveal_strlit("Name=\"");
    }
    false
}

fn line_declares_type(line: &Vec<char>, needle: &Vec<char>, Ghost(name): Ghost<Seq<char>>) -> (r: bool)
    requires
        needle@ == "Name=\""@ + name + "\""@,
    ensures
        r == declares_type(line@, name),
{
    proof {
        reveal_strlit("<Type");
    }
    let element = chars("<Type");
    let n: usize = line.len();
    let ghost s = line@;
    let mut i: usize = 0;
    while i < n
        invariant
            i <= n == line@.len(),
            s == line@,
            element@ == "<Type"@,
            "<Type"@.len() == 5,
            needle@ == "Name=\""@ + name + "\""@,
            forall|a: int, k: int|
                0 <= a < i && starts_type(s, a) ==> !(#[trigger] names_tag(s, name, a, k)),
        decreases n - i,
    {
        if holds_at(line, &element, i) && n - i > 5 && char_is_space(line[i + 5]) {
            if tag_has_name(line, needle, i, Ghost(name)) {
                return true;
            }
        }
        i = i + 1;
    }
    false
}

/// The line of the project file that declares the type.
pub fn enum_type_decl_line(xml: &str, name: &str) -> (r: Option<u32>)
    ensures
        r == type_line(xml@, name@),
{
    let mut needle = "Name=\"".to_string();
    needle.append(name);
    needle.append("\"");
    let needle = chars(needle.as_str());
    let lines = split_on(xml, '\n');
    let ghost ls = lines.deep_view();
    let mut i: usize = 0;
    while i < lines.len()
        invariant
            i <= lines@.len(),
            ls == lines.deep_view(),
            ls == split(xml@, '\n'),
            needle@ == "Name=\""@ + name@ + "\""@,
            type_line(xml@, name@) == type_line_from(ls, name@, i as int),
        decreases lines@.len() - i,
    {
        assert(ls[i as int] == lines@[i as int]@);
        if line_declares_type(&chars(lines[i].as_str()), &needle, Ghost(name@)) {
            return Some(#[verifier::truncate] (i as u32));
        }
        i = i + 1;
    }
    None
}

/// The name of the enumeration that types the symbol.
pub open spec fn enum_name_of(project: ProjectView, sym: SymbolView) -> Option<Seq<char>> {
    match sym.value_type {
        ValueType::Enum(id) => match project.enum_type(id) {
            Some(e) => Some(e.name),
            None => None,
        },
        _ => None,
    }
}

fn enum_name<'a>(project: &'a Project, sym: &Symbol) -> (r: Option<&'a String>)
    ensures
        r.deep_view() == enum_name_of(project.deep_view(), sym.deep_view()),
{
    match sym.value_type {
        ValueType::Enum(id) => match project.enum_type(id) {
            Some(e) => Some(&e.name),
            None => None,
        },
        _ => None,
    }
}

/// The line of the project file, whose text is `xml`, that declares the enumeration of the
/// symbol at `byte`. `xml` is `None` where the file cannot be read.
pub fn goto_type_definition(
    tree: &SyntaxTree,
    byte: usize,
    loaded: &LoadedProject,
    scope: &Scope,
    xml: Option<&str>,
) -> (r: Option<Location>)
    ensures
        r.deep_view() == (match (symbol_under(tree@, scope.deep_view(), byte as int), xml) {
            (Some(sym), Some(x)) => match enum_name_of(loaded.deep_view().project, sym) {
                Some(name) => match type_line(x@, name) {
                    Some(line) => line_location(loaded.m1prj_path@, line),
                    None => None,
                },
                None => None,
            },
            _ => None,
        }),
{
    let sym = match symbol_at_byte(tree, scope, byte) {
        Some(s) => s,
        None => {
            return None;
        },
    };
    let xml = match xml {
        Some(x) => x,
        None => {
            return None;
        },
    };
    match enum_name(&loaded.project, sym) {
        Some(name) => match enum_type_decl_line(xml, name.as_str()) {
            Some(line) => location_at(loaded.m1prj_path.as_str(), line),
            None => None,
        },
        None => None,
    }
}

// ---------------------------------------------------------------------------
// Locals
// ---------------------------------------------------------------------------

/// The names, among the first `k` nodes, that declare a local of that name.
pub open spec fn decls_upto(t: Tree, name: Seq<char>, k: int) -> Seq<usize>
    decreases k,
{
    if k <= 0 {
        Seq::empty()
    } else {
        match declared_name(t, (k - 1) as usize) {
            Some(c) if t.text_of(c) == name => decls_upto(t, name, k - 1).push(c),
            _ => decls_upto(t, name, k - 1),
        }
    }
}

/// The last to start at or before byte `b`, among the first `k`.
pub open spec fn nearest_upto(t: Tree, ids: Seq<usize>, b: int, k: int) -> Option<usize>
    decreases k,
{
    if k <= 0 {
        None
    } else {
        let c = ids[k - 1];
        match nearest_upto(t, ids, b, k - 1) {
            Some(p) => if t.start(p) <= t.start(c) <= b {
                Some(c)
            } else {
                Some(p)
            },
            None => if t.start(c) <= b {
                Some(c)
            } else {
                None
            },
        }
    }
}

/// The first to start, among the first `k`.
pub open spec fn earliest_upto(t: Tree, ids: Seq<usize>, k: int) -> Option<usize>
    decreases k,
{
    if k <= 0 {
        None
    } else {
        let c = ids[k - 1];
        match earliest_upto(t, ids, k - 1) {
            Some(p) => if t.start(c) < t.start(p) {
                Some(c)
            } else {
                Some(p)
            },
            None => Some(c),
        }
    }
}

/// The declaration that a use of the local at byte `b` refers to: the nearest one at or
/// before it, or else the first.
pub open spec fn decl_for(t: Tree, name: Seq<char>, b: int) -> Option<usize> {
    let ids = decls_upto(t, name, t.size() as int);
    match nearest_upto(t, ids, b, ids.len() as int) {
        Some(c) => Some(c),
        None => earliest_upto(t, ids, ids.len() as int),
    }
}

fn decl_before(tree: &SyntaxTree, name: &str, byte: usize) -> (r: Option<usize>)
    ensures
        r == decl_for(tree@, name@, byte as int),
        r matches Some(c) ==> tree@.has(c),
{
    let size: usize = tree.len();
    let mut nearest: Option<usize> = None;
    let mut earliest: Option<usize> = None;
    let mut k: usize = 0;
    while k < size
        invariant
            k <= size == tree@.size(),
            ({
                let ids = decls_upto(tree@, name@, k as int);
                &&& nearest == nearest_upto(tree@, ids, byte as int, ids.len() as int)
                &&& earliest == earliest_upto(tree@, ids, ids.len() as int)
            }),
            nearest matches Some(c) ==> tree@.has(c),
            earliest matches Some(c) ==> tree@.has(c),
        decreases size - k,
    {
        match declaration_name(tree, k) {
            Some(c) => {
                if same(tree.text_of(c).as_str(), name) {
                    proof {
                        let ids = decls_upto(tree@, name@, k as int);
                        lemma_nearest_prefix(tree@, ids, c, byte as int, ids.len() as int);
                    }
                    let start: usize = tree.start(c);
                    let later = match nearest {
                        Some(p) => tree.start(p) <= start,
                        None => true,
                    };
                    if later && start <= byte {
                        nearest = Some(c);
                    }
                    let first = match earliest {
                        Some(p) => start < tree.start(p),
                        None => true,
                    };
                    if first {
                        earliest = Some(c);
                    }
                }
            },
            None => {},
        }
        k = k + 1;
    }
    match nearest {
        Some(c) => Some(c),
        None => earliest,
    }
}

proof fn lemma_nearest_prefix(t: Tree, ids: Seq<usize>, c: usize, b: int, k: int)
    requires
        0 <= k <= ids.len(),
    ensures
        nearest_upto(t, ids.push(c), b, k) == nearest_upto(t, ids, b, k),
        earliest_upto(t, ids.push(c), k) == earliest_upto(t, ids, k),
    decreases k,
{
    if k > 0 {
        lemma_nearest_prefix(t, ids, c, b, k - 1);
    }
}

/// The local declaration that the name at byte `b` refers to. A dotted path is no local.
pub open spec fn local_definition(t: Tree, b: int) -> Option<usize> {
    match path_node(t, b) {
        Some(n) if !t.text_of(n).contains('.') => decl_for(t, t.text_of(n), b),
        _ => None,
    }
}

/// The declaration, in the same document, of the local at `byte`.
pub fn goto_local(
    tree: &SyntaxTree,
    byte: usize,
    uri: &str,
    li: &LineIndex,
    enc: PositionEncoding,
) -> (r: Option<Location>)
    ensures
        r.deep_view() == (match local_definition(tree@, byte as int) {
            Some(c) => Some(location_of(uri@, tree@, c, li@, enc)),
            None => None,
        }),
{
    match path_at_byte(tree, byte) {
        Some((n, path)) => {
            if contains_char(&chars(path.as_str()), '.') {
                return None;
            }
            match decl_before(tree, path.as_str(), byte) {
                Some(c) => {
                    let d = tree.node(c);
                    Some(Location { uri: uri.to_owned(), range: range(d.start, d.end, li, enc) })
                },
                None => None,
            }
        },
        None => None,
    }
}

// ---------------------------------------------------------------------------
// Laws
// ---------------------------------------------------------------------------

proof fn lemma_nearest(t: Tree, ids: Seq<usize>, b: int, k: int)
    requires
        0 <= k <= ids.len(),
    ensures
        match nearest_upto(t, ids, b, k) {
            Some(c) => t.start(c) <= b && (exists|i: int| 0 <= i < k && ids[i] == c) && forall|i: int|
                0 <= i < k && t.start(#[trigger] ids[i]) <= b ==> t.start(ids[i]) <= t.start(c),
            None => forall|i: int| 0 <= i < k ==> b < t.start(#[trigger] ids[i]),
        },
        match earliest_upto(t, ids, k) {
            Some(c) => (exists|i: int| 0 <= i < k && ids[i] == c) && forall|i: int|
                0 <= i < k ==> t.start(c) <= t.start(#[trigger] ids[i]),
            None => k == 0,
        },
    decreases k,
{
    if k > 0 {
        lemma_nearest(t, ids, b, k - 1);
        assert(ids[k - 1] == ids[k - 1]);
    }
}

/// The declaration that a use of a local refers to: of those at or before it the last, and
/// of those behind it, where there is no other, the first.
pub proof fn nearest_declaration_wins(t: Tree, name: Seq<char>, b: int, i: int)
    requires
        0 <= i < decls_upto(t, name, t.size() as int).len(),
    ensures
        ({
            let other = decls_upto(t, name, t.size() as int)[i];
            match decl_for(t, name, b) {
                Some(c) => if t.start(other) <= b {
                    t.start(other) <= t.start(c) <= b
                } else {
                    t.start(c) <= b || t.start(c) <= t.start(other)
                },
                None => false,
            }
        }),
{
    let ids = decls_upto(t, name, t.size() as int);
    lemma_nearest(t, ids, b, ids.len() as int);
    assert(ids[i] == ids[i]);
}

} // verus!
