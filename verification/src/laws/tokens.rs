//! How a script is coloured.
use crate::laws::{lemma_either_holds, lemma_pushed_holds, lemma_taken_holds};
use crate::line_index::{lemma_line_end, line_end, PositionEncoding, range_of};
use crate::model::{OverloadView, ResolutionView, ScopeView, SymbolKind, SymbolView, ValueType};
use crate::semantic_tokens::{
    child_tokens, is_compound, leads, line_tokens, node_class, on_lines, own_tokens, path_class,
    piece_end, RawToken, TM_DEFINITION, TM_READONLY, tokens_of, TT_COMMENT, TT_FUNCTION,
    TT_KEYWORD, TT_NAMESPACE, TT_NUMBER, TT_PARAMETER, TT_PROPERTY, TT_STRING, TT_TYPE,
    TT_VARIABLE,
};
use crate::syntax::{Kind, Tree};
use crate::text::byte_at;
use vstd::prelude::*;
use vstd::string::*;

verus! {

/// The number of a token type in the legend.
pub proof fn token_types_have_numbers()
    ensures
        TT_VARIABLE == 0,
        TT_FUNCTION == 1,
        TT_KEYWORD == 2,
        TT_NUMBER == 3,
        TT_STRING == 4,
        TT_COMMENT == 5,
        TT_TYPE == 6,
        TT_PARAMETER == 7,
        TT_NAMESPACE == 8,
        TT_PROPERTY == 9,
        TM_DEFINITION == 1,
        TM_READONLY == 2,
{
}

/// A path has the colour of what it names: a local that of a variable, a parameter its own, a
/// constant that of a variable that is only read, a function or a method, of the project or of
/// the library, that of a function, a group or an object that of a namespace, and any other
/// symbol that of a property. A path that names nothing is a property behind a dot, and a
/// variable otherwise.
pub proof fn paths_have_the_colour_of_what_they_name(
    sym: SymbolView,
    ty: ValueType,
    name: Seq<char>,
    ovs: Seq<OverloadView>,
    member: bool,
)
    ensures
        path_class(ResolutionView::Local(ty), member) == (TT_VARIABLE, 0u32),
        sym.kind == SymbolKind::Parameter ==> path_class(ResolutionView::Symbol(sym), member) == (
            TT_PARAMETER,
            0u32,
        ),
        sym.kind == SymbolKind::Constant ==> path_class(ResolutionView::Symbol(sym), member) == (
            TT_VARIABLE,
            TM_READONLY,
        ),
        sym.kind == SymbolKind::Function || sym.kind == SymbolKind::Method ==> path_class(
            ResolutionView::Symbol(sym),
            member,
        ) == (TT_FUNCTION, 0u32),
        sym.kind == SymbolKind::Group || sym.kind == SymbolKind::Object ==> path_class(
            ResolutionView::Symbol(sym),
            member,
        ) == (TT_NAMESPACE, 0u32),
        sym.kind == SymbolKind::Channel || sym.kind == SymbolKind::Table || sym.kind
            == SymbolKind::Reference || sym.kind == SymbolKind::Other ==> path_class(
            ResolutionView::Symbol(sym),
            member,
        ) == (TT_PROPERTY, 0u32),
        path_class(ResolutionView::BuiltinObject(name), member) == (TT_NAMESPACE, 0u32),
        path_class(ResolutionView::BuiltinFn(ovs), member) == (TT_FUNCTION, 0u32),
        path_class(ResolutionView::Opaque, true) == (TT_PROPERTY, 0u32),
        path_class(ResolutionView::Unresolved, true) == (TT_PROPERTY, 0u32),
        path_class(ResolutionView::Opaque, false) == (TT_VARIABLE, 0u32),
        path_class(ResolutionView::Unresolved, false) == (TT_VARIABLE, 0u32),
{
}

/// The node is a word of the language.
pub open spec fn is_word(k: Kind) -> bool {
    k == Kind::If || k == Kind::Else || k == Kind::Local || k == Kind::Static || k == Kind::When || k
        == Kind::And || k == Kind::Or || k == Kind::Not || k == Kind::Expand || k == Kind::To || k
        == Kind::Is || k == Kind::True || k == Kind::False
}

/// A literal, a comment, a word of the language and a type have colours of their own.
pub proof fn words_and_literals_have_colours(t: Tree, scope: ScopeView, n: usize)
    ensures
        t.kind(n) == Kind::Number ==> node_class(t, scope, n) == Some((TT_NUMBER, 0u32)),
        t.kind(n) == Kind::String ==> node_class(t, scope, n) == Some((TT_STRING, 0u32)),
        t.kind(n) == Kind::LineComment ==> node_class(t, scope, n) == Some((TT_COMMENT, 0u32)),
        is_word(t.kind(n)) ==> node_class(t, scope, n) == Some((TT_KEYWORD, 0u32)),
        t.kind(n) == Kind::TypeAnnotation ==> node_class(t, scope, n) == Some((TT_TYPE, 0u32)),
{
}

/// What a call calls has the colour of a function, and the name in a declaration that of a
/// definition; any other path has the colour of what it names. The segments of a dotted path
/// have no colour of their own.
pub proof fn names_have_colours(t: Tree, scope: ScopeView, n: usize)
    ensures
        (t.kind(n) == Kind::MemberExpression || t.kind(n) == Kind::Identifier) && (t.kind(n)
            == Kind::Identifier ==> t.parent_kind(n) != Some(Kind::MemberExpression)) && leads(
            t,
            n,
            Kind::CallExpression,
        ) ==> node_class(t, scope, n) == Some((TT_FUNCTION, 0u32)),
        t.kind(n) == Kind::Identifier && leads(t, n, Kind::LocalDeclaration) ==> node_class(
            t,
            scope,
            n,
        ) == Some((TT_VARIABLE, TM_DEFINITION)),
        t.kind(n) == Kind::MemberExpression && !leads(t, n, Kind::CallExpression) ==> node_class(
            t,
            scope,
            n,
        ) == Some(path_class(scope.resolve(t.text_of(n)), true)),
        t.kind(n) == Kind::Identifier && t.parent_kind(n) != Some(Kind::MemberExpression) && !leads(
            t,
            n,
            Kind::CallExpression,
        ) && !leads(t, n, Kind::LocalDeclaration) ==> node_class(t, scope, n) == Some(
            path_class(scope.resolve(t.text_of(n)), false),
        ),
        t.kind(n) == Kind::Identifier && t.parent_kind(n) == Some(Kind::MemberExpression)
            ==> node_class(t, scope, n) is None,
{
}

/// A literal, a comment, a word of the language, a type and a path are tokens as a whole; any
/// other node has the tokens of what it holds.
pub proof fn other_nodes_pass_tokens_on(k: Kind)
    ensures
        is_compound(k) <==> k != Kind::Number && k != Kind::String && k != Kind::LineComment && k
            != Kind::BlockComment && !is_word(k) && k != Kind::TypeAnnotation && k
            != Kind::MemberExpression && k != Kind::Identifier,
{
}

/// A node leads its parent where it covers the first of the parent's named children.
pub proof fn first_children_lead(t: Tree, n: usize, p: usize, k: Kind)
    requires
        t.parent(n) == Some(p),
    ensures
        leads(t, n, k) <==> t.kind(p) == k && t.named_kids(p).len() > 0 && t.start(
            t.named_kids(p)[0],
        ) == t.start(n) && t.end(t.named_kids(p)[0]) == t.end(n),
{
}

/// Node `n` is met on the way down from the root: none of its ancestors is a token.
pub open spec fn is_met(t: Tree, n: usize) -> bool
    decreases n,
{
    n == 0 || match t.parent(n) {
        Some(p) => p < n && is_compound(t.kind(p)) && is_met(t, p),
        None => false,
    }
}

pub proof fn lemma_child_listed(t: Tree, p: usize, k: int, n: usize)
    requires
        n < k <= t.size() <= usize::MAX,
        t.parent(n) == Some(p),
    ensures
        t.kids_upto(p, k).contains(n),
    decreases k,
{
    let all = t.kids_upto(p, k);
    let rest = t.kids_upto(p, k - 1);
    if n == k - 1 {
        assert(all[rest.len() as int] == n);
    } else {
        lemma_child_listed(t, p, k - 1, n);
        if t.nodes[k - 1].parent == Some(p) {
            lemma_pushed_holds(rest, (k - 1) as usize, n);
        }
    }
}

proof fn lemma_child_tokens(
    t: Tree,
    scope: ScopeView,
    p: usize,
    s: Seq<char>,
    enc: PositionEncoding,
    k: int,
    j: int,
    x: RawToken,
)
    requires
        0 <= j < k <= t.kids(p).len(),
        p < t.kids(p)[j],
        t.has(t.kids(p)[j]),
        tokens_of(t, scope, t.kids(p)[j], s, enc).contains(x),
    ensures
        child_tokens(t, scope, p, s, enc, k).contains(x),
    decreases k,
{
    let rest = child_tokens(t, scope, p, s, enc, k - 1);
    let c = t.kids(p)[k - 1];
    let here = if p < c && t.has(c) {
        if is_compound(t.kind(c)) {
            child_tokens(t, scope, c, s, enc, t.kids(c).len() as int)
        } else {
            own_tokens(t, scope, c, s, enc)
        }
    } else {
        Seq::empty()
    };
    assert(child_tokens(t, scope, p, s, enc, k) == rest + here);
    lemma_either_holds(rest, here, x);
    if j < k - 1 {
        lemma_child_tokens(t, scope, p, s, enc, k - 1, j, x);
    }
}

/// Every node that is met and has a colour is a token of the script.
pub proof fn every_word_is_coloured(
    t: Tree,
    scope: ScopeView,
    n: usize,
    s: Seq<char>,
    enc: PositionEncoding,
    x: RawToken,
)
    requires
        t.size() <= usize::MAX,
        t.has(n),
        is_met(t, n),
        tokens_of(t, scope, n, s, enc).contains(x),
    ensures
        tokens_of(t, scope, 0, s, enc).contains(x),
    decreases n,
{
    if n > 0 {
        let p = t.parent(n).unwrap();
        lemma_child_listed(t, p, t.size() as int, n);
        let j = choose|j: int| 0 <= j < t.kids(p).len() && t.kids(p)[j] == n;
        lemma_child_tokens(t, scope, p, s, enc, t.kids(p).len() as int, j, x);
        every_word_is_coloured(t, scope, p, s, enc, x);
    }
}

/// The token of a node covers it, if it stands on one line; a node over several lines that is
/// no block comment has none.
pub proof fn tokens_cover_their_node(
    t: Tree,
    scope: ScopeView,
    n: usize,
    s: Seq<char>,
    enc: PositionEncoding,
    class: (u32, u32),
)
    requires
        t.kind(n) != Kind::BlockComment,
        node_class(t, scope, n) == Some(class),
    ensures
        ({
            let r = range_of(s, t.start(n), t.end(n), enc);
            &&& r.start.line == r.end.line && r.start.character <= r.end.character ==> tokens_of(
                t,
                scope,
                n,
                s,
                enc,
            ) == seq![
                RawToken {
                    line: r.start.line,
                    start: r.start.character,
                    length: (r.end.character - r.start.character) as u32,
                    token_type: class.0,
                    token_modifiers: class.1,
                },
            ]
            &&& r.start.line != r.end.line ==> tokens_of(t, scope, n, s, enc).len() == 0
        }),
{
}

/// A request for some lines is answered with exactly the tokens on them.
pub proof fn lines_have_their_tokens(s: Seq<RawToken>, a: u32, b: u32, k: int, x: RawToken)
    requires
        0 <= k <= s.len(),
    ensures
        on_lines(s, a, b, k).contains(x) <==> s.take(k).contains(x) && a <= x.line <= b,
    decreases k,
{
    if k > 0 {
        lines_have_their_tokens(s, a, b, k - 1, x);
        lemma_taken_holds(s, k, x);
        lemma_pushed_holds(on_lines(s, a, b, k - 1), s[k - 1], x);
    } else {
        assert(on_lines(s, a, b, k) =~= Seq::empty());
    }
}

/// A block comment is coloured line by line: all of it that stands on its first line is one
/// token, and so is what follows, from the next line on.
pub proof fn comments_are_coloured_by_lines(
    text: Seq<char>,
    i: int,
    e: int,
    s: Seq<char>,
    enc: PositionEncoding,
    z: int,
)
    requires
        0 <= i < e <= text.len(),
        i <= z <= e,
        z == e || text[z] == '\n',
        forall|j: int| i <= j < z ==> text[j] != '\n',
        ({
            let r = range_of(s, byte_at(text, i) as int, byte_at(text, z) as int, enc);
            r.start.character < r.end.character
        }),
    ensures
        ({
            let r = range_of(s, byte_at(text, i) as int, byte_at(text, z) as int, enc);
            line_tokens(text, i, e, s, enc) == seq![
                RawToken {
                    line: r.start.line,
                    start: r.start.character,
                    length: (r.end.character - r.start.character) as u32,
                    token_type: TT_COMMENT,
                    token_modifiers: 0,
                },
            ] + line_tokens(text, z + 1, e, s, enc)
        }),
{
    lemma_line_end(text, i);
    let w = line_end(text, i);
    if w < z {
        assert(text[w] != '\n');
    }
    if w > z && z < e {
        assert(text[z] != '\n');
    }
    assert(piece_end(text, i, e) == z);
}

} // verus!
