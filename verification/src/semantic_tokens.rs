//! Semantic tokens: what each token of a script is, for colouring.
use crate::line_index::{lemma_line_end, line_end, LineIndex, PositionEncoding, range, range_of};
use crate::list::{fresh, put};
use crate::model::{Resolution, ResolutionView, Scope, ScopeView, SymbolKind};
use crate::syntax::{Kind, SyntaxTree, Tree};
use crate::text::{byte_at, bytes_before, char_at, lemma_byte_at_monotone};
use vstd::prelude::*;

verus! {

// ---------------------------------------------------------------------------
// Legend
// ---------------------------------------------------------------------------

pub const TT_VARIABLE: u32 = 0;

pub const TT_FUNCTION: u32 = 1;

pub const TT_KEYWORD: u32 = 2;

pub const TT_NUMBER: u32 = 3;

pub const TT_STRING: u32 = 4;

pub const TT_COMMENT: u32 = 5;

pub const TT_TYPE: u32 = 6;

pub const TT_PARAMETER: u32 = 7;

pub const TT_NAMESPACE: u32 = 8;

pub const TT_PROPERTY: u32 = 9;

/// The bit of a definition.
pub const TM_DEFINITION: u32 = 1;

/// The bit of a value that cannot change.
pub const TM_READONLY: u32 = 2;

/// The names of the token types and of the modifiers. A token type is an index into the
/// first, bit `i` of a token's modifiers stands for entry `i` of the second.
#[derive(Debug)]
pub struct SemanticTokensLegend {
    pub token_types: Vec<String>,
    pub token_modifiers: Vec<String>,
}

/// The legend that tokens refer to.
pub fn legend() -> (r: SemanticTokensLegend)
    ensures
        ({
            let types = r.token_types.deep_view();
            &&& types.len() == 10
            &&& types[TT_VARIABLE as int] == "variable"@
            &&& types[TT_FUNCTION as int] == "function"@
            &&& types[TT_KEYWORD as int] == "keyword"@
            &&& types[TT_NUMBER as int] == "number"@
            &&& types[TT_STRING as int] == "string"@
            &&& types[TT_COMMENT as int] == "comment"@
            &&& types[TT_TYPE as int] == "type"@
            &&& types[TT_PARAMETER as int] == "parameter"@
            &&& types[TT_NAMESPACE as int] == "namespace"@
            &&& types[TT_PROPERTY as int] == "property"@
        }),
        r.token_modifiers.deep_view() == seq!["definition"@, "readonly"@],
{
    let mut types: Vec<String> = fresh();
    put(&mut types, "variable".to_string());
    put(&mut types, "function".to_string());
    put(&mut types, "keyword".to_string());
    put(&mut types, "number".to_string());
    put(&mut types, "string".to_string());
    put(&mut types, "comment".to_string());
    put(&mut types, "type".to_string());
    put(&mut types, "parameter".to_string());
    put(&mut types, "namespace".to_string());
    put(&mut types, "property".to_string());
    let mut modifiers: Vec<String> = fresh();
    put(&mut modifiers, "definition".to_string());
    put(&mut modifiers, "readonly".to_string());
    assert(modifiers.deep_view() =~= seq!["definition"@, "readonly"@]);
    SemanticTokensLegend { token_types: types, token_modifiers: modifiers }
}

// ---------------------------------------------------------------------------
// Tokens
// ---------------------------------------------------------------------------

/// A token at its own place.
#[derive(Clone, Copy, Debug, PartialEq, Eq, Structural)]
pub struct RawToken {
    pub line: u32,
    pub start: u32,
    pub length: u32,
    pub token_type: u32,
    pub token_modifiers: u32,
}

/// A token at a place relative to the token before it.
#[derive(Clone, Copy, Debug, PartialEq, Eq, Structural)]
pub struct SemanticToken {
    pub delta_line: u32,
    pub delta_start: u32,
    pub length: u32,
    pub token_type: u32,
    pub token_modifiers_bitset: u32,
}

/// What a path is: its token type and modifiers. A member that names nothing is still a
/// property.
pub open spec fn path_class(r: ResolutionView, is_member: bool) -> (u32, u32) {
    match r {
        ResolutionView::Local(_) => (TT_VARIABLE, 0),
        ResolutionView::Symbol(sym) => match sym.kind {
            SymbolKind::Parameter => (TT_PARAMETER, 0),
            SymbolKind::Constant => (TT_VARIABLE, TM_READONLY),
            SymbolKind::Function | SymbolKind::Method => (TT_FUNCTION, 0),
            SymbolKind::Group | SymbolKind::Object => (TT_NAMESPACE, 0),
            SymbolKind::Channel
            | SymbolKind::Table
            | SymbolKind::Reference
            | SymbolKind::Other => (TT_PROPERTY, 0),
        },
        ResolutionView::BuiltinObject(_) => (TT_NAMESPACE, 0),
        ResolutionView::BuiltinFn(_) => (TT_FUNCTION, 0),
        ResolutionView::Opaque | ResolutionView::Unresolved => if is_member {
            (TT_PROPERTY, 0)
        } else {
            (TT_VARIABLE, 0)
        },
    }
}

fn classify_path(path: &str, scope: &Scope, is_member: bool) -> (r: (u32, u32))
    ensures
        r == path_class(scope.deep_view().resolve(path@), is_member),
{
    match scope.resolve(path) {
        Some(Resolution::Local(_)) => (TT_VARIABLE, 0),
        Some(Resolution::Symbol(sym)) => match sym.kind {
            SymbolKind::Parameter => (TT_PARAMETER, 0),
            SymbolKind::Constant => (TT_VARIABLE, TM_READONLY),
            SymbolKind::Function | SymbolKind::Method => (TT_FUNCTION, 0),
            SymbolKind::Group | SymbolKind::Object => (TT_NAMESPACE, 0),
            SymbolKind::Channel
            | SymbolKind::Table
            | SymbolKind::Reference
            | SymbolKind::Other => (TT_PROPERTY, 0),
        },
        Some(Resolution::BuiltinObject(_)) => (TT_NAMESPACE, 0),
        Some(Resolution::BuiltinFn(_)) => (TT_FUNCTION, 0),
        Some(Resolution::Opaque) | Some(Resolution::Unresolved) | None => if is_member {
            (TT_PROPERTY, 0)
        } else {
            (TT_VARIABLE, 0)
        },
    }
}

/// `n` covers the bytes of the first named child of its parent, which is of kind `k`.
pub open spec fn leads(t: Tree, n: usize, k: Kind) -> bool {
    match t.parent(n) {
        Some(p) => t.kind(p) == k && t.named_kids(p).len() > 0 && t.same_span(t.named_kids(p)[0], n),
        None => false,
    }
}

fn is_first_named_child(tree: &SyntaxTree, n: usize, k: Kind) -> (r: bool)
    requires
        tree@.has(n),
    ensures
        r == leads(tree@, n, k),
{
    match tree.parent(n) {
        Some(p) => {
            if tree.kind(p) != k {
                return false;
            }
            let ks = tree.named_children(p);
            ks.len() > 0 && tree.same_span(ks[0], n)
        },
        None => false,
    }
}

/// The token type and modifiers of a node that is a token as a whole.
pub open spec fn node_class(t: Tree, scope: ScopeView, n: usize) -> Option<(u32, u32)> {
    match t.kind(n) {
        Kind::Number => Some((TT_NUMBER, 0)),
        Kind::String => Some((TT_STRING, 0)),
        Kind::LineComment => Some((TT_COMMENT, 0)),
        Kind::If
        | Kind::Else
        | Kind::Local
        | Kind::Static
        | Kind::When
        | Kind::And
        | Kind::Or
        | Kind::Not
        | Kind::Expand
        | Kind::To
        | Kind::Is
        | Kind::True
        | Kind::False => Some((TT_KEYWORD, 0)),
        Kind::TypeAnnotation => Some((TT_TYPE, 0)),
        Kind::MemberExpression => Some(
            if leads(t, n, Kind::CallExpression) {
                (TT_FUNCTION, 0)
            } else {
                path_class(scope.resolve(t.text_of(n)), true)
            },
        ),
        Kind::Identifier => if t.parent_kind(n) == Some(Kind::MemberExpression) {
            None
        } else if leads(t, n, Kind::CallExpression) {
            Some((TT_FUNCTION, 0))
        } else if leads(t, n, Kind::LocalDeclaration) {
            Some((TT_VARIABLE, TM_DEFINITION))
        } else {
            Some(path_class(scope.resolve(t.text_of(n)), false))
        },
        _ => None,
    }
}

/// The node is no token: its tokens are those of its children.
pub open spec fn is_compound(k: Kind) -> bool {
    match k {
        Kind::Number
        | Kind::String
        | Kind::LineComment
        | Kind::BlockComment
        | Kind::If
        | Kind::Else
        | Kind::Local
        | Kind::Static
        | Kind::When
        | Kind::And
        | Kind::Or
        | Kind::Not
        | Kind::Expand
        | Kind::To
        | Kind::Is
        | Kind::True
        | Kind::False
        | Kind::TypeAnnotation
        | Kind::MemberExpression
        | Kind::Identifier => false,
        _ => true,
    }
}

fn classify(tree: &SyntaxTree, scope: &Scope, n: usize) -> (r: Option<(u32, u32)>)
    requires
        tree@.has(n),
    ensures
        r == node_class(tree@, scope.deep_view(), n),
{
    match tree.kind(n) {
        Kind::Number => Some((TT_NUMBER, 0)),
        Kind::String => Some((TT_STRING, 0)),
        Kind::LineComment => Some((TT_COMMENT, 0)),
        Kind::If
        | Kind::Else
        | Kind::Local
        | Kind::Static
        | Kind::When
        | Kind::And
        | Kind::Or
        | Kind::Not
        | Kind::Expand
        | Kind::To
        | Kind::Is
        | Kind::True
        | Kind::False => Some((TT_KEYWORD, 0)),
        Kind::TypeAnnotation => Some((TT_TYPE, 0)),
        Kind::MemberExpression => {
            if is_first_named_child(tree, n, Kind::CallExpression) {
                Some((TT_FUNCTION, 0))
            } else {
                Some(classify_path(tree.text_of(n).as_str(), scope, true))
            }
        },
        Kind::Identifier => {
            let in_member = match tree.parent(n) {
                Some(p) => tree.kind(p) == Kind::MemberExpression,
                None => false,
            };
            if in_member {
                None
            } else if is_first_named_child(tree, n, Kind::CallExpression) {
                Some((TT_FUNCTION, 0))
            } else if is_first_named_child(tree, n, Kind::LocalDeclaration) {
                Some((TT_VARIABLE, TM_DEFINITION))
            } else {
                Some(classify_path(tree.text_of(n).as_str(), scope, false))
            }
        },
        _ => None,
    }
}

/// What lies between two columns.
pub open spec fn length_between(a: u32, b: u32) -> u32 {
    if a <= b {
        (b - a) as u32
    } else {
        0
    }
}

/// The token between two byte offsets, unless it crosses a line.
pub open spec fn token_between(
    a: int,
    b: int,
    class: (u32, u32),
    s: Seq<char>,
    enc: PositionEncoding,
) -> Seq<RawToken> {
    let r = range_of(s, a, b, enc);
    if r.start.line == r.end.line {
        seq![
            RawToken {
                line: r.start.line,
                start: r.start.character,
                length: length_between(r.start.character, r.end.character),
                token_type: class.0,
                token_modifiers: class.1,
            },
        ]
    } else {
        Seq::empty()
    }
}

/// The end of the line of index `i`, but not beyond `e`.
pub open spec fn piece_end(s: Seq<char>, i: int, e: int) -> int {
    if line_end(s, i) < e {
        line_end(s, i)
    } else {
        e
    }
}

/// The comment tokens of the characters of `text` from index `i` up to `e`, one for each
/// line that is not empty.
pub open spec fn line_tokens(
    text: Seq<char>,
    i: int,
    e: int,
    s: Seq<char>,
    enc: PositionEncoding,
) -> Seq<RawToken>
    decreases e - i + 1,
{
    if i < 0 || i >= e || e > text.len() {
        Seq::empty()
    } else {
        let z = piece_end(text, i, e);
        let r = range_of(s, byte_at(text, i) as int, byte_at(text, z) as int, enc);
        let length = length_between(r.start.character, r.end.character);
        let here = if length > 0 {
            seq![
                RawToken {
                    line: r.start.line,
                    start: r.start.character,
                    length,
                    token_type: TT_COMMENT,
                    token_modifiers: 0,
                },
            ]
        } else {
            Seq::empty()
        };
        if i <= z {
            here + line_tokens(text, z + 1, e, s, enc)
        } else {
            here
        }
    }
}

/// The tokens of node `n` itself.
pub open spec fn own_tokens(
    t: Tree,
    scope: ScopeView,
    n: usize,
    s: Seq<char>,
    enc: PositionEncoding,
) -> Seq<RawToken> {
    if t.kind(n) == Kind::BlockComment {
        line_tokens(t.text, char_at(t.text, t.start(n)), char_at(t.text, t.end(n)), s, enc)
    } else {
        match node_class(t, scope, n) {
            Some(class) => token_between(t.start(n), t.end(n), class, s, enc),
            None => Seq::empty(),
        }
    }
}

/// The tokens of the first `k` children of `n`.
pub open spec fn child_tokens(
    t: Tree,
    scope: ScopeView,
    n: usize,
    s: Seq<char>,
    enc: PositionEncoding,
    k: int,
) -> Seq<RawToken>
    decreases t.size() - n, k,
{
    if k <= 0 || k > t.kids(n).len() {
        Seq::empty()
    } else {
        let c = t.kids(n)[k - 1];
        child_tokens(t, scope, n, s, enc, k - 1) + if n < c && t.has(c) {
            if is_compound(t.kind(c)) {
                child_tokens(t, scope, c, s, enc, t.kids(c).len() as int)
            } else {
                own_tokens(t, scope, c, s, enc)
            }
        } else {
            Seq::empty()
        }
    }
}

/// The tokens of node `n`, in the order in which they are met.
pub open spec fn tokens_of(
    t: Tree,
    scope: ScopeView,
    n: usize,
    s: Seq<char>,
    enc: PositionEncoding,
) -> Seq<RawToken> {
    if is_compound(t.kind(n)) {
        child_tokens(t, scope, n, s, enc, t.kids(n).len() as int)
    } else {
        own_tokens(t, scope, n, s, enc)
    }
}

fn compound(k: Kind) -> (r: bool)
    ensures
        r == is_compound(k),
{
    match k {
        Kind::Number
        | Kind::String
        | Kind::LineComment
        | Kind::BlockComment
        | Kind::If
        | Kind::Else
        | Kind::Local
        | Kind::Static
        | Kind::When
        | Kind::And
        | Kind::Or
        | Kind::Not
        | Kind::Expand
        | Kind::To
        | Kind::Is
        | Kind::True
        | Kind::False
        | Kind::TypeAnnotation
        | Kind::MemberExpression
        | Kind::Identifier => false,
        _ => true,
    }
}

fn push_singleline(
    tree: &SyntaxTree,
    n: usize,
    class: (u32, u32),
    li: &LineIndex,
    enc: PositionEncoding,
    out: &mut Vec<RawToken>,
)
    requires
        tree@.has(n),
    ensures
        final(out)@ == old(out)@ + token_between(tree@.start(n), tree@.end(n), class, li@, enc),
{
    let d = tree.node(n);
    let r = range(d.start, d.end, li, enc);
    if r.start.line == r.end.line {
        let length: u32 = if r.start.character <= r.end.character {
            r.end.character - r.start.character
        } else {
            0
        };
        let ghost before = out@;
        let token = RawToken {
            line: r.start.line,
            start: r.start.character,
            length,
            token_type: class.0,
            token_modifiers: class.1,
        };
        out.push(token);
        assert(out@ =~= before + seq![token]);
    } else {
        assert(out@ =~= out@ + Seq::<RawToken>::empty());
    }
}

fn push_multiline(
    tree: &SyntaxTree,
    n: usize,
    li: &LineIndex,
    enc: PositionEncoding,
    out: &mut Vec<RawToken>,
)
    requires
        tree@.has(n),
    ensures
        final(out)@ == old(out)@ + line_tokens(
            tree@.text,
            char_at(tree@.text, tree@.start(n)),
            char_at(tree@.text, tree@.end(n)),
            li@,
            enc,
        ),
{
    let ghost first = out@;
    let text = tree.characters();
    let (a, e) = tree.char_span(n);
    let mut i: usize = a;
    let ghost all = line_tokens(text@, a as int, e as int, li@, enc);
    assert(first + all == out@ + line_tokens(text@, i as int, e as int, li@, enc));
    while i < e
        invariant
            a <= i,
            a <= e <= text@.len(),
            text@.len() == text.len(),
            first == old(out)@,
            text@ == tree@.text,
            a == char_at(tree@.text, tree@.start(n)),
            e == char_at(tree@.text, tree@.end(n)),
            all == line_tokens(text@, a as int, e as int, li@, enc),
            byte_at(text@, e as int) <= usize::MAX,
            out@ + line_tokens(text@, i as int, e as int, li@, enc) == first + all,
        decreases e - i,
    {
        let mut z: usize = i;
        while z < e && text[z] != '\n'
            invariant
                i <= z <= e <= text@.len(),
                line_end(text@, i as int) == line_end(text@, z as int),
            decreases e - z,
        {
            z = z + 1;
        }
        proof {
            lemma_line_end(text@, z as int);
            lemma_byte_at_monotone(text@, i as int, e as int);
            lemma_byte_at_monotone(text@, z as int, e as int);
        }
        assert(z == piece_end(text@, i as int, e as int));
        let r = range(bytes_before(text, i), bytes_before(text, z), li, enc);
        let ghost before = out@;
        let ghost rest = line_tokens(text@, z + 1, e as int, li@, enc);
        if r.start.character < r.end.character {
            let token = RawToken {
                line: r.start.line,
                start: r.start.character,
                length: r.end.character - r.start.character,
                token_type: TT_COMMENT,
                token_modifiers: 0,
            };
            out.push(token);
            assert(line_tokens(text@, i as int, e as int, li@, enc) == seq![token] + rest);
            assert(out@ + rest =~= before + (seq![token] + rest));
        } else {
            assert(line_tokens(text@, i as int, e as int, li@, enc) == Seq::<RawToken>::empty()
                + rest);
            assert(Seq::<RawToken>::empty() + rest =~= rest);
        }
        if z == e {
            assert(rest =~= Seq::empty());
            assert(out@ + rest =~= out@);
            assert(out@ == first + all);
            return;
        }
        i = z + 1;
    }
    assert(out@ + Seq::<RawToken>::empty() =~= out@);
}

fn walk(
    tree: &SyntaxTree,
    n: usize,
    scope: &Scope,
    li: &LineIndex,
    enc: PositionEncoding,
    out: &mut Vec<RawToken>,
)
    requires
        tree@.has(n),
    ensures
        final(out)@ == old(out)@ + tokens_of(tree@, scope.deep_view(), n, li@, enc),
    decreases tree@.size() - n,
{
    let kind = tree.kind(n);
    if kind == Kind::BlockComment {
        push_multiline(tree, n, li, enc, out);
    } else if !compound(kind) {
        match classify(tree, scope, n) {
            Some(class) => push_singleline(tree, n, class, li, enc, out),
            None => {
                assert(out@ =~= out@ + Seq::<RawToken>::empty());
            },
        }
    } else {
        let ghost first = out@;
        let ks = tree.children(n);
        let mut k: usize = 0;
        assert(out@ =~= first + child_tokens(tree@, scope.deep_view(), n, li@, enc, 0));
        while k < ks.len()
            invariant
                k <= ks@.len(),
                ks@ == tree@.kids(n),
                forall|i: int| 0 <= i < ks@.len() ==> n < #[trigger] ks@[i] && tree@.has(ks@[i]),
                out@ == first + child_tokens(tree@, scope.deep_view(), n, li@, enc, k as int),
            decreases ks@.len() - k,
        {
            let c: usize = ks[k];
            walk(tree, c, scope, li, enc, out);
            assert(out@ =~= first + child_tokens(tree@, scope.deep_view(), n, li@, enc, k + 1));
            k = k + 1;
        }
    }
}

// ---------------------------------------------------------------------------
// Order
// ---------------------------------------------------------------------------

/// `a` stands at or before `b`.
pub open spec fn not_after(a: RawToken, b: RawToken) -> bool {
    a.line < b.line || (a.line == b.line && a.start <= b.start)
}

/// `s` with `x` put behind every token that does not stand after it.
pub open spec fn insert_token(s: Seq<RawToken>, x: RawToken) -> Seq<RawToken>
    decreases s.len(),
{
    if s.len() == 0 || not_after(s.last(), x) {
        s.push(x)
    } else {
        insert_token(s.drop_last(), x).push(s.last())
    }
}

/// The first `k` tokens in order of place; tokens at one place keep their order.
pub open spec fn sorted_upto(s: Seq<RawToken>, k: int) -> Seq<RawToken>
    decreases k,
{
    if k <= 0 {
        Seq::empty()
    } else {
        insert_token(sorted_upto(s, k - 1), s[k - 1])
    }
}

pub open spec fn in_order(s: Seq<RawToken>) -> bool {
    forall|i: int, j: int| 0 <= i <= j < s.len() ==> not_after(s[i], s[j])
}

proof fn lemma_insert_at(s: Seq<RawToken>, x: RawToken, j: int)
    requires
        0 <= j <= s.len(),
        forall|i: int| j <= i < s.len() ==> !not_after(s[i], x),
        j > 0 ==> not_after(s[j - 1], x),
    ensures
        insert_token(s, x) == s.insert(j, x),
    decreases s.len(),
{
    if j == s.len() {
        assert(s.insert(j, x) =~= s.push(x));
    } else {
        lemma_insert_at(s.drop_last(), x, j);
        assert(s.insert(j, x) =~= s.drop_last().insert(j, x).push(s.last()));
    }
}

proof fn lemma_insert_keeps_order(s: Seq<RawToken>, x: RawToken, j: int)
    requires
        in_order(s),
        0 <= j <= s.len(),
        forall|i: int| j <= i < s.len() ==> !not_after(s[i], x),
        j > 0 ==> not_after(s[j - 1], x),
    ensures
        in_order(s.insert(j, x)),
{
    let r = s.insert(j, x);
    assert forall|a: int, b: int| 0 <= a <= b < r.len() implies not_after(r[a], r[b]) by {
        let a1 = if a < j {
            a
        } else {
            a - 1
        };
        let b1 = if b < j {
            b
        } else {
            b - 1
        };
        if a != j && b != j {
            assert(not_after(s[a1], s[b1]));
        } else if b == j && a < j {
            assert(not_after(s[a], s[j - 1]));
        } else if a == j && b > j {
            assert(!not_after(s[b1], x));
        }
    }
}

fn sort_tokens(raw: &Vec<RawToken>) -> (r: Vec<RawToken>)
    ensures
        r@ == sorted_upto(raw@, raw@.len() as int),
        in_order(r@),
{
    let mut r: Vec<RawToken> = Vec::new();
    let mut k: usize = 0;
    while k < raw.len()
        invariant
            k <= raw@.len(),
            r@ == sorted_upto(raw@, k as int),
            in_order(r@),
        decreases raw@.len() - k,
    {
        let x = raw[k];
        let mut j: usize = r.len();
        while j > 0 && (r[j - 1].line > x.line || (r[j - 1].line == x.line && r[j - 1].start
            > x.start))
            invariant
                j <= r@.len(),
                forall|i: int| j <= i < r@.len() ==> !not_after(r@[i], x),
            decreases j,
        {
            j = j - 1;
        }
        proof {
            lemma_insert_at(r@, x, j as int);
            lemma_insert_keeps_order(r@, x, j as int);
        }
        r.insert(j, x);
        k = k + 1;
    }
    r
}

// ---------------------------------------------------------------------------
// Delta encoding
// ---------------------------------------------------------------------------

/// The token `x` relative to a place.
pub open spec fn relative(x: RawToken, line: u32, start: u32) -> SemanticToken {
    SemanticToken {
        delta_line: (x.line - line) as u32,
        delta_start: if x.line == line {
            (x.start - start) as u32
        } else {
            x.start
        },
        length: x.length,
        token_type: x.token_type,
        token_modifiers_bitset: x.token_modifiers,
    }
}

/// Each token relative to the one before it, the first one to the start of the document.
pub open spec fn deltas(s: Seq<RawToken>) -> Seq<SemanticToken> {
    Seq::new(
        s.len(),
        |i: int|
            if i == 0 {
                relative(s[0], 0, 0)
            } else {
                relative(s[i], s[i - 1].line, s[i - 1].start)
            },
    )
}

fn delta_encode(raw: &Vec<RawToken>) -> (r: Vec<SemanticToken>)
    requires
        in_order(raw@),
    ensures
        r@ == deltas(raw@),
{
    let mut r: Vec<SemanticToken> = Vec::new();
    let mut line: u32 = 0;
    let mut start: u32 = 0;
    let mut k: usize = 0;
    while k < raw.len()
        invariant
            k <= raw@.len(),
            in_order(raw@),
            k == 0 ==> line == 0 && start == 0,
            k > 0 ==> line == raw@[k - 1].line && start == raw@[k - 1].start,
            r@ == deltas(raw@).take(k as int),
        decreases raw@.len() - k,
    {
        let x = raw[k];
        assert(k > 0 ==> not_after(raw@[k - 1], raw@[k as int]));
        let delta_line: u32 = x.line - line;
        let delta_start: u32 = if delta_line == 0 {
            x.start - start
        } else {
            x.start
        };
        r.push(
            SemanticToken {
                delta_line,
                delta_start,
                length: x.length,
                token_type: x.token_type,
                token_modifiers_bitset: x.token_modifiers,
            },
        );
        assert(r@ =~= deltas(raw@).take(k + 1));
        line = x.line;
        start = x.start;
        k = k + 1;
    }
    assert(deltas(raw@).take(k as int) =~= deltas(raw@));
    r
}

/// The tokens of a script in order.
pub open spec fn ordered_tokens(
    t: Tree,
    scope: ScopeView,
    s: Seq<char>,
    enc: PositionEncoding,
) -> Seq<RawToken> {
    let raw = tokens_of(t, scope, 0, s, enc);
    sorted_upto(raw, raw.len() as int)
}

fn raw_tokens(tree: &SyntaxTree, scope: &Scope, li: &LineIndex, enc: PositionEncoding) -> (r: Vec<
    RawToken,
>)
    ensures
        r@ == ordered_tokens(tree@, scope.deep_view(), li@, enc),
        in_order(r@),
{
    let size: usize = tree.len();
    let mut raw: Vec<RawToken> = Vec::new();
    walk(tree, 0, scope, li, enc, &mut raw);
    assert(raw@ =~= tokens_of(tree@, scope.deep_view(), 0, li@, enc));
    sort_tokens(&raw)
}

/// The tokens of a script, in order, each relative to the one before it.
pub fn semantic_tokens(
    tree: &SyntaxTree,
    scope: &Scope,
    li: &LineIndex,
    enc: PositionEncoding,
) -> (r: Vec<SemanticToken>)
    ensures
        r@ == deltas(ordered_tokens(tree@, scope.deep_view(), li@, enc)),
{
    delta_encode(&raw_tokens(tree, scope, li, enc))
}

/// The tokens, among the first `k`, on lines from `a` to `b`.
pub open spec fn on_lines(s: Seq<RawToken>, a: u32, b: u32, k: int) -> Seq<RawToken>
    decreases k,
{
    if k <= 0 {
        Seq::empty()
    } else if a <= s[k - 1].line <= b {
        on_lines(s, a, b, k - 1).push(s[k - 1])
    } else {
        on_lines(s, a, b, k - 1)
    }
}

proof fn lemma_on_lines(s: Seq<RawToken>, a: u32, b: u32, k: int)
    requires
        0 <= k <= s.len(),
        in_order(s),
    ensures
        in_order(on_lines(s, a, b, k)),
        forall|i: int|
            0 <= i < on_lines(s, a, b, k).len() ==> exists|j: int|
                0 <= j < k && (#[trigger] on_lines(s, a, b, k)[i]) == s[j],
    decreases k,
{
    if k > 0 {
        lemma_on_lines(s, a, b, k - 1);
        let p = on_lines(s, a, b, k - 1);
        let q = on_lines(s, a, b, k);
        assert forall|i: int| 0 <= i < q.len() implies exists|j: int|
            0 <= j < k && (#[trigger] q[i]) == s[j] by {
            if i < p.len() {
                let j = choose|j: int| 0 <= j < k - 1 && p[i] == s[j];
                assert(q[i] == s[j]);
            } else {
                assert(q[i] == s[k - 1]);
            }
        }
        assert forall|i: int, j: int| 0 <= i <= j < q.len() implies not_after(q[i], q[j]) by {
            if j < p.len() {
                assert(not_after(p[i], p[j]));
            } else {
                let m = choose|m: int| 0 <= m < k && q[i] == s[m];
                assert(not_after(s[m], s[k - 1]));
            }
        }
    }
}

/// The tokens of a script on lines from `start_line` to `end_line`, in order, each relative
/// to the one before it.
pub fn semantic_tokens_range(
    tree: &SyntaxTree,
    scope: &Scope,
    li: &LineIndex,
    enc: PositionEncoding,
    start_line: u32,
    end_line: u32,
) -> (r: Vec<SemanticToken>)
    ensures
        r@ == ({
            let all = ordered_tokens(tree@, scope.deep_view(), li@, enc);
            deltas(on_lines(all, start_line, end_line, all.len() as int))
        }),
{
    let all = raw_tokens(tree, scope, li, enc);
    let mut kept: Vec<RawToken> = Vec::new();
    let mut k: usize = 0;
    while k < all.len()
        invariant
            k <= all@.len(),
            kept@ == on_lines(all@, start_line, end_line, k as int),
        decreases all@.len() - k,
    {
        if all[k].line >= start_line && all[k].line <= end_line {
            kept.push(all[k]);
        }
        k = k + 1;
    }
    proof {
        lemma_on_lines(all@, start_line, end_line, all@.len() as int);
    }
    delta_encode(&kept)
}

// ---------------------------------------------------------------------------
// Laws
// ---------------------------------------------------------------------------

/// The place of the `i`-th of the tokens `d`: the sum of what leads to it.
pub open spec fn absolute(d: Seq<SemanticToken>, i: int) -> (int, int)
    decreases i + 1,
{
    if i < 0 || i >= d.len() {
        (0, 0)
    } else {
        let before = absolute(d, i - 1);
        if d[i].delta_line == 0 {
            (before.0, before.1 + d[i].delta_start)
        } else {
            (before.0 + d[i].delta_line, d[i].delta_start as int)
        }
    }
}

/// The encoded tokens lead back to the places they come from.
pub proof fn deltas_decode(s: Seq<RawToken>, i: int)
    requires
        in_order(s),
        0 <= i < s.len(),
    ensures
        absolute(deltas(s), i) == (s[i].line as int, s[i].start as int),
        deltas(s)[i].length == s[i].length,
        deltas(s)[i].token_type == s[i].token_type,
        deltas(s)[i].token_modifiers_bitset == s[i].token_modifiers,
    decreases i,
{
    if i > 0 {
        deltas_decode(s, i - 1);
        assert(not_after(s[i - 1], s[i]));
    } else {
        assert(absolute(deltas(s), -1) == (0int, 0int));
    }
}

proof fn lemma_insert_token(s: Seq<RawToken>, x: RawToken)
    requires
        in_order(s),
    ensures
        in_order(insert_token(s, x)),
        insert_token(s, x).to_multiset() == s.to_multiset().insert(x),
    decreases s.len(),
{
    broadcast use vstd::seq_lib::group_to_multiset_ensures;

    if s.len() == 0 || not_after(s.last(), x) {
        let r = s.push(x);
        assert forall|a: int, b: int| 0 <= a <= b < r.len() implies not_after(r[a], r[b]) by {
            if b < s.len() {
                assert(not_after(s[a], s[b]));
            } else if a < s.len() {
                assert(not_after(s[a], s[s.len() - 1]));
            }
        }
    } else {
        let d = s.drop_last();
        lemma_insert_token(d, x);
        let r = insert_token(d, x);
        assert(s =~= d.push(s.last()));
        assert(insert_token(s, x) == r.push(s.last()));
        assert(r.push(s.last()).to_multiset() =~= s.to_multiset().insert(x));
        assert forall|i: int| 0 <= i < r.len() implies not_after(r[i], s.last()) by {
            assert(r.to_multiset().count(r[i]) > 0);
            assert(d.to_multiset().insert(x).count(r[i]) > 0);
            if r[i] != x {
                assert(d.to_multiset().count(r[i]) > 0);
                assert(d.contains(r[i]));
                let m = choose|m: int| 0 <= m < d.len() && d[m] == r[i];
                assert(not_after(s[m], s.last()));
            }
        }
        let q = r.push(s.last());
        assert forall|a: int, b: int| 0 <= a <= b < q.len() implies not_after(q[a], q[b]) by {
            if b < r.len() {
                assert(not_after(r[a], r[b]));
            }
        }
    }
}

/// Sorting keeps every token and puts them in order.
pub proof fn sorting_keeps_tokens(s: Seq<RawToken>, k: int)
    requires
        0 <= k <= s.len(),
    ensures
        in_order(sorted_upto(s, k)),
        sorted_upto(s, k).to_multiset() == s.take(k).to_multiset(),
    decreases k,
{
    broadcast use vstd::seq_lib::group_to_multiset_ensures;

    if k > 0 {
        sorting_keeps_tokens(s, k - 1);
        lemma_insert_token(sorted_upto(s, k - 1), s[k - 1]);
        assert(s.take(k) =~= s.take(k - 1).push(s[k - 1]));
    } else {
        assert(s.take(0) =~= Seq::empty());
    }
}

} // verus!
