//! Inline hints: types of locals, names of parameters, units and computed values.
use crate::eval::{Provenance, TickPolicy, Trace, TraceView};
use crate::hover::symbol::{value_type_name, value_type_str};
use crate::line_index::{LineIndex, Position, position_of, PositionEncoding, Range};
use crate::list::{extend, fresh, one, put};
use crate::locate::{decl_type, local_decl_type, plays, top_path_seq, top_paths};
use crate::model::{
    Intrinsics, IntrinsicsView, named_overloads, Overload, overloads_named, OverloadView,
    ParamView, Scope, ScopeView, ValueType,
};
use crate::search::{cut_last, rsplit_once};
use crate::syntax::{Field, Kind, SyntaxTree, Tree};
use vstd::prelude::*;
use vstd::string::*;

verus! {

/// The computed values that hints can show.
#[derive(Clone, Copy)]
pub struct EvalInlayContext<'a> {
    pub trace: &'a Trace,
    /// Where the run's inputs come from: a default is marked as one.
    pub provenance: &'a Provenance,
    /// Which tick of the run a value is read from.
    pub tick: TickPolicy,
}

/// What an [`EvalInlayContext`] stands for.
pub struct EvalInlayContextView {
    pub trace: TraceView,
    pub offline: bool,
    pub tick: TickPolicy,
}

impl<'a> DeepView for EvalInlayContext<'a> {
    type V = EvalInlayContextView;

    open spec fn deep_view(&self) -> EvalInlayContextView {
        EvalInlayContextView {
            trace: self.trace.deep_view(),
            offline: *self.provenance is OfflineDefault,
            tick: self.tick,
        }
    }
}

#[derive(Clone, Copy, Debug, PartialEq, Eq, Structural)]
pub enum InlayHintKind {
    Type,
    Parameter,
}

/// A text shown at a position.
#[derive(Debug)]
pub struct InlayHint {
    pub position: Position,
    pub label: String,
    pub kind: InlayHintKind,
    pub tooltip: Option<String>,
    pub padding_left: bool,
    pub padding_right: bool,
}

/// What a [`InlayHint`] stands for.
pub struct InlayHintView {
    pub position: Position,
    pub label: Seq<char>,
    pub kind: InlayHintKind,
    pub tooltip: Option<Seq<char>>,
    pub padding_left: bool,
    pub padding_right: bool,
}

impl DeepView for InlayHint {
    type V = InlayHintView;

    open spec fn deep_view(&self) -> InlayHintView {
        InlayHintView {
            position: self.position,
            label: self.label.deep_view(),
            kind: self.kind,
            tooltip: self.tooltip.deep_view(),
            padding_left: self.padding_left,
            padding_right: self.padding_right,
        }
    }
}

/// The line of the position is one of the range's.
pub open spec fn shown(p: Position, r: Range) -> bool {
    r.start.line <= p.line <= r.end.line
}

fn is_shown(p: Position, r: &Range) -> (b: bool)
    ensures
        b == shown(p, *r),
{
    r.start.line <= p.line && p.line <= r.end.line
}

/// The hint, if its line is one of the range's.
pub open spec fn if_shown(h: InlayHintView, r: Range) -> Seq<InlayHintView> {
    if shown(h.position, r) {
        seq![h]
    } else {
        Seq::empty()
    }
}

pub open spec fn type_hint(position: Position, label: Seq<char>, padding_left: bool) -> InlayHintView {
    InlayHintView {
        position,
        label,
        kind: InlayHintKind::Type,
        tooltip: None,
        padding_left,
        padding_right: false,
    }
}

// ---------------------------------------------------------------------------
// Types of locals
// ---------------------------------------------------------------------------

/// The declaration says which type the local has.
pub open spec fn is_annotated(t: Tree, n: usize) -> bool {
    t.named_child_of(n, Kind::TypeAnnotation, Kind::TypeAnnotation) is Some
}

/// `: Type` behind the name of a local whose type is known and not written.
pub open spec fn local_hint(
    t: Tree,
    n: usize,
    scope: ScopeView,
    r: Range,
    s: Seq<char>,
    enc: PositionEncoding,
) -> Seq<InlayHintView> {
    let ty = decl_type(t, n, scope.types);
    match t.child_by_field(n, Field::Name) {
        Some(name) if !is_annotated(t, n) && ty != ValueType::Unknown => if_shown(
            type_hint(position_of(s, t.end(name), enc), ": "@ + value_type_name(ty), false),
            r,
        ),
        _ => Seq::empty(),
    }
}

fn collect_local_hint(
    tree: &SyntaxTree,
    n: usize,
    scope: &Scope,
    r: &Range,
    li: &LineIndex,
    enc: PositionEncoding,
) -> (h: Vec<InlayHint>)
    requires
        tree@.has(n),
    ensures
        h.deep_view() == local_hint(tree@, n, scope.deep_view(), *r, li@, enc),
{
    assert(scope.deep_view().types =~= scope.types@);
    let annotated = tree.named_child_of(n, Kind::TypeAnnotation, Kind::TypeAnnotation).is_some();
    if annotated {
        return fresh();
    }
    match tree.child_by_field(n, Field::Name) {
        Some(name) => {
            let ty = local_decl_type(tree, n, scope);
            let position = li.position(tree.end(name), enc);
            if ty == ValueType::Unknown || !is_shown(position, r) {
                return fresh();
            }
            let mut label = ": ".to_string();
            label.append(value_type_str(ty));
            one(
                InlayHint {
                    position,
                    label,
                    kind: InlayHintKind::Type,
                    tooltip: None,
                    padding_left: false,
                    padding_right: false,
                },
            )
        },
        None => fresh(),
    }
}

// ---------------------------------------------------------------------------
// Names of parameters
// ---------------------------------------------------------------------------

/// A node of this kind is an argument where it stands in the list of a call.
pub open spec fn is_argument(k: Kind) -> bool {
    match k {
        Kind::Identifier
        | Kind::MemberExpression
        | Kind::CallExpression
        | Kind::UnaryExpression
        | Kind::BinaryExpression
        | Kind::TernaryExpression
        | Kind::ParenthesizedExpression
        | Kind::Number
        | Kind::Boolean
        | Kind::String
        | Kind::Interpolation => true,
        _ => false,
    }
}

fn is_arg_expr(k: Kind) -> (r: bool)
    ensures
        r == is_argument(k),
{
    match k {
        Kind::Identifier
        | Kind::MemberExpression
        | Kind::CallExpression
        | Kind::UnaryExpression
        | Kind::BinaryExpression
        | Kind::TernaryExpression
        | Kind::ParenthesizedExpression
        | Kind::Number
        | Kind::Boolean
        | Kind::String
        | Kind::Interpolation => true,
        _ => false,
    }
}

/// The arguments among the first `k` of the nodes.
pub open spec fn arguments_upto(t: Tree, ns: Seq<usize>, k: int) -> Seq<usize>
    decreases k,
{
    if k <= 0 {
        Seq::empty()
    } else if is_argument(t.kind(ns[k - 1])) {
        arguments_upto(t, ns, k - 1).push(ns[k - 1])
    } else {
        arguments_upto(t, ns, k - 1)
    }
}

/// The signatures that a call of `path` can have: of the library object in front of the
/// last dot, or else of the methods that every object has.
pub open spec fn candidates(intr: IntrinsicsView, path: Seq<char>) -> Seq<OverloadView> {
    let (head, method) = match cut_last(path, '.') {
        Some((h, m)) => (h, m),
        None => (""@, path),
    };
    match intr.library_object(head) {
        Some(obj) => named_overloads(obj.functions, method, obj.functions.len() as int),
        None => intr.object_method(method),
    }
}

/// The first signature, from index `i` on, with at least `n` parameters.
pub open spec fn first_wide(ovs: Seq<OverloadView>, n: int, i: int) -> Option<OverloadView>
    decreases ovs.len() - i,
{
    if i < 0 || i >= ovs.len() {
        None
    } else if ovs[i].params.len() >= n {
        Some(ovs[i])
    } else {
        first_wide(ovs, n, i + 1)
    }
}

/// The last signature, among the first `k`, that no other has more parameters than.
pub open spec fn widest_upto(ovs: Seq<OverloadView>, k: int) -> Option<OverloadView>
    decreases k,
{
    if k <= 0 {
        None
    } else {
        match widest_upto(ovs, k - 1) {
            Some(o) if o.params.len() > ovs[k - 1].params.len() => Some(o),
            _ => Some(ovs[k - 1]),
        }
    }
}

/// The signature of a call with `n` arguments.
pub open spec fn chosen(ovs: Seq<OverloadView>, n: int) -> Option<OverloadView> {
    match first_wide(ovs, n, 0) {
        Some(o) => Some(o),
        None => widest_upto(ovs, ovs.len() as int),
    }
}

pub open spec fn param_hint(
    t: Tree,
    arg: usize,
    name: Seq<char>,
    s: Seq<char>,
    enc: PositionEncoding,
) -> InlayHintView {
    InlayHintView {
        position: position_of(s, t.start(arg), enc),
        label: name + ":"@,
        kind: InlayHintKind::Parameter,
        tooltip: None,
        padding_left: false,
        padding_right: true,
    }
}

/// The hints of the first `k` arguments.
pub open spec fn arg_hints_upto(
    t: Tree,
    args: Seq<usize>,
    params: Seq<ParamView>,
    r: Range,
    s: Seq<char>,
    enc: PositionEncoding,
    k: int,
) -> Seq<InlayHintView>
    decreases k,
{
    if k <= 0 {
        Seq::empty()
    } else {
        arg_hints_upto(t, args, params, r, s, enc, k - 1) + if k <= params.len() {
            if_shown(param_hint(t, args[k - 1], params[k - 1].name, s, enc), r)
        } else {
            Seq::empty()
        }
    }
}

/// `name:` in front of each argument of the call `n`.
pub open spec fn call_hints(
    intr: IntrinsicsView,
    t: Tree,
    n: usize,
    r: Range,
    s: Seq<char>,
    enc: PositionEncoding,
) -> Seq<InlayHintView> {
    match (t.child_by_field(n, Field::Function), t.child_by_field(n, Field::Arguments)) {
        (Some(callee), Some(list)) => {
            let ns = t.named_kids(list);
            let args = arguments_upto(t, ns, ns.len() as int);
            match chosen(candidates(intr, t.text_of(callee)), args.len() as int) {
                Some(ov) => arg_hints_upto(t, args, ov.params, r, s, enc, args.len() as int),
                None => Seq::empty(),
            }
        },
        _ => Seq::empty(),
    }
}

fn call_overloads<'a>(intr: &'a Intrinsics, path: &str) -> (r: Vec<&'a Overload>)
    ensures
        r.deep_view() == candidates(intr.deep_view(), path@),
{
    let (head, method) = match rsplit_once(path, '.') {
        Some((h, m)) => (h, m),
        None => ("".to_string(), path.to_owned()),
    };
    match intr.library_object(head.as_str()) {
        Some(obj) => overloads_named(&obj.functions, method.as_str()),
        None => intr.object_method(method.as_str()),
    }
}

fn choose_overload<'a>(ovs: &Vec<&'a Overload>, n: usize) -> (r: Option<&'a Overload>)
    ensures
        r.deep_view() == chosen(ovs.deep_view(), n as int),
{
    let ghost s = ovs.deep_view();
    let mut i: usize = 0;
    let mut widest: Option<&'a Overload> = None;
    while i < ovs.len()
        invariant
            i <= ovs@.len(),
            s == ovs.deep_view(),
            first_wide(s, n as int, 0) == first_wide(s, n as int, i as int),
            widest.deep_view() == widest_upto(s, i as int),
        decreases ovs@.len() - i,
    {
        let o: &'a Overload = ovs[i];
        assert(s[i as int] == o.deep_view());
        assert(o.deep_view().params.len() == o.params@.len());
        if o.params.len() >= n {
            return Some(o);
        }
        match widest {
            Some(w) => {
                assert(w.deep_view().params.len() == w.params@.len());
                if w.params.len() <= o.params.len() {
                    widest = Some(o);
                }
            },
            None => {
                widest = Some(o);
            },
        }
        i = i + 1;
    }
    widest
}

fn call_arguments(tree: &SyntaxTree, list: usize) -> (r: Vec<usize>)
    requires
        tree@.has(list),
    ensures
        r@ == arguments_upto(
            tree@,
            tree@.named_kids(list),
            tree@.named_kids(list).len() as int,
        ),
        forall|i: int| 0 <= i < r@.len() ==> tree@.has(#[trigger] r@[i]),
{
    let ns = tree.named_children(list);
    let mut r: Vec<usize> = Vec::new();
    let mut k: usize = 0;
    while k < ns.len()
        invariant
            k <= ns@.len(),
            ns@ == tree@.named_kids(list),
            forall|i: int| 0 <= i < ns@.len() ==> tree@.has(#[trigger] ns@[i]),
            r@ == arguments_upto(tree@, ns@, k as int),
            forall|i: int| 0 <= i < r@.len() ==> tree@.has(#[trigger] r@[i]),
        decreases ns@.len() - k,
    {
        let c: usize = ns[k];
        if is_arg_expr(tree.kind(c)) {
            r.push(c);
        }
        k = k + 1;
    }
    r
}

fn collect_param_hints(
    intr: &Intrinsics,
    tree: &SyntaxTree,
    call: usize,
    r: &Range,
    li: &LineIndex,
    enc: PositionEncoding,
) -> (h: Vec<InlayHint>)
    requires
        tree@.has(call),
    ensures
        h.deep_view() == call_hints(intr.deep_view(), tree@, call, *r, li@, enc),
{
    let (callee, list) = match (
        tree.child_by_field(call, Field::Function),
        tree.child_by_field(call, Field::Arguments),
    ) {
        (Some(callee), Some(list)) => (callee, list),
        _ => {
            return fresh();
        },
    };
    let overloads = call_overloads(intr, tree.text_of(callee).as_str());
    let args = call_arguments(tree, list);
    let ov = match choose_overload(&overloads, args.len()) {
        Some(ov) => ov,
        None => {
            return fresh();
        },
    };
    let ghost ps = ov.params.deep_view();
    let mut h: Vec<InlayHint> = fresh();
    let mut k: usize = 0;
    while k < args.len()
        invariant
            k <= args@.len(),
            ps == ov.params.deep_view(),
            forall|i: int| 0 <= i < args@.len() ==> tree@.has(#[trigger] args@[i]),
            h.deep_view() == arg_hints_upto(tree@, args@, ps, *r, li@, enc, k as int),
        decreases args@.len() - k,
    {
        let ghost before = h.deep_view();
        if k < ov.params.len() {
            assert(ps[k as int] == ov.params@[k as int].deep_view());
            let position = li.position(tree.start(args[k]), enc);
            if is_shown(position, r) {
                let mut label = ov.params[k].name.clone();
                label.append(":");
                put(
                    &mut h,
                    InlayHint {
                        position,
                        label,
                        kind: InlayHintKind::Parameter,
                        tooltip: None,
                        padding_left: false,
                        padding_right: true,
                    },
                );
            }
        }
        assert(h.deep_view() =~= arg_hints_upto(tree@, args@, ps, *r, li@, enc, k + 1));
        k = k + 1;
    }
    h
}

/// The hints of the locals and calls among the first `k` nodes.
pub open spec fn code_hints_upto(
    intr: IntrinsicsView,
    t: Tree,
    scope: ScopeView,
    r: Range,
    s: Seq<char>,
    enc: PositionEncoding,
    k: int,
) -> Seq<InlayHintView>
    decreases k,
{
    if k <= 0 {
        Seq::empty()
    } else {
        let n = (k - 1) as usize;
        code_hints_upto(intr, t, scope, r, s, enc, k - 1) + match t.kind(n) {
            Kind::CallExpression => call_hints(intr, t, n, r, s, enc),
            Kind::LocalDeclaration => local_hint(t, n, scope, r, s, enc),
            _ => Seq::empty(),
        }
    }
}

fn collect(
    intr: &Intrinsics,
    tree: &SyntaxTree,
    scope: &Scope,
    r: &Range,
    li: &LineIndex,
    enc: PositionEncoding,
) -> (h: Vec<InlayHint>)
    ensures
        h.deep_view() == code_hints_upto(
            intr.deep_view(),
            tree@,
            scope.deep_view(),
            *r,
            li@,
            enc,
            tree@.size() as int,
        ),
{
    let size: usize = tree.len();
    let mut h: Vec<InlayHint> = fresh();
    let mut k: usize = 0;
    while k < size
        invariant
            k <= size == tree@.size(),
            h.deep_view() == code_hints_upto(
                intr.deep_view(),
                tree@,
                scope.deep_view(),
                *r,
                li@,
                enc,
                k as int,
            ),
        decreases size - k,
    {
        let ghost before = h.deep_view();
        match tree.kind(k) {
            Kind::CallExpression => {
                extend(&mut h, collect_param_hints(intr, tree, k, r, li, enc));
            },
            Kind::LocalDeclaration => {
                extend(&mut h, collect_local_hint(tree, k, scope, r, li, enc));
            },
            _ => {
                assert(before + Seq::<InlayHintView>::empty() =~= before);
            },
        }
        k = k + 1;
    }
    h
}

// ---------------------------------------------------------------------------
// Units
// ---------------------------------------------------------------------------

/// `n` is an outermost member expression, and not what a call calls.
pub open spec fn is_data_member(t: Tree, n: usize) -> bool {
    t.kind(n) == Kind::MemberExpression && match t.parent(n) {
        Some(p) => t.kind(p) != Kind::MemberExpression && !(t.kind(p) == Kind::CallExpression
            && plays(t, p, n, Field::Function)),
        None => true,
    }
}

/// `[unit]` behind a reference to a symbol that has one.
pub open spec fn unit_hint(
    t: Tree,
    n: usize,
    scope: ScopeView,
    r: Range,
    s: Seq<char>,
    enc: PositionEncoding,
) -> Seq<InlayHintView> {
    match scope.symbol(t.text_of(n)) {
        Some(sym) => match sym.unit {
            Some(unit) if is_data_member(t, n) => if_shown(
                type_hint(position_of(s, t.end(n), enc), "["@ + unit + "]"@, true),
                r,
            ),
            _ => Seq::empty(),
        },
        None => Seq::empty(),
    }
}

pub open spec fn unit_hints_upto(
    t: Tree,
    scope: ScopeView,
    r: Range,
    s: Seq<char>,
    enc: PositionEncoding,
    k: int,
) -> Seq<InlayHintView>
    decreases k,
{
    if k <= 0 {
        Seq::empty()
    } else {
        unit_hints_upto(t, scope, r, s, enc, k - 1) + unit_hint(
            t,
            (k - 1) as usize,
            scope,
            r,
            s,
            enc,
        )
    }
}

fn is_data_reference(tree: &SyntaxTree, n: usize) -> (b: bool)
    requires
        tree@.has(n),
    ensures
        b == is_data_member(tree@, n),
{
    if tree.kind(n) != Kind::MemberExpression {
        return false;
    }
    match tree.parent(n) {
        Some(p) => match tree.kind(p) {
            Kind::MemberExpression => false,
            Kind::CallExpression => match tree.child_by_field(p, Field::Function) {
                Some(c) => !tree.same_span(c, n),
                None => true,
            },
            _ => true,
        },
        None => true,
    }
}

fn collect_unit_hints(
    tree: &SyntaxTree,
    scope: &Scope,
    r: &Range,
    li: &LineIndex,
    enc: PositionEncoding,
) -> (h: Vec<InlayHint>)
    ensures
        h.deep_view() == unit_hints_upto(
            tree@,
            scope.deep_view(),
            *r,
            li@,
            enc,
            tree@.size() as int,
        ),
{
    let size: usize = tree.len();
    let mut h: Vec<InlayHint> = fresh();
    let mut k: usize = 0;
    while k < size
        invariant
            k <= size == tree@.size(),
            h.deep_view() == unit_hints_upto(tree@, scope.deep_view(), *r, li@, enc, k as int),
        decreases size - k,
    {
        let ghost before = h.deep_view();
        if is_data_reference(tree, k) {
            if let Some(sym) = scope.symbol(tree.text_of(k).as_str()) {
                if let Some(unit) = &sym.unit {
                    let position = li.position(tree.end(k), enc);
                    if is_shown(position, r) {
                        let mut label = "[".to_string();
                        label.append(unit.as_str());
                        label.append("]");
                        put(
                            &mut h,
                            InlayHint {
                                position,
                                label,
                                kind: InlayHintKind::Type,
                                tooltip: None,
                                padding_left: true,
                                padding_right: false,
                            },
                        );
                    }
                }
            }
        }
        assert(h.deep_view() =~= before + unit_hint(tree@, k, scope.deep_view(), *r, li@, enc));
        k = k + 1;
    }
    h
}

// ---------------------------------------------------------------------------
// Computed values
// ---------------------------------------------------------------------------

/// What the hint of a default value says about it.
pub open spec fn offline_note() -> Seq<char> {
    "offline default — no scenario or log configured; this is the evaluator's default world, not a measured value"@
}

/// `= value` behind a path, read or written, that has one. A default is marked.
pub open spec fn value_hint(
    t: Tree,
    n: usize,
    scope: ScopeView,
    ctx: EvalInlayContextView,
    r: Range,
    s: Seq<char>,
    enc: PositionEncoding,
) -> Seq<InlayHintView> {
    match scope.symbol(t.text_of(n)) {
        Some(sym) => match ctx.trace.value(sym.path, ctx.tick) {
            Some(value) => if_shown(
                InlayHintView {
                    position: position_of(s, t.end(n), enc),
                    label: if ctx.offline {
                        "= "@ + value + "?"@
                    } else {
                        "= "@ + value
                    },
                    kind: InlayHintKind::Type,
                    tooltip: if ctx.offline {
                        Some(offline_note())
                    } else {
                        None
                    },
                    padding_left: true,
                    padding_right: false,
                },
                r,
            ),
            None => Seq::empty(),
        },
        None => Seq::empty(),
    }
}

pub open spec fn value_hints_upto(
    t: Tree,
    ps: Seq<(usize, bool)>,
    scope: ScopeView,
    ctx: EvalInlayContextView,
    r: Range,
    s: Seq<char>,
    enc: PositionEncoding,
    k: int,
) -> Seq<InlayHintView>
    decreases k,
{
    if k <= 0 {
        Seq::empty()
    } else {
        value_hints_upto(t, ps, scope, ctx, r, s, enc, k - 1) + value_hint(
            t,
            ps[k - 1].0,
            scope,
            ctx,
            r,
            s,
            enc,
        )
    }
}

fn collect_value_hints(
    tree: &SyntaxTree,
    scope: &Scope,
    ctx: &EvalInlayContext,
    r: &Range,
    li: &LineIndex,
    enc: PositionEncoding,
) -> (h: Vec<InlayHint>)
    ensures
        h.deep_view() == value_hints_upto(
            tree@,
            top_path_seq(tree@),
            scope.deep_view(),
            ctx.deep_view(),
            *r,
            li@,
            enc,
            top_path_seq(tree@).len() as int,
        ),
{
    let offline = match ctx.provenance {
        Provenance::OfflineDefault => true,
        _ => false,
    };
    let ps = top_paths(tree);
    let mut h: Vec<InlayHint> = fresh();
    let mut k: usize = 0;
    while k < ps.len()
        invariant
            k <= ps@.len(),
            ps@ == top_path_seq(tree@),
            offline == ctx.deep_view().offline,
            forall|i: int| 0 <= i < ps@.len() ==> tree@.has((#[trigger] ps@[i]).0),
            h.deep_view() == value_hints_upto(
                tree@,
                ps@,
                scope.deep_view(),
                ctx.deep_view(),
                *r,
                li@,
                enc,
                k as int,
            ),
        decreases ps@.len() - k,
    {
        let ghost before = h.deep_view();
        let n: usize = ps[k].0;
        if let Some(sym) = scope.symbol(tree.text_of(n).as_str()) {
            if let Some(value) = ctx.trace.value(sym.path.as_str(), ctx.tick) {
                let position = li.position(tree.end(n), enc);
                if is_shown(position, r) {
                    let mut label = "= ".to_string();
                    label.append(value.as_str());
                    let mut tooltip: Option<String> = None;
                    if offline {
                        label.append("?");
                        tooltip = Some(
                            "offline default — no scenario or log configured; this is the evaluator's default world, not a measured value".to_string(),
                        );
                    }
                    put(
                        &mut h,
                        InlayHint {
                            position,
                            label,
                            kind: InlayHintKind::Type,
                            tooltip,
                            padding_left: true,
                            padding_right: false,
                        },
                    );
                }
            }
        }
        assert(h.deep_view() =~= before + value_hint(
            tree@,
            n,
            scope.deep_view(),
            ctx.deep_view(),
            *r,
            li@,
            enc,
        ));
        k = k + 1;
    }
    h
}

/// The hints of a script in a range. Units and values are those of a project.
pub open spec fn hints_of(
    intr: IntrinsicsView,
    t: Tree,
    scope: ScopeView,
    in_project: bool,
    eval: Option<EvalInlayContextView>,
    r: Range,
    s: Seq<char>,
    enc: PositionEncoding,
) -> Seq<InlayHintView> {
    let code = code_hints_upto(intr, t, scope, r, s, enc, t.size() as int);
    if in_project {
        let units = unit_hints_upto(t, scope, r, s, enc, t.size() as int);
        let ps = top_path_seq(t);
        match eval {
            Some(ctx) => code + units + value_hints_upto(
                t,
                ps,
                scope,
                ctx,
                r,
                s,
                enc,
                ps.len() as int,
            ),
            None => code + units,
        }
    } else {
        code
    }
}

/// The hints of a script in a range. `in_project` says whether a project is loaded.
pub fn inlay_hints(
    tree: &SyntaxTree,
    range: Range,
    li: &LineIndex,
    enc: PositionEncoding,
    intr: &Intrinsics,
    scope: &Scope,
    in_project: bool,
) -> (h: Vec<InlayHint>)
    ensures
        h.deep_view() == hints_of(
            intr.deep_view(),
            tree@,
            scope.deep_view(),
            in_project,
            None,
            range,
            li@,
            enc,
        ),
{
    inlay_hints_with_eval(tree, range, li, enc, intr, scope, in_project, None)
}

/// Like [`inlay_hints`], and the computed values that `eval` holds.
pub fn inlay_hints_with_eval(
    tree: &SyntaxTree,
    range: Range,
    li: &LineIndex,
    enc: PositionEncoding,
    intr: &Intrinsics,
    scope: &Scope,
    in_project: bool,
    eval: Option<EvalInlayContext>,
) -> (h: Vec<InlayHint>)
    ensures
        h.deep_view() == hints_of(
            intr.deep_view(),
            tree@,
            scope.deep_view(),
            in_project,
            eval.deep_view(),
            range,
            li@,
            enc,
        ),
{
    let mut h = collect(intr, tree, scope, &range, li, enc);
    if in_project {
        extend(&mut h, collect_unit_hints(tree, scope, &range, li, enc));
        if let Some(ctx) = eval {
            extend(&mut h, collect_value_hints(tree, scope, &ctx, &range, li, enc));
        }
    }
    h
}

// ---------------------------------------------------------------------------
// Laws
// ---------------------------------------------------------------------------

/// Every hint stands on a line of the range.
pub open spec fn all_shown(hs: Seq<InlayHintView>, r: Range) -> bool {
    forall|i: int| 0 <= i < hs.len() ==> shown((#[trigger] hs[i]).position, r)
}

proof fn lemma_shown_add(a: Seq<InlayHintView>, b: Seq<InlayHintView>, r: Range)
    requires
        all_shown(a, r),
        all_shown(b, r),
    ensures
        all_shown(a + b, r),
{
    assert forall|i: int| 0 <= i < (a + b).len() implies shown(
        (#[trigger] (a + b)[i]).position,
        r,
    ) by {
        if i < a.len() {
            assert((a + b)[i] == a[i]);
        } else {
            assert((a + b)[i] == b[i - a.len()]);
        }
    }
}

proof fn lemma_args_shown(
    t: Tree,
    args: Seq<usize>,
    params: Seq<ParamView>,
    r: Range,
    s: Seq<char>,
    enc: PositionEncoding,
    k: int,
)
    ensures
        all_shown(arg_hints_upto(t, args, params, r, s, enc, k), r),
    decreases k,
{
    if k > 0 {
        lemma_args_shown(t, args, params, r, s, enc, k - 1);
        let more = if k <= params.len() {
            if_shown(param_hint(t, args[k - 1], params[k - 1].name, s, enc), r)
        } else {
            Seq::empty()
        };
        lemma_shown_add(arg_hints_upto(t, args, params, r, s, enc, k - 1), more, r);
    }
}

proof fn lemma_code_shown(
    intr: IntrinsicsView,
    t: Tree,
    scope: ScopeView,
    r: Range,
    s: Seq<char>,
    enc: PositionEncoding,
    k: int,
)
    ensures
        all_shown(code_hints_upto(intr, t, scope, r, s, enc, k), r),
    decreases k,
{
    if k > 0 {
        lemma_code_shown(intr, t, scope, r, s, enc, k - 1);
        let n = (k - 1) as usize;
        if let (Some(callee), Some(list)) = (
            t.child_by_field(n, Field::Function),
            t.child_by_field(n, Field::Arguments),
        ) {
            let ns = t.named_kids(list);
            let args = arguments_upto(t, ns, ns.len() as int);
            if let Some(ov) = chosen(candidates(intr, t.text_of(callee)), args.len() as int) {
                lemma_args_shown(t, args, ov.params, r, s, enc, args.len() as int);
            }
        }
        let more = match t.kind(n) {
            Kind::CallExpression => call_hints(intr, t, n, r, s, enc),
            Kind::LocalDeclaration => local_hint(t, n, scope, r, s, enc),
            _ => Seq::empty(),
        };
        lemma_shown_add(code_hints_upto(intr, t, scope, r, s, enc, k - 1), more, r);
    }
}

proof fn lemma_units_shown(
    t: Tree,
    scope: ScopeView,
    r: Range,
    s: Seq<char>,
    enc: PositionEncoding,
    k: int,
)
    ensures
        all_shown(unit_hints_upto(t, scope, r, s, enc, k), r),
    decreases k,
{
    if k > 0 {
        lemma_units_shown(t, scope, r, s, enc, k - 1);
        lemma_shown_add(
            unit_hints_upto(t, scope, r, s, enc, k - 1),
            unit_hint(t, (k - 1) as usize, scope, r, s, enc),
            r,
        );
    }
}

proof fn lemma_values_shown(
    t: Tree,
    ps: Seq<(usize, bool)>,
    scope: ScopeView,
    ctx: EvalInlayContextView,
    r: Range,
    s: Seq<char>,
    enc: PositionEncoding,
    k: int,
)
    ensures
        all_shown(value_hints_upto(t, ps, scope, ctx, r, s, enc, k), r),
    decreases k,
{
    if k > 0 {
        lemma_values_shown(t, ps, scope, ctx, r, s, enc, k - 1);
        lemma_shown_add(
            value_hints_upto(t, ps, scope, ctx, r, s, enc, k - 1),
            value_hint(t, ps[k - 1].0, scope, ctx, r, s, enc),
            r,
        );
    }
}

/// Every hint stands on a line of the range that hints were asked for.
pub proof fn hints_stay_in_range(
    intr: IntrinsicsView,
    t: Tree,
    scope: ScopeView,
    in_project: bool,
    eval: Option<EvalInlayContextView>,
    r: Range,
    s: Seq<char>,
    enc: PositionEncoding,
)
    ensures
        all_shown(hints_of(intr, t, scope, in_project, eval, r, s, enc), r),
{
    let n = t.size() as int;
    let code = code_hints_upto(intr, t, scope, r, s, enc, n);
    let units = unit_hints_upto(t, scope, r, s, enc, n);
    let ps = top_path_seq(t);
    lemma_code_shown(intr, t, scope, r, s, enc, n);
    lemma_units_shown(t, scope, r, s, enc, n);
    lemma_shown_add(code, units, r);
    if let Some(ctx) = eval {
        lemma_values_shown(t, ps, scope, ctx, r, s, enc, ps.len() as int);
        lemma_shown_add(
            code + units,
            value_hints_upto(t, ps, scope, ctx, r, s, enc, ps.len() as int),
            r,
        );
    }
}

/// Values come behind the hints that a script has without them.
pub proof fn values_come_last(
    intr: IntrinsicsView,
    t: Tree,
    scope: ScopeView,
    in_project: bool,
    eval: Option<EvalInlayContextView>,
    r: Range,
    s: Seq<char>,
    enc: PositionEncoding,
)
    ensures
        ({
            let plain = hints_of(intr, t, scope, in_project, None, r, s, enc);
            let full = hints_of(intr, t, scope, in_project, eval, r, s, enc);
            plain.len() <= full.len() && full.take(plain.len() as int) == plain
        }),
{
    let plain = hints_of(intr, t, scope, in_project, None, r, s, enc);
    let full = hints_of(intr, t, scope, in_project, eval, r, s, enc);
    assert(full.take(plain.len() as int) =~= plain);
}

} // verus!
