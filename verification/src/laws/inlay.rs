//! What hints a script shows.
use crate::hover::symbol::value_type_name;
use crate::inlay::{
    arg_hints_upto, arguments_upto, call_hints, candidates, chosen, code_hints_upto,
    EvalInlayContextView, first_wide, hints_of, if_shown, InlayHintKind, InlayHintView,
    local_hint, offline_note, param_hint, shown, type_hint, unit_hint, unit_hints_upto,
    value_hint, value_hints_upto, widest_upto,
};
use crate::laws::{lemma_either_holds, lemma_pushed_holds, lemma_taken_holds};
use crate::laws::hover::lemma_cut_last;
use crate::line_index::{position_of, PositionEncoding, Range};
use crate::locate::{decl_type, top_path_seq};
use crate::model::{IntrinsicsView, named_overloads, OverloadView, ParamView, ScopeView, ValueType};
use crate::syntax::{Field, Kind, Tree};
use vstd::prelude::*;
use vstd::string::*;

verus! {

/// The hint is the type of the local that node `n` declares without saying its type: behind
/// its name.
pub open spec fn shows_type(
    t: Tree,
    n: usize,
    scope: ScopeView,
    r: Range,
    s: Seq<char>,
    enc: PositionEncoding,
    h: InlayHintView,
) -> bool {
    let ty = decl_type(t, n, scope.types);
    &&& t.kind(n) == Kind::LocalDeclaration
    &&& t.child_by_field(n, Field::Name) is Some
    &&& t.named_child_of(n, Kind::TypeAnnotation, Kind::TypeAnnotation) is None
    &&& ty != ValueType::Unknown
    &&& h == InlayHintView {
        position: position_of(s, t.end(t.child_by_field(n, Field::Name).unwrap()), enc),
        label: ": "@ + value_type_name(ty),
        kind: InlayHintKind::Type,
        tooltip: None,
        padding_left: false,
        padding_right: false,
    }
    &&& r.start.line <= h.position.line <= r.end.line
}

/// The arguments of the call `n`.
pub open spec fn arguments_of(t: Tree, n: usize) -> Seq<usize> {
    match t.child_by_field(n, Field::Arguments) {
        Some(list) => arguments_upto(t, t.named_kids(list), t.named_kids(list).len() as int),
        None => Seq::empty(),
    }
}

/// The hint is the name of the parameter that argument `i` of the call `n` is for: in front of
/// the argument.
pub open spec fn shows_parameter(
    intr: IntrinsicsView,
    t: Tree,
    n: usize,
    r: Range,
    s: Seq<char>,
    enc: PositionEncoding,
    i: int,
    h: InlayHintView,
) -> bool {
    &&& t.kind(n) == Kind::CallExpression
    &&& t.child_by_field(n, Field::Function) is Some
    &&& t.child_by_field(n, Field::Arguments) is Some
    &&& 0 <= i < arguments_of(t, n).len()
    &&& match chosen(
        candidates(intr, t.text_of(t.child_by_field(n, Field::Function).unwrap())),
        arguments_of(t, n).len() as int,
    ) {
        Some(ov) => i < ov.params.len() && h == InlayHintView {
            position: position_of(s, t.start(arguments_of(t, n)[i]), enc),
            label: ov.params[i].name + ":"@,
            kind: InlayHintKind::Parameter,
            tooltip: None,
            padding_left: false,
            padding_right: true,
        },
        None => false,
    }
    &&& r.start.line <= h.position.line <= r.end.line
}

/// The hint is the unit of the symbol that the outermost member expression `n` names: behind
/// it, unless it is what a call calls.
pub open spec fn shows_unit(
    t: Tree,
    n: usize,
    scope: ScopeView,
    r: Range,
    s: Seq<char>,
    enc: PositionEncoding,
    h: InlayHintView,
) -> bool {
    &&& t.kind(n) == Kind::MemberExpression
    &&& t.parent_kind(n) != Some(Kind::MemberExpression)
    &&& t.parent_kind(n) == Some(Kind::CallExpression) ==> match t.child_by_field(
        t.parent(n).unwrap(),
        Field::Function,
    ) {
        Some(c) => t.start(c) != t.start(n) || t.end(c) != t.end(n),
        None => true,
    }
    &&& match scope.symbol(t.text_of(n)) {
        Some(sym) => sym.unit is Some && h == InlayHintView {
            position: position_of(s, t.end(n), enc),
            label: "["@ + sym.unit.unwrap() + "]"@,
            kind: InlayHintKind::Type,
            tooltip: None,
            padding_left: true,
            padding_right: false,
        },
        None => false,
    }
    &&& r.start.line <= h.position.line <= r.end.line
}

/// The hint is the value of the symbol that the path `n` names: behind it, and marked where
/// the value is a default.
pub open spec fn shows_value(
    t: Tree,
    n: usize,
    scope: ScopeView,
    ctx: EvalInlayContextView,
    r: Range,
    s: Seq<char>,
    enc: PositionEncoding,
    h: InlayHintView,
) -> bool {
    &&& match scope.symbol(t.text_of(n)) {
        Some(sym) => match ctx.trace.value(sym.path, ctx.tick) {
            Some(value) => {
                &&& h.position == position_of(s, t.end(n), enc)
                &&& h.label == (if ctx.offline {
                    "= "@ + value + "?"@
                } else {
                    "= "@ + value
                })
                &&& h.tooltip == (if ctx.offline {
                    Some(
                        "offline default — no scenario or log configured; this is the evaluator's default world, not a measured value"@,
                    )
                } else {
                    None
                })
                &&& h.kind == InlayHintKind::Type && h.padding_left && !h.padding_right
            },
            None => false,
        },
        None => false,
    }
    &&& r.start.line <= h.position.line <= r.end.line
}

proof fn lemma_shown(x: InlayHintView, r: Range, h: InlayHintView)
    ensures
        if_shown(x, r).contains(h) <==> h == x && r.start.line <= x.position.line <= r.end.line,
{
    if shown(x.position, r) {
        assert(seq![x][0] == x);
    }
}

proof fn lemma_arg_hints(
    t: Tree,
    args: Seq<usize>,
    params: Seq<ParamView>,
    r: Range,
    s: Seq<char>,
    enc: PositionEncoding,
    k: int,
    h: InlayHintView,
)
    requires
        0 <= k <= args.len(),
    ensures
        arg_hints_upto(t, args, params, r, s, enc, k).contains(h) <==> exists|i: int|
            0 <= i < k && i < params.len() && h == #[trigger] param_hint(
                t,
                args[i],
                params[i].name,
                s,
                enc,
            ) && shown(h.position, r),
    decreases k,
{
    if k > 0 {
        lemma_arg_hints(t, args, params, r, s, enc, k - 1, h);
        let rest = arg_hints_upto(t, args, params, r, s, enc, k - 1);
        let x = param_hint(t, args[k - 1], params[k - 1].name, s, enc);
        let here = if k <= params.len() {
            if_shown(x, r)
        } else {
            Seq::empty()
        };
        lemma_either_holds(rest, here, h);
        lemma_shown(x, r, h);
        if rest.contains(h) {
            let i = choose|i: int|
                0 <= i < k - 1 && i < params.len() && h == #[trigger] param_hint(
                    t,
                    args[i],
                    params[i].name,
                    s,
                    enc,
                ) && shown(h.position, r);
            assert(h == param_hint(t, args[i], params[i].name, s, enc));
        }
        if here.contains(h) {
            assert(h == param_hint(t, args[k - 1], params[k - 1].name, s, enc));
        }
    }
}

proof fn lemma_call_hints(
    intr: IntrinsicsView,
    t: Tree,
    n: usize,
    r: Range,
    s: Seq<char>,
    enc: PositionEncoding,
    h: InlayHintView,
)
    requires
        t.kind(n) == Kind::CallExpression,
    ensures
        call_hints(intr, t, n, r, s, enc).contains(h) <==> exists|i: int|
            shows_parameter(intr, t, n, r, s, enc, i, h),
{
    if let (Some(callee), Some(list)) = (
        t.child_by_field(n, Field::Function),
        t.child_by_field(n, Field::Arguments),
    ) {
        let args = arguments_of(t, n);
        if let Some(ov) = chosen(candidates(intr, t.text_of(callee)), args.len() as int) {
            lemma_arg_hints(t, args, ov.params, r, s, enc, args.len() as int, h);
            if call_hints(intr, t, n, r, s, enc).contains(h) {
                let i = choose|i: int|
                    0 <= i < args.len() && i < ov.params.len() && h == #[trigger] param_hint(
                        t,
                        args[i],
                        ov.params[i].name,
                        s,
                        enc,
                    ) && shown(h.position, r);
                assert(shows_parameter(intr, t, n, r, s, enc, i, h));
            }
            if exists|i: int| shows_parameter(intr, t, n, r, s, enc, i, h) {
                let i = choose|i: int| shows_parameter(intr, t, n, r, s, enc, i, h);
                assert(h == param_hint(t, args[i], ov.params[i].name, s, enc));
            }
        }
    }
}

proof fn lemma_local_hint(
    t: Tree,
    n: usize,
    scope: ScopeView,
    r: Range,
    s: Seq<char>,
    enc: PositionEncoding,
    h: InlayHintView,
)
    requires
        t.kind(n) == Kind::LocalDeclaration,
    ensures
        local_hint(t, n, scope, r, s, enc).contains(h) <==> shows_type(t, n, scope, r, s, enc, h),
{
    let ty = decl_type(t, n, scope.types);
    if let Some(name) = t.child_by_field(n, Field::Name) {
        lemma_shown(
            type_hint(position_of(s, t.end(name), enc), ": "@ + value_type_name(ty), false),
            r,
            h,
        );
    }
}

/// One of the first `k` nodes shows the hint: a local its type, or a call the name of a
/// parameter.
pub open spec fn is_code_hint(
    intr: IntrinsicsView,
    t: Tree,
    scope: ScopeView,
    r: Range,
    s: Seq<char>,
    enc: PositionEncoding,
    k: int,
    h: InlayHintView,
) -> bool {
    ||| exists|n: usize| n < k && #[trigger] shows_type(t, n, scope, r, s, enc, h)
    ||| exists|n: usize, i: int| n < k && #[trigger] shows_parameter(intr, t, n, r, s, enc, i, h)
}

/// The hints of the locals and calls are exactly these: the type of each local that does not
/// say it, and the name of the parameter in front of each argument.
pub proof fn locals_and_arguments_are_hinted(
    intr: IntrinsicsView,
    t: Tree,
    scope: ScopeView,
    r: Range,
    s: Seq<char>,
    enc: PositionEncoding,
    k: int,
    h: InlayHintView,
)
    requires
        0 <= k <= t.size() <= usize::MAX,
    ensures
        code_hints_upto(intr, t, scope, r, s, enc, k).contains(h) <==> is_code_hint(
            intr,
            t,
            scope,
            r,
            s,
            enc,
            k,
            h,
        ),
    decreases k,
{
    if k > 0 {
        let n = (k - 1) as usize;
        locals_and_arguments_are_hinted(intr, t, scope, r, s, enc, k - 1, h);
        let rest = code_hints_upto(intr, t, scope, r, s, enc, k - 1);
        let here = match t.kind(n) {
            Kind::CallExpression => call_hints(intr, t, n, r, s, enc),
            Kind::LocalDeclaration => local_hint(t, n, scope, r, s, enc),
            _ => Seq::empty(),
        };
        lemma_either_holds(rest, here, h);
        if t.kind(n) == Kind::CallExpression {
            lemma_call_hints(intr, t, n, r, s, enc, h);
        }
        if t.kind(n) == Kind::LocalDeclaration {
            lemma_local_hint(t, n, scope, r, s, enc, h);
        }
        if here.contains(h) && t.kind(n) == Kind::CallExpression {
            let i = choose|i: int| shows_parameter(intr, t, n, r, s, enc, i, h);
            assert(shows_parameter(intr, t, n, r, s, enc, i, h));
        }
        if rest.contains(h) {
            if exists|m: usize| m < k - 1 && #[trigger] shows_type(t, m, scope, r, s, enc, h) {
                let m = choose|m: usize|
                    m < k - 1 && #[trigger] shows_type(t, m, scope, r, s, enc, h);
                assert(m < k && shows_type(t, m, scope, r, s, enc, h));
            } else {
                let (m, i) = choose|m: usize, i: int|
                    m < k - 1 && #[trigger] shows_parameter(intr, t, m, r, s, enc, i, h);
                assert(m < k && shows_parameter(intr, t, m, r, s, enc, i, h));
            }
        }
        if is_code_hint(intr, t, scope, r, s, enc, k, h) {
            if exists|m: usize| m < k && #[trigger] shows_type(t, m, scope, r, s, enc, h) {
                let m = choose|m: usize| m < k && #[trigger] shows_type(t, m, scope, r, s, enc, h);
                if m < k - 1 {
                    assert(shows_type(t, m, scope, r, s, enc, h));
                    assert(rest.contains(h));
                }
            } else {
                let (m, i) = choose|m: usize, i: int|
                    m < k && #[trigger] shows_parameter(intr, t, m, r, s, enc, i, h);
                if m < k - 1 {
                    assert(m < k - 1 && shows_parameter(intr, t, m, r, s, enc, i, h));
                    assert(rest.contains(h));
                } else {
                    assert(shows_parameter(intr, t, n, r, s, enc, i, h));
                }
            }
        }
    }
}

/// The hints of units are exactly those behind the references to symbols that have one.
pub proof fn units_are_hinted(
    t: Tree,
    scope: ScopeView,
    r: Range,
    s: Seq<char>,
    enc: PositionEncoding,
    k: int,
    h: InlayHintView,
)
    requires
        0 <= k <= t.size() <= usize::MAX,
    ensures
        unit_hints_upto(t, scope, r, s, enc, k).contains(h) <==> exists|n: usize|
            n < k && #[trigger] shows_unit(t, n, scope, r, s, enc, h),
    decreases k,
{
    if k > 0 {
        let n = (k - 1) as usize;
        units_are_hinted(t, scope, r, s, enc, k - 1, h);
        let rest = unit_hints_upto(t, scope, r, s, enc, k - 1);
        let here = unit_hint(t, n, scope, r, s, enc);
        lemma_either_holds(rest, here, h);
        if let Some(sym) = scope.symbol(t.text_of(n)) {
            if let Some(unit) = sym.unit {
                lemma_shown(
                    type_hint(position_of(s, t.end(n), enc), "["@ + unit + "]"@, true),
                    r,
                    h,
                );
            }
        }
        assert(here.contains(h) <==> shows_unit(t, n, scope, r, s, enc, h));
        if exists|m: usize| m < k && #[trigger] shows_unit(t, m, scope, r, s, enc, h) {
            let m = choose|m: usize| m < k && #[trigger] shows_unit(t, m, scope, r, s, enc, h);
            if m < k - 1 {
                assert(shows_unit(t, m, scope, r, s, enc, h));
            }
        }
        if rest.contains(h) {
            let m = choose|m: usize| m < k - 1 && #[trigger] shows_unit(t, m, scope, r, s, enc, h);
            assert(m < k && shows_unit(t, m, scope, r, s, enc, h));
        }
    }
}

/// The hints of values are exactly those behind the paths, read or written, whose symbol has
/// one.
pub proof fn values_are_hinted(
    t: Tree,
    ps: Seq<(usize, bool)>,
    scope: ScopeView,
    ctx: EvalInlayContextView,
    r: Range,
    s: Seq<char>,
    enc: PositionEncoding,
    k: int,
    h: InlayHintView,
)
    requires
        0 <= k <= ps.len(),
    ensures
        value_hints_upto(t, ps, scope, ctx, r, s, enc, k).contains(h) <==> exists|j: int|
            0 <= j < k && shows_value(t, (#[trigger] ps[j]).0, scope, ctx, r, s, enc, h),
    decreases k,
{
    if k > 0 {
        values_are_hinted(t, ps, scope, ctx, r, s, enc, k - 1, h);
        let n = ps[k - 1].0;
        let rest = value_hints_upto(t, ps, scope, ctx, r, s, enc, k - 1);
        let here = value_hint(t, n, scope, ctx, r, s, enc);
        lemma_either_holds(rest, here, h);
        if let Some(sym) = scope.symbol(t.text_of(n)) {
            if let Some(value) = ctx.trace.value(sym.path, ctx.tick) {
                let x = InlayHintView {
                    position: position_of(s, t.end(n), enc),
                    label: if ctx.offline {
                        "= "@ + value + "?"@
                    } else {
                        "= "@ + value
                    },
                    kind: InlayHintKind::Type,
                    tooltip: if ctx.offline {
                        Some(offline_note())
                    } else {
                        None
                    },
                    padding_left: true,
                    padding_right: false,
                };
                lemma_shown(x, r, h);
            }
        }
        assert(here.contains(h) <==> shows_value(t, n, scope, ctx, r, s, enc, h));
    }
}

/// The hints of a script are those of its code, and in a project those of its units and
/// values.
pub proof fn hints_are_those_of_the_code(
    intr: IntrinsicsView,
    t: Tree,
    scope: ScopeView,
    in_project: bool,
    eval: Option<EvalInlayContextView>,
    r: Range,
    s: Seq<char>,
    enc: PositionEncoding,
    h: InlayHintView,
)
    requires
        t.size() <= usize::MAX,
    ensures
        hints_of(intr, t, scope, in_project, eval, r, s, enc).contains(h) <==> {
            ||| is_code_hint(intr, t, scope, r, s, enc, t.size() as int, h)
            ||| in_project && exists|n: usize|
                n < t.size() && #[trigger] shows_unit(t, n, scope, r, s, enc, h)
            ||| in_project && eval is Some && exists|j: int|
                0 <= j < top_path_seq(t).len() && shows_value(
                    t,
                    (#[trigger] top_path_seq(t)[j]).0,
                    scope,
                    eval.unwrap(),
                    r,
                    s,
                    enc,
                    h,
                )
        },
{
    let n = t.size() as int;
    let code = code_hints_upto(intr, t, scope, r, s, enc, n);
    let units = unit_hints_upto(t, scope, r, s, enc, n);
    locals_and_arguments_are_hinted(intr, t, scope, r, s, enc, n, h);
    units_are_hinted(t, scope, r, s, enc, n, h);
    lemma_either_holds(code, units, h);
    if let Some(ctx) = eval {
        let ps = top_path_seq(t);
        values_are_hinted(t, ps, scope, ctx, r, s, enc, ps.len() as int, h);
        lemma_either_holds(
            code + units,
            value_hints_upto(t, ps, scope, ctx, r, s, enc, ps.len() as int),
            h,
        );
    }
}

/// The arguments of a call are its named expressions: names, calls, operations, literals and
/// interpolations.
pub proof fn expressions_are_arguments(t: Tree, ns: Seq<usize>, k: int, n: usize)
    requires
        0 <= k <= ns.len(),
    ensures
        arguments_upto(t, ns, k).contains(n) <==> ns.take(k).contains(n) && (t.kind(n)
            == Kind::Identifier || t.kind(n) == Kind::MemberExpression || t.kind(n)
            == Kind::CallExpression || t.kind(n) == Kind::UnaryExpression || t.kind(n)
            == Kind::BinaryExpression || t.kind(n) == Kind::TernaryExpression || t.kind(n)
            == Kind::ParenthesizedExpression || t.kind(n) == Kind::Number || t.kind(n)
            == Kind::Boolean || t.kind(n) == Kind::String || t.kind(n) == Kind::Interpolation),
    decreases k,
{
    let all = arguments_upto(t, ns, k);
    if k > 0 {
        expressions_are_arguments(t, ns, k - 1, n);
        let rest = arguments_upto(t, ns, k - 1);
        let m = ns[k - 1];
        lemma_taken_holds(ns, k, n);
        lemma_pushed_holds(rest, m, n);
    } else {
        assert(all =~= Seq::empty());
    }
}

/// The signature of a call is the first that has a parameter for every argument; where none
/// has, one that no other has more parameters than.
pub proof fn signatures_fit_the_arguments(ovs: Seq<OverloadView>, n: int, i: int)
    requires
        0 <= i < ovs.len(),
    ensures
        match chosen(ovs, n) {
            Some(o) => {
                &&& ovs.contains(o)
                &&& ovs[i].params.len() >= n ==> o.params.len() >= n
                &&& ovs[i].params.len() >= n && (forall|j: int|
                    0 <= j < i ==> (#[trigger] ovs[j]).params.len() < n) ==> o == ovs[i]
                &&& o.params.len() < n ==> ovs[i].params.len() <= o.params.len()
            },
            None => false,
        },
{
    lemma_first_wide(ovs, n, 0);
    lemma_widest(ovs, ovs.len() as int);
}

proof fn lemma_first_wide(ovs: Seq<OverloadView>, n: int, i: int)
    requires
        0 <= i <= ovs.len(),
    ensures
        match first_wide(ovs, n, i) {
            Some(o) => exists|k: int|
                i <= k < ovs.len() && #[trigger] ovs[k] == o && o.params.len() >= n && forall|j: int|
                    i <= j < k ==> (#[trigger] ovs[j]).params.len() < n,
            None => forall|j: int| i <= j < ovs.len() ==> (#[trigger] ovs[j]).params.len() < n,
        },
    decreases ovs.len() - i,
{
    if i < ovs.len() {
        if ovs[i].params.len() >= n {
            assert(ovs[i] == first_wide(ovs, n, i).unwrap());
        } else {
            lemma_first_wide(ovs, n, i + 1);
        }
    }
}

proof fn lemma_widest(ovs: Seq<OverloadView>, k: int)
    requires
        0 < k <= ovs.len(),
    ensures
        match widest_upto(ovs, k) {
            Some(o) => ovs.contains(o) && forall|j: int|
                0 <= j < k ==> (#[trigger] ovs[j]).params.len() <= o.params.len(),
            None => false,
        },
    decreases k,
{
    if k > 1 {
        lemma_widest(ovs, k - 1);
    } else {
        assert(widest_upto(ovs, 0) is None);
    }
    assert(ovs.contains(ovs[k - 1]));
}

/// A call is of the function of the library object in front of its last dot, where there is
/// such an object, and else of a method that every object has.
pub proof fn calls_are_of_library_functions(
    intr: IntrinsicsView,
    object: Seq<char>,
    name: Seq<char>,
    ov: OverloadView,
)
    requires
        !name.contains('.'),
    ensures
        (match intr.library_object(object) {
            Some(obj) => candidates(intr, object + "."@ + name).contains(ov) <==> obj.functions.contains(
                ov,
            ) && ov.name == name,
            None => candidates(intr, object + "."@ + name) == intr.object_method(name),
        }),
{
    lemma_cut_last(object, name);
    if let Some(obj) = intr.library_object(object) {
        lemma_named_overloads(obj.functions, name, obj.functions.len() as int, ov);
        assert(obj.functions.take(obj.functions.len() as int) =~= obj.functions);
    }
}

proof fn lemma_named_overloads(ovs: Seq<OverloadView>, name: Seq<char>, k: int, ov: OverloadView)
    requires
        0 <= k <= ovs.len(),
    ensures
        named_overloads(ovs, name, k).contains(ov) <==> ovs.take(k).contains(ov) && ov.name == name,
    decreases k,
{
    let all = named_overloads(ovs, name, k);
    if k > 0 {
        lemma_named_overloads(ovs, name, k - 1, ov);
        let rest = named_overloads(ovs, name, k - 1);
        let m = ovs[k - 1];
        lemma_taken_holds(ovs, k, ov);
        lemma_pushed_holds(rest, m, ov);
    } else {
        assert(all =~= Seq::empty());
    }
}

} // verus!
