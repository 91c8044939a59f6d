//! Descriptions of what stands under the cursor.
pub mod enums;
pub mod intrinsics;
pub mod keywords;
pub mod symbol;

use crate::eval::{Provenance, TickPolicy, Trace, TraceView};
use crate::hover::enums::{
    enum_literal_head_markdown, enum_member_markdown, enum_member_text, enum_type_markdown,
    enum_type_text, literal_head_text,
};
use crate::hover::intrinsics::{
    builtin_fn_markdown, builtin_object_markdown, builtin_object_text, function_text, method_text,
    object_method_markdown,
};
use crate::hover::keywords::{
    anchor_doc, keyword_doc, language_keyword_doc, primitive_doc, primitive_type_doc,
    reference_keyword_doc,
};
use crate::hover::symbol::{symbol_markdown, symbol_text, value_type_name, value_type_str};
use crate::line_index::{LineIndex, PositionEncoding, Range, range, range_of};
use crate::locate::{
    dotted, dotted_prefix, dotted_through, node_at, node_at_byte, path_at_byte, path_node,
    segment_at_byte, segment_nodes, segments, touched,
};
use crate::model::{
    Intrinsics, IntrinsicsView, Project, ProjectView, Resolution, ResolutionView, Scope,
    ScopeView,
};
use crate::search::begins;
use crate::syntax::{Kind, SyntaxTree, Tree};
use vstd::prelude::*;
use vstd::string::*;

verus! {

/// The computed values that a hover can show. The lines of the trace are already rendered for
/// the run's inputs and for the tick.
#[derive(Clone, Copy)]
pub struct EvalContext<'a> {
    pub trace: &'a Trace,
    /// Where the inputs of the run come from that the trace's lines speak of.
    pub provenance: &'a Provenance,
    /// The tick whose values the trace's lines say.
    pub tick: TickPolicy,
    /// Whether the offsets of expressions are those of the open document: they are those of
    /// the script as it was saved.
    pub expr_offsets_valid: bool,
}

/// What an [`EvalContext`] stands for.
pub struct EvalContextView {
    pub trace: TraceView,
    pub expr_offsets_valid: bool,
}

impl<'a> DeepView for EvalContext<'a> {
    type V = EvalContextView;

    open spec fn deep_view(&self) -> EvalContextView {
        EvalContextView {
            trace: self.trace.deep_view(),
            expr_offsets_valid: self.expr_offsets_valid,
        }
    }
}

/// A description in Markdown, and the range that it is about.
#[derive(Debug)]
pub struct Hover {
    pub value: String,
    pub range: Range,
}

/// What a [`Hover`] stands for.
pub struct HoverView {
    pub value: Seq<char>,
    pub range: Range,
}

impl DeepView for Hover {
    type V = HoverView;

    open spec fn deep_view(&self) -> HoverView {
        HoverView {
            value: self.value.deep_view(),
            range: self.range,
        }
    }
}

/// The segment of the path at byte `b` that the cursor is on: the path's segments, and the
/// index of that one.
pub open spec fn hovered(t: Tree, b: int) -> Option<(Seq<usize>, int)> {
    match path_node(t, b) {
        Some(top) => {
            let segs = segments(t, top);
            if segs.len() == 0 {
                None
            } else {
                match touched(t, segs, b, 0) {
                    Some(i) => Some((segs, i as int)),
                    None => Some((segs, segs.len() - 1)),
                }
            }
        },
        None => None,
    }
}

/// A method can be called on what this stands for.
pub open spec fn has_methods(r: ResolutionView) -> bool {
    match r {
        ResolutionView::Symbol(_)
        | ResolutionView::Opaque
        | ResolutionView::BuiltinObject(_)
        | ResolutionView::Local(_) => true,
        _ => false,
    }
}

/// The description of a segment that names no project symbol: a method of what stands in
/// front of it, a member of an enumeration, an enumeration, or a built-in symbol.
pub open spec fn opaque_text(
    t: Tree,
    segs: Seq<usize>,
    i: int,
    project: Option<ProjectView>,
    intr: IntrinsicsView,
    scope: ScopeView,
) -> Option<Seq<char>> {
    let name = t.text_of(segs[i]);
    let prefix = dotted(t, segs, i + 1);
    let methods = intr.object_method(name);
    let before = if i > 0 {
        Some(t.text_of(segs[i - 1]))
    } else {
        None
    };
    if i > 0 && has_methods(scope.resolve(dotted(t, segs, i))) && methods.len() > 0 {
        Some(method_text(name, methods))
    } else if enum_member_text(before, name, project) is Some {
        enum_member_text(before, name, project)
    } else if enum_type_text(name, project) is Some {
        enum_type_text(name, project)
    } else if scope.resolve(prefix) == ResolutionView::Opaque {
        Some("**"@ + prefix + "**\n\nbuilt-in symbol — type not modelled"@)
    } else {
        None
    }
}

/// What the segment stands for, described: and whether that says its computed value.
pub open spec fn resolved_text(
    t: Tree,
    segs: Seq<usize>,
    i: int,
    project: Option<ProjectView>,
    intr: IntrinsicsView,
    scope: ScopeView,
    eval: Option<EvalContextView>,
) -> Option<(Seq<char>, bool)> {
    let prefix = dotted(t, segs, i + 1);
    match scope.resolve(prefix) {
        ResolutionView::Local(ty) => Some(
            ("**"@ + prefix + "** `local`\n\ntype: `"@ + value_type_name(ty) + "`"@, false),
        ),
        ResolutionView::Symbol(sym) => {
            let md = symbol_text(sym, project, intr);
            let line = match eval {
                Some(ctx) => ctx.trace.channel_line(sym.path),
                None => None,
            };
            match line {
                Some(l) => Some((md + l, true)),
                None => Some((md, false)),
            }
        },
        ResolutionView::BuiltinObject(name) => Some((builtin_object_text(name, intr), false)),
        ResolutionView::BuiltinFn(ovs) => Some((function_text(prefix, ovs), false)),
        ResolutionView::Opaque | ResolutionView::Unresolved => match opaque_text(
            t,
            segs,
            i,
            project,
            intr,
            scope,
        ) {
            Some(md) => Some((md, false)),
            None => None,
        },
    }
}

/// The description of segment `i`: and whether it says the computed value.
pub open spec fn segment_text(
    t: Tree,
    segs: Seq<usize>,
    i: int,
    project: Option<ProjectView>,
    intr: IntrinsicsView,
    scope: ScopeView,
    eval: Option<EvalContextView>,
) -> Option<(Seq<char>, bool)> {
    let name = t.text_of(segs[i]);
    if t.parent_kind(segs[i]) == Some(Kind::TypeAnnotation) && primitive_doc(name) is Some {
        Some((primitive_doc(name).unwrap(), false))
    } else if i == 0 && anchor_doc(name) is Some {
        Some((anchor_doc(name).unwrap(), false))
    } else {
        match literal_head_text(t, segs, i, project, scope) {
            Some(md) => Some((md, false)),
            None => resolved_text(t, segs, i, project, intr, scope, eval),
        }
    }
}

/// The value line of the expression at byte `start` of the script.
pub open spec fn expression_line(
    eval: Option<EvalContextView>,
    file_name: Option<Seq<char>>,
    start: usize,
) -> Option<Seq<char>> {
    match (eval, file_name) {
        (Some(ctx), Some(name)) => if ctx.expr_offsets_valid {
            ctx.trace.expr_line(name, start)
        } else {
            None
        },
        _ => None,
    }
}

/// The hover at byte `b`.
pub open spec fn hover_at(
    t: Tree,
    b: int,
    project: Option<ProjectView>,
    file_name: Option<Seq<char>>,
    intr: IntrinsicsView,
    scope: ScopeView,
    s: Seq<char>,
    enc: PositionEncoding,
    eval: Option<EvalContextView>,
) -> Option<HoverView> {
    match node_at(t, b) {
        Some(n) if keyword_doc(t.kind(n)) is Some => Some(
            HoverView {
                value: keyword_doc(t.kind(n)).unwrap(),
                range: range_of(s, t.start(n), t.end(n), enc),
            },
        ),
        _ => match hovered(t, b) {
            Some((segs, i)) => {
                let seg = segs[i];
                match segment_text(t, segs, i, project, intr, scope, eval) {
                    Some((md, has_value)) => {
                        let line = expression_line(
                            eval,
                            file_name,
                            t.nodes[seg as int].start,
                        );
                        Some(
                            HoverView {
                                value: if !has_value && line is Some {
                                    md + line.unwrap()
                                } else {
                                    md
                                },
                                range: range_of(s, t.start(seg), t.end(seg), enc),
                            },
                        )
                    },
                    None => None,
                }
            },
            None => None,
        },
    }
}

fn opaque_markdown(
    tree: &SyntaxTree,
    segs: &Vec<usize>,
    i: usize,
    project: Option<&Project>,
    intr: &Intrinsics,
    scope: &Scope,
) -> (r: Option<String>)
    requires
        i < segs@.len(),
        forall|j: int| 0 <= j < segs@.len() ==> tree@.has(#[trigger] segs@[j]),
    ensures
        r.deep_view() == opaque_text(
            tree@,
            segs@,
            i as int,
            project.deep_view(),
            intr.deep_view(),
            scope.deep_view(),
        ),
{
    let name = tree.text_of(segs[i]);
    let methods = intr.object_method(name.as_str());
    assert(methods.deep_view().len() == methods@.len());
    if i > 0 && methods.len() > 0 {
        let bound = match scope.resolve(dotted_prefix(tree, segs, i).as_str()) {
            Some(Resolution::Symbol(_))
            | Some(Resolution::Opaque)
            | Some(Resolution::BuiltinObject(_))
            | Some(Resolution::Local(_)) => true,
            _ => false,
        };
        if bound {
            return Some(object_method_markdown(name.as_str(), &methods));
        }
    }
    let text;
    let before = if i > 0 {
        text = tree.text_of(segs[i - 1]);
        Some(text.as_str())
    } else {
        None
    };
    if let Some(md) = enum_member_markdown(before, name.as_str(), project) {
        return Some(md);
    }
    if let Some(md) = enum_type_markdown(name.as_str(), project) {
        return Some(md);
    }
    let prefix = dotted_through(tree, segs, i);
    match scope.resolve(prefix.as_str()) {
        Some(Resolution::Opaque) => {
            let mut s = "**".to_string();
            s.append(prefix.as_str());
            s.append("**\n\nbuilt-in symbol — type not modelled");
            Some(s)
        },
        _ => None,
    }
}

fn resolved_markdown(
    tree: &SyntaxTree,
    segs: &Vec<usize>,
    i: usize,
    project: Option<&Project>,
    intr: &Intrinsics,
    scope: &Scope,
    eval: Option<EvalContext>,
) -> (r: Option<(String, bool)>)
    requires
        i < segs@.len(),
        forall|j: int| 0 <= j < segs@.len() ==> tree@.has(#[trigger] segs@[j]),
    ensures
        r.deep_view() == resolved_text(
            tree@,
            segs@,
            i as int,
            project.deep_view(),
            intr.deep_view(),
            scope.deep_view(),
            eval.deep_view(),
        ),
{
    let prefix = dotted_through(tree, segs, i);
    match scope.resolve(prefix.as_str()) {
        Some(Resolution::Local(ty)) => {
            let mut s = "**".to_string();
            s.append(prefix.as_str());
            s.append("** `local`\n\ntype: `");
            s.append(value_type_str(*ty));
            s.append("`");
            Some((s, false))
        },
        Some(Resolution::Symbol(sym)) => {
            let mut md = symbol_markdown(sym, project, intr);
            let mut has_value = false;
            if let Some(ctx) = eval {
                if let Some(line) = ctx.trace.channel_line(sym.path.as_str()) {
                    md.append(line.as_str());
                    has_value = true;
                }
            }
            Some((md, has_value))
        },
        Some(Resolution::BuiltinObject(name)) => Some(
            (builtin_object_markdown(name.as_str(), intr), false),
        ),
        Some(Resolution::BuiltinFn(ovs)) => Some(
            (builtin_fn_markdown(prefix.as_str(), ovs), false),
        ),
        Some(Resolution::Opaque) | Some(Resolution::Unresolved) | None => match opaque_markdown(
            tree,
            segs,
            i,
            project,
            intr,
            scope,
        ) {
            Some(md) => Some((md, false)),
            None => None,
        },
    }
}

fn segment_markdown(
    tree: &SyntaxTree,
    segs: &Vec<usize>,
    i: usize,
    project: Option<&Project>,
    intr: &Intrinsics,
    scope: &Scope,
    eval: Option<EvalContext>,
) -> (r: Option<(String, bool)>)
    requires
        i < segs@.len(),
        forall|j: int| 0 <= j < segs@.len() ==> tree@.has(#[trigger] segs@[j]),
    ensures
        r.deep_view() == segment_text(
            tree@,
            segs@,
            i as int,
            project.deep_view(),
            intr.deep_view(),
            scope.deep_view(),
            eval.deep_view(),
        ),
{
    let seg: usize = segs[i];
    let name = tree.text_of(seg);
    let in_annotation = match tree.parent(seg) {
        Some(p) => tree.kind(p) == Kind::TypeAnnotation,
        None => false,
    };
    if in_annotation {
        if let Some(doc) = primitive_type_doc(name.as_str()) {
            return Some((doc.to_string(), false));
        }
    }
    if i == 0 {
        if let Some(doc) = reference_keyword_doc(name.as_str()) {
            return Some((doc.to_string(), false));
        }
    }
    match enum_literal_head_markdown(tree, segs, i, project, scope) {
        Some(md) => Some((md, false)),
        None => resolved_markdown(tree, segs, i, project, intr, scope, eval),
    }
}

/// The description of what stands at `byte`. `scope` is the script's scope, `file_name` its
/// name, and `project` the project that it belongs to, if one is loaded.
pub fn hover(
    tree: &SyntaxTree,
    byte: usize,
    project: Option<&Project>,
    file_name: Option<&str>,
    intr: &Intrinsics,
    scope: &Scope,
    li: &LineIndex,
    enc: PositionEncoding,
) -> (r: Option<Hover>)
    ensures
        r.deep_view() == hover_at(
            tree@,
            byte as int,
            project.deep_view(),
            file_name.deep_view(),
            intr.deep_view(),
            scope.deep_view(),
            li@,
            enc,
            None,
        ),
{
    hover_with_eval(tree, byte, project, file_name, intr, scope, li, enc, None)
}

/// Like [`hover`], and the computed value: of a project symbol, or else of the expression
/// that starts with the segment.
pub fn hover_with_eval(
    tree: &SyntaxTree,
    byte: usize,
    project: Option<&Project>,
    file_name: Option<&str>,
    intr: &Intrinsics,
    scope: &Scope,
    li: &LineIndex,
    enc: PositionEncoding,
    eval: Option<EvalContext>,
) -> (r: Option<Hover>)
    ensures
        r.deep_view() == hover_at(
            tree@,
            byte as int,
            project.deep_view(),
            file_name.deep_view(),
            intr.deep_view(),
            scope.deep_view(),
            li@,
            enc,
            eval.deep_view(),
        ),
{
    if let Some(n) = node_at_byte(tree, byte) {
        if let Some(doc) = language_keyword_doc(tree.kind(n)) {
            let d = tree.node(n);
            return Some(Hover { value: doc.to_string(), range: range(d.start, d.end, li, enc) });
        }
    }
    let top: usize = match path_at_byte(tree, byte) {
        Some((top, path)) => top,
        None => {
            return None;
        },
    };
    let segs = segment_nodes(tree, top);
    if segs.len() == 0 {
        return None;
    }
    let i: usize = match segment_at_byte(tree, top, byte) {
        Some(i) => i,
        None => segs.len() - 1,
    };
    let seg: usize = segs[i];
    let (mut md, has_value) = match segment_markdown(tree, &segs, i, project, intr, scope, eval) {
        Some(m) => m,
        None => {
            return None;
        },
    };
    let d = tree.node(seg);
    if let Some(ctx) = eval {
        if ctx.expr_offsets_valid && !has_value {
            if let Some(name) = file_name {
                if let Some(line) = ctx.trace.expr_line(name, d.start) {
                    md.append(line.as_str());
                }
            }
        }
    }
    Some(Hover { value: md, range: range(d.start, d.end, li, enc) })
}

// ---------------------------------------------------------------------------
// Laws
// ---------------------------------------------------------------------------

/// Values come behind what a hover says without them: the same places have a hover, over
/// the same range, and its description starts with the same words.
pub proof fn values_only_add(
    t: Tree,
    b: int,
    project: Option<ProjectView>,
    file_name: Option<Seq<char>>,
    intr: IntrinsicsView,
    scope: ScopeView,
    s: Seq<char>,
    enc: PositionEncoding,
    eval: Option<EvalContextView>,
)
    ensures
        match (
            hover_at(t, b, project, file_name, intr, scope, s, enc, None),
            hover_at(t, b, project, file_name, intr, scope, s, enc, eval),
        ) {
            (Some(plain), Some(full)) => plain.range == full.range && begins(
                full.value,
                plain.value,
            ),
            (None, None) => true,
            _ => false,
        },
{
    let plain = hover_at(t, b, project, file_name, intr, scope, s, enc, None);
    let full = hover_at(t, b, project, file_name, intr, scope, s, enc, eval);
    if let (Some(p), Some(f)) = (plain, full) {
        assert(f.value.subrange(0, p.value.len() as int) =~= p.value);
    }
}

/// A language keyword is described the same way everywhere.
pub proof fn keywords_come_first(
    t: Tree,
    b: int,
    n: usize,
    project: Option<ProjectView>,
    file_name: Option<Seq<char>>,
    intr: IntrinsicsView,
    scope: ScopeView,
    s: Seq<char>,
    enc: PositionEncoding,
    eval: Option<EvalContextView>,
)
    requires
        node_at(t, b) == Some(n),
        keyword_doc(t.kind(n)) is Some,
    ensures
        hover_at(t, b, project, file_name, intr, scope, s, enc, eval) == Some(
            HoverView {
                value: keyword_doc(t.kind(n)).unwrap(),
                range: range_of(s, t.start(n), t.end(n), enc),
            },
        ),
{
}

} // verus!
