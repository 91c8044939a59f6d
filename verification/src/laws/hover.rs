//! What a hover says.
use crate::eval::{expr_line_at, ExprLineView};
use crate::format::{compact, decimal, hexadecimal, signed_decimal};
use crate::hover::{EvalContextView, hover_at, hovered, opaque_text};
use crate::hover::enums::{enum_member_text, enum_type_text, literal_head_text, member_owner};
use crate::hover::intrinsics::{
    builtin_object_text, function_text, method_text, with_doc, with_signatures,
};
use crate::hover::keywords::{anchor_doc, keyword_doc, primitive_doc};
use crate::hover::symbol::{
    and_line, axis_sizes, axis_units, bits_text, by_value_upto, class_summary, header_text,
    insert_member, kind_name, member_label, member_labels, members_text, message_text,
    object_text, range_text, scale_text, signal_text, symbol_enum, symbol_text, table_text,
    ticked, type_text, value_type_name, values_text, with_badges,
};
use crate::intrinsics_render::{signature_of, typed_params};
use crate::laws::{
    lemma_begins, lemma_holds, lemma_holds_back, lemma_holds_behind, lemma_holds_between,
    lemma_holds_front, lemma_joined_holds,
};
use crate::line_index::{PositionEncoding, range_of};
use crate::locate::{dotted, node_at};
use crate::model::{
    CanMetaView, EnumTypeView, IntrinsicsView, LibraryObjectView, OverloadView, ParamView,
    ProjectView, ResolutionView, ScopeView, Symbol, SymbolKind, SymbolView, TableAxisView,
    TableMetaView, value_of, ValueType,
};
use crate::search::{
    begins, cut_last, ends, first_index, first_match, has, joined, last_index, lemma_first_index,
    lemma_first_match, lemma_last_index,
};
use crate::syntax::{Kind, Tree};
use vstd::prelude::*;
use vstd::string::*;

verus! {

// ---------------------------------------------------------------------------
// Names of types and kinds
// ---------------------------------------------------------------------------

/// A value type goes by its name.
pub proof fn types_have_their_names(id: usize)
    ensures
        value_type_name(ValueType::Boolean) == "Boolean"@,
        value_type_name(ValueType::Integer) == "Integer"@,
        value_type_name(ValueType::Unsigned) == "Unsigned"@,
        value_type_name(ValueType::Float) == "Float"@,
        value_type_name(ValueType::Enum(id)) == "Enum"@,
        value_type_name(ValueType::String) == "String"@,
        value_type_name(ValueType::Unknown) == "Unknown"@,
{
}

/// The name of a type says which type it is, up to which enumeration.
pub proof fn type_names_tell_types_apart(a: ValueType, b: ValueType)
    requires
        !(a is Enum && b is Enum),
        value_type_name(a) == value_type_name(b),
    ensures
        a == b,
{
    reveal_strlit("Boolean");
    reveal_strlit("Integer");
    reveal_strlit("Unsigned");
    reveal_strlit("Float");
    reveal_strlit("Enum");
    reveal_strlit("String");
    reveal_strlit("Unknown");
    let x = value_type_name(a);
    let y = value_type_name(b);
    assert(x.len() == y.len() && x[0] == y[0]);
}

/// A symbol kind goes by its name.
pub proof fn kinds_have_their_names()
    ensures
        kind_name(SymbolKind::Channel) == "channel"@,
        kind_name(SymbolKind::Parameter) == "parameter"@,
        kind_name(SymbolKind::Constant) == "constant"@,
        kind_name(SymbolKind::Function) == "function"@,
        kind_name(SymbolKind::Method) == "method"@,
        kind_name(SymbolKind::Table) == "table"@,
        kind_name(SymbolKind::Group) == "group"@,
        kind_name(SymbolKind::Reference) == "reference"@,
        kind_name(SymbolKind::Object) == "object"@,
        kind_name(SymbolKind::Other) == "symbol"@,
{
}

/// The name of a kind says which kind it is.
pub proof fn kind_names_tell_kinds_apart(a: SymbolKind, b: SymbolKind)
    requires
        kind_name(a) == kind_name(b),
    ensures
        a == b,
{
    reveal_strlit("channel");
    reveal_strlit("parameter");
    reveal_strlit("constant");
    reveal_strlit("function");
    reveal_strlit("method");
    reveal_strlit("table");
    reveal_strlit("group");
    reveal_strlit("reference");
    reveal_strlit("object");
    reveal_strlit("symbol");
    let x = kind_name(a);
    let y = kind_name(b);
    assert(x.len() == y.len() && x[0] == y[0] && x[1] == y[1]);
}

// ---------------------------------------------------------------------------
// Symbols
// ---------------------------------------------------------------------------

/// The symbol is described by its type: it is neither an object nor a table of known shape.
pub open spec fn is_typed(sym: SymbolView) -> bool {
    sym.kind != SymbolKind::Object && (sym.kind == SymbolKind::Table ==> sym.table_meta is None)
}

/// The hover of a symbol starts with its path and its kind.
pub proof fn hovers_start_with_path_and_kind(
    sym: SymbolView,
    project: Option<ProjectView>,
    intr: IntrinsicsView,
)
    ensures
        begins(
            symbol_text(sym, project, intr),
            "**"@ + sym.path + "** `"@ + kind_name(sym.kind) + "`\n\n"@,
        ),
{
    let head = header_text(sym);
    if sym.kind == SymbolKind::Object {
        lemma_begins(head, object_text(sym, intr));
    } else if sym.kind == SymbolKind::Table && sym.table_meta is Some {
        lemma_begins(head, table_text(sym.table_meta.unwrap()));
    } else {
        let s0 = head + type_text(sym, project);
        let s1 = with_badges(s0, sym);
        let s2 = match values_text(sym, project) {
            Some(values) => s1 + "\n\nvalues: "@ + values,
            None => s1,
        };
        lemma_begins(head, type_text(sym, project));
        lemma_badges_begin(s0, sym);
        lemma_begins_all(s1, s0, head);
        lemma_begins_self(s1);
        if let Some(values) = values_text(sym, project) {
            lemma_begins(s1, "\n\nvalues: "@);
            lemma_begins(s1 + "\n\nvalues: "@, values);
            lemma_begins_all(s2, s1 + "\n\nvalues: "@, s1);
        }
        lemma_begins_all(s2, s1, head);
        if let Some(signal) = signal_text(sym, project) {
            lemma_begins(s2, "\n\n"@);
            lemma_begins(s2 + "\n\n"@, signal);
            lemma_begins_all(s2 + "\n\n"@ + signal, s2 + "\n\n"@, s2);
            lemma_begins_all(s2 + "\n\n"@ + signal, s2, head);
        }
    }
}

proof fn lemma_begins_self(a: Seq<char>)
    ensures
        begins(a, a),
{
    assert(a.subrange(0, a.len() as int) =~= a);
}

proof fn lemma_begins_all(a: Seq<char>, b: Seq<char>, c: Seq<char>)
    requires
        begins(a, b),
        begins(b, c),
    ensures
        begins(a, c),
{
    assert(a.subrange(0, c.len() as int) =~= a.subrange(0, b.len() as int).subrange(
        0,
        c.len() as int,
    ));
}

proof fn lemma_one_badge(s: Seq<char>, name: Seq<char>, value: Seq<char>, tail: Seq<char>)
    ensures
        begins(s + name + value + tail, s),
        s + name + value + tail == s + (name + value + tail),
{
    assert(s + name + value + tail =~= s + (name + value + tail));
    lemma_begins(s, name + value + tail);
}

proof fn lemma_badges_begin(s: Seq<char>, sym: SymbolView)
    ensures
        begins(with_badges(s, sym), s),
        sym.unit is Some ==> begins(
            with_badges(s, sym),
            badge_before(s, sym, 0) + ("  ·  unit: `"@ + sym.unit.unwrap() + "`"@),
        ),
        sym.security is Some ==> begins(
            with_badges(s, sym),
            badge_before(s, sym, 1) + ("  ·  security: `"@ + sym.security.unwrap() + "`"@),
        ),
        sym.call_rate is Some ==> begins(
            with_badges(s, sym),
            badge_before(s, sym, 2) + ("  ·  call rate: `"@ + compact(
                sym.call_rate.unwrap().fixed,
            ) + " Hz`"@),
        ),
        sym.log_rate is Some ==> begins(
            with_badges(s, sym),
            badge_before(s, sym, 3) + ("  ·  log rate: `"@ + compact(sym.log_rate.unwrap().fixed)
                + " Hz`"@),
        ),
        sym.tags.len() > 0 ==> with_badges(s, sym) == badge_before(s, sym, 4) + "  ·  tags: "@
            + joined(ticked(sym.tags, sym.tags.len() as int), " "@),
{
    let s1 = badge_before(s, sym, 1);
    let s2 = badge_before(s, sym, 2);
    let s3 = badge_before(s, sym, 3);
    let s4 = badge_before(s, sym, 4);
    let full = with_badges(s, sym);
    lemma_begins_self(s);
    lemma_begins_self(s1);
    lemma_begins_self(s2);
    lemma_begins_self(s3);
    lemma_begins_self(s4);
    if let Some(unit) = sym.unit {
        lemma_one_badge(s, "  ·  unit: `"@, unit, "`"@);
    }
    if let Some(level) = sym.security {
        lemma_one_badge(s1, "  ·  security: `"@, level, "`"@);
    }
    if let Some(hz) = sym.call_rate {
        lemma_one_badge(s2, "  ·  call rate: `"@, compact(hz.fixed), " Hz`"@);
    }
    if let Some(hz) = sym.log_rate {
        lemma_one_badge(s3, "  ·  log rate: `"@, compact(hz.fixed), " Hz`"@);
    }
    if sym.tags.len() > 0 {
        let tags = joined(ticked(sym.tags, sym.tags.len() as int), " "@);
        lemma_begins(s4, "  ·  tags: "@);
        lemma_begins(s4 + "  ·  tags: "@, tags);
        lemma_begins_all(full, s4 + "  ·  tags: "@, s4);
    }
    lemma_begins_all(full, s4, s3);
    lemma_begins_all(full, s3, s2);
    lemma_begins_all(full, s2, s1);
    lemma_begins_all(full, s1, s);
}

/// The text in front of badge `k`: the unit, the access level, the two rates and the tags.
spec fn badge_before(s: Seq<char>, sym: SymbolView, k: int) -> Seq<char> {
    let s1 = match sym.unit {
        Some(unit) => s + "  ·  unit: `"@ + unit + "`"@,
        None => s,
    };
    let s2 = match sym.security {
        Some(level) => s1 + "  ·  security: `"@ + level + "`"@,
        None => s1,
    };
    let s3 = match sym.call_rate {
        Some(hz) => s2 + "  ·  call rate: `"@ + compact(hz.fixed) + " Hz`"@,
        None => s2,
    };
    let s4 = match sym.log_rate {
        Some(hz) => s3 + "  ·  log rate: `"@ + compact(hz.fixed) + " Hz`"@,
        None => s3,
    };
    if k == 0 {
        s
    } else if k == 1 {
        s1
    } else if k == 2 {
        s2
    } else if k == 3 {
        s3
    } else {
        s4
    }
}

proof fn lemma_badges_keep(s: Seq<char>, sym: SymbolView, p: Seq<char>)
    requires
        has(s, p),
    ensures
        has(with_badges(s, sym), p),
{
    let full = with_badges(s, sym);
    lemma_badges_begin(s, sym);
    let rest = full.skip(s.len() as int);
    assert(full =~= full.subrange(0, s.len() as int) + rest);
    lemma_holds_front(s, rest, p);
}

proof fn lemma_symbol_text_keeps(
    sym: SymbolView,
    project: Option<ProjectView>,
    intr: IntrinsicsView,
    p: Seq<char>,
)
    requires
        is_typed(sym),
        has(with_badges(header_text(sym) + type_text(sym, project), sym), p),
    ensures
        has(symbol_text(sym, project, intr), p),
{
    let s1 = with_badges(header_text(sym) + type_text(sym, project), sym);
    let full = symbol_text(sym, project, intr);
    let rest = full.skip(s1.len() as int);
    assert(full =~= s1 + rest);
    lemma_holds_front(s1, rest, p);
}

/// The hover of a symbol says its type: an enumeration of the project by its name, any other
/// type by the name of the type, and where the type is not known, what was declared.
pub proof fn hovers_say_the_type(sym: SymbolView, project: Option<ProjectView>, intr: IntrinsicsView)
    requires
        is_typed(sym),
    ensures
        (match (sym.value_type, project) {
            (ValueType::Enum(id), Some(p)) => id < p.enums.len() ==> has(
                symbol_text(sym, project, intr),
                "type: `Enum ("@ + p.enums[id as int].name + ")`"@,
            ),
            _ => has(
                symbol_text(sym, project, intr),
                "type: `"@ + value_type_name(sym.value_type) + "`"@,
            ),
        }),
        sym.value_type == ValueType::Unknown && sym.declared_type is Some ==> has(
            symbol_text(sym, project, intr),
            "(declared: `"@ + sym.declared_type.unwrap() + "`, not resolved by the model)"@,
        ),
        sym.value_type == ValueType::Unknown && sym.declared_type is None ==> has(
            symbol_text(sym, project, intr),
            "(no type declared — not inferred)"@,
        ),
{
    let head = header_text(sym);
    let ty = type_text(sym, project);
    let wanted = match symbol_enum(sym, project) {
        Some(e) => "type: `"@ + "Enum ("@ + e.name + ")"@ + "`"@,
        None => "type: `"@ + value_type_name(sym.value_type) + "`"@,
    };
    if let Some(e) = symbol_enum(sym, project) {
        reveal_strlit("type: `");
        reveal_strlit("Enum (");
        reveal_strlit("type: `Enum (");
        reveal_strlit(")");
        reveal_strlit("`");
        reveal_strlit(")`");
        assert("type: `"@ + "Enum ("@ =~= "type: `Enum ("@);
        assert(")"@ + "`"@ =~= ")`"@);
        assert(wanted =~= "type: `Enum ("@ + e.name + ")`"@);
    }
    let rest = ty.skip(wanted.len() as int);
    assert(ty =~= wanted + rest);
    assert(head + ty =~= head + wanted + rest);
    lemma_holds_between(head, wanted, rest);
    lemma_badges_keep(head + ty, sym, wanted);
    lemma_symbol_text_keeps(sym, project, intr, wanted);
    if sym.value_type == ValueType::Unknown {
        let note = match sym.declared_type {
            Some(decl) => "(declared: `"@ + decl + "`, not resolved by the model)"@,
            None => "(no type declared — not inferred)"@,
        };
        reveal_strlit(" (declared: `");
        reveal_strlit("(declared: `");
        reveal_strlit(" (no type declared — not inferred)");
        reveal_strlit("(no type declared — not inferred)");
        reveal_strlit(" ");
        assert(" "@ + "(declared: `"@ =~= " (declared: `"@);
        assert(" "@ + "(no type declared — not inferred)"@
            =~= " (no type declared — not inferred)"@);
        assert(ty =~= wanted + " "@ + note);
        assert(head + ty =~= (head + wanted + " "@) + note);
        lemma_holds_back(head + wanted + " "@, note);
        lemma_badges_keep(head + ty, sym, note);
        lemma_symbol_text_keeps(sym, project, intr, note);
    }
}

/// The hover of a symbol says its unit, its access level, its rates and its tags.
pub proof fn hovers_say_the_badges(
    sym: SymbolView,
    project: Option<ProjectView>,
    intr: IntrinsicsView,
    i: int,
)
    requires
        is_typed(sym),
    ensures
        sym.unit is Some ==> has(
            symbol_text(sym, project, intr),
            "unit: `"@ + sym.unit.unwrap() + "`"@,
        ),
        sym.security is Some ==> has(
            symbol_text(sym, project, intr),
            "security: `"@ + sym.security.unwrap() + "`"@,
        ),
        sym.call_rate is Some ==> has(
            symbol_text(sym, project, intr),
            "call rate: `"@ + compact(sym.call_rate.unwrap().fixed) + " Hz`"@,
        ),
        sym.log_rate is Some ==> has(
            symbol_text(sym, project, intr),
            "log rate: `"@ + compact(sym.log_rate.unwrap().fixed) + " Hz`"@,
        ),
        0 <= i < sym.tags.len() ==> has(
            symbol_text(sym, project, intr),
            "`"@ + sym.tags[i] + "`"@,
        ),
{
    let s = header_text(sym) + type_text(sym, project);
    lemma_badges_begin(s, sym);
    if let Some(unit) = sym.unit {
        reveal_strlit("  ·  unit: `");
        reveal_strlit("unit: `");
        reveal_strlit("  ·  ");
        assert("  ·  "@ + "unit: `"@ =~= "  ·  unit: `"@);
        let p = "unit: `"@ + unit + "`"@;
        assert("  ·  unit: `"@ + unit + "`"@ =~= "  ·  "@ + p);
        lemma_badge(badge_before(s, sym, 0), p, sym, project, intr);
    }
    if let Some(level) = sym.security {
        reveal_strlit("  ·  security: `");
        reveal_strlit("security: `");
        reveal_strlit("  ·  ");
        assert("  ·  "@ + "security: `"@ =~= "  ·  security: `"@);
        let p = "security: `"@ + level + "`"@;
        assert("  ·  security: `"@ + level + "`"@ =~= "  ·  "@ + p);
        lemma_badge(badge_before(s, sym, 1), p, sym, project, intr);
    }
    if let Some(hz) = sym.call_rate {
        reveal_strlit("  ·  call rate: `");
        reveal_strlit("call rate: `");
        reveal_strlit("  ·  ");
        assert("  ·  "@ + "call rate: `"@ =~= "  ·  call rate: `"@);
        let p = "call rate: `"@ + compact(hz.fixed) + " Hz`"@;
        assert("  ·  call rate: `"@ + compact(hz.fixed) + " Hz`"@ =~= "  ·  "@ + p);
        lemma_badge(badge_before(s, sym, 2), p, sym, project, intr);
    }
    if let Some(hz) = sym.log_rate {
        reveal_strlit("  ·  log rate: `");
        reveal_strlit("log rate: `");
        reveal_strlit("  ·  ");
        assert("  ·  "@ + "log rate: `"@ =~= "  ·  log rate: `"@);
        let p = "log rate: `"@ + compact(hz.fixed) + " Hz`"@;
        assert("  ·  log rate: `"@ + compact(hz.fixed) + " Hz`"@ =~= "  ·  "@ + p);
        lemma_badge(badge_before(s, sym, 3), p, sym, project, intr);
    }
    if 0 <= i < sym.tags.len() {
        lemma_ticked(sym.tags, sym.tags.len() as int, i);
        let ts = ticked(sym.tags, sym.tags.len() as int);
        lemma_joined_holds(ts, " "@, i);
        lemma_holds_behind(badge_before(s, sym, 4) + "  ·  tags: "@, joined(ts, " "@), ts[i]);
        lemma_symbol_text_keeps(sym, project, intr, ts[i]);
    }
}

proof fn lemma_badge(
    s: Seq<char>,
    p: Seq<char>,
    sym: SymbolView,
    project: Option<ProjectView>,
    intr: IntrinsicsView,
)
    requires
        is_typed(sym),
        begins(
            with_badges(header_text(sym) + type_text(sym, project), sym),
            s + ("  ·  "@ + p),
        ),
    ensures
        has(symbol_text(sym, project, intr), p),
{
    let full = with_badges(header_text(sym) + type_text(sym, project), sym);
    let front = s + "  ·  "@;
    assert(s + ("  ·  "@ + p) =~= front + p);
    let rest = full.skip((front + p).len() as int);
    assert(full =~= full.subrange(0, (front + p).len() as int) + rest);
    lemma_holds_between(front, p, rest);
    lemma_symbol_text_keeps(sym, project, intr, p);
}

proof fn lemma_ticked(tags: Seq<Seq<char>>, k: int, i: int)
    requires
        0 <= i < k <= tags.len(),
    ensures
        ticked(tags, k).len() == k,
        ticked(tags, k)[i] == "`"@ + tags[i] + "`"@,
    decreases k,
{
    if i < k - 1 {
        lemma_ticked(tags, k - 1, i);
    } else if k > 1 {
        lemma_ticked(tags, k - 1, 0);
    } else {
        assert(ticked(tags, 0) =~= Seq::empty());
    }
}

// ---------------------------------------------------------------------------
// Enumerations
// ---------------------------------------------------------------------------

proof fn lemma_insert_member(s: Seq<(Seq<char>, i64)>, x: (Seq<char>, i64))
    requires
        in_value_order(s),
    ensures
        in_value_order(insert_member(s, x)),
        insert_member(s, x).len() == s.len() + 1,
        insert_member(s, x).contains(x),
        forall|y: (Seq<char>, i64)| s.contains(y) ==> insert_member(s, x).contains(y),
        forall|j: int|
            0 <= j <= s.len() ==> #[trigger] insert_member(s, x)[j] == x || s.contains(
                insert_member(s, x)[j],
            ),
    decreases s.len(),
{
    let r = insert_member(s, x);
    if s.len() == 0 || s.last().1 <= x.1 {
        assert(r[s.len() as int] == x);
        assert forall|y: (Seq<char>, i64)| s.contains(y) implies r.contains(y) by {
            let j = choose|j: int| 0 <= j < s.len() && s[j] == y;
            assert(r[j] == y);
        }
        assert forall|j: int| 0 <= j <= s.len() implies #[trigger] r[j] == x || s.contains(r[j]) by {
            if j < s.len() {
                assert(r[j] == s[j]);
            }
        }
        if s.len() > 0 {
            assert(s.last() == s[s.len() - 1]);
        }
    } else {
        let d = s.drop_last();
        lemma_insert_member(d, x);
        let q = insert_member(d, x);
        assert(r[q.len() as int] == s.last());
        assert(q.contains(x));
        let jx = choose|j: int| 0 <= j < q.len() && q[j] == x;
        assert(r[jx] == x);
        assert forall|y: (Seq<char>, i64)| s.contains(y) implies r.contains(y) by {
            let j = choose|j: int| 0 <= j < s.len() && s[j] == y;
            if j < d.len() {
                assert(d[j] == y);
                assert(d.contains(y));
                let m = choose|m: int| 0 <= m < q.len() && q[m] == y;
                assert(r[m] == y);
            }
        }
        assert forall|j: int| 0 <= j <= s.len() implies #[trigger] r[j] == x || s.contains(r[j]) by {
            if j < q.len() {
                assert(r[j] == q[j]);
                if q[j] != x {
                    assert(d.contains(q[j]));
                    let m = choose|m: int| 0 <= m < d.len() && d[m] == q[j];
                    assert(s[m] == q[j]);
                }
            } else {
                assert(r[j] == s[s.len() - 1]);
            }
        }
        assert forall|a: int, b: int| 0 <= a < b < r.len() implies (#[trigger] r[a]).1 <= (
        #[trigger] r[b]).1 by {
            if b < q.len() {
                assert(q[a].1 <= q[b].1);
            } else {
                assert(r[a] == q[a]);
                if q[a] != x {
                    assert(d.contains(q[a]));
                    let m = choose|m: int| 0 <= m < d.len() && d[m] == q[a];
                    assert(s[m].1 <= s[s.len() - 1].1);
                }
            }
        }
    }
}

/// The members come in the order of their values.
pub open spec fn in_value_order(s: Seq<(Seq<char>, i64)>) -> bool {
    forall|a: int, b: int| 0 <= a < b < s.len() ==> (#[trigger] s[a]).1 <= (#[trigger] s[b]).1
}

/// The members of an enumeration are listed in the order of their values, all of them and
/// nothing else.
pub proof fn members_come_by_value(s: Seq<(Seq<char>, i64)>, k: int)
    requires
        0 <= k <= s.len(),
    ensures
        in_value_order(by_value_upto(s, k)),
        by_value_upto(s, k).len() == k,
        forall|i: int| 0 <= i < k ==> by_value_upto(s, k).contains(#[trigger] s[i]),
        forall|j: int| 0 <= j < k ==> s.contains(#[trigger] by_value_upto(s, k)[j]),
    decreases k,
{
    if k > 0 {
        members_come_by_value(s, k - 1);
        let rest = by_value_upto(s, k - 1);
        lemma_insert_member(rest, s[k - 1]);
        let all = by_value_upto(s, k);
        assert forall|i: int| 0 <= i < k implies all.contains(#[trigger] s[i]) by {
            if i < k - 1 {
                assert(rest.contains(s[i]));
            }
        }
        assert forall|j: int| 0 <= j < k implies s.contains(#[trigger] all[j]) by {
            if all[j] != s[k - 1] {
                assert(rest.contains(all[j]));
                let m = choose|m: int| 0 <= m < rest.len() && rest[m] == all[j];
                assert(s.contains(rest[m]));
            }
        }
    } else {
        assert(by_value_upto(s, k) =~= Seq::empty());
    }
}

proof fn lemma_member_labels(s: Seq<(Seq<char>, i64)>, default: Option<Seq<char>>, k: int, i: int)
    requires
        0 <= i < k <= s.len(),
    ensures
        member_labels(s, default, k).len() == k,
        member_labels(s, default, k)[i] == member_label(s[i].0, default),
    decreases k,
{
    if i < k - 1 {
        lemma_member_labels(s, default, k - 1, i);
    } else if k > 1 {
        lemma_member_labels(s, default, k - 1, 0);
    } else {
        assert(member_labels(s, default, 0) =~= Seq::empty());
    }
}

/// Every member of an enumeration is named in the list of its values, and the default is
/// marked.
pub proof fn every_member_is_listed(e: EnumTypeView, i: int)
    requires
        0 <= i < e.members.len(),
    ensures
        has(members_text(e), "`"@ + e.members[i].0 + "`"@),
        e.default == Some(e.members[i].0) ==> has(
            members_text(e),
            "`"@ + e.members[i].0 + "` (default)"@,
        ),
{
    let n = e.members.len() as int;
    members_come_by_value(e.members, n);
    let ms = by_value_upto(e.members, n);
    assert(ms.contains(e.members[i]));
    let j = choose|j: int| 0 <= j < ms.len() && ms[j] == e.members[i];
    lemma_member_labels(ms, e.default, n, j);
    let labels = member_labels(ms, e.default, n);
    lemma_joined_holds(labels, ", "@, j);
    let name = e.members[i].0;
    let plain = "`"@ + name + "`"@;
    if e.default == Some(name) {
        reveal_strlit("`");
        reveal_strlit("` (default)");
        reveal_strlit(" (default)");
        assert("`"@ + " (default)"@ =~= "` (default)"@);
        assert(labels[j] =~= plain + " (default)"@);
        lemma_part_held(members_text(e), plain, " (default)"@);
    }
}

proof fn lemma_part_held(s: Seq<char>, p: Seq<char>, q: Seq<char>)
    requires
        has(s, p + q),
    ensures
        has(s, p),
{
    lemma_first_match(s, p + q, 0);
    let i = first_match(s, p + q, 0).unwrap();
    assert(s.subrange(i, i + p.len()) =~= s.subrange(i, i + (p + q).len()).subrange(
        0,
        p.len() as int,
    ));
    assert((p + q).subrange(0, p.len() as int) =~= p);
    lemma_holds(s, p, i);
}

/// The hover of a symbol with an enumerated type lists the values.
pub proof fn hovers_list_the_values(
    sym: SymbolView,
    p: ProjectView,
    intr: IntrinsicsView,
    id: usize,
    i: int,
)
    requires
        is_typed(sym),
        sym.value_type == ValueType::Enum(id),
        id < p.enums.len(),
        0 <= i < p.enums[id as int].members.len(),
    ensures
        has(
            symbol_text(sym, Some(p), intr),
            "`"@ + p.enums[id as int].members[i].0 + "`"@,
        ),
{
    let e = p.enums[id as int];
    every_member_is_listed(e, i);
    let label = "`"@ + e.members[i].0 + "`"@;
    reveal_strlit("`");
    lemma_first_match(members_text(e), label, 0);
    let s1 = with_badges(header_text(sym) + type_text(sym, Some(p)), sym);
    let front = s1 + "\n\nvalues: "@;
    lemma_holds_behind(front, members_text(e), label);
    let s2 = front + members_text(e);
    let full = symbol_text(sym, Some(p), intr);
    let rest = full.skip(s2.len() as int);
    assert(full =~= s2 + rest);
    lemma_holds_front(s2, rest, label);
}

/// The hover of an enumeration names it and lists its values.
pub proof fn enums_list_their_values(name: Seq<char>, p: ProjectView, i: int)
    requires
        p.enum_by_name(name) is Some,
        0 <= i < p.enums[p.enum_by_name(name).unwrap() as int].members.len(),
    ensures
        ({
            let e = p.enums[p.enum_by_name(name).unwrap() as int];
            match enum_type_text(name, Some(p)) {
                Some(md) => begins(md, "**"@ + e.name + "** `enum type`"@) && has(
                    md,
                    "`"@ + e.members[i].0 + "`"@,
                ),
                None => false,
            }
        }),
{
    let e = p.enums[p.enum_by_name(name).unwrap() as int];
    every_member_is_listed(e, i);
    let label = "`"@ + e.members[i].0 + "`"@;
    reveal_strlit("`");
    lemma_first_match(members_text(e), label, 0);
    let head = "**"@ + e.name + "** `enum type`"@;
    lemma_holds_behind(head + "\n\nvalues: "@, members_text(e), label);
    let md = enum_type_text(name, Some(p)).unwrap();
    assert(md.subrange(0, head.len() as int) =~= head);
}

/// The hover of a member names its enumeration and ends with its value.
pub proof fn members_say_their_value(
    p: ProjectView,
    name: Seq<char>,
    id: usize,
    member: Seq<char>,
    value: i64,
)
    requires
        p.enum_by_name(name) == Some(id),
        p.enum_has_member(id, member),
        value_of(p.enums[id as int].members, member) == Some(value),
    ensures
        match enum_member_text(Some(name), member, Some(p)) {
            Some(md) => begins(
                md,
                "**"@ + p.enums[id as int].name + "."@ + member + "** `enum member`"@,
            ) && ends(md, "= "@ + signed_decimal(value as int)),
            None => false,
        },
{
    let md = enum_member_text(Some(name), member, Some(p)).unwrap();
    let head = "**"@ + p.enums[id as int].name + "."@ + member + "** `enum member`"@;
    let tail = "= "@ + signed_decimal(value as int);
    reveal_strlit("** `enum member`\n\n= ");
    reveal_strlit("** `enum member`");
    reveal_strlit("\n\n");
    reveal_strlit("= ");
    assert("** `enum member`"@ + "\n\n"@ + "= "@ =~= "** `enum member`\n\n= "@);
    assert(md =~= head + "\n\n"@ + tail);
    assert(md.subrange(0, head.len() as int) =~= head);
    assert(md.subrange(md.len() - tail.len(), md.len() as int) =~= tail);
}

/// A literal whose member its enumeration does not have is marked, where the segments name
/// nothing else.
pub proof fn wrong_literals_are_marked(
    t: Tree,
    segs: Seq<usize>,
    i: int,
    p: ProjectView,
    scope: ScopeView,
    id: usize,
)
    requires
        0 <= i,
        i + 1 < segs.len(),
        p.enum_by_name(t.text_of(segs[i])) == Some(id),
        !p.enum_has_member(id, t.text_of(segs[i + 1])),
        scope.symbol(dotted(t, segs, i + 1)) is None,
        scope.symbol(dotted(t, segs, i + 1) + "."@ + t.text_of(segs[i + 1])) is None,
    ensures
        match literal_head_text(t, segs, i, Some(p), scope) {
            Some(md) => has(
                md,
                "⚠ `"@ + t.text_of(segs[i + 1]) + "` is not a member of this enum"@,
            ),
            None => false,
        },
{
    let md = enum_type_text(t.text_of(segs[i]), Some(p)).unwrap();
    let note = "⚠ `"@ + t.text_of(segs[i + 1]) + "` is not a member of this enum"@;
    reveal_strlit("\n\n⚠ `");
    reveal_strlit("\n\n");
    reveal_strlit("⚠ `");
    assert("\n\n"@ + "⚠ `"@ =~= "\n\n⚠ `"@);
    let full = literal_head_text(t, segs, i, Some(p), scope).unwrap();
    assert(full =~= (md + "\n\n"@) + note);
    lemma_holds_back(md + "\n\n"@, note);
}

// ---------------------------------------------------------------------------
// Objects, tables and signals
// ---------------------------------------------------------------------------

/// The hover of an object says its class, what the class is for, and the frame of a CAN
/// message.
pub proof fn objects_say_their_class(
    sym: SymbolView,
    project: Option<ProjectView>,
    intr: IntrinsicsView,
)
    requires
        sym.kind == SymbolKind::Object,
    ensures
        sym.class is Some ==> has(
            symbol_text(sym, project, intr),
            "class: `"@ + sym.class.unwrap() + "`"@,
        ),
        sym.class is Some && intr.class_doc(sym.class.unwrap()) is Some ==> has(
            symbol_text(sym, project, intr),
            intr.class_doc(sym.class.unwrap()).unwrap(),
        ),
        (match sym.can {
            Some(can) => can.can_id is Some && can.dlc is Some ==> has(
                symbol_text(sym, project, intr),
                "CAN id: `0x"@ + hexadecimal(can.can_id.unwrap() as nat) + "`  ·  `"@ + decimal(
                    can.dlc.unwrap() as nat,
                ) + "` bytes"@,
            ),
            None => true,
        }),
{
    let head = header_text(sym);
    let full = symbol_text(sym, project, intr);
    if let Some(class) = sym.class {
        let p = "class: `"@ + class + "`"@;
        let rest = full.skip((head + p).len() as int);
        assert(full =~= head + p + rest);
        lemma_holds_between(head, p, rest);
        if let Some(doc) = intr.class_doc(class) {
            let front = head + p + "\n\n"@;
            let tail = full.skip((front + doc).len() as int);
            assert(full =~= front + doc + tail);
            lemma_holds_between(front, doc, tail);
        }
    }
    if let Some(can) = sym.can {
        if can.can_id is Some && can.dlc is Some {
            let p = "CAN id: `0x"@ + hexadecimal(can.can_id.unwrap() as nat) + "`  ·  `"@ + decimal(
                can.dlc.unwrap() as nat,
            ) + "` bytes"@;
            reveal_strlit("\n\nCAN id: `0x");
            reveal_strlit("CAN id: `0x");
            reveal_strlit("\n\n");
            assert("\n\n"@ + "CAN id: `0x"@ =~= "\n\nCAN id: `0x"@);
            let front = full.take(full.len() - p.len());
            assert(full =~= front + p);
            lemma_holds_back(front, p);
        }
    }
}

proof fn lemma_axis_sizes(axes: Seq<TableAxisView>, k: int, i: int)
    requires
        0 <= i < k <= axes.len(),
    ensures
        axis_sizes(axes, k).len() == k,
        axis_sizes(axes, k)[i] == decimal(axes[i].size as nat),
    decreases k,
{
    if i < k - 1 {
        lemma_axis_sizes(axes, k - 1, i);
    } else if k > 1 {
        lemma_axis_sizes(axes, k - 1, 0);
    } else {
        assert(axis_sizes(axes, 0) =~= Seq::empty());
    }
}

proof fn lemma_axis_units(axes: Seq<TableAxisView>, k: int, i: int, name: Seq<char>)
    requires
        0 <= i < k <= axes.len(),
        axes[i].unit is Some,
        i == 0 ==> name == "X"@,
        i == 1 ==> name == "Y"@,
        i == 2 ==> name == "Z"@,
        i > 2 ==> name == "?"@,
    ensures
        axis_units(axes, k).contains(name + " `"@ + axes[i].unit.unwrap() + "`"@),
    decreases k,
{
    let all = axis_units(axes, k);
    let rest = axis_units(axes, k - 1);
    let x = name + " `"@ + axes[i].unit.unwrap() + "`"@;
    if i == k - 1 {
        assert(all[rest.len() as int] == x);
    } else {
        lemma_axis_units(axes, k - 1, i, name);
        let j = choose|j: int| 0 <= j < rest.len() && rest[j] == x;
        assert(all[j] == x);
    }
}

/// The hover of a table says how many axes it has and how long each is, with the units of the
/// axes and of the output.
pub proof fn tables_say_their_shape(
    sym: SymbolView,
    project: Option<ProjectView>,
    intr: IntrinsicsView,
    i: int,
    name: Seq<char>,
)
    requires
        sym.kind == SymbolKind::Table,
        sym.table_meta is Some,
        0 <= i < sym.table_meta.unwrap().axes.len(),
        i == 0 ==> name == "X"@,
        i == 1 ==> name == "Y"@,
        i == 2 ==> name == "Z"@,
        i > 2 ==> name == "?"@,
    ensures
        ({
            let meta = sym.table_meta.unwrap();
            let text = symbol_text(sym, project, intr);
            &&& has(text, decimal(meta.axes.len()) + "-D table"@)
            &&& has(text, decimal(meta.axes[i].size as nat))
            &&& meta.axes[i].unit is Some ==> has(
                text,
                name + " `"@ + meta.axes[i].unit.unwrap() + "`"@,
            )
            &&& meta.output_unit is Some ==> has(
                text,
                "output: `"@ + meta.output_unit.unwrap() + "`"@,
            )
        }),
{
    let meta = sym.table_meta.unwrap();
    let n = meta.axes.len() as int;
    let head = header_text(sym);
    let shape = joined(axis_sizes(meta.axes, n), " × "@);
    let p = decimal(n as nat) + "-D table"@;
    let size = decimal(meta.axes[i].size as nat);
    let s1 = "\n\n"@ + decimal(n as nat) + "-D table  ·  shape: `"@ + shape + "`"@;
    let units = axis_units(meta.axes, n);
    let s2 = if units.len() == 0 {
        s1
    } else {
        s1 + "\n\naxes: "@ + joined(units, ", "@)
    };
    lemma_shape(meta, i);
    if units.len() > 0 {
        lemma_holds_front(s1, "\n\naxes: "@, p);
        lemma_holds_front(s1, "\n\naxes: "@, size);
        lemma_holds_front(s1 + "\n\naxes: "@, joined(units, ", "@), p);
        lemma_holds_front(s1 + "\n\naxes: "@, joined(units, ", "@), size);
    }
    lemma_output_behind(meta, s2, p);
    lemma_output_behind(meta, s2, size);
    lemma_holds_behind(head, table_text(meta), p);
    lemma_holds_behind(head, table_text(meta), size);
    if meta.axes[i].unit is Some {
        lemma_axis_units(meta.axes, n, i, name);
        let x = name + " `"@ + meta.axes[i].unit.unwrap() + "`"@;
        let j = choose|j: int| 0 <= j < units.len() && units[j] == x;
        lemma_joined_holds(units, ", "@, j);
        lemma_holds_behind(s1 + "\n\naxes: "@, joined(units, ", "@), x);
        lemma_output_behind(meta, s2, x);
        lemma_holds_behind(head, table_text(meta), x);
    }
    if let Some(u) = meta.output_unit {
        reveal_strlit("\n\noutput: `");
        reveal_strlit("\n\n");
        reveal_strlit("output: `");
        assert("\n\n"@ + "output: `"@ =~= "\n\noutput: `"@);
        let x = "output: `"@ + u + "`"@;
        assert(s2 + "\n\noutput: `"@ + u + "`"@ =~= (s2 + "\n\n"@) + x);
        lemma_holds_back(s2 + "\n\n"@, x);
        lemma_holds_behind(head, table_text(meta), x);
    }
}

proof fn lemma_output_behind(meta: TableMetaView, s2: Seq<char>, p: Seq<char>)
    requires
        has(s2, p),
    ensures
        meta.output_unit is Some ==> has(s2 + "\n\noutput: `"@ + meta.output_unit.unwrap() + "`"@, p),
{
    if let Some(u) = meta.output_unit {
        lemma_holds_front(s2, "\n\noutput: `"@, p);
        lemma_holds_front(s2 + "\n\noutput: `"@, u, p);
        lemma_holds_front(s2 + "\n\noutput: `"@ + u, "`"@, p);
    }
}

proof fn lemma_shape(meta: TableMetaView, i: int)
    requires
        0 <= i < meta.axes.len(),
    ensures
        ({
            let n = meta.axes.len() as int;
            let s1 = "\n\n"@ + decimal(n as nat) + "-D table  ·  shape: `"@ + joined(
                axis_sizes(meta.axes, n),
                " × "@,
            ) + "`"@;
            &&& has(s1, decimal(n as nat) + "-D table"@)
            &&& has(s1, decimal(meta.axes[i].size as nat))
        }),
{
    let n = meta.axes.len() as int;
    let sizes = axis_sizes(meta.axes, n);
    lemma_axis_sizes(meta.axes, n, i);
    lemma_joined_holds(sizes, " × "@, i);
    let shape = joined(sizes, " × "@);
    let size = decimal(meta.axes[i].size as nat);
    reveal_strlit("-D table  ·  shape: `");
    reveal_strlit("-D table");
    reveal_strlit("  ·  shape: `");
    assert("-D table"@ + "  ·  shape: `"@ =~= "-D table  ·  shape: `"@);
    let p = decimal(n as nat) + "-D table"@;
    let s1 = "\n\n"@ + decimal(n as nat) + "-D table  ·  shape: `"@ + shape + "`"@;
    assert(s1 =~= "\n\n"@ + p + ("  ·  shape: `"@ + shape + "`"@));
    lemma_holds_between("\n\n"@, p, "  ·  shape: `"@ + shape + "`"@);
    let front = "\n\n"@ + decimal(n as nat) + "-D table  ·  shape: `"@;
    lemma_holds_behind(front, shape, size);
    lemma_holds_front(front + shape, "`"@, size);
}

/// The hover of a CAN signal says its range, its scale, its message and its bits.
pub proof fn signals_say_their_layout(sym: SymbolView, project: Option<ProjectView>)
    requires
        sym.can is Some,
        sym.can.unwrap().start_bit is Some || sym.can.unwrap().length is Some || sym.dbc_range is Some,
    ensures
        match signal_text(sym, project) {
            Some(text) => ({
                let can = sym.can.unwrap();
                &&& begins(text, "Kind: `CAN Signal`"@)
                &&& sym.dbc_range is Some ==> has(
                    text,
                    "Range: `"@ + compact(sym.dbc_range.unwrap().0) + " – "@ + compact(
                        sym.dbc_range.unwrap().1,
                    ) + "`"@,
                )
                &&& can.multiplier is Some && can.offset is Some ==> has(
                    text,
                    "Scale: `"@ + compact(can.multiplier.unwrap()) + "`  ·  Offset: `"@ + compact(
                        can.offset.unwrap(),
                    ) + "`"@,
                )
                &&& can.start_bit is Some && can.length is Some ==> has(
                    text,
                    "Bit pos: `"@ + decimal(can.start_bit.unwrap() as nat) + "`  ·  Length: `"@
                        + decimal(can.length.unwrap() as nat) + "` bits"@,
                )
            }),
            None => false,
        },
{
    let can = sym.can.unwrap();
    let sep = "\n\n"@;
    let l0 = seq!["Kind: `CAN Signal`"@];
    let l1 = and_line(l0, range_text(sym.dbc_range));
    let l2 = and_line(l1, scale_text(can));
    let l3 = and_line(l2, message_text(sym.path, project));
    let l4 = and_line(l3, bits_text(can));
    lemma_joined_begins(l4, sep);
    if sym.dbc_range is Some {
        assert(l4[1] == range_text(sym.dbc_range).unwrap());
        lemma_joined_holds(l4, sep, 1);
    }
    if can.multiplier is Some && can.offset is Some {
        assert(l4[l1.len() as int] == scale_text(can).unwrap());
        lemma_joined_holds(l4, sep, l1.len() as int);
    }
    if can.start_bit is Some && can.length is Some {
        assert(l4[l3.len() as int] == bits_text(can).unwrap());
        lemma_joined_holds(l4, sep, l3.len() as int);
    }
}

/// The hover of a CAN signal names the message that it belongs to, with its frame.
pub proof fn signals_name_their_message(
    sym: SymbolView,
    p: ProjectView,
    group: Seq<char>,
    name: Seq<char>,
    leaf: Seq<char>,
    m: SymbolView,
    c: CanMetaView,
)
    requires
        sym.can is Some,
        sym.can.unwrap().start_bit is Some || sym.can.unwrap().length is Some || sym.dbc_range is Some,
        sym.path == group + "."@ + name + "."@ + leaf,
        !name.contains('.'),
        !leaf.contains('.'),
        p.get(group + "."@ + name) == Some(m),
        m.can == Some(c),
        c.can_id is Some,
        c.dlc is Some,
    ensures
        match signal_text(sym, Some(p)) {
            Some(text) => has(
                text,
                "Message: `"@ + name + "`"@ + " (0x"@ + hexadecimal(c.can_id.unwrap() as nat) + ", "@
                    + decimal(c.dlc.unwrap() as nat) + " bytes)"@,
            ),
            None => false,
        },
{
    let parent = group + "."@ + name;
    lemma_cut_last(parent, leaf);
    lemma_cut_last(group, name);
    let can = sym.can.unwrap();
    let l0 = seq!["Kind: `CAN Signal`"@];
    let l1 = and_line(l0, range_text(sym.dbc_range));
    let l2 = and_line(l1, scale_text(can));
    let line = message_text(sym.path, Some(p));
    assert(sym.path =~= parent + "."@ + leaf);
    let wanted = "Message: `"@ + name + "`"@ + " (0x"@ + hexadecimal(c.can_id.unwrap() as nat) + ", "@
        + decimal(c.dlc.unwrap() as nat) + " bytes)"@;
    assert(line.unwrap() =~= wanted);
    let l3 = and_line(l2, line);
    let l4 = and_line(l3, bits_text(can));
    assert(l4[l2.len() as int] == wanted);
    lemma_joined_holds(l4, "\n\n"@, l2.len() as int);
}

pub proof fn lemma_cut_last(head: Seq<char>, leaf: Seq<char>)
    requires
        !leaf.contains('.'),
    ensures
        cut_last(head + "."@ + leaf, '.') == Some((head, leaf)),
{
    reveal_strlit(".");
    let s = head + "."@ + leaf;
    lemma_last_index(s, '.', s.len() as int);
    assert(s[head.len() as int] == '.');
    let i = last_index(s, '.', s.len() as int).unwrap();
    if i > head.len() {
        assert(leaf[i - head.len() - 1] == '.');
    }
    assert(s.take(i) =~= head);
    assert(s.skip(i + 1) =~= leaf);
}

proof fn lemma_joined_begins(pieces: Seq<Seq<char>>, sep: Seq<char>)
    requires
        pieces.len() > 0,
    ensures
        begins(joined(pieces, sep), pieces[0]),
    decreases pieces.len(),
{
    let all = joined(pieces, sep);
    if pieces.len() == 1 {
        assert(all.subrange(0, pieces[0].len() as int) =~= pieces[0]);
    } else {
        lemma_joined_begins(pieces.drop_last(), sep);
        let front = joined(pieces.drop_last(), sep);
        assert(all.subrange(0, pieces[0].len() as int) =~= front.subrange(
            0,
            pieces[0].len() as int,
        ));
    }
}

// ---------------------------------------------------------------------------
// Library functions and methods
// ---------------------------------------------------------------------------

/// A signature starts with the path, names every parameter with its type, and ends with the
/// type of the result.
pub proof fn signatures_name_parameters(path: Seq<char>, ov: OverloadView, i: int)
    ensures
        begins(signature_of(path, ov), path + "("@),
        ends(signature_of(path, ov), ") -> "@ + ov.returns),
        0 <= i < ov.params.len() ==> has(
            signature_of(path, ov),
            ov.params[i].name + ": "@ + ov.params[i].ty,
        ),
{
    let n = ov.params.len() as int;
    let ps = joined(typed_params(ov.params, n), ", "@);
    let full = signature_of(path, ov);
    assert(full.subrange(0, (path + "("@).len() as int) =~= path + "("@);
    let tail = ") -> "@ + ov.returns;
    assert(full =~= (path + "("@ + ps) + tail);
    assert(full.subrange(full.len() - tail.len(), full.len() as int) =~= tail);
    if 0 <= i < n {
        lemma_typed_params(ov.params, n, i);
        lemma_joined_holds(typed_params(ov.params, n), ", "@, i);
        let p = ov.params[i].name + ": "@ + ov.params[i].ty;
        lemma_holds_behind(path + "("@, ps, p);
        lemma_holds_front(path + "("@ + ps, tail, p);
    }
}

proof fn lemma_typed_params(ps: Seq<ParamView>, k: int, i: int)
    requires
        0 <= i < k <= ps.len(),
    ensures
        typed_params(ps, k).len() == k,
        typed_params(ps, k)[i] == ps[i].name + ": "@ + ps[i].ty,
    decreases k,
{
    if i < k - 1 {
        lemma_typed_params(ps, k - 1, i);
    } else if k > 1 {
        lemma_typed_params(ps, k - 1, 0);
    } else {
        assert(typed_params(ps, 0) =~= Seq::empty());
    }
}

proof fn lemma_with_signatures(s: Seq<char>, path: Seq<char>, ovs: Seq<OverloadView>, k: int, i: int)
    requires
        0 <= i < k <= ovs.len(),
    ensures
        has(with_signatures(s, path, ovs, k), signature_of(path, ovs[i])),
    decreases k,
{
    let rest = with_signatures(s, path, ovs, k - 1);
    let sig = signature_of(path, ovs[k - 1]);
    if i == k - 1 {
        lemma_holds_between(rest + "```\n"@, sig, "\n```\n"@);
    } else {
        lemma_with_signatures(s, path, ovs, k - 1, i);
        let p = signature_of(path, ovs[i]);
        lemma_holds_front(rest, "```\n"@, p);
        lemma_holds_front(rest + "```\n"@, sig, p);
        lemma_holds_front(rest + "```\n"@ + sig, "\n```\n"@, p);
    }
}

proof fn lemma_signatures_begin(s: Seq<char>, path: Seq<char>, ovs: Seq<OverloadView>, k: int)
    requires
        0 <= k <= ovs.len(),
    ensures
        begins(with_signatures(s, path, ovs, k), s),
    decreases k,
{
    let all = with_signatures(s, path, ovs, k);
    if k > 0 {
        lemma_signatures_begin(s, path, ovs, k - 1);
        let rest = with_signatures(s, path, ovs, k - 1);
        assert(all.subrange(0, s.len() as int) =~= rest.subrange(0, s.len() as int));
    } else {
        assert(all.subrange(0, s.len() as int) =~= s);
    }
}

/// The hover of a library function names it, gives every signature and its documentation, and
/// warns where it keeps state, is deprecated, or is for calibration only.
pub proof fn functions_give_their_signatures(path: Seq<char>, ovs: Seq<OverloadView>, i: int)
    requires
        0 <= i < ovs.len(),
    ensures
        ({
            let md = function_text(path, ovs);
            &&& begins(md, "**"@ + path + "** `library function`"@)
            &&& has(md, signature_of(path, ovs[i]))
            &&& has(md, ovs[0].doc)
            &&& ovs[0].stateful ==> has(
                md,
                "\n⚠ **stateful** — call it on every execution; never inside an `if`/`when` or a comparison."@,
            )
            &&& ovs[0].deprecated ==> has(md, "\n⚠ **deprecated**"@)
            &&& ovs[0].calibration_only ==> has(
                md,
                "\n⚠ **calibration-only** — usable only in M1 Tune calibration methods, not in ECU `.m1scr` scripts."@,
            )
        }),
{
    let head = "**"@ + path + "** `library function`\n\n"@;
    let n = ovs.len() as int;
    let sigs = with_signatures(head, path, ovs, n);
    let s = with_doc(sigs, ovs);
    let md = function_text(path, ovs);
    let a = "\n⚠ **stateful** — call it on every execution; never inside an `if`/`when` or a comparison."@;
    let b = "\n⚠ **deprecated**"@;
    let c = "\n⚠ **calibration-only** — usable only in M1 Tune calibration methods, not in ECU `.m1scr` scripts."@;
    let s1 = if ovs[0].stateful {
        s + a
    } else {
        s
    };
    let s2 = if ovs[0].deprecated {
        s1 + b
    } else {
        s1
    };
    lemma_text_of_signatures(head, path, ovs, i);
    let short = "**"@ + path + "** `library function`"@;
    reveal_strlit("** `library function`\n\n");
    reveal_strlit("** `library function`");
    reveal_strlit("\n\n");
    assert("** `library function`"@ + "\n\n"@ =~= "** `library function`\n\n"@);
    assert(head =~= short + "\n\n"@);
    assert(s.subrange(0, head.len() as int) == head);
    assert(md.subrange(0, short.len() as int) =~= s.subrange(0, head.len() as int).subrange(
        0,
        short.len() as int,
    ));
    assert(head.subrange(0, short.len() as int) =~= short);
    let rest = md.skip(s.len() as int);
    assert(md =~= s + rest);
    lemma_holds_front(s, rest, signature_of(path, ovs[i]));
    lemma_holds_front(s, rest, ovs[0].doc);
    if ovs[0].stateful {
        lemma_holds_back(s, a);
        let r = md.skip(s1.len() as int);
        assert(md =~= s1 + r);
        lemma_holds_front(s1, r, a);
    }
    if ovs[0].deprecated {
        lemma_holds_back(s1, b);
        let r = md.skip(s2.len() as int);
        assert(md =~= s2 + r);
        lemma_holds_front(s2, r, b);
    }
    if ovs[0].calibration_only {
        lemma_holds_back(s2, c);
    }
}

proof fn lemma_text_of_signatures(head: Seq<char>, path: Seq<char>, ovs: Seq<OverloadView>, i: int)
    requires
        0 <= i < ovs.len(),
    ensures
        ({
            let s = with_doc(with_signatures(head, path, ovs, ovs.len() as int), ovs);
            &&& begins(s, head)
            &&& has(s, signature_of(path, ovs[i]))
            &&& has(s, ovs[0].doc)
        }),
{
    let n = ovs.len() as int;
    let sigs = with_signatures(head, path, ovs, n);
    let s = with_doc(sigs, ovs);
    lemma_with_signatures(head, path, ovs, n, i);
    lemma_signatures_begin(head, path, ovs, n);
    let rest = s.skip(sigs.len() as int);
    assert(s =~= sigs + rest);
    assert(s.subrange(0, head.len() as int) =~= sigs.subrange(0, head.len() as int));
    lemma_holds_front(sigs, rest, signature_of(path, ovs[i]));
    if ovs[0].doc.len() > 0 {
        lemma_holds_between(sigs + "\n"@, ovs[0].doc, "\n"@);
    } else {
        assert(s.subrange(0, 0) =~= ovs[0].doc);
        lemma_holds(s, ovs[0].doc, 0);
    }
}

/// The hover of a method names it, and gives every signature and its documentation.
pub proof fn methods_give_their_signatures(name: Seq<char>, ovs: Seq<OverloadView>, i: int)
    requires
        0 <= i < ovs.len(),
    ensures
        begins(method_text(name, ovs), "**"@ + name + "** `method`\n\n"@),
        has(method_text(name, ovs), signature_of(name, ovs[i])),
        has(method_text(name, ovs), ovs[0].doc),
{
    lemma_text_of_signatures("**"@ + name + "** `method`\n\n"@, name, ovs, i);
}

/// The hover of a library object names it and gives its documentation.
pub proof fn library_objects_are_described(
    name: Seq<char>,
    intr: IntrinsicsView,
    o: LibraryObjectView,
)
    requires
        intr.library_object(name) == Some(o),
    ensures
        begins(builtin_object_text(name, intr), "**"@ + name + "** `library object`"@),
        ends(builtin_object_text(name, intr), o.doc),
{
    let md = builtin_object_text(name, intr);
    let short = "**"@ + name + "** `library object`"@;
    reveal_strlit("** `library object`\n\n");
    reveal_strlit("** `library object`");
    reveal_strlit("\n\n");
    assert("** `library object`"@ + "\n\n"@ =~= "** `library object`\n\n"@);
    assert(md =~= short + "\n\n"@ + o.doc);
    assert(md.subrange(0, short.len() as int) =~= short);
    assert(md.subrange(md.len() - o.doc.len(), md.len() as int) =~= o.doc);
}

// ---------------------------------------------------------------------------
// Places
// ---------------------------------------------------------------------------

/// The hover of a segment is over that segment, and describes what the path up to it stands
/// for: a local with its type, a symbol, a library object or a library function.
pub proof fn hovers_describe_what_is_named(
    t: Tree,
    b: int,
    project: Option<ProjectView>,
    file_name: Option<Seq<char>>,
    intr: IntrinsicsView,
    scope: ScopeView,
    s: Seq<char>,
    enc: PositionEncoding,
    segs: Seq<usize>,
    i: int,
    n: usize,
)
    requires
        node_at(t, b) == Some(n),
        keyword_doc(t.kind(n)) is None,
        hovered(t, b) == Some((segs, i)),
        0 <= i < segs.len(),
        t.parent_kind(segs[i]) != Some(Kind::TypeAnnotation),
        i > 0 || anchor_doc(t.text_of(segs[i])) is None,
        literal_head_text(t, segs, i, project, scope) is None,
    ensures
        ({
            let path = dotted(t, segs, i + 1);
            let r = hover_at(t, b, project, file_name, intr, scope, s, enc, None);
            &&& r is Some ==> r.unwrap().range == range_of(s, t.start(segs[i]), t.end(segs[i]), enc)
            &&& match scope.resolve(path) {
                ResolutionView::Local(ty) => r is Some && r.unwrap().value == "**"@ + path
                    + "** `local`\n\ntype: `"@ + value_type_name(ty) + "`"@,
                ResolutionView::Symbol(sym) => r is Some && r.unwrap().value == symbol_text(
                    sym,
                    project,
                    intr,
                ),
                ResolutionView::BuiltinObject(name) => r is Some && r.unwrap().value
                    == builtin_object_text(name, intr),
                ResolutionView::BuiltinFn(ovs) => r is Some && r.unwrap().value == function_text(
                    path,
                    ovs,
                ),
                _ => true,
            }
        }),
{
}

/// Where values are known, the hover of a symbol ends with the value of its channel, and any
/// other hover of a segment with the value of the expression that starts there.
pub proof fn hovers_end_with_the_value(
    t: Tree,
    b: int,
    project: Option<ProjectView>,
    file_name: Seq<char>,
    intr: IntrinsicsView,
    scope: ScopeView,
    s: Seq<char>,
    enc: PositionEncoding,
    ctx: EvalContextView,
    segs: Seq<usize>,
    i: int,
    n: usize,
    line: Seq<char>,
)
    requires
        node_at(t, b) == Some(n),
        keyword_doc(t.kind(n)) is None,
        hovered(t, b) == Some((segs, i)),
        0 <= i < segs.len(),
        t.parent_kind(segs[i]) != Some(Kind::TypeAnnotation),
        i > 0 || anchor_doc(t.text_of(segs[i])) is None,
        literal_head_text(t, segs, i, project, scope) is None,
    ensures
        ({
            let path = dotted(t, segs, i + 1);
            let plain = hover_at(t, b, project, Some(file_name), intr, scope, s, enc, None);
            let full = hover_at(t, b, project, Some(file_name), intr, scope, s, enc, Some(ctx));
            match scope.resolve(path) {
                ResolutionView::Symbol(sym) => ctx.trace.channel_line(sym.path) == Some(line)
                    ==> full is Some && full.unwrap().value == plain.unwrap().value + line,
                _ => plain is Some && ctx.expr_offsets_valid && ctx.trace.expr_line(
                    file_name,
                    t.nodes[segs[i] as int].start,
                ) == Some(line) ==> full is Some && full.unwrap().value == plain.unwrap().value
                    + line,
            }
        }),
{
}

/// The value of an expression is the first that is given for its script and its start.
pub proof fn values_are_given_by_place(s: Seq<ExprLineView>, script: Seq<char>, offset: usize, i: int)
    requires
        0 <= i <= s.len(),
    ensures
        match expr_line_at(s, script, offset, i) {
            Some(line) => exists|k: int|
                i <= k < s.len() && (#[trigger] s[k]).script == script && s[k].offset == offset
                    && s[k].line == line,
            None => forall|k: int|
                i <= k < s.len() ==> (#[trigger] s[k]).script != script || s[k].offset != offset,
        },
    decreases s.len() - i,
{
    if i < s.len() {
        if s[i].script == script && s[i].offset == offset {
            assert(s[i].line == expr_line_at(s, script, offset, i).unwrap());
        } else {
            values_are_given_by_place(s, script, offset, i + 1);
        }
    }
}

/// A segment that names no symbol of the project is described as a method, where it stands
/// behind something that has methods, and else as a member, or as an enumeration, in this
/// order.
pub proof fn other_segments_are_described(
    t: Tree,
    segs: Seq<usize>,
    i: int,
    project: Option<ProjectView>,
    intr: IntrinsicsView,
    scope: ScopeView,
)
    requires
        0 < i < segs.len(),
    ensures
        ({
            let name = t.text_of(segs[i]);
            let before = Some(t.text_of(segs[i - 1]));
            let methods = intr.object_method(name);
            let holder = scope.resolve(dotted(t, segs, i));
            let called = methods.len() > 0 && (holder is Symbol || holder is Opaque
                || holder is BuiltinObject || holder is Local);
            let r = opaque_text(t, segs, i, project, intr, scope);
            &&& called ==> r == Some(method_text(name, methods))
            &&& !called && enum_member_text(before, name, project) is Some ==> r
                == enum_member_text(before, name, project)
            &&& !called && enum_member_text(before, name, project) is None && enum_type_text(
                name,
                project,
            ) is Some ==> r == enum_type_text(name, project)
        }),
{
}

/// A member belongs to the enumeration that is named in front of it, where that has it, and
/// else to the only one that has it; where several have it, to none.
pub proof fn members_belong_to_their_enum(p: ProjectView, name: Seq<char>, member: Seq<char>, id: usize)
    requires
        p.enums.len() <= usize::MAX,
    ensures
        p.enum_by_name(name) == Some(id) && p.enum_has_member(id, member) ==> member_owner(
            p,
            Some(name),
            member,
        ) == Some(id),
        p.enum_by_name(name) is None && p.enums_with_member(member) == seq![id] ==> member_owner(
            p,
            Some(name),
            member,
        ) == Some(id),
        p.enum_by_name(name) is None && p.enums_with_member(member).len() > 1 ==> member_owner(
            p,
            Some(name),
            member,
        ) is None,
        p.enums_with_member(member).len() == 0 && !(p.enum_by_name(name) is Some
            && p.enum_has_member(p.enum_by_name(name).unwrap(), member)) ==> member_owner(
            p,
            Some(name),
            member,
        ) is None,
{
}

/// What a class is for is said by its name, or else by its name without the package.
pub proof fn classes_are_described(intr: IntrinsicsView, package: Seq<char>, leaf: Seq<char>, doc: Seq<char>)
    requires
        !package.contains('.'),
    ensures
        intr.class_doc(package + "."@ + leaf) == Some(doc) ==> class_summary(
            intr,
            package + "."@ + leaf,
        ) == Some(doc),
        intr.class_doc(package + "."@ + leaf) is None ==> class_summary(
            intr,
            package + "."@ + leaf,
        ) == intr.class_doc(leaf),
{
    reveal_strlit(".");
    let s = package + "."@ + leaf;
    let n = package.len() as int;
    lemma_first_index(s, '.', 0);
    assert(s[n] == '.');
    let i = first_index(s, '.', 0).unwrap();
    if i < n {
        assert(package[i] == '.');
    }
    assert(s.skip(n + 1) =~= leaf);
}

// ---------------------------------------------------------------------------
// Words of the language
// ---------------------------------------------------------------------------

proof fn lemma_keywords_are_described_if()
    ensures
        begins(
            "**if** `keyword`\n\nTests the parenthesised condition and, when true, executes the braced block. Combine with `else` / `else if` for alternative branches."@,
            "**if** `keyword`"@,
        ),
{
    reveal_strlit("**if** `keyword`");
    reveal_strlit(
        "**if** `keyword`\n\nTests the parenthesised condition and, when true, executes the braced block. Combine with `else` / `else if` for alternative branches.",
    );
    assert("**if** `keyword`\n\nTests the parenthesised condition and, when true, executes the braced block. Combine with `else` / `else if` for alternative branches."@.subrange(0, "**if** `keyword`"@.len() as int) =~= "**if** `keyword`"@);
}

proof fn lemma_keywords_are_described_else()
    ensures
        begins(
            "**else** `keyword`\n\nThe alternative branch of an `if`: its block runs when the `if` condition (and any `else if` conditions) are false."@,
            "**else** `keyword`"@,
        ),
{
    reveal_strlit("**else** `keyword`");
    reveal_strlit(
        "**else** `keyword`\n\nThe alternative branch of an `if`: its block runs when the `if` condition (and any `else if` conditions) are false.",
    );
    assert("**else** `keyword`\n\nThe alternative branch of an `if`: its block runs when the `if` condition (and any `else if` conditions) are false."@.subrange(0, "**else** `keyword`"@.len() as int) =~= "**else** `keyword`"@);
}

proof fn lemma_keywords_are_described_when()
    ensures
        begins(
            "**when** `keyword`\n\nBegins a `when … is` construct — a multi-branch match on an enumerated value. Each `is (Value)` block runs when the argument equals that enumerator. It is an enum match, not a fall-through C `switch`."@,
            "**when** `keyword`"@,
        ),
{
    reveal_strlit("**when** `keyword`");
    reveal_strlit(
        "**when** `keyword`\n\nBegins a `when … is` construct — a multi-branch match on an enumerated value. Each `is (Value)` block runs when the argument equals that enumerator. It is an enum match, not a fall-through C `switch`.",
    );
    assert("**when** `keyword`\n\nBegins a `when … is` construct — a multi-branch match on an enumerated value. Each `is (Value)` block runs when the argument equals that enumerator. It is an enum match, not a fall-through C `switch`."@.subrange(0, "**when** `keyword`"@.len() as int) =~= "**when** `keyword`"@);
}

proof fn lemma_keywords_are_described_is()
    ensures
        begins(
            "**is** `keyword`\n\nIntroduces one branch of a `when … is` construct: `is (Value) { … }` runs when the `when` argument equals `Value`."@,
            "**is** `keyword`"@,
        ),
{
    reveal_strlit("**is** `keyword`");
    reveal_strlit(
        "**is** `keyword`\n\nIntroduces one branch of a `when … is` construct: `is (Value) { … }` runs when the `when` argument equals `Value`.",
    );
    assert("**is** `keyword`\n\nIntroduces one branch of a `when … is` construct: `is (Value) { … }` runs when the `when` argument equals `Value`."@.subrange(0, "**is** `keyword`"@.len() as int) =~= "**is** `keyword`"@);
}

proof fn lemma_keywords_are_described_expand()
    ensures
        begins(
            "**expand** `keyword`\n\nBegins an `expand ([name] = [start] to [end])` construct: the body is unrolled at **compile time**, once per value in the range. It is code generation, not a runtime loop."@,
            "**expand** `keyword`"@,
        ),
{
    reveal_strlit("**expand** `keyword`");
    reveal_strlit(
        "**expand** `keyword`\n\nBegins an `expand ([name] = [start] to [end])` construct: the body is unrolled at **compile time**, once per value in the range. It is code generation, not a runtime loop.",
    );
    assert("**expand** `keyword`\n\nBegins an `expand ([name] = [start] to [end])` construct: the body is unrolled at **compile time**, once per value in the range. It is code generation, not a runtime loop."@.subrange(0, "**expand** `keyword`"@.len() as int) =~= "**expand** `keyword`"@);
}

proof fn lemma_keywords_are_described_to()
    ensures
        begins(
            "**to** `keyword`\n\nSeparates the start and end bounds of an `expand ([name] = [start] to [end])` range."@,
            "**to** `keyword`"@,
        ),
{
    reveal_strlit("**to** `keyword`");
    reveal_strlit(
        "**to** `keyword`\n\nSeparates the start and end bounds of an `expand ([name] = [start] to [end])` range.",
    );
    assert("**to** `keyword`\n\nSeparates the start and end bounds of an `expand ([name] = [start] to [end])` range."@.subrange(0, "**to** `keyword`"@.len() as int) =~= "**to** `keyword`"@);
}

proof fn lemma_keywords_are_described_local()
    ensures
        begins(
            "**local** `keyword`\n\nDefines a local variable inside a function. Locals are not visible outside the function and cannot be logged in M1 Tune; a local must be defined before it is used."@,
            "**local** `keyword`"@,
        ),
{
    reveal_strlit("**local** `keyword`");
    reveal_strlit(
        "**local** `keyword`\n\nDefines a local variable inside a function. Locals are not visible outside the function and cannot be logged in M1 Tune; a local must be defined before it is used.",
    );
    assert("**local** `keyword`\n\nDefines a local variable inside a function. Locals are not visible outside the function and cannot be logged in M1 Tune; a local must be defined before it is used."@.subrange(0, "**local** `keyword`"@.len() as int) =~= "**local** `keyword`"@);
}

proof fn lemma_keywords_are_described_static()
    ensures
        begins(
            "**static** `keyword`\n\nWith `local`, makes a local variable retain its value across executions: it is assigned its initial value on the first run and keeps the last value on subsequent runs (a plain `local` is re-initialised every execution)."@,
            "**static** `keyword`"@,
        ),
{
    reveal_strlit("**static** `keyword`");
    reveal_strlit(
        "**static** `keyword`\n\nWith `local`, makes a local variable retain its value across executions: it is assigned its initial value on the first run and keeps the last value on subsequent runs (a plain `local` is re-initialised every execution).",
    );
    assert("**static** `keyword`\n\nWith `local`, makes a local variable retain its value across executions: it is assigned its initial value on the first run and keeps the last value on subsequent runs (a plain `local` is re-initialised every execution)."@.subrange(0, "**static** `keyword`"@.len() as int) =~= "**static** `keyword`"@);
}

/// Every keyword of the language is described, under its own name.
pub proof fn keywords_are_described()
    ensures
        begins(keyword_doc(Kind::If).unwrap(), "**if** `keyword`"@),
        keyword_doc(Kind::If) is Some,
        begins(keyword_doc(Kind::Else).unwrap(), "**else** `keyword`"@),
        keyword_doc(Kind::Else) is Some,
        begins(keyword_doc(Kind::When).unwrap(), "**when** `keyword`"@),
        keyword_doc(Kind::When) is Some,
        begins(keyword_doc(Kind::Is).unwrap(), "**is** `keyword`"@),
        keyword_doc(Kind::Is) is Some,
        begins(keyword_doc(Kind::Expand).unwrap(), "**expand** `keyword`"@),
        keyword_doc(Kind::Expand) is Some,
        begins(keyword_doc(Kind::To).unwrap(), "**to** `keyword`"@),
        keyword_doc(Kind::To) is Some,
        begins(keyword_doc(Kind::Local).unwrap(), "**local** `keyword`"@),
        keyword_doc(Kind::Local) is Some,
        begins(keyword_doc(Kind::Static).unwrap(), "**static** `keyword`"@),
        keyword_doc(Kind::Static) is Some,
{
    lemma_keywords_are_described_if();
    lemma_keywords_are_described_else();
    lemma_keywords_are_described_when();
    lemma_keywords_are_described_is();
    lemma_keywords_are_described_expand();
    lemma_keywords_are_described_to();
    lemma_keywords_are_described_local();
    lemma_keywords_are_described_static();
}

proof fn lemma_primitive_types_are_described_boolean()
    ensures
        begins(
            "**Boolean** `primitive type`\n\nA truth value (`true` / `false`). Restricted to local variables."@,
            "**Boolean** `primitive type`"@,
        ),
{
    reveal_strlit("**Boolean** `primitive type`");
    reveal_strlit(
        "**Boolean** `primitive type`\n\nA truth value (`true` / `false`). Restricted to local variables.",
    );
    assert("**Boolean** `primitive type`\n\nA truth value (`true` / `false`). Restricted to local variables."@.subrange(0, "**Boolean** `primitive type`"@.len() as int) =~= "**Boolean** `primitive type`"@);
}

proof fn lemma_primitive_types_are_described_integer()
    ensures
        begins(
            "**Integer** `primitive type`\n\nA signed whole number (positive, negative, or zero)."@,
            "**Integer** `primitive type`"@,
        ),
{
    reveal_strlit("**Integer** `primitive type`");
    reveal_strlit(
        "**Integer** `primitive type`\n\nA signed whole number (positive, negative, or zero).",
    );
    assert("**Integer** `primitive type`\n\nA signed whole number (positive, negative, or zero)."@.subrange(0, "**Integer** `primitive type`"@.len() as int) =~= "**Integer** `primitive type`"@);
}

proof fn lemma_primitive_types_are_described_unsigned_integer()
    ensures
        begins(
            "**Unsigned Integer** `primitive type`\n\nA non-negative whole number."@,
            "**Unsigned Integer** `primitive type`"@,
        ),
{
    reveal_strlit("**Unsigned Integer** `primitive type`");
    reveal_strlit(
        "**Unsigned Integer** `primitive type`\n\nA non-negative whole number.",
    );
    assert("**Unsigned Integer** `primitive type`\n\nA non-negative whole number."@.subrange(0, "**Unsigned Integer** `primitive type`"@.len() as int) =~= "**Unsigned Integer** `primitive type`"@);
}

proof fn lemma_primitive_types_are_described_floating_point()
    ensures
        begins(
            "**Floating Point** `primitive type`\n\nA real number, supporting a wide range of values with fractional precision."@,
            "**Floating Point** `primitive type`"@,
        ),
{
    reveal_strlit("**Floating Point** `primitive type`");
    reveal_strlit(
        "**Floating Point** `primitive type`\n\nA real number, supporting a wide range of values with fractional precision.",
    );
    assert("**Floating Point** `primitive type`\n\nA real number, supporting a wide range of values with fractional precision."@.subrange(0, "**Floating Point** `primitive type`"@.len() as int) =~= "**Floating Point** `primitive type`"@);
}

proof fn lemma_primitive_types_are_described_fixed_point_7dps()
    ensures
        begins(
            "**Fixed Point 7dps** `primitive type`\n\nAn integer scaled by 1e-7 — a signed number with seven fixed decimal places."@,
            "**Fixed Point 7dps** `primitive type`"@,
        ),
{
    reveal_strlit("**Fixed Point 7dps** `primitive type`");
    reveal_strlit(
        "**Fixed Point 7dps** `primitive type`\n\nAn integer scaled by 1e-7 — a signed number with seven fixed decimal places.",
    );
    assert("**Fixed Point 7dps** `primitive type`\n\nAn integer scaled by 1e-7 — a signed number with seven fixed decimal places."@.subrange(0, "**Fixed Point 7dps** `primitive type`"@.len() as int) =~= "**Fixed Point 7dps** `primitive type`"@);
}

proof fn lemma_primitive_types_are_described_string()
    ensures
        begins(
            "**String** `primitive type`\n\nA text value, used for display in information windows. Restricted to local variables."@,
            "**String** `primitive type`"@,
        ),
{
    reveal_strlit("**String** `primitive type`");
    reveal_strlit(
        "**String** `primitive type`\n\nA text value, used for display in information windows. Restricted to local variables.",
    );
    assert("**String** `primitive type`\n\nA text value, used for display in information windows. Restricted to local variables."@.subrange(0, "**String** `primitive type`"@.len() as int) =~= "**String** `primitive type`"@);
}

/// Every primitive type is described, under its own name, and no other name is.
pub proof fn primitive_types_are_described(name: Seq<char>)
    ensures
        begins(primitive_doc("Boolean"@).unwrap(), "**Boolean** `primitive type`"@),
        primitive_doc("Boolean"@) is Some,
        begins(primitive_doc("Integer"@).unwrap(), "**Integer** `primitive type`"@),
        primitive_doc("Integer"@) is Some,
        begins(primitive_doc("Unsigned Integer"@).unwrap(), "**Unsigned Integer** `primitive type`"@),
        primitive_doc("Unsigned Integer"@) is Some,
        begins(primitive_doc("Floating Point"@).unwrap(), "**Floating Point** `primitive type`"@),
        primitive_doc("Floating Point"@) is Some,
        begins(primitive_doc("Fixed Point 7dps"@).unwrap(), "**Fixed Point 7dps** `primitive type`"@),
        primitive_doc("Fixed Point 7dps"@) is Some,
        begins(primitive_doc("String"@).unwrap(), "**String** `primitive type`"@),
        primitive_doc("String"@) is Some,
        primitive_doc(name) is Some ==> name == "Boolean"@ || name == "Integer"@ || name == "Unsigned Integer"@ || name == "Floating Point"@ || name == "Fixed Point 7dps"@ || name == "String"@,
{
    lemma_primitive_types_are_described_boolean();
    lemma_primitive_types_are_described_integer();
    lemma_primitive_types_are_described_unsigned_integer();
    lemma_primitive_types_are_described_floating_point();
    lemma_primitive_types_are_described_fixed_point_7dps();
    lemma_primitive_types_are_described_string();
    reveal_strlit("Boolean");
    reveal_strlit("Integer");
    reveal_strlit("Unsigned Integer");
    reveal_strlit("Floating Point");
    reveal_strlit("Fixed Point 7dps");
    reveal_strlit("String");
    assert("Integer"@ != "Boolean"@) by {
        assert("Integer"@[0] != "Boolean"@[0]);
    }
    assert("Unsigned Integer"@ != "Boolean"@) by {
        assert("Unsigned Integer"@.len() != "Boolean"@.len());
    }
    assert("Unsigned Integer"@ != "Integer"@) by {
        assert("Unsigned Integer"@.len() != "Integer"@.len());
    }
    assert("Floating Point"@ != "Boolean"@) by {
        assert("Floating Point"@.len() != "Boolean"@.len());
    }
    assert("Floating Point"@ != "Integer"@) by {
        assert("Floating Point"@.len() != "Integer"@.len());
    }
    assert("Floating Point"@ != "Unsigned Integer"@) by {
        assert("Floating Point"@.len() != "Unsigned Integer"@.len());
    }
    assert("Fixed Point 7dps"@ != "Boolean"@) by {
        assert("Fixed Point 7dps"@.len() != "Boolean"@.len());
    }
    assert("Fixed Point 7dps"@ != "Integer"@) by {
        assert("Fixed Point 7dps"@.len() != "Integer"@.len());
    }
    assert("Fixed Point 7dps"@ != "Unsigned Integer"@) by {
        assert("Fixed Point 7dps"@[0] != "Unsigned Integer"@[0]);
    }
    assert("Fixed Point 7dps"@ != "Floating Point"@) by {
        assert("Fixed Point 7dps"@.len() != "Floating Point"@.len());
    }
    assert("String"@ != "Boolean"@) by {
        assert("String"@.len() != "Boolean"@.len());
    }
    assert("String"@ != "Integer"@) by {
        assert("String"@.len() != "Integer"@.len());
    }
    assert("String"@ != "Unsigned Integer"@) by {
        assert("String"@.len() != "Unsigned Integer"@.len());
    }
    assert("String"@ != "Floating Point"@) by {
        assert("String"@.len() != "Floating Point"@.len());
    }
    assert("String"@ != "Fixed Point 7dps"@) by {
        assert("String"@.len() != "Fixed Point 7dps"@.len());
    }
}

proof fn lemma_anchors_are_described_root()
    ensures
        begins(
            "**Root** `reference keyword`\n\nThe root group of the Project — the first constituent of an absolute object reference (`Root.Group.Channel`). Use it to disambiguate when a nearer object shares the same name."@,
            "**Root** `reference keyword`"@,
        ),
{
    reveal_strlit("**Root** `reference keyword`");
    reveal_strlit(
        "**Root** `reference keyword`\n\nThe root group of the Project — the first constituent of an absolute object reference (`Root.Group.Channel`). Use it to disambiguate when a nearer object shares the same name.",
    );
    assert("**Root** `reference keyword`\n\nThe root group of the Project — the first constituent of an absolute object reference (`Root.Group.Channel`). Use it to disambiguate when a nearer object shares the same name."@.subrange(0, "**Root** `reference keyword`"@.len() as int) =~= "**Root** `reference keyword`"@);
}

proof fn lemma_anchors_are_described_parent()
    ensures
        begins(
            "**Parent** `reference keyword`\n\nThe object containing the current one. Unqualified, it resolves to the parent of the group the current object is stored in (`Parent.Channel`)."@,
            "**Parent** `reference keyword`"@,
        ),
{
    reveal_strlit("**Parent** `reference keyword`");
    reveal_strlit(
        "**Parent** `reference keyword`\n\nThe object containing the current one. Unqualified, it resolves to the parent of the group the current object is stored in (`Parent.Channel`).",
    );
    assert("**Parent** `reference keyword`\n\nThe object containing the current one. Unqualified, it resolves to the parent of the group the current object is stored in (`Parent.Channel`)."@.subrange(0, "**Parent** `reference keyword`"@.len() as int) =~= "**Parent** `reference keyword`"@);
}

proof fn lemma_anchors_are_described_this()
    ensures
        begins(
            "**This** `reference keyword`\n\nThe group the current object is stored within. Use it to disambiguate when an object of the same name exists in an enclosing scope (`This.Channel`)."@,
            "**This** `reference keyword`"@,
        ),
{
    reveal_strlit("**This** `reference keyword`");
    reveal_strlit(
        "**This** `reference keyword`\n\nThe group the current object is stored within. Use it to disambiguate when an object of the same name exists in an enclosing scope (`This.Channel`).",
    );
    assert("**This** `reference keyword`\n\nThe group the current object is stored within. Use it to disambiguate when an object of the same name exists in an enclosing scope (`This.Channel`)."@.subrange(0, "**This** `reference keyword`"@.len() as int) =~= "**This** `reference keyword`"@);
}

proof fn lemma_anchors_are_described_in()
    ensures
        begins(
            "**In** `reference keyword`\n\nThe object holding a function's input arguments; reference them with the `.` operator (`In.Argument`)."@,
            "**In** `reference keyword`"@,
        ),
{
    reveal_strlit("**In** `reference keyword`");
    reveal_strlit(
        "**In** `reference keyword`\n\nThe object holding a function's input arguments; reference them with the `.` operator (`In.Argument`).",
    );
    assert("**In** `reference keyword`\n\nThe object holding a function's input arguments; reference them with the `.` operator (`In.Argument`)."@.subrange(0, "**In** `reference keyword`"@.len() as int) =~= "**In** `reference keyword`"@);
}

proof fn lemma_anchors_are_described_out()
    ensures
        begins(
            "**Out** `reference keyword`\n\nThe object holding a function's return value; assign it with `=` (`Out.Result = …`)."@,
            "**Out** `reference keyword`"@,
        ),
{
    reveal_strlit("**Out** `reference keyword`");
    reveal_strlit(
        "**Out** `reference keyword`\n\nThe object holding a function's return value; assign it with `=` (`Out.Result = …`).",
    );
    assert("**Out** `reference keyword`\n\nThe object holding a function's return value; assign it with `=` (`Out.Result = …`)."@.subrange(0, "**Out** `reference keyword`"@.len() as int) =~= "**Out** `reference keyword`"@);
}

proof fn lemma_anchors_are_described_library()
    ensures
        begins(
            "**Library** `reference keyword`\n\nForms a library-function reference (`Library.Calculate.Max(…)`). Use it to disambiguate when an object name conflicts with a library-function name."@,
            "**Library** `reference keyword`"@,
        ),
{
    reveal_strlit("**Library** `reference keyword`");
    reveal_strlit(
        "**Library** `reference keyword`\n\nForms a library-function reference (`Library.Calculate.Max(…)`). Use it to disambiguate when an object name conflicts with a library-function name.",
    );
    assert("**Library** `reference keyword`\n\nForms a library-function reference (`Library.Calculate.Max(…)`). Use it to disambiguate when an object name conflicts with a library-function name."@.subrange(0, "**Library** `reference keyword`"@.len() as int) =~= "**Library** `reference keyword`"@);
}

/// Every word that a reference can start with is described, under its own name, and no other word is.
pub proof fn anchors_are_described(name: Seq<char>)
    ensures
        begins(anchor_doc("Root"@).unwrap(), "**Root** `reference keyword`"@),
        anchor_doc("Root"@) is Some,
        begins(anchor_doc("Parent"@).unwrap(), "**Parent** `reference keyword`"@),
        anchor_doc("Parent"@) is Some,
        begins(anchor_doc("This"@).unwrap(), "**This** `reference keyword`"@),
        anchor_doc("This"@) is Some,
        begins(anchor_doc("In"@).unwrap(), "**In** `reference keyword`"@),
        anchor_doc("In"@) is Some,
        begins(anchor_doc("Out"@).unwrap(), "**Out** `reference keyword`"@),
        anchor_doc("Out"@) is Some,
        begins(anchor_doc("Library"@).unwrap(), "**Library** `reference keyword`"@),
        anchor_doc("Library"@) is Some,
        anchor_doc(name) is Some ==> name == "Root"@ || name == "Parent"@ || name == "This"@ || name == "In"@ || name == "Out"@ || name == "Library"@,
{
    lemma_anchors_are_described_root();
    lemma_anchors_are_described_parent();
    lemma_anchors_are_described_this();
    lemma_anchors_are_described_in();
    lemma_anchors_are_described_out();
    lemma_anchors_are_described_library();
    reveal_strlit("Root");
    reveal_strlit("Parent");
    reveal_strlit("This");
    reveal_strlit("In");
    reveal_strlit("Out");
    reveal_strlit("Library");
    assert("Parent"@ != "Root"@) by {
        assert("Parent"@.len() != "Root"@.len());
    }
    assert("This"@ != "Root"@) by {
        assert("This"@[0] != "Root"@[0]);
    }
    assert("This"@ != "Parent"@) by {
        assert("This"@.len() != "Parent"@.len());
    }
    assert("In"@ != "Root"@) by {
        assert("In"@.len() != "Root"@.len());
    }
    assert("In"@ != "Parent"@) by {
        assert("In"@.len() != "Parent"@.len());
    }
    assert("In"@ != "This"@) by {
        assert("In"@.len() != "This"@.len());
    }
    assert("Out"@ != "Root"@) by {
        assert("Out"@.len() != "Root"@.len());
    }
    assert("Out"@ != "Parent"@) by {
        assert("Out"@.len() != "Parent"@.len());
    }
    assert("Out"@ != "This"@) by {
        assert("Out"@.len() != "This"@.len());
    }
    assert("Out"@ != "In"@) by {
        assert("Out"@.len() != "In"@.len());
    }
    assert("Library"@ != "Root"@) by {
        assert("Library"@.len() != "Root"@.len());
    }
    assert("Library"@ != "Parent"@) by {
        assert("Library"@.len() != "Parent"@.len());
    }
    assert("Library"@ != "This"@) by {
        assert("Library"@.len() != "This"@.len());
    }
    assert("Library"@ != "In"@) by {
        assert("Library"@.len() != "In"@.len());
    }
    assert("Library"@ != "Out"@) by {
        assert("Library"@.len() != "Out"@.len());
    }
}

} // verus!
