//! The description of a project symbol: its kind, type, unit, access level, rates and
//! tags, the class of an object, the shape of a table, the layout of a CAN signal.
use crate::format::{compact, compact_text, decimal, decimal_text, hex_text, hexadecimal};
use crate::list::{fresh, one, put, put_at};
use crate::model::{
    CanMetaView, EnumType, EnumTypeView, Intrinsics, IntrinsicsView, Project, ProjectView, Symbol,
    SymbolKind, SymbolView, TableAxisView, TableMeta, TableMetaView, ValueType,
};
use crate::search::{cut_first, cut_last, join, joined, rsplit_once, split_once};
use crate::text::same;
use vstd::prelude::*;
use vstd::string::*;

verus! {

pub open spec fn value_type_name(t: ValueType) -> Seq<char> {
    match t {
        ValueType::Boolean => "Boolean"@,
        ValueType::Integer => "Integer"@,
        ValueType::Unsigned => "Unsigned"@,
        ValueType::Float => "Float"@,
        ValueType::Enum(_) => "Enum"@,
        ValueType::String => "String"@,
        ValueType::Unknown => "Unknown"@,
    }
}

/// The name of a type.
pub fn value_type_str(t: ValueType) -> (r: &'static str)
    ensures
        r@ == value_type_name(t),
{
    match t {
        ValueType::Boolean => "Boolean",
        ValueType::Integer => "Integer",
        ValueType::Unsigned => "Unsigned",
        ValueType::Float => "Float",
        ValueType::Enum(_) => "Enum",
        ValueType::String => "String",
        ValueType::Unknown => "Unknown",
    }
}

pub open spec fn kind_name(k: SymbolKind) -> Seq<char> {
    match k {
        SymbolKind::Channel => "channel"@,
        SymbolKind::Parameter => "parameter"@,
        SymbolKind::Constant => "constant"@,
        SymbolKind::Function => "function"@,
        SymbolKind::Method => "method"@,
        SymbolKind::Table => "table"@,
        SymbolKind::Group => "group"@,
        SymbolKind::Reference => "reference"@,
        SymbolKind::Object => "object"@,
        SymbolKind::Other => "symbol"@,
    }
}

fn kind_str(k: SymbolKind) -> (r: &'static str)
    ensures
        r@ == kind_name(k),
{
    match k {
        SymbolKind::Channel => "channel",
        SymbolKind::Parameter => "parameter",
        SymbolKind::Constant => "constant",
        SymbolKind::Function => "function",
        SymbolKind::Method => "method",
        SymbolKind::Table => "table",
        SymbolKind::Group => "group",
        SymbolKind::Reference => "reference",
        SymbolKind::Object => "object",
        SymbolKind::Other => "symbol",
    }
}

/// The path and the kind.
pub open spec fn header_text(sym: SymbolView) -> Seq<char> {
    "**"@ + sym.path + "** `"@ + kind_name(sym.kind) + "`\n\n"@
}

fn header_markdown(sym: &Symbol) -> (r: String)
    ensures
        r@ == header_text(sym.deep_view()),
{
    let mut r = "**".to_string();
    r.append(sym.path.as_str());
    r.append("** `");
    r.append(kind_str(sym.kind));
    r.append("`\n\n");
    r
}

// ---------------------------------------------------------------------------
// Objects
// ---------------------------------------------------------------------------

/// What a class is for: by its full name, or by the name behind its package.
pub open spec fn class_summary(intr: IntrinsicsView, class: Seq<char>) -> Option<Seq<char>> {
    match intr.class_doc(class) {
        Some(doc) => Some(doc),
        None => match cut_first(class, '.') {
            Some((package, leaf)) => intr.class_doc(leaf),
            None => None,
        },
    }
}

/// The class of an object, and the frame of a CAN message.
pub open spec fn object_text(sym: SymbolView, intr: IntrinsicsView) -> Seq<char> {
    let s = match sym.class {
        Some(class) => {
            let s = "class: `"@ + class + "`"@;
            match class_summary(intr, class) {
                Some(doc) => s + "\n\n"@ + doc,
                None => s,
            }
        },
        None => "object"@,
    };
    match sym.can {
        Some(can) => match (can.can_id, can.dlc) {
            (Some(id), Some(dlc)) => s + "\n\nCAN id: `0x"@ + hexadecimal(id as nat) + "`  ·  `"@
                + decimal(dlc as nat) + "` bytes"@,
            _ => s,
        },
        None => s,
    }
}

fn class_summary_of<'a>(intr: &'a Intrinsics, class: &str) -> (r: Option<&'a String>)
    ensures
        r.deep_view() == class_summary(intr.deep_view(), class@),
{
    match intr.class_doc(class) {
        Some(doc) => Some(doc),
        None => match split_once(class, '.') {
            Some((package, leaf)) => intr.class_doc(leaf.as_str()),
            None => None,
        },
    }
}

/// The class of an object, and the frame of a CAN message; none for another symbol.
pub fn object_markdown(sym: &Symbol, intr: &Intrinsics) -> (r: Option<String>)
    ensures
        r.deep_view() == (if sym.kind == SymbolKind::Object {
            Some(object_text(sym.deep_view(), intr.deep_view()))
        } else {
            None
        }),
{
    if sym.kind != SymbolKind::Object {
        return None;
    }
    let mut s = match &sym.class {
        Some(class) => {
            let mut s = "class: `".to_string();
            s.append(class.as_str());
            s.append("`");
            if let Some(doc) = class_summary_of(intr, class.as_str()) {
                s.append("\n\n");
                s.append(doc.as_str());
            }
            s
        },
        None => "object".to_string(),
    };
    if let Some(can) = &sym.can {
        if let (Some(id), Some(dlc)) = (can.can_id, can.dlc) {
            s.append("\n\nCAN id: `0x");
            s.append(hex_text(id).as_str());
            s.append("`  ·  `");
            s.append(decimal_text(dlc as u64).as_str());
            s.append("` bytes");
        }
    }
    Some(s)
}

// ---------------------------------------------------------------------------
// Types
// ---------------------------------------------------------------------------

/// `s` with `x` put behind every member whose value is not greater.
pub open spec fn insert_member(s: Seq<(Seq<char>, i64)>, x: (Seq<char>, i64)) -> Seq<
    (Seq<char>, i64),
>
    decreases s.len(),
{
    if s.len() == 0 || s.last().1 <= x.1 {
        s.push(x)
    } else {
        insert_member(s.drop_last(), x).push(s.last())
    }
}

/// The first `k` members in the order of their values.
pub open spec fn by_value_upto(s: Seq<(Seq<char>, i64)>, k: int) -> Seq<(Seq<char>, i64)>
    decreases k,
{
    if k <= 0 {
        Seq::empty()
    } else {
        insert_member(by_value_upto(s, k - 1), s[k - 1])
    }
}

pub open spec fn member_label(name: Seq<char>, default: Option<Seq<char>>) -> Seq<char> {
    if default == Some(name) {
        "`"@ + name + "` (default)"@
    } else {
        "`"@ + name + "`"@
    }
}

pub open spec fn member_labels(
    s: Seq<(Seq<char>, i64)>,
    default: Option<Seq<char>>,
    k: int,
) -> Seq<Seq<char>>
    decreases k,
{
    if k <= 0 {
        Seq::empty()
    } else {
        member_labels(s, default, k - 1).push(member_label(s[k - 1].0, default))
    }
}

/// The members of an enumeration in the order of their values, the default marked.
pub open spec fn members_text(e: EnumTypeView) -> Seq<char> {
    let ms = by_value_upto(e.members, e.members.len() as int);
    joined(member_labels(ms, e.default, ms.len() as int), ", "@)
}

proof fn lemma_insert_member(s: Seq<(Seq<char>, i64)>, x: (Seq<char>, i64), j: int)
    requires
        0 <= j <= s.len(),
        forall|i: int| j <= i < s.len() ==> (#[trigger] s[i]).1 > x.1,
        j > 0 ==> s[j - 1].1 <= x.1,
    ensures
        insert_member(s, x) == s.insert(j, x),
    decreases s.len(),
{
    if j == s.len() {
        assert(s.insert(j, x) =~= s.push(x));
    } else {
        assert(s.last() == s[s.len() - 1]);
        lemma_insert_member(s.drop_last(), x, j);
        assert(s.insert(j, x) =~= s.drop_last().insert(j, x).push(s.last()));
    }
}

fn by_value(members: &Vec<(String, i64)>) -> (r: Vec<(String, i64)>)
    ensures
        r.deep_view() == by_value_upto(members.deep_view(), members@.len() as int),
{
    let ghost ms = members.deep_view();
    let mut r: Vec<(String, i64)> = fresh();
    let mut k: usize = 0;
    while k < members.len()
        invariant
            k <= members@.len(),
            ms == members.deep_view(),
            r.deep_view() == by_value_upto(ms, k as int),
        decreases members@.len() - k,
    {
        assert(ms[k as int] == members@[k as int].deep_view());
        let name = members[k].0.clone();
        let value: i64 = members[k].1;
        let mut j: usize = r.len();
        while j > 0 && r[j - 1].1 > value
            invariant
                j <= r@.len(),
                forall|i: int| j <= i < r@.len() ==> (#[trigger] r.deep_view()[i]).1 > value,
            decreases j,
        {
            j = j - 1;
        }
        proof {
            assert(j > 0 ==> r.deep_view()[j - 1].1 == r@[j - 1].1);
            lemma_insert_member(r.deep_view(), (name@, value), j as int);
        }
        put_at(&mut r, j, (name, value));
        k = k + 1;
    }
    r
}

/// The members of an enumeration, as one line.
pub fn members_line(e: &EnumType) -> (r: String)
    ensures
        r@ == members_text(e.deep_view()),
{
    let ms = by_value(&e.members);
    let ghost s = ms.deep_view();
    let ghost default = e.default.deep_view();
    let mut labels: Vec<String> = fresh();
    let mut k: usize = 0;
    while k < ms.len()
        invariant
            k <= ms@.len(),
            s == ms.deep_view(),
            default == e.default.deep_view(),
            labels@.len() == k,
            labels.deep_view() == member_labels(s, default, k as int),
        decreases ms@.len() - k,
    {
        assert(s[k as int] == ms@[k as int].deep_view());
        let name = ms[k].0.as_str();
        let is_default = match &e.default {
            Some(d) => same(d.as_str(), name),
            None => false,
        };
        let mut label = "`".to_string();
        label.append(name);
        if is_default {
            label.append("` (default)");
        } else {
            label.append("`");
        }
        put(&mut labels, label);
        k = k + 1;
    }
    assert(labels.deep_view().take(labels@.len() as int) =~= labels.deep_view());
    join(&labels, labels.len(), ", ")
}

/// The enumeration that types the symbol.
pub open spec fn symbol_enum(sym: SymbolView, project: Option<ProjectView>) -> Option<
    EnumTypeView,
> {
    match (sym.value_type, project) {
        (ValueType::Enum(id), Some(p)) => p.enum_type(id),
        _ => None,
    }
}

/// The type. One that is not known says what the project declares.
pub open spec fn type_text(sym: SymbolView, project: Option<ProjectView>) -> Seq<char> {
    let s = match symbol_enum(sym, project) {
        Some(e) => "type: `"@ + "Enum ("@ + e.name + ")"@ + "`"@,
        None => "type: `"@ + value_type_name(sym.value_type) + "`"@,
    };
    if sym.value_type == ValueType::Unknown {
        match sym.declared_type {
            Some(decl) => s + " (declared: `"@ + decl + "`, not resolved by the model)"@,
            None => s + " (no type declared — not inferred)"@,
        }
    } else {
        s
    }
}

/// The values that an enumeration has.
pub open spec fn values_text(sym: SymbolView, project: Option<ProjectView>) -> Option<Seq<char>> {
    match symbol_enum(sym, project) {
        Some(e) => if members_text(e).len() == 0 {
            None
        } else {
            Some(members_text(e))
        },
        None => None,
    }
}

pub fn symbol_enum_type<'a>(sym: &Symbol, project: Option<&'a Project>) -> (r: Option<&'a EnumType>)
    ensures
        r.deep_view() == symbol_enum(sym.deep_view(), project.deep_view()),
{
    match (sym.value_type, project) {
        (ValueType::Enum(id), Some(p)) => p.enum_type(id),
        _ => None,
    }
}

fn type_markdown(sym: &Symbol, project: Option<&Project>) -> (r: (String, Option<String>))
    ensures
        r.0@ == type_text(sym.deep_view(), project.deep_view()),
        r.1.deep_view() == values_text(sym.deep_view(), project.deep_view()),
{
    let mut s = "type: `".to_string();
    let mut values: Option<String> = None;
    match symbol_enum_type(sym, project) {
        Some(e) => {
            s.append("Enum (");
            s.append(e.name.as_str());
            s.append(")");
            s.append("`");
            let list = members_line(e);
            if !same(list.as_str(), "") {
                values = Some(list);
            }
            proof {
                reveal_strlit("");
                assert(list@.len() == 0 ==> list@ =~= ""@);
            }
        },
        None => {
            s.append(value_type_str(sym.value_type));
            s.append("`");
        },
    }
    if sym.value_type == ValueType::Unknown {
        match &sym.declared_type {
            Some(decl) => {
                s.append(" (declared: `");
                s.append(decl.as_str());
                s.append("`, not resolved by the model)");
            },
            None => {
                s.append(" (no type declared — not inferred)");
            },
        }
    }
    (s, values)
}

// ---------------------------------------------------------------------------
// Badges
// ---------------------------------------------------------------------------

pub open spec fn ticked(tags: Seq<Seq<char>>, k: int) -> Seq<Seq<char>>
    decreases k,
{
    if k <= 0 {
        Seq::empty()
    } else {
        ticked(tags, k - 1).push("`"@ + tags[k - 1] + "`"@)
    }
}

/// `s`, then the unit, the access level, the rates and the tags, as far as there are any.
pub open spec fn with_badges(s: Seq<char>, sym: SymbolView) -> Seq<char> {
    let s1 = match sym.unit {
        Some(unit) => s + "  ·  unit: `"@ + unit + "`"@,
        None => s,
    };
    let s2 = match sym.security {
        Some(level) => s1 + "  ·  security: `"@ + level + "`"@,
        None => s1,
    };
    let s3 = match sym.call_rate {
        Some(hz) => s2 + "  ·  call rate: `"@ + compact(hz.fixed) + " Hz`"@,
        None => s2,
    };
    let s4 = match sym.log_rate {
        Some(hz) => s3 + "  ·  log rate: `"@ + compact(hz.fixed) + " Hz`"@,
        None => s3,
    };
    if sym.tags.len() > 0 {
        s4 + "  ·  tags: "@ + joined(ticked(sym.tags, sym.tags.len() as int), " "@)
    } else {
        s4
    }
}

fn meta_badges_markdown(s: &mut String, sym: &Symbol)
    ensures
        final(s)@ == with_badges(old(s)@, sym.deep_view()),
{
    if let Some(unit) = &sym.unit {
        s.append("  ·  unit: `");
        s.append(unit.as_str());
        s.append("`");
    }
    if let Some(level) = &sym.security {
        s.append("  ·  security: `");
        s.append(level.as_str());
        s.append("`");
    }
    if let Some(hz) = &sym.call_rate {
        s.append("  ·  call rate: `");
        s.append(compact_text(hz.fixed.as_str()).as_str());
        s.append(" Hz`");
    }
    if let Some(hz) = &sym.log_rate {
        s.append("  ·  log rate: `");
        s.append(compact_text(hz.fixed.as_str()).as_str());
        s.append(" Hz`");
    }
    if sym.tags.len() > 0 {
        let ghost tags = sym.tags.deep_view();
        let mut badges: Vec<String> = fresh();
        let mut k: usize = 0;
        while k < sym.tags.len()
            invariant
                k <= sym.tags@.len(),
                tags == sym.tags.deep_view(),
                badges@.len() == k,
                badges.deep_view() == ticked(tags, k as int),
            decreases sym.tags@.len() - k,
        {
            assert(tags[k as int] == sym.tags@[k as int]@);
            let mut badge = "`".to_string();
            badge.append(sym.tags[k].as_str());
            badge.append("`");
            put(&mut badges, badge);
            k = k + 1;
        }
        s.append("  ·  tags: ");
        assert(badges.deep_view().take(badges@.len() as int) =~= badges.deep_view());
        s.append(join(&badges, badges.len(), " ").as_str());
    }
}

// ---------------------------------------------------------------------------
// Tables
// ---------------------------------------------------------------------------

pub open spec fn axis_sizes(axes: Seq<TableAxisView>, k: int) -> Seq<Seq<char>>
    decreases k,
{
    if k <= 0 {
        Seq::empty()
    } else {
        axis_sizes(axes, k - 1).push(decimal(axes[k - 1].size as nat))
    }
}

pub open spec fn axis_name(i: int) -> Seq<char> {
    if i == 0 {
        "X"@
    } else if i == 1 {
        "Y"@
    } else if i == 2 {
        "Z"@
    } else {
        "?"@
    }
}

pub open spec fn axis_units(axes: Seq<TableAxisView>, k: int) -> Seq<Seq<char>>
    decreases k,
{
    if k <= 0 {
        Seq::empty()
    } else {
        match axes[k - 1].unit {
            Some(u) => axis_units(axes, k - 1).push(axis_name(k - 1) + " `"@ + u + "`"@),
            None => axis_units(axes, k - 1),
        }
    }
}

/// The dimensions and sizes of a table, the units of its axes and of its output.
pub open spec fn table_text(meta: TableMetaView) -> Seq<char> {
    let n = meta.axes.len() as int;
    let s1 = if n == 0 {
        "\n\ntable"@
    } else {
        "\n\n"@ + decimal(n as nat) + "-D table  ·  shape: `"@ + joined(
            axis_sizes(meta.axes, n),
            " × "@,
        ) + "`"@
    };
    let units = axis_units(meta.axes, n);
    let s2 = if units.len() == 0 {
        s1
    } else {
        s1 + "\n\naxes: "@ + joined(units, ", "@)
    };
    match meta.output_unit {
        Some(u) => s2 + "\n\noutput: `"@ + u + "`"@,
        None => s2,
    }
}

fn table_markdown(meta: &TableMeta) -> (r: String)
    ensures
        r@ == table_text(meta.deep_view()),
{
    let ghost axes = meta.axes.deep_view();
    let mut sizes: Vec<String> = fresh();
    let mut units: Vec<String> = fresh();
    let mut k: usize = 0;
    while k < meta.axes.len()
        invariant
            k <= meta.axes@.len(),
            axes == meta.axes.deep_view(),
            sizes@.len() == k,
            sizes.deep_view() == axis_sizes(axes, k as int),
            units.deep_view() == axis_units(axes, k as int),
        decreases meta.axes@.len() - k,
    {
        assert(axes[k as int] == meta.axes@[k as int].deep_view());
        put(&mut sizes, decimal_text(meta.axes[k].size as u64));
        if let Some(u) = &meta.axes[k].unit {
            let name = if k == 0 {
                "X"
            } else if k == 1 {
                "Y"
            } else if k == 2 {
                "Z"
            } else {
                "?"
            };
            let mut unit = name.to_string();
            unit.append(" `");
            unit.append(u.as_str());
            unit.append("`");
            put(&mut units, unit);
        }
        k = k + 1;
    }
    let mut s = if k == 0 {
        "\n\ntable".to_string()
    } else {
        let mut s = "\n\n".to_string();
        s.append(decimal_text(k as u64).as_str());
        s.append("-D table  ·  shape: `");
        assert(sizes.deep_view().take(sizes@.len() as int) =~= sizes.deep_view());
        s.append(join(&sizes, sizes.len(), " × ").as_str());
        s.append("`");
        s
    };
    if units.len() > 0 {
        s.append("\n\naxes: ");
        assert(units.deep_view().take(units@.len() as int) =~= units.deep_view());
        s.append(join(&units, units.len(), ", ").as_str());
    }
    assert(units.deep_view().len() == units@.len());
    if let Some(u) = &meta.output_unit {
        s.append("\n\noutput: `");
        s.append(u.as_str());
        s.append("`");
    }
    s
}

// ---------------------------------------------------------------------------
// CAN signals
// ---------------------------------------------------------------------------

/// The frame of the message at `path`.
pub open spec fn frame_text(project: Option<ProjectView>, path: Seq<char>) -> Seq<char> {
    let can = match project {
        Some(p) => match p.get(path) {
            Some(m) => m.can,
            None => None,
        },
        None => None,
    };
    match can {
        Some(c) => match (c.can_id, c.dlc) {
            (Some(id), Some(dlc)) => " (0x"@ + hexadecimal(id as nat) + ", "@ + decimal(dlc as nat)
                + " bytes)"@,
            (Some(id), None) => " (0x"@ + hexadecimal(id as nat) + ")"@,
            _ => ""@,
        },
        None => ""@,
    }
}

/// The message that a signal belongs to.
pub open spec fn message_text(path: Seq<char>, project: Option<ProjectView>) -> Option<Seq<char>> {
    match cut_last(path, '.') {
        Some((parent, leaf)) => {
            let name = match cut_last(parent, '.') {
                Some((head, n)) => n,
                None => parent,
            };
            Some("Message: `"@ + name + "`"@ + frame_text(project, parent))
        },
        None => None,
    }
}

/// `lines`, and `line` if there is one.
pub open spec fn and_line(lines: Seq<Seq<char>>, line: Option<Seq<char>>) -> Seq<Seq<char>> {
    match line {
        Some(l) => lines.push(l),
        None => lines,
    }
}

pub open spec fn range_text(r: Option<(Seq<char>, Seq<char>)>) -> Option<Seq<char>> {
    match r {
        Some((lo, hi)) => Some("Range: `"@ + compact(lo) + " – "@ + compact(hi) + "`"@),
        None => None,
    }
}

pub open spec fn scale_text(can: CanMetaView) -> Option<Seq<char>> {
    match (can.multiplier, can.offset) {
        (Some(m), Some(o)) => Some(
            "Scale: `"@ + compact(m) + "`  ·  Offset: `"@ + compact(o) + "`"@,
        ),
        _ => None,
    }
}

pub open spec fn bits_text(can: CanMetaView) -> Option<Seq<char>> {
    match (can.start_bit, can.length) {
        (Some(bit), Some(len)) => Some(
            "Bit pos: `"@ + decimal(bit as nat) + "`  ·  Length: `"@ + decimal(len as nat)
                + "` bits"@,
        ),
        _ => None,
    }
}

/// The layout of a CAN signal; none for another symbol.
pub open spec fn signal_text(sym: SymbolView, project: Option<ProjectView>) -> Option<Seq<char>> {
    match sym.can {
        Some(can) => if can.start_bit is None && can.length is None && sym.dbc_range is None {
            None
        } else {
            let l0 = seq!["Kind: `CAN Signal`"@];
            let l1 = and_line(l0, range_text(sym.dbc_range));
            let l2 = and_line(l1, scale_text(can));
            let l3 = and_line(l2, message_text(sym.path, project));
            let l4 = and_line(l3, bits_text(can));
            Some(joined(l4, "\n\n"@))
        },
        None => None,
    }
}

fn frame_markdown(project: Option<&Project>, path: &str) -> (r: String)
    ensures
        r@ == frame_text(project.deep_view(), path@),
{
    let mut s = "".to_string();
    if let Some(p) = project {
        if let Some(m) = p.get(path) {
            if let Some(c) = &m.can {
                if let Some(id) = c.can_id {
                    s = " (0x".to_string();
                    s.append(hex_text(id).as_str());
                    if let Some(dlc) = c.dlc {
                        s.append(", ");
                        s.append(decimal_text(dlc as u64).as_str());
                        s.append(" bytes)");
                    } else {
                        s.append(")");
                    }
                }
            }
        }
    }
    s
}

fn dbc_signal_markdown(sym: &Symbol, project: Option<&Project>) -> (r: Option<String>)
    ensures
        r.deep_view() == signal_text(sym.deep_view(), project.deep_view()),
{
    let can = match &sym.can {
        Some(can) => can,
        None => {
            return None;
        },
    };
    if can.start_bit.is_none() && can.length.is_none() && sym.dbc_range.is_none() {
        return None;
    }
    let mut lines: Vec<String> = one("Kind: `CAN Signal`".to_string());
    if let Some((lo, hi)) = &sym.dbc_range {
        let mut l = "Range: `".to_string();
        l.append(compact_text(lo.as_str()).as_str());
        l.append(" – ");
        l.append(compact_text(hi.as_str()).as_str());
        l.append("`");
        put(&mut lines, l);
    }
    if let (Some(m), Some(o)) = (&can.multiplier, &can.offset) {
        let mut l = "Scale: `".to_string();
        l.append(compact_text(m.as_str()).as_str());
        l.append("`  ·  Offset: `");
        l.append(compact_text(o.as_str()).as_str());
        l.append("`");
        put(&mut lines, l);
    }
    if let Some((parent, leaf)) = rsplit_once(sym.path.as_str(), '.') {
        let mut l = "Message: `".to_string();
        match rsplit_once(parent.as_str(), '.') {
            Some((head, name)) => {
                l.append(name.as_str());
            },
            None => {
                l.append(parent.as_str());
            },
        }
        l.append("`");
        l.append(frame_markdown(project, parent.as_str()).as_str());
        put(&mut lines, l);
    }
    if let (Some(bit), Some(len)) = (can.start_bit, can.length) {
        let mut l = "Bit pos: `".to_string();
        l.append(decimal_text(bit as u64).as_str());
        l.append("`  ·  Length: `");
        l.append(decimal_text(len as u64).as_str());
        l.append("` bits");
        put(&mut lines, l);
    }
    assert(lines.deep_view().take(lines@.len() as int) =~= lines.deep_view());
    Some(join(&lines, lines.len(), "\n\n"))
}

/// The description of a symbol.
pub open spec fn symbol_text(
    sym: SymbolView,
    project: Option<ProjectView>,
    intr: IntrinsicsView,
) -> Seq<char> {
    let head = header_text(sym);
    if sym.kind == SymbolKind::Object {
        head + object_text(sym, intr)
    } else if sym.kind == SymbolKind::Table && sym.table_meta is Some {
        head + table_text(sym.table_meta.unwrap())
    } else {
        let s1 = with_badges(head + type_text(sym, project), sym);
        let s2 = match values_text(sym, project) {
            Some(values) => s1 + "\n\nvalues: "@ + values,
            None => s1,
        };
        match signal_text(sym, project) {
            Some(signal) => s2 + "\n\n"@ + signal,
            None => s2,
        }
    }
}

/// The description of a symbol, in Markdown.
pub fn symbol_markdown(sym: &Symbol, project: Option<&Project>, intr: &Intrinsics) -> (r: String)
    ensures
        r@ == symbol_text(sym.deep_view(), project.deep_view(), intr.deep_view()),
{
    let mut s = header_markdown(sym);
    if let Some(object) = object_markdown(sym, intr) {
        s.append(object.as_str());
        return s;
    }
    if sym.kind == SymbolKind::Table {
        if let Some(meta) = &sym.table_meta {
            s.append(table_markdown(meta).as_str());
            return s;
        }
    }
    let (ty, values) = type_markdown(sym, project);
    s.append(ty.as_str());
    meta_badges_markdown(&mut s, sym);
    if let Some(values) = values {
        s.append("\n\nvalues: ");
        s.append(values.as_str());
    }
    if let Some(signal) = dbc_signal_markdown(sym, project) {
        s.append("\n\n");
        s.append(signal.as_str());
    }
    s
}

} // verus!
