//! What the words of the language mean.
use crate::syntax::Kind;
use crate::text::same;
use vstd::prelude::*;

verus! {

/// The description of a language keyword.
pub open spec fn keyword_doc(kind: Kind) -> Option<Seq<char>> {
    match kind {
        Kind::If => Some(
            "**if** `keyword`\n\nTests the parenthesised condition and, when true, executes the braced block. Combine with `else` / `else if` for alternative branches."@,
        ),
        Kind::Else => Some(
            "**else** `keyword`\n\nThe alternative branch of an `if`: its block runs when the `if` condition (and any `else if` conditions) are false."@,
        ),
        Kind::When => Some(
            "**when** `keyword`\n\nBegins a `when … is` construct — a multi-branch match on an enumerated value. Each `is (Value)` block runs when the argument equals that enumerator. It is an enum match, not a fall-through C `switch`."@,
        ),
        Kind::Is => Some(
            "**is** `keyword`\n\nIntroduces one branch of a `when … is` construct: `is (Value) { … }` runs when the `when` argument equals `Value`."@,
        ),
        Kind::Expand => Some(
            "**expand** `keyword`\n\nBegins an `expand ([name] = [start] to [end])` construct: the body is unrolled at **compile time**, once per value in the range. It is code generation, not a runtime loop."@,
        ),
        Kind::To => Some(
            "**to** `keyword`\n\nSeparates the start and end bounds of an `expand ([name] = [start] to [end])` range."@,
        ),
        Kind::Local => Some(
            "**local** `keyword`\n\nDefines a local variable inside a function. Locals are not visible outside the function and cannot be logged in M1 Tune; a local must be defined before it is used."@,
        ),
        Kind::Static => Some(
            "**static** `keyword`\n\nWith `local`, makes a local variable retain its value across executions: it is assigned its initial value on the first run and keeps the last value on subsequent runs (a plain `local` is re-initialised every execution)."@,
        ),
        _ => None,
    }
}

pub fn language_keyword_doc(kind: Kind) -> (r: Option<&'static str>)
    ensures
        r.deep_view() == keyword_doc(kind),
{
    match kind {
        Kind::If => Some(
            "**if** `keyword`\n\nTests the parenthesised condition and, when true, executes the braced block. Combine with `else` / `else if` for alternative branches.",
        ),
        Kind::Else => Some(
            "**else** `keyword`\n\nThe alternative branch of an `if`: its block runs when the `if` condition (and any `else if` conditions) are false.",
        ),
        Kind::When => Some(
            "**when** `keyword`\n\nBegins a `when … is` construct — a multi-branch match on an enumerated value. Each `is (Value)` block runs when the argument equals that enumerator. It is an enum match, not a fall-through C `switch`.",
        ),
        Kind::Is => Some(
            "**is** `keyword`\n\nIntroduces one branch of a `when … is` construct: `is (Value) { … }` runs when the `when` argument equals `Value`.",
        ),
        Kind::Expand => Some(
            "**expand** `keyword`\n\nBegins an `expand ([name] = [start] to [end])` construct: the body is unrolled at **compile time**, once per value in the range. It is code generation, not a runtime loop.",
        ),
        Kind::To => Some(
            "**to** `keyword`\n\nSeparates the start and end bounds of an `expand ([name] = [start] to [end])` range.",
        ),
        Kind::Local => Some(
            "**local** `keyword`\n\nDefines a local variable inside a function. Locals are not visible outside the function and cannot be logged in M1 Tune; a local must be defined before it is used.",
        ),
        Kind::Static => Some(
            "**static** `keyword`\n\nWith `local`, makes a local variable retain its value across executions: it is assigned its initial value on the first run and keeps the last value on subsequent runs (a plain `local` is re-initialised every execution).",
        ),
        _ => None,
    }
}

/// The description of a primitive type.
pub open spec fn primitive_doc(name: Seq<char>) -> Option<Seq<char>> {
    if name == "Boolean"@ {
        Some(
            "**Boolean** `primitive type`\n\nA truth value (`true` / `false`). Restricted to local variables."@,
        )
    } else if name == "Integer"@ {
        Some(
            "**Integer** `primitive type`\n\nA signed whole number (positive, negative, or zero)."@,
        )
    } else if name == "Unsigned Integer"@ {
        Some(
            "**Unsigned Integer** `primitive type`\n\nA non-negative whole number."@,
        )
    } else if name == "Floating Point"@ {
        Some(
            "**Floating Point** `primitive type`\n\nA real number, supporting a wide range of values with fractional precision."@,
        )
    } else if name == "Fixed Point 7dps"@ {
        Some(
            "**Fixed Point 7dps** `primitive type`\n\nAn integer scaled by 1e-7 — a signed number with seven fixed decimal places."@,
        )
    } else if name == "String"@ {
        Some(
            "**String** `primitive type`\n\nA text value, used for display in information windows. Restricted to local variables."@,
        )
    } else {
        None
    }
}

pub fn primitive_type_doc(name: &str) -> (r: Option<&'static str>)
    ensures
        r.deep_view() == primitive_doc(name@),
{
    if same(name, "Boolean") {
        Some(
            "**Boolean** `primitive type`\n\nA truth value (`true` / `false`). Restricted to local variables.",
        )
    } else if same(name, "Integer") {
        Some(
            "**Integer** `primitive type`\n\nA signed whole number (positive, negative, or zero).",
        )
    } else if same(name, "Unsigned Integer") {
        Some(
            "**Unsigned Integer** `primitive type`\n\nA non-negative whole number.",
        )
    } else if same(name, "Floating Point") {
        Some(
            "**Floating Point** `primitive type`\n\nA real number, supporting a wide range of values with fractional precision.",
        )
    } else if same(name, "Fixed Point 7dps") {
        Some(
            "**Fixed Point 7dps** `primitive type`\n\nAn integer scaled by 1e-7 — a signed number with seven fixed decimal places.",
        )
    } else if same(name, "String") {
        Some(
            "**String** `primitive type`\n\nA text value, used for display in information windows. Restricted to local variables.",
        )
    } else {
        None
    }
}

/// The description of a word that a reference can start with.
pub open spec fn anchor_doc(name: Seq<char>) -> Option<Seq<char>> {
    if name == "Root"@ {
        Some(
            "**Root** `reference keyword`\n\nThe root group of the Project — the first constituent of an absolute object reference (`Root.Group.Channel`). Use it to disambiguate when a nearer object shares the same name."@,
        )
    } else if name == "Parent"@ {
        Some(
            "**Parent** `reference keyword`\n\nThe object containing the current one. Unqualified, it resolves to the parent of the group the current object is stored in (`Parent.Channel`)."@,
        )
    } else if name == "This"@ {
        Some(
            "**This** `reference keyword`\n\nThe group the current object is stored within. Use it to disambiguate when an object of the same name exists in an enclosing scope (`This.Channel`)."@,
        )
    } else if name == "In"@ {
        Some(
            "**In** `reference keyword`\n\nThe object holding a function's input arguments; reference them with the `.` operator (`In.Argument`)."@,
        )
    } else if name == "Out"@ {
        Some(
            "**Out** `reference keyword`\n\nThe object holding a function's return value; assign it with `=` (`Out.Result = …`)."@,
        )
    } else if name == "Library"@ {
        Some(
            "**Library** `reference keyword`\n\nForms a library-function reference (`Library.Calculate.Max(…)`). Use it to disambiguate when an object name conflicts with a library-function name."@,
        )
    } else {
        None
    }
}

pub fn reference_keyword_doc(name: &str) -> (r: Option<&'static str>)
    ensures
        r.deep_view() == anchor_doc(name@),
{
    if same(name, "Root") {
        Some(
            "**Root** `reference keyword`\n\nThe root group of the Project — the first constituent of an absolute object reference (`Root.Group.Channel`). Use it to disambiguate when a nearer object shares the same name.",
        )
    } else if same(name, "Parent") {
        Some(
            "**Parent** `reference keyword`\n\nThe object containing the current one. Unqualified, it resolves to the parent of the group the current object is stored in (`Parent.Channel`).",
        )
    } else if same(name, "This") {
        Some(
            "**This** `reference keyword`\n\nThe group the current object is stored within. Use it to disambiguate when an object of the same name exists in an enclosing scope (`This.Channel`).",
        )
    } else if same(name, "In") {
        Some(
            "**In** `reference keyword`\n\nThe object holding a function's input arguments; reference them with the `.` operator (`In.Argument`).",
        )
    } else if same(name, "Out") {
        Some(
            "**Out** `reference keyword`\n\nThe object holding a function's return value; assign it with `=` (`Out.Result = …`).",
        )
    } else if same(name, "Library") {
        Some(
            "**Library** `reference keyword`\n\nForms a library-function reference (`Library.Calculate.Max(…)`). Use it to disambiguate when an object name conflicts with a library-function name.",
        )
    } else {
        None
    }
}

} // verus!
