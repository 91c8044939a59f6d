//! The description of library objects, their functions, and the methods of objects.
use crate::intrinsics_render::{signature_label, signature_of};
use crate::model::{Intrinsics, IntrinsicsView, Overload, OverloadView};
use crate::text::same;
use vstd::prelude::*;
use vstd::string::*;

verus! {

/// The description of a library object.
pub open spec fn builtin_object_text(name: Seq<char>, intr: IntrinsicsView) -> Seq<char> {
    "**"@ + name + "** `library object`\n\n"@ + match intr.library_object(name) {
        Some(o) => o.doc,
        None => ""@,
    }
}

pub fn builtin_object_markdown(name: &str, intr: &Intrinsics) -> (r: String)
    ensures
        r@ == builtin_object_text(name@, intr.deep_view()),
{
    let mut s = "**".to_string();
    s.append(name);
    s.append("** `library object`\n\n");
    match intr.library_object(name) {
        Some(o) => {
            s.append(o.doc.as_str());
        },
        None => {
            s.append("");
        },
    }
    s
}

/// `s`, then the first `k` signatures, each in a block of its own.
pub open spec fn with_signatures(
    s: Seq<char>,
    path: Seq<char>,
    ovs: Seq<OverloadView>,
    k: int,
) -> Seq<char>
    decreases k,
{
    if k <= 0 {
        s
    } else {
        with_signatures(s, path, ovs, k - 1) + "```\n"@ + signature_of(path, ovs[k - 1])
            + "\n```\n"@
    }
}

/// `s`, then the documentation of the first signature.
pub open spec fn with_doc(s: Seq<char>, ovs: Seq<OverloadView>) -> Seq<char> {
    if ovs.len() > 0 && ovs[0].doc.len() > 0 {
        s + "\n"@ + ovs[0].doc + "\n"@
    } else {
        s
    }
}

/// The description of a method that every object has.
pub open spec fn method_text(name: Seq<char>, ovs: Seq<OverloadView>) -> Seq<char> {
    with_doc(
        with_signatures("**"@ + name + "** `method`\n\n"@, name, ovs, ovs.len() as int),
        ovs,
    )
}

/// The description of a library function.
pub open spec fn function_text(path: Seq<char>, ovs: Seq<OverloadView>) -> Seq<char> {
    let s = with_doc(
        with_signatures("**"@ + path + "** `library function`\n\n"@, path, ovs, ovs.len() as int),
        ovs,
    );
    if ovs.len() == 0 {
        s
    } else {
        let s1 = if ovs[0].stateful {
            s
                + "\n⚠ **stateful** — call it on every execution; never inside an `if`/`when` or a comparison."@
        } else {
            s
        };
        let s2 = if ovs[0].deprecated {
            s1 + "\n⚠ **deprecated**"@
        } else {
            s1
        };
        if ovs[0].calibration_only {
            s2
                + "\n⚠ **calibration-only** — usable only in M1 Tune calibration methods, not in ECU `.m1scr` scripts."@
        } else {
            s2
        }
    }
}

fn append_signatures(s: &mut String, path: &str, ovs: &Vec<&Overload>)
    ensures
        final(s)@ == with_doc(
            with_signatures(old(s)@, path@, ovs.deep_view(), ovs@.len() as int),
            ovs.deep_view(),
        ),
{
    let ghost first = s@;
    let ghost os = ovs.deep_view();
    let mut k: usize = 0;
    while k < ovs.len()
        invariant
            k <= ovs@.len(),
            os == ovs.deep_view(),
            s@ == with_signatures(first, path@, os, k as int),
        decreases ovs@.len() - k,
    {
        assert(os[k as int] == ovs@[k as int].deep_view());
        s.append("```\n");
        s.append(signature_label(path, ovs[k]).as_str());
        s.append("\n```\n");
        k = k + 1;
    }
    if ovs.len() > 0 {
        assert(os[0] == ovs@[0].deep_view());
        proof {
            reveal_strlit("");
            assert(os[0].doc.len() == 0 ==> os[0].doc =~= ""@);
        }
        if !same(ovs[0].doc.as_str(), "") {
            s.append("\n");
            s.append(ovs[0].doc.as_str());
            s.append("\n");
        }
    }
}

pub fn object_method_markdown(name: &str, ovs: &Vec<&Overload>) -> (r: String)
    ensures
        r@ == method_text(name@, ovs.deep_view()),
{
    let mut s = "**".to_string();
    s.append(name);
    s.append("** `method`\n\n");
    append_signatures(&mut s, name, ovs);
    s
}

fn borrowed(ovs: &Vec<Overload>) -> (r: Vec<&Overload>)
    ensures
        r.deep_view() == ovs.deep_view(),
        r@.len() == ovs@.len(),
        forall|i: int| 0 <= i < r@.len() ==> *r@[i] == #[trigger] ovs@[i],
{
    let mut r: Vec<&Overload> = Vec::new();
    let mut k: usize = 0;
    while k < ovs.len()
        invariant
            k <= ovs@.len(),
            r@.len() == k,
            forall|i: int| 0 <= i < k ==> *r@[i] == #[trigger] ovs@[i],
        decreases ovs@.len() - k,
    {
        r.push(&ovs[k]);
        k = k + 1;
    }
    assert(r.deep_view() =~= ovs.deep_view());
    r
}

pub fn builtin_fn_markdown(path: &str, ovs: &Vec<Overload>) -> (r: String)
    ensures
        r@ == function_text(path@, ovs.deep_view()),
{
    let mut s = "**".to_string();
    s.append(path);
    s.append("** `library function`\n\n");
    append_signatures(&mut s, path, &borrowed(ovs));
    if ovs.len() > 0 {
        let first = &ovs[0];
        assert(ovs.deep_view()[0] == first.deep_view());
        if first.stateful {
            s.append(
                "\n⚠ **stateful** — call it on every execution; never inside an `if`/`when` or a comparison.",
            );
        }
        if first.deprecated {
            s.append("\n⚠ **deprecated**");
        }
        if first.calibration_only {
            s.append(
                "\n⚠ **calibration-only** — usable only in M1 Tune calibration methods, not in ECU `.m1scr` scripts.",
            );
        }
    }
    s
}

} // verus!
