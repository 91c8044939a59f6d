//! Signatures of built-in functions, as every popup shows them.
use crate::list::{fresh, put};
use crate::model::{Overload, OverloadView, ParamView};
use crate::search::{join, joined};
use vstd::prelude::*;
use vstd::string::*;

verus! {

/// `name: type` of the first `k` parameters.
pub open spec fn typed_params(ps: Seq<ParamView>, k: int) -> Seq<Seq<char>>
    decreases k,
{
    if k <= 0 {
        Seq::empty()
    } else {
        typed_params(ps, k - 1).push(ps[k - 1].name + ": "@ + ps[k - 1].ty)
    }
}

/// `path(param: Type, …) -> Return`.
pub open spec fn signature_of(path: Seq<char>, ov: OverloadView) -> Seq<char> {
    path + "("@ + joined(typed_params(ov.params, ov.params.len() as int), ", "@) + ") -> "@
        + ov.returns
}

/// The label of one signature.
pub fn signature_label(path: &str, ov: &Overload) -> (r: String)
    ensures
        r@ == signature_of(path@, ov.deep_view()),
{
    let ghost ps = ov.params.deep_view();
    let mut params: Vec<String> = fresh();
    let mut k: usize = 0;
    while k < ov.params.len()
        invariant
            k <= ov.params@.len(),
            ps == ov.params.deep_view(),
            params@.len() == k,
            params.deep_view() == typed_params(ps, k as int),
        decreases ov.params@.len() - k,
    {
        assert(ps[k as int] == ov.params@[k as int].deep_view());
        let mut p = ov.params[k].name.clone();
        p.append(": ");
        p.append(ov.params[k].ty.as_str());
        put(&mut params, p);
        k = k + 1;
    }
    let mut r = path.to_owned();
    r.append("(");
    assert(params.deep_view().take(params@.len() as int) =~= params.deep_view());
    r.append(join(&params, params.len(), ", ").as_str());
    r.append(") -> ");
    r.append(ov.returns.as_str());
    r
}

} // verus!
