//! Growing vectors, stated over what their elements stand for.
use vstd::prelude::*;

verus! {

/// An empty vector.
pub fn fresh<T: DeepView>() -> (v: Vec<T>)
    ensures
        v@.len() == 0,
        v.deep_view() == Seq::<T::V>::empty(),
{
    let v: Vec<T> = Vec::new();
    assert(v.deep_view() =~= Seq::<T::V>::empty());
    v
}

/// Appends one element.
pub fn put<T: DeepView>(v: &mut Vec<T>, x: T)
    ensures
        final(v)@ == old(v)@.push(x),
        final(v).deep_view() == old(v).deep_view().push(x.deep_view()),
{
    let ghost before = v.deep_view();
    v.push(x);
    assert(v.deep_view() =~= before.push(x.deep_view()));
}

/// A vector of one element.
pub fn one<T: DeepView>(x: T) -> (v: Vec<T>)
    ensures
        v@ == seq![x],
        v.deep_view() == seq![x.deep_view()],
{
    let mut v: Vec<T> = Vec::new();
    v.push(x);
    assert(v@ =~= seq![x]);
    assert(v.deep_view() =~= seq![x.deep_view()]);
    v
}

/// Puts an element at index `j`.
pub fn put_at<T: DeepView>(v: &mut Vec<T>, j: usize, x: T)
    requires
        j <= old(v)@.len(),
    ensures
        final(v)@ == old(v)@.insert(j as int, x),
        final(v).deep_view() == old(v).deep_view().insert(j as int, x.deep_view()),
{
    let ghost before = v.deep_view();
    v.insert(j, x);
    assert(v.deep_view() =~= before.insert(j as int, x.deep_view()));
}

/// Appends every element of `w`.
pub fn extend<T: DeepView>(v: &mut Vec<T>, mut w: Vec<T>)
    ensures
        final(v)@ == old(v)@ + w@,
        final(v).deep_view() == old(v).deep_view() + w.deep_view(),
{
    let ghost before = v.deep_view();
    let ghost more = w.deep_view();
    v.append(&mut w);
    assert(v.deep_view() =~= before + more);
}

/// A copy of `s`.
pub fn copied_opt(s: &Option<String>) -> (r: Option<String>)
    ensures
        r.deep_view() == s.deep_view(),
{
    match s {
        Some(t) => Some(t.clone()),
        None => None,
    }
}

} // verus!
