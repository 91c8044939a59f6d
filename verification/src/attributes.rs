//! Attribute values of the project file, found by their text.
use crate::search::{find, find_char, first_index, first_match};
use crate::text::chars;
use vstd::prelude::*;

verus! {

/// The values behind `needle`, from index `i` on, up to the quote that ends each: where
/// they start and where they end.
pub open spec fn values_from(s: Seq<char>, needle: Seq<char>, i: int) -> Seq<(usize, usize)>
    decreases s.len() - i,
{
    match first_match(s, needle, i) {
        Some(m) => {
            let a = m + needle.len();
            match first_index(s, '"', a) {
                Some(z) if i <= z < s.len() => seq![(a as usize, z as usize)] + values_from(
                    s,
                    needle,
                    z + 1,
                ),
                _ => Seq::empty(),
            }
        },
        None => Seq::empty(),
    }
}

/// The values behind `needle`.
pub open spec fn values_of(s: Seq<char>, needle: Seq<char>) -> Seq<(usize, usize)> {
    values_from(s, needle, 0)
}

pub open spec fn span_in(s: Seq<char>, p: (usize, usize)) -> bool {
    p.0 <= p.1 < s.len()
}

/// The values behind `needle`: where they start and where they end.
pub fn attribute_values(v: &Vec<char>, needle: &str) -> (r: Vec<(usize, usize)>)
    ensures
        r@ == values_of(v@, needle@),
        forall|i: int| 0 <= i < r@.len() ==> span_in(v@, #[trigger] r@[i]),
{
    let p = chars(needle);
    let mut r: Vec<(usize, usize)> = Vec::new();
    let mut i: usize = 0;
    let n: usize = v.len();
    assert(r@ + values_from(v@, p@, 0) =~= values_from(v@, p@, 0));
    loop
        invariant
            n == v@.len(),
            p@ == needle@,
            i <= n,
            r@ + values_from(v@, p@, i as int) == values_of(v@, p@),
            forall|j: int| 0 <= j < r@.len() ==> span_in(v@, #[trigger] r@[j]),
        decreases n - i,
    {
        let m: usize = match find(v, &p, i) {
            Some(m) => m,
            None => {
                assert(r@ + Seq::<(usize, usize)>::empty() =~= r@);
                return r;
            },
        };
        let a: usize = m + p.len();
        let z: usize = match find_char(v, '"', a) {
            Some(z) => z,
            None => {
                assert(r@ + Seq::<(usize, usize)>::empty() =~= r@);
                return r;
            },
        };
        let ghost rest = values_from(v@, p@, z + 1);
        let ghost before = r@;
        r.push((a, z));
        assert(r@ + rest =~= before + (seq![(a, z)] + rest));
        i = z + 1;
    }
}

/// The places of `p` in `s` from index `i` on, one behind the other.
pub open spec fn places_from(s: Seq<char>, p: Seq<char>, i: int) -> Seq<usize>
    decreases s.len() - i,
{
    match first_match(s, p, i) {
        Some(m) if i <= m && m + p.len() <= s.len() && p.len() > 0 => seq![m as usize]
            + places_from(s, p, m + p.len()),
        _ => Seq::empty(),
    }
}

/// The places of `p` in `v`.
pub fn places_of(v: &Vec<char>, p: &Vec<char>) -> (r: Vec<usize>)
    requires
        p@.len() > 0,
    ensures
        r@ == places_from(v@, p@, 0),
        forall|i: int| 0 <= i < r@.len() ==> (#[trigger] r@[i]) + p@.len() <= v@.len(),
{
    let mut r: Vec<usize> = Vec::new();
    let mut i: usize = 0;
    let n: usize = v.len();
    assert(r@ + places_from(v@, p@, 0) =~= places_from(v@, p@, 0));
    loop
        invariant
            n == v@.len(),
            p@.len() > 0,
            i <= n,
            r@ + places_from(v@, p@, i as int) == places_from(v@, p@, 0),
            forall|j: int| 0 <= j < r@.len() ==> (#[trigger] r@[j]) + p@.len() <= v@.len(),
        decreases n - i,
    {
        match find(v, p, i) {
            Some(m) => {
                let ghost rest = places_from(v@, p@, m + p@.len());
                let ghost before = r@;
                r.push(m);
                assert(r@ + rest =~= before + (seq![m] + rest));
                i = m + p.len();
            },
            None => {
                assert(r@ + Seq::<usize>::empty() =~= r@);
                return r;
            },
        }
    }
}

} // verus!
