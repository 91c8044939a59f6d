//! Names that a rename can give.
use crate::search::{lemma_trimmed_id, trimmed};
use crate::text::{
    char_is_digit, char_is_letter, char_is_space, chars, is_ascii_digit, is_ascii_letter,
    is_space,
};
use vstd::prelude::*;

verus! {

pub open spec fn is_name_start(c: char) -> bool {
    is_ascii_letter(c) || c == '_'
}

pub open spec fn is_name_char(c: char) -> bool {
    is_ascii_letter(c) || is_ascii_digit(c) || c == '_' || c == ' '
}

/// A name that a local can have: a letter or an underscore, then letters, digits,
/// underscores and blanks, and no blank at the end.
pub open spec fn is_local_name(s: Seq<char>) -> bool {
    &&& s.len() > 0
    &&& is_name_start(s[0])
    &&& s.last() != ' '
    &&& forall|i: int| 1 <= i < s.len() ==> is_name_char(#[trigger] s[i])
}

/// A character that no symbol name has.
pub open spec fn is_structural(c: char) -> bool {
    c == '.' || c == '"' || c == '<' || c == '>' || c == '&' || c == '\n' || c == '\r' || c == '\t'
}

/// A name that a symbol can have: not empty, with no white space at either end, and without
/// the characters that separate paths or structure the project file.
pub open spec fn is_symbol_name(s: Seq<char>) -> bool {
    &&& s.len() > 0
    &&& !is_space(s[0])
    &&& !is_space(s.last())
    &&& forall|i: int| 0 <= i < s.len() ==> !is_structural(#[trigger] s[i])
}

/// True for a name that a local can have.
pub fn is_valid_identifier(name: &str) -> (r: bool)
    ensures
        r == is_local_name(name@),
{
    let v = chars(name);
    let n: usize = v.len();
    if n == 0 || v[n - 1] == ' ' || !(char_is_letter(v[0]) || v[0] == '_') {
        return false;
    }
    let mut i: usize = 1;
    while i < n
        invariant
            1 <= i <= n == v@.len(),
            v@ == name@,
            forall|j: int| 1 <= j < i ==> is_name_char(#[trigger] v@[j]),
        decreases n - i,
    {
        let c = v[i];
        if !(char_is_letter(c) || char_is_digit(c) || c == '_' || c == ' ') {
            return false;
        }
        i = i + 1;
    }
    true
}

/// True for a name that a symbol can have.
pub fn is_valid_symbol_name(name: &str) -> (r: bool)
    ensures
        r == is_symbol_name(name@),
{
    let v = chars(name);
    let n: usize = v.len();
    if n == 0 || char_is_space(v[0]) || char_is_space(v[n - 1]) {
        return false;
    }
    let mut i: usize = 0;
    while i < n
        invariant
            i <= n == v@.len(),
            v@ == name@,
            forall|j: int| 0 <= j < i ==> !is_structural(#[trigger] v@[j]),
        decreases n - i,
    {
        let c = v[i];
        if c == '.' || c == '"' || c == '<' || c == '>' || c == '&' || c == '\n' || c == '\r' || c
            == '\t' {
            return false;
        }
        i = i + 1;
    }
    true
}

/// Every name that a local can have is a name that a symbol can have.
pub proof fn local_names_are_symbol_names(s: Seq<char>)
    requires
        is_local_name(s),
    ensures
        is_symbol_name(s),
{
    assert forall|i: int| 0 <= i < s.len() implies !is_structural(#[trigger] s[i]) by {
        if i > 0 {
            assert(is_name_char(s[i]));
        }
    }
    if s.len() > 1 {
        assert(is_name_char(s[s.len() - 1]));
    }
}

/// Trimming changes no valid name.
pub proof fn valid_names_are_trimmed(s: Seq<char>)
    requires
        is_symbol_name(s),
    ensures
        trimmed(s) == s,
{
    lemma_trimmed_id(s);
}

} // verus!
