//! Calls into the crates that the library builds on.
use vstd::prelude::*;

verus! {

pub uninterp spec fn file_uri(path: Seq<char>) -> Option<Seq<char>>;

pub uninterp spec fn uri_file(uri: Seq<char>) -> Option<(Seq<char>, Seq<u8>)>;

pub uninterp spec fn json_field(text: Seq<char>, key: Seq<char>) -> Option<Seq<char>>;

/// `Url::from_file_path`: the `file:` URL of a path in the syntax of the target,
/// percent-encoded; none for a path that is not absolute. The result is named, not described.
#[verifier::external_body]
pub(crate) fn uri_of_path(path: &str) -> (r: Option<String>)
    ensures
        r.deep_view() == file_uri(path@),
{
    tower_lsp::lsp_types::Url::from_file_path(path).ok().map(|u| u.to_string())
}

/// `Url::parse` and `Url::to_file_path`: the path that a URL stands for, in the syntax of the
/// target, with its percent signs decoded; none for a URL that does not parse or that has no
/// local path. The path comes as a text, in which bytes that are not UTF-8 are replacement
/// characters, and as the bytes that it is made of. The result is named, not described.
#[verifier::external_body]
pub(crate) fn file_of_uri(uri: &str) -> (r: Option<(String, Vec<u8>)>)
    ensures
        r.deep_view() == uri_file(uri@),
{
    let url = tower_lsp::lsp_types::Url::parse(uri).ok()?;
    let path = url.to_file_path().ok()?;
    let text = path.to_string_lossy().into_owned();
    Some((text, path.as_os_str().as_encoded_bytes().to_vec()))
}

/// `serde_json::from_str`, `Value::get` and `Value::as_str`: the text that a JSON object
/// holds under a key; none where the text is no JSON object, or holds no text there. The
/// result is named, not described.
#[verifier::external_body]
pub(crate) fn json_get(text: &str, key: &str) -> (r: Option<String>)
    ensures
        r.deep_view() == json_field(text@, key@),
{
    let value = serde_json::from_str::<serde_json::Value>(text).ok()?;
    value.get(key)?.as_str().map(|s| s.to_string())
}

/// `serde_json::Map::insert` and the text of the object: a JSON object with two texts.
/// Reading it gives back each text under its key, and nothing under any other.
#[verifier::external_body]
pub(crate) fn json_pair(k1: &str, v1: &str, k2: &str, v2: &str) -> (r: String)
    requires
        k1@ != k2@,
    ensures
        json_field(r@, k1@) == Some(v1@),
        json_field(r@, k2@) == Some(v2@),
        forall|k: Seq<char>| k != k1@ && k != k2@ ==> json_field(r@, k) is None,
{
    let mut object = serde_json::Map::new();
    object.insert(k1.to_string(), serde_json::Value::String(v1.to_string()));
    object.insert(k2.to_string(), serde_json::Value::String(v2.to_string()));
    serde_json::Value::Object(object).to_string()
}

} // verus!
