//! The texts of the project's scripts.
use crate::list::{fresh, one, put};
use crate::model::{find_key, lemma_key_index, value_of};
use crate::order::has_key;
use crate::outside::{file_uri, uri_of_path};
use crate::paths::{path_of_uri, uri_path};
use vstd::prelude::*;

verus! {

/// Texts that can be had: of open documents by their URIs, and of files by their paths.
#[derive(Debug)]
pub struct Texts {
    pub open: Vec<(String, String)>,
    pub disk: Vec<(String, String)>,
}

/// What [`Texts`] stand for.
pub struct TextsView {
    pub open: Seq<(Seq<char>, Seq<char>)>,
    pub disk: Seq<(Seq<char>, Seq<char>)>,
}

impl DeepView for Texts {
    type V = TextsView;

    open spec fn deep_view(&self) -> TextsView {
        TextsView { open: self.open.deep_view(), disk: self.disk.deep_view() }
    }
}

impl TextsView {
    /// The text of a document: as it is open, or else as it is on disk.
    pub open spec fn text(self, uri: Seq<char>, path: Option<Seq<char>>) -> Option<Seq<char>> {
        match value_of(self.open, uri) {
            Some(t) => Some(t),
            None => match path {
                Some(p) => value_of(self.disk, p),
                None => None,
            },
        }
    }
}

impl Texts {
    pub fn text(&self, uri: &str, path: Option<&str>) -> (r: Option<&String>)
        ensures
            r.deep_view() == self.deep_view().text(uri@, path.deep_view()),
    {
        if let Some(i) = find_key(&self.open, uri) {
            assert(self.open.deep_view()[i as int] == self.open@[i as int].deep_view());
            return Some(&self.open[i].1);
        }
        match path {
            Some(p) => match find_key(&self.disk, p) {
                Some(i) => {
                    assert(self.disk.deep_view()[i as int] == self.disk@[i as int].deep_view());
                    Some(&self.disk[i].1)
                },
                None => None,
            },
            None => None,
        }
    }
}

/// The document of the cursor, with its text.
pub open spec fn cursor_script(uri: Seq<char>, text: Option<Seq<char>>, texts: TextsView) -> Seq<
    (Seq<char>, Seq<char>),
> {
    let text = match text {
        Some(t) => Some(t),
        None => texts.text(uri, uri_path(uri)),
    };
    match text {
        Some(t) => seq![(uri, t)],
        None => Seq::empty(),
    }
}

/// The document of the cursor, then the first `k` files that have a text, each document
/// once.
pub open spec fn gathered_upto(
    first: Seq<(Seq<char>, Seq<char>)>,
    files: Seq<Seq<char>>,
    texts: TextsView,
    k: int,
) -> Seq<(Seq<char>, Seq<char>)>
    decreases k,
{
    if k <= 0 {
        first
    } else {
        let rest = gathered_upto(first, files, texts, k - 1);
        match file_uri(files[k - 1]) {
            Some(uri) => match texts.text(uri, Some(files[k - 1])) {
                Some(t) if !has_key(rest, uri) => rest.push((uri, t)),
                _ => rest,
            },
            None => rest,
        }
    }
}

/// The scripts of the project with their texts: the document of the cursor first, then
/// every other script, each once. An open document has the text that it is open with.
pub fn gather_project_scripts(
    script_files: &Vec<String>,
    cursor_uri: &str,
    cursor_text: Option<&str>,
    texts: &Texts,
) -> (r: Vec<(String, String)>)
    ensures
        r.deep_view() == gathered_upto(
            cursor_script(cursor_uri@, cursor_text.deep_view(), texts.deep_view()),
            script_files.deep_view(),
            texts.deep_view(),
            script_files@.len() as int,
        ),
{
    let mut r: Vec<(String, String)> = fresh();
    match cursor_text {
        Some(t) => {
            r = one((cursor_uri.to_owned(), t.to_owned()));
        },
        None => {
            let path = path_of_uri(cursor_uri);
            let path = match &path {
                Some(p) => Some(p.as_str()),
                None => None,
            };
            if let Some(t) = texts.text(cursor_uri, path) {
                r = one((cursor_uri.to_owned(), t.clone()));
            }
        },
    }
    let ghost first = r.deep_view();
    let ghost fs = script_files.deep_view();
    let mut k: usize = 0;
    while k < script_files.len()
        invariant
            k <= script_files@.len(),
            fs == script_files.deep_view(),
            r.deep_view() == gathered_upto(first, fs, texts.deep_view(), k as int),
        decreases script_files@.len() - k,
    {
        assert(fs[k as int] == script_files@[k as int]@);
        let path = script_files[k].as_str();
        if let Some(uri) = uri_of_path(path) {
            if find_key(&r, uri.as_str()).is_none() {
                if let Some(t) = texts.text(uri.as_str(), Some(path)) {
                    put(&mut r, (uri, t.clone()));
                }
            }
        }
        k = k + 1;
    }
    r
}

/// No two entries have one key.
pub open spec fn keys_differ<V>(m: Seq<(Seq<char>, V)>) -> bool {
    forall|i: int, j: int| 0 <= i < j < m.len() ==> (#[trigger] m[i]).0 != (#[trigger] m[j]).0
}

/// Every script is gathered once.
pub proof fn scripts_are_distinct(
    uri: Seq<char>,
    text: Option<Seq<char>>,
    files: Seq<Seq<char>>,
    texts: TextsView,
    k: int,
)
    ensures
        keys_differ(gathered_upto(cursor_script(uri, text, texts), files, texts, k)),
    decreases k,
{
    let first = cursor_script(uri, text, texts);
    if k > 0 {
        scripts_are_distinct(uri, text, files, texts, k - 1);
        let rest = gathered_upto(first, files, texts, k - 1);
        if let Some(u) = file_uri(files[k - 1]) {
            lemma_key_index(rest, u, 0);
        }
    }
}

} // verus!
