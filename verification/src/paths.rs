//! File paths, as text.
//!
//! The parts of a path stand between slashes. In a path that starts with a drive or a host,
//! a backslash separates parts too.
use crate::list::{fresh, put};
use crate::outside::{file_of_uri, uri_file};
use crate::search::{
    begins, cut_last, ends, ends_with, lemma_last_index, rsplit_once, split, split_on,
    starts_with,
};
use crate::text::{
    char_is_letter, char_lower, chars, holds_at, is_ascii_letter, lower, same, string, substring,
};
use vstd::prelude::*;
use vstd::string::*;

verus! {

/// A part of a path that names nothing.
pub open spec fn is_filler(part: Seq<char>) -> bool {
    part.len() == 0 || part == "."@
}

/// How deep the first `k` parts lead below where they start; `None` once they lead above it.
pub open spec fn depth_upto(parts: Seq<Seq<char>>, k: int) -> Option<nat>
    decreases k,
{
    if k <= 0 {
        Some(0)
    } else {
        match depth_upto(parts, k - 1) {
            Some(d) => if is_filler(parts[k - 1]) {
                Some(d)
            } else if parts[k - 1] == ".."@ {
                if d == 0 {
                    None
                } else {
                    Some((d - 1) as nat)
                }
            } else {
                Some(d + 1)
            },
            None => None,
        }
    }
}

/// The path starts with a drive.
pub open spec fn has_drive(path: Seq<char>) -> bool {
    path.len() >= 2 && is_ascii_letter(path[0]) && path[1] == ':'
}

pub open spec fn is_separator(c: char) -> bool {
    c == '/' || c == '\\'
}

/// The first separator from index `i` on, or the end.
pub open spec fn next_separator(path: Seq<char>, i: int) -> int
    decreases path.len() - i,
{
    if 0 <= i < path.len() && !is_separator(path[i]) {
        next_separator(path, i + 1)
    } else {
        i
    }
}

/// How long the drive, or the host and its share, are that the path starts with.
pub open spec fn prefix_len(path: Seq<char>) -> int {
    if has_drive(path) {
        2
    } else if begins(path, "\\\\"@) {
        let i = next_separator(path, 2);
        if i < path.len() {
            next_separator(path, i + 1)
        } else {
            path.len() as int
        }
    } else {
        0
    }
}

/// `path` with a slash for each backslash.
pub open spec fn slashed(path: Seq<char>) -> Seq<char> {
    path.map_values(
        |c: char|
            if c == '\\' {
                '/'
            } else {
                c
            },
    )
}

/// What follows the drive or the host, with slashes between the parts.
pub open spec fn local_part(path: Seq<char>) -> Seq<char> {
    if prefix_len(path) > 0 {
        slashed(path.skip(prefix_len(path)))
    } else {
        path
    }
}

/// `rel` is a relative path that never leads above where it starts.
pub open spec fn stays_inside(rel: Seq<char>) -> bool {
    !begins(rel, "/"@) && depth_upto(split(rel, '/'), split(rel, '/').len() as int) is Some
}

/// `rel` leads from `root` to a place below it.
pub open spec fn is_contained(root: Seq<char>, rel: Seq<char>) -> bool {
    if prefix_len(root) > 0 {
        prefix_len(rel) == 0 && stays_inside(slashed(rel))
    } else {
        stays_inside(rel)
    }
}

/// `name` behind the directory `dir`. An absolute `name` stands for itself, on the drive or
/// host of `dir`.
pub open spec fn below(dir: Seq<char>, name: Seq<char>) -> Seq<char> {
    if prefix_len(dir) > 0 {
        if prefix_len(name) > 0 {
            name
        } else if begins(slashed(name), "/"@) {
            dir.take(prefix_len(dir)) + name
        } else if (has_drive(dir) && dir.len() == 2) || ends(slashed(dir), "/"@) {
            dir + name
        } else {
            dir + "\\"@ + name
        }
    } else if begins(name, "/"@) {
        name
    } else if dir.len() == 0 || ends(dir, "/"@) {
        dir + name
    } else {
        dir + "/"@ + name
    }
}

proof fn lemma_next_separator(path: Seq<char>, i: int)
    requires
        0 <= i <= path.len(),
    ensures
        i <= next_separator(path, i) <= path.len(),
    decreases path.len() - i,
{
    if i < path.len() && !is_separator(path[i]) {
        lemma_next_separator(path, i + 1);
    }
}

proof fn lemma_prefix_len(path: Seq<char>)
    ensures
        0 <= prefix_len(path) <= path.len(),
{
    reveal_strlit("\\\\");
    if !has_drive(path) && begins(path, "\\\\"@) {
        lemma_next_separator(path, 2);
        if next_separator(path, 2) < path.len() {
            lemma_next_separator(path, next_separator(path, 2) + 1);
        }
    }
}

fn find_separator(v: &Vec<char>, i: usize) -> (k: usize)
    requires
        i <= v@.len(),
    ensures
        k == next_separator(v@, i as int),
        i <= k <= v@.len(),
{
    let mut k: usize = i;
    while k < v.len() && v[k] != '/' && v[k] != '\\'
        invariant
            i <= k <= v@.len(),
            next_separator(v@, i as int) == next_separator(v@, k as int),
        decreases v@.len() - k,
    {
        k = k + 1;
    }
    k
}

fn prefix_length(v: &Vec<char>) -> (k: usize)
    ensures
        k == prefix_len(v@),
        k <= v@.len(),
{
    proof {
        reveal_strlit("\\\\");
    }
    let n: usize = v.len();
    if n >= 2 && char_is_letter(v[0]) && v[1] == ':' {
        return 2;
    }
    if !holds_at(v, &chars("\\\\"), 0) {
        return 0;
    }
    let i: usize = find_separator(v, 2);
    if i < n {
        find_separator(v, i + 1)
    } else {
        n
    }
}

fn with_slashes(v: &Vec<char>, from: usize) -> (r: Vec<char>)
    requires
        from <= v@.len(),
    ensures
        r@ == slashed(v@.skip(from as int)),
{
    let mut r: Vec<char> = Vec::new();
    let mut k: usize = from;
    let ghost s = v@.skip(from as int);
    while k < v.len()
        invariant
            from <= k <= v@.len(),
            s == v@.skip(from as int),
            r@ =~= slashed(s.take(k - from)),
        decreases v@.len() - k,
    {
        assert(s.take(k + 1 - from) =~= s.take(k - from).push(v@[k as int]));
        if v[k] == '\\' {
            r.push('/');
        } else {
            r.push(v[k]);
        }
        k = k + 1;
    }
    assert(s.take(s.len() as int) =~= s);
    r
}

fn local_text(path: &str) -> (r: String)
    ensures
        r@ == local_part(path@),
{
    let v = chars(path);
    let n: usize = prefix_length(&v);
    if n > 0 {
        string(&with_slashes(&v, n))
    } else {
        path.to_owned()
    }
}

fn stays_below(parts: &Vec<String>) -> (r: bool)
    ensures
        r == (depth_upto(parts.deep_view(), parts@.len() as int) is Some),
{
    let ghost ps = parts.deep_view();
    let mut depth: usize = 0;
    let mut k: usize = 0;
    while k < parts.len()
        invariant
            k <= parts@.len(),
            ps == parts.deep_view(),
            depth <= k,
            depth_upto(ps, k as int) == Some(depth as nat),
        decreases parts@.len() - k,
    {
        assert(ps[k as int] == parts@[k as int]@);
        let part = parts[k].as_str();
        if same(part, "") || same(part, ".") {
            proof {
                reveal_strlit("");
            }
        } else if same(part, "..") {
            proof {
                reveal_strlit("");
                assert(ps[k as int].len() > 0 || ps[k as int] =~= ""@);
            }
            if depth == 0 {
                proof {
                    lemma_depth_none(ps, k + 1, ps.len() as int);
                }
                return false;
            }
            depth = depth - 1;
        } else {
            proof {
                reveal_strlit("");
                assert(ps[k as int].len() > 0 || ps[k as int] =~= ""@);
            }
            depth = depth + 1;
        }
        k = k + 1;
    }
    true
}

proof fn lemma_depth_none(parts: Seq<Seq<char>>, i: int, k: int)
    requires
        i <= k,
        depth_upto(parts, i) is None,
    ensures
        depth_upto(parts, k) is None,
    decreases k - i,
{
    if i < k {
        lemma_depth_none(parts, i, k - 1);
    }
}

fn is_inside(rel: &str) -> (r: bool)
    ensures
        r == stays_inside(rel@),
{
    !starts_with(rel, "/") && stays_below(&split_on(rel, '/'))
}

fn slashed_text(path: &str) -> (r: String)
    ensures
        r@ == slashed(path@),
{
    let v = chars(path);
    assert(v@.skip(0) =~= v@);
    string(&with_slashes(&v, 0))
}

fn join_below(dir: &str, name: &str) -> (r: String)
    ensures
        r@ == below(dir@, name@),
{
    let v = chars(dir);
    let n: usize = prefix_length(&v);
    if n > 0 {
        if prefix_length(&chars(name)) > 0 {
            return name.to_owned();
        }
        if starts_with(slashed_text(name).as_str(), "/") {
            let mut r = substring(&v, 0, n);
            assert(r@ =~= dir@.take(n as int));
            r.append(name);
            return r;
        }
        let mut r = dir.to_owned();
        let drive_alone = v.len() == 2 && char_is_letter(v[0]) && v[1] == ':';
        if !drive_alone && !ends_with(slashed_text(dir).as_str(), "/") {
            r.append("\\");
        }
        r.append(name);
        return r;
    }
    if starts_with(name, "/") {
        return name.to_owned();
    }
    proof {
        reveal_strlit("");
        assert(dir@.len() > 0 || dir@ =~= ""@);
    }
    let mut r = dir.to_owned();
    if !same(dir, "") && !ends_with(dir, "/") {
        r.append("/");
    }
    r.append(name);
    r
}

/// `rel` below `root`, unless it is absolute or leads out of `root`.
pub fn contained_join(root: &str, rel: &str) -> (r: Option<String>)
    ensures
        r.deep_view() == (if is_contained(root@, rel@) {
            Some(below(root@, rel@))
        } else {
            None
        }),
{
    let inside = if prefix_length(&chars(root)) > 0 {
        prefix_length(&chars(rel)) == 0 && is_inside(slashed_text(rel).as_str())
    } else {
        is_inside(rel)
    };
    if inside {
        Some(join_below(root, rel))
    } else {
        None
    }
}

/// `path` without the separators and the parts `.` at its end.
pub open spec fn core_of(path: Seq<char>) -> Seq<char>
    decreases path.len(),
{
    if path.len() > 0 && ends(path, "/"@) {
        core_of(path.drop_last())
    } else if path.len() > 1 && ends(path, "/."@) {
        core_of(path.drop_last())
    } else {
        path
    }
}

/// The name of the file that a path leads to; none where it ends in `..` or names nothing.
pub open spec fn base_name(path: Seq<char>) -> Option<Seq<char>> {
    let inner = core_of(local_part(path));
    let name = match cut_last(inner, '/') {
        Some((dir, leaf)) => leaf,
        None => inner,
    };
    if is_filler(name) || name == ".."@ {
        None
    } else {
        Some(name)
    }
}

/// How much of the part behind the drive or the host is the directory of the file.
pub open spec fn directory_len(local: Seq<char>) -> int {
    match cut_last(core_of(local), '/') {
        Some((dir, leaf)) => if dir.len() == 0 {
            1
        } else {
            dir.len() as int
        },
        None => 0,
    }
}

/// The directory of a path that leads to a file.
pub open spec fn directory(path: Seq<char>) -> Seq<char> {
    path.take(prefix_len(path) + directory_len(local_part(path)))
}

/// The path of the file `name` in the directory of `path`. A path that names no file is taken
/// for a directory.
pub open spec fn beside(path: Seq<char>, name: Seq<char>) -> Seq<char> {
    if base_name(path) is Some {
        below(directory(path), name)
    } else {
        below(path, name)
    }
}

fn without_fillers(path: &str) -> (r: String)
    ensures
        r@ == core_of(path@),
{
    let v = chars(path);
    proof {
        reveal_strlit("/");
        reveal_strlit("/.");
    }
    let mut k: usize = v.len();
    assert(v@.take(k as int) =~= path@);
    while k > 0 && (v[k - 1] == '/' || (k > 1 && v[k - 1] == '.' && v[k - 2] == '/'))
        invariant
            k <= v@.len(),
            v@ == path@,
            "/"@ =~= seq!['/'],
            "/."@ =~= seq!['/', '.'],
            core_of(path@) == core_of(v@.take(k as int)),
        decreases k,
    {
        proof {
            let s = v@.take(k as int);
            assert(s.drop_last() =~= v@.take(k - 1));
            if v@[k - 1] == '/' {
                assert(s.subrange(k - 1, k as int) =~= "/"@);
            } else {
                assert(s.subrange(k - 2, k as int) =~= "/."@);
            }
        }
        k = k - 1;
    }
    let r = substring(&v, 0, k);
    proof {
        let s = v@.take(k as int);
        assert(r@ =~= s);
        if k > 0 && ends(s, "/"@) {
            assert(s.subrange(k - 1, k as int)[0] == '/');
        }
        if k > 1 && ends(s, "/."@) {
            assert(s.subrange(k - 2, k as int)[0] == '/');
            assert(s.subrange(k - 2, k as int)[1] == '.');
        }
    }
    r
}

/// The name of the file that a path leads to.
pub fn file_name(path: &str) -> (r: Option<String>)
    ensures
        r.deep_view() == base_name(path@),
{
    let core_path = without_fillers(local_text(path).as_str());
    let name = match rsplit_once(core_path.as_str(), '/') {
        Some((dir, leaf)) => leaf,
        None => core_path,
    };
    proof {
        reveal_strlit("");
        assert(name@.len() > 0 || name@ =~= ""@);
    }
    if same(name.as_str(), "") || same(name.as_str(), ".") || same(name.as_str(), "..") {
        None
    } else {
        Some(name)
    }
}

proof fn lemma_core_of(path: Seq<char>)
    ensures
        core_of(path).len() <= path.len(),
    decreases path.len(),
{
    if path.len() > 0 && ends(path, "/"@) {
        lemma_core_of(path.drop_last());
    } else if path.len() > 1 && ends(path, "/."@) {
        lemma_core_of(path.drop_last());
    }
}

fn directory_of(path: &str) -> (r: String)
    ensures
        r@ == directory(path@),
{
    let v = chars(path);
    let local = local_text(path);
    let n: usize = prefix_length(&v);
    let size: usize = v.len();
    proof {
        lemma_core_of(local@);
        lemma_last_index(core_of(local@), '/', core_of(local@).len() as int);
    }
    let k: usize = match rsplit_once(without_fillers(local.as_str()).as_str(), '/') {
        Some((dir, leaf)) => {
            let len: usize = chars(dir.as_str()).len();
            if len == 0 {
                1
            } else {
                len
            }
        },
        None => 0,
    };
    assert(n + k <= size);
    let r = substring(&v, 0, n + k);
    assert(r@ =~= path@.take(n + k));
    r
}

/// The path of the file `name` in the directory of `path`.
pub fn with_file_name(path: &str, name: &str) -> (r: String)
    ensures
        r@ == beside(path@, name@),
{
    match file_name(path) {
        Some(old) => join_below(directory_of(path).as_str(), name),
        None => join_below(path, name),
    }
}

/// The parts of a path that name something, among its first `k` parts.
pub open spec fn named_parts(parts: Seq<Seq<char>>, k: int) -> Seq<Seq<char>>
    decreases k,
{
    if k <= 0 {
        Seq::empty()
    } else if is_filler(parts[k - 1]) {
        named_parts(parts, k - 1)
    } else {
        named_parts(parts, k - 1).push(parts[k - 1])
    }
}

/// The drive or the host of a path. The case of a drive does not count.
pub open spec fn prefix_name(path: Seq<char>) -> Seq<char> {
    if has_drive(path) {
        seq![lower(path[0]), ':']
    } else {
        path.take(prefix_len(path))
    }
}

/// The drive or the host of a path, and the parts of it that name something.
pub open spec fn components(path: Seq<char>) -> (Seq<char>, Seq<Seq<char>>) {
    let parts = split(local_part(path), '/');
    (prefix_name(path), named_parts(parts, parts.len() as int))
}

fn name_of_prefix(path: &str) -> (r: String)
    ensures
        r@ == prefix_name(path@),
{
    let v = chars(path);
    if v.len() >= 2 && char_is_letter(v[0]) && v[1] == ':' {
        let mut r: Vec<char> = Vec::new();
        r.push(char_lower(v[0]));
        r.push(':');
        assert(r@ =~= seq![lower(path@[0]), ':']);
        return string(&r);
    }
    let n: usize = prefix_length(&v);
    let r = substring(&v, 0, n);
    assert(r@ =~= path@.take(n as int));
    r
}

fn named_components(path: &str) -> (r: Vec<String>)
    ensures
        r.deep_view() == components(path@).1,
{
    let parts = split_on(local_text(path).as_str(), '/');
    let ghost ps = parts.deep_view();
    let mut r: Vec<String> = fresh();
    let mut k: usize = 0;
    while k < parts.len()
        invariant
            k <= parts@.len(),
            ps == parts.deep_view(),
            ps == split(local_part(path@), '/'),
            r.deep_view() == named_parts(ps, k as int),
        decreases parts@.len() - k,
    {
        assert(ps[k as int] == parts@[k as int]@);
        proof {
            reveal_strlit("");
            assert(ps[k as int].len() > 0 || ps[k as int] =~= ""@);
        }
        if !same(parts[k].as_str(), "") && !same(parts[k].as_str(), ".") {
            put(&mut r, parts[k].clone());
        }
        k = k + 1;
    }
    r
}

/// Two absolute paths lead to one place.
pub fn same_path(a: &str, b: &str) -> (r: bool)
    ensures
        r == (components(a@) == components(b@)),
{
    same(name_of_prefix(a).as_str(), name_of_prefix(b).as_str()) && same_strings(
        &named_components(a),
        &named_components(b),
    )
}

/// Equality of two lists of strings.
pub fn same_strings(a: &Vec<String>, b: &Vec<String>) -> (r: bool)
    ensures
        r == (a.deep_view() == b.deep_view()),
{
    if a.len() != b.len() {
        assert(a.deep_view().len() != b.deep_view().len());
        return false;
    }
    let mut k: usize = 0;
    while k < a.len()
        invariant
            k <= a@.len() == b@.len(),
            forall|i: int| 0 <= i < k ==> a@[i]@ == b@[i]@,
        decreases a@.len() - k,
    {
        if !same(a[k].as_str(), b[k].as_str()) {
            assert(a.deep_view()[k as int] != b.deep_view()[k as int]);
            return false;
        }
        k = k + 1;
    }
    assert(a.deep_view() =~= b.deep_view());
    true
}

/// The path that a URI leads to, as text.
pub open spec fn uri_path(uri: Seq<char>) -> Option<Seq<char>> {
    match uri_file(uri) {
        Some((text, bytes)) => Some(text),
        None => None,
    }
}

/// The path that a URI leads to, as text.
pub fn path_of_uri(uri: &str) -> (r: Option<String>)
    ensures
        r.deep_view() == uri_path(uri@),
{
    match file_of_uri(uri) {
        Some((text, bytes)) => Some(text),
        None => None,
    }
}

/// One character for each byte.
pub open spec fn byte_chars(bytes: Seq<u8>) -> Seq<char> {
    bytes.map_values(|b: u8| b as char)
}

fn chars_of_bytes(bytes: &Vec<u8>) -> (r: String)
    ensures
        r@ == byte_chars(bytes@),
{
    let mut v: Vec<char> = Vec::new();
    let mut k: usize = 0;
    while k < bytes.len()
        invariant
            k <= bytes@.len(),
            v@ =~= byte_chars(bytes@.take(k as int)),
        decreases bytes@.len() - k,
    {
        v.push(bytes[k] as char);
        k = k + 1;
    }
    assert(bytes@.take(k as int) =~= bytes@);
    string(&v)
}

/// The two URIs are of one file. Their paths are compared byte by byte, also where they are
/// no text.
pub open spec fn same_file(a: Seq<char>, b: Seq<char>) -> bool {
    match (uri_file(a), uri_file(b)) {
        (Some(p), Some(q)) => components(byte_chars(p.1)) == components(byte_chars(q.1)),
        (None, None) => true,
        _ => false,
    }
}

/// True for two URIs of one file.
pub fn is_same_file(a: &str, b: &str) -> (r: bool)
    ensures
        r == same_file(a@, b@),
{
    match (file_of_uri(a), file_of_uri(b)) {
        (Some((_, p)), Some((_, q))) => {
            assert(p.deep_view() =~= p@);
            assert(q.deep_view() =~= q@);
            same_path(chars_of_bytes(&p).as_str(), chars_of_bytes(&q).as_str())
        },
        (None, None) => true,
        _ => false,
    }
}

/// The name of the file that a `file:` URI leads to.
pub open spec fn uri_file_name(uri: Seq<char>) -> Option<Seq<char>> {
    match uri_path(uri) {
        Some(p) => base_name(p),
        None => None,
    }
}

/// The name of the file that a `file:` URI leads to.
pub fn file_name_of(uri: &str) -> (r: Option<String>)
    ensures
        r.deep_view() == uri_file_name(uri@),
{
    match path_of_uri(uri) {
        Some(p) => file_name(p.as_str()),
        None => None,
    }
}

/// A contained path keeps the directory it was put below.
pub proof fn contained_stays_below(root: Seq<char>, rel: Seq<char>)
    requires
        is_contained(root, rel),
    ensures
        begins(below(root, rel), root),
        ends(below(root, rel), rel),
{
    lemma_prefix_len(root);
    let p = below(root, rel);
    assert(p.subrange(0, root.len() as int) =~= root);
    assert(p.subrange(p.len() - rel.len(), p.len() as int) =~= rel);
}

/// The path of a file in the directory of another one starts with that directory, and ends
/// in the name of the file.
pub proof fn sibling_stays_in_directory(path: Seq<char>, name: Seq<char>)
    requires
        base_name(path) is Some,
        is_contained(directory(path), name),
    ensures
        begins(beside(path, name), directory(path)),
        ends(beside(path, name), name),
{
    contained_stays_below(directory(path), name);
}

} // verus!
