//! Paths as text: their segments, and what is written at the cursor.
use crate::completion::{message_at, parent_before, run_start, spaced_parent_before};
use crate::laws::hover::lemma_cut_last;
use crate::model::{ProjectView, SymbolView};
use crate::paths::{
    base_name, beside, core_of, depth_upto, directory, directory_len, has_drive, is_contained,
    is_separator, local_part, next_separator, prefix_len, stays_inside,
};
use crate::rename::resolve::{anchor, anchored, parent_path};
use crate::search::{
    begins, cut_last, ends, joined, last_index, lemma_last_index, lemma_split, lemma_trimmed_id,
    split, trimmed_start,
};
use crate::text::{is_space, unicode_alphanumeric};
use vstd::prelude::*;
use vstd::string::*;

verus! {

// ---------------------------------------------------------------------------
// Segments
// ---------------------------------------------------------------------------

/// The segments of a text, joined again, are the text.
pub proof fn segments_join_again(s: Seq<char>, c: char)
    ensures
        joined(split(s, c), seq![c]) == s,
        split(s, c).len() > 0,
        forall|i: int| 0 <= i < split(s, c).len() ==> !(#[trigger] split(s, c)[i]).contains(c),
    decreases s.len(),
{
    lemma_last_index(s, c, s.len() as int);
    match last_index(s, c, s.len() as int) {
        Some(i) if 0 <= i < s.len() => {
            let front = split(s.take(i), c);
            let last = s.skip(i + 1);
            segments_join_again(s.take(i), c);
            let all = front.push(last);
            assert(all.drop_last() =~= front);
            assert(s =~= s.take(i) + seq![c] + last);
            if last.contains(c) {
                let j = choose|j: int| 0 <= j < last.len() && last[j] == c;
                assert(s[i + 1 + j] == c);
            }
            assert forall|j: int| 0 <= j < all.len() implies !(#[trigger] all[j]).contains(c) by {
                if j < front.len() {
                    assert(all[j] == front[j]);
                }
            }
        },
        _ => {
            assert(split(s, c) =~= seq![s]);
            assert(joined(seq![s], seq![c]) == seq![s][0]);
            if s.contains(c) {
                let j = choose|j: int| 0 <= j < s.len() && s[j] == c;
                assert(s[j] == c);
            }
        },
    }
}

/// The segments of two texts with a separator between them are those of the one and those of
/// the other.
pub proof fn segments_add_up(a: Seq<char>, c: char, b: Seq<char>)
    ensures
        split(a + seq![c] + b, c) == split(a, c) + split(b, c),
    decreases b.len(),
{
    let s = a + seq![c] + b;
    lemma_last_index(b, c, b.len() as int);
    match last_index(b, c, b.len() as int) {
        Some(j) if 0 <= j < b.len() => {
            segments_add_up(a, c, b.take(j));
            let at = a.len() as int + 1 + j;
            assert(s[at] == c);
            assert forall|i: int| at + 1 <= i < s.len() implies s[i] != c by {
                assert(s[i] == b[i - a.len() - 1]);
            }
            lemma_split(s, c, at + 1);
            assert(s.take(at) =~= a + seq![c] + b.take(j));
            assert(s.skip(at + 1) =~= b.skip(j + 1));
            assert(split(b, c) == split(b.take(j), c).push(b.skip(j + 1)));
            assert(split(s, c) =~= split(a, c) + split(b, c));
        },
        _ => {
            let at = a.len() as int + 1;
            assert(s[at - 1] == c);
            assert forall|i: int| at <= i < s.len() implies s[i] != c by {
                assert(s[i] == b[i - at]);
            }
            lemma_split(s, c, at);
            assert(s.take(at - 1) =~= a);
            assert(s.skip(at) =~= b);
            assert(split(b, c) == seq![b]);
            assert(split(s, c) =~= split(a, c) + split(b, c));
        },
    }
}

pub proof fn lemma_one_segment(s: Seq<char>, c: char)
    requires
        !s.contains(c),
    ensures
        split(s, c) == seq![s],
{
    lemma_last_index(s, c, s.len() as int);
    if let Some(i) = last_index(s, c, s.len() as int) {
        if 0 <= i < s.len() {
            assert(s[i] == c);
        }
    }
}

// ---------------------------------------------------------------------------
// Anchors
// ---------------------------------------------------------------------------

/// A reference behind `This` is to the group of the script, one behind `Parent` to what holds
/// that group.
pub proof fn anchors_lead_to_the_group(
    tail: Seq<char>,
    group: Seq<char>,
    up: Seq<char>,
    leaf: Seq<char>,
    project: ProjectView,
)
    requires
        tail.len() > 0,
        split(tail, '.')[0] != "This"@,
        split(tail, '.')[0] != "Parent"@,
        group == up + "."@ + leaf,
        !leaf.contains('.'),
    ensures
        anchored("This."@ + tail, Some(group), project) == project.get(group + "."@ + tail),
        anchored("Parent."@ + tail, Some(group), project) == project.get(up + "."@ + tail),
{
    reveal_strlit("This.");
    reveal_strlit("This");
    reveal_strlit("Parent.");
    reveal_strlit("Parent");
    reveal_strlit(".");
    lemma_cut_last(up, leaf);
    segments_join_again(tail, '.');
    let ts = split(tail, '.');
    assert("."@ =~= seq!['.']);
    assert("This"@[0] != "Parent"@[0]);
    assert(!"This"@.contains('.'));
    assert(!"Parent"@.contains('.'));
    lemma_one_segment("This"@, '.');
    lemma_one_segment("Parent"@, '.');
    segments_add_up("This"@, '.', tail);
    segments_add_up("Parent"@, '.', tail);
    assert("This."@ + tail =~= "This"@ + seq!['.'] + tail);
    assert("Parent."@ + tail =~= "Parent"@ + seq!['.'] + tail);
    let p = split("This."@ + tail, '.');
    let q = split("Parent."@ + tail, '.');
    assert(p[0] == "This"@ && p[1] == ts[0]);
    assert(q[0] == "Parent"@ && q[1] == ts[0]);
    assert(p.skip(1) =~= ts);
    assert(q.skip(1) =~= ts);
    assert(anchor(p, group, group, 1) == Some((group, 1int)));
    assert(anchor(p, group, group, 0) == Some((group, 1int)));
    assert(parent_path(group) == Some(up));
    assert(anchor(q, group, up, 1) == Some((up, 1int)));
    assert(anchor(q, group, group, 0) == Some((up, 1int)));
}

/// A reference that starts with another word has no anchor.
pub proof fn other_words_are_no_anchor(path: Seq<char>, group: Option<Seq<char>>, project: ProjectView)
    requires
        split(path, '.')[0] != "This"@,
        split(path, '.')[0] != "Parent"@,
    ensures
        anchored(path, group, project) is None,
        anchored(path, None, project) is None,
{
}

// ---------------------------------------------------------------------------
// What is written at the cursor
// ---------------------------------------------------------------------------

/// A character of a path that is being written.
pub open spec fn is_written_char(c: char) -> bool {
    unicode_alphanumeric(c) || c == '_' || c == '.'
}

pub proof fn lemma_run_start(s: Seq<char>, spaces: bool, a: int, i: int)
    requires
        0 <= a <= i <= s.len(),
        forall|j: int| a <= j < i ==> is_written_char(#[trigger] s[j]) || (spaces && s[j] == ' '),
        a > 0 ==> !is_written_char(s[a - 1]) && !(spaces && s[a - 1] == ' '),
    ensures
        run_start(s, spaces, i) == a,
    decreases i - a,
{
    if a < i {
        assert(is_written_char(s[i - 1]) || (spaces && s[i - 1] == ' '));
        lemma_run_start(s, spaces, a, i - 1);
    }
}

/// Behind a path and a dot, with or without the start of another segment, the path is what the
/// next segment is offered for.
pub proof fn the_path_before_the_dot_is_seen(
    front: Seq<char>,
    head: Seq<char>,
    leaf: Seq<char>,
    back: Seq<char>,
)
    requires
        front.len() > 0 ==> !is_written_char(front.last()),
        forall|i: int| 0 <= i < head.len() ==> is_written_char(#[trigger] head[i]),
        forall|i: int| 0 <= i < leaf.len() ==> is_written_char(#[trigger] leaf[i]),
        !leaf.contains('.'),
    ensures
        parent_before(
            front + head + "."@ + leaf + back,
            (front.len() + head.len() + 1 + leaf.len()) as int,
        ) == Some(head),
{
    reveal_strlit(".");
    let s = front + head + "."@ + leaf + back;
    let a = front.len() as int;
    let i = a + head.len() + 1 + leaf.len();
    assert forall|j: int| a <= j < i implies is_written_char(#[trigger] s[j]) by {
        if j < a + head.len() {
            assert(s[j] == head[j - a]);
        } else if j > a + head.len() {
            assert(s[j] == leaf[j - a - head.len() - 1]);
        }
    }
    if a > 0 {
        assert(s[a - 1] == front.last());
    }
    lemma_run_start(s, false, a, i);
    assert(s.subrange(a, i) =~= head + "."@ + leaf);
    lemma_cut_last(head, leaf);
}

/// The same holds of a path whose segments hold blanks.
pub proof fn the_spaced_path_before_the_dot_is_seen(
    front: Seq<char>,
    head: Seq<char>,
    leaf: Seq<char>,
    back: Seq<char>,
)
    requires
        front.len() > 0 ==> !is_written_char(front.last()) && front.last() != ' ',
        head.len() > 0,
        !is_space(head[0]),
        !is_space(head.last()),
        forall|i: int|
            0 <= i < head.len() ==> is_written_char(#[trigger] head[i]) || head[i] == ' ',
        forall|i: int|
            0 <= i < leaf.len() ==> is_written_char(#[trigger] leaf[i]) || leaf[i] == ' ',
        !leaf.contains('.'),
    ensures
        spaced_parent_before(
            front + head + "."@ + leaf + back,
            (front.len() + head.len() + 1 + leaf.len()) as int,
        ) == Some(head),
{
    reveal_strlit(".");
    let s = front + head + "."@ + leaf + back;
    let a = front.len() as int;
    let i = a + head.len() + 1 + leaf.len();
    assert forall|j: int| a <= j < i implies is_written_char(#[trigger] s[j]) || s[j] == ' ' by {
        if j < a + head.len() {
            assert(s[j] == head[j - a]);
        } else if j > a + head.len() {
            assert(s[j] == leaf[j - a - head.len() - 1]);
        }
    }
    if a > 0 {
        assert(s[a - 1] == front.last());
    }
    lemma_run_start(s, true, a, i);
    let run = head + "."@ + leaf;
    assert(s.subrange(a, i) =~= run);
    assert(run[0] == head[0]);
    assert(trimmed_start(run) =~= run);
    lemma_cut_last(head, leaf);
    lemma_trimmed_id(head);
}

/// A CAN message is found by its path, with or without the root in front; no other symbol is a
/// message.
pub proof fn messages_are_found(project: ProjectView, path: Seq<char>, m: SymbolView, class: Seq<char>)
    requires
        m.classname == Some(class),
    ensures
        project.get(path) == Some(m) ==> (message_at(project, path) == Some(m) <==> begins(
            class,
            "BuiltIn.CAN.Message"@,
        )),
        project.get(path) is None && project.get("Root."@ + path) == Some(m) ==> (message_at(
            project,
            path,
        ) == Some(m) <==> begins(class, "BuiltIn.CAN.Message"@)),
{
}

// ---------------------------------------------------------------------------
// Files
// ---------------------------------------------------------------------------

/// A file put beside another one has the name that it was given.
pub proof fn siblings_have_their_name(path: Seq<char>, name: Seq<char>)
    requires
        base_name(path) is Some,
        prefix_len(path) == 0,
        prefix_len(name) == 0,
        name.len() > 0,
        !name.contains('/'),
        name.last() != '.',
    ensures
        base_name(beside(path, name)) == Some(name),
{
    reveal_strlit("/");
    reveal_strlit("/.");
    reveal_strlit(".");
    reveal_strlit("..");
    reveal_strlit("\\\\");
    let dir = directory(path);
    let full = beside(path, name);
    let n = directory_len(path);
    lemma_core_len(path);
    lemma_last_index(core_of(path), '/', core_of(path).len() as int);
    assert(local_part(path) == path);
    assert(0 <= n <= path.len());
    assert(dir =~= path.take(n));
    lemma_no_prefix(path);
    lemma_no_prefix(name);
    assert(prefix_len(dir) == 0) by {
        lemma_no_prefix(dir);
        if has_drive(dir) {
            assert(path[0] == dir[0] && path[1] == dir[1]);
        }
        if begins(dir, "\\\\"@) {
            assert(dir.subrange(0, 2) == "\\\\"@);
            assert(path.subrange(0, 2) =~= dir.subrange(0, 2));
        }
    }
    assert(!begins(name, "/"@)) by {
        if begins(name, "/"@) {
            assert(name.subrange(0, 1)[0] == '/');
            assert(name[0] == '/');
        }
    }
    let sep = if dir.len() == 0 || ends(dir, "/"@) {
        Seq::<char>::empty()
    } else {
        "/"@
    };
    assert(full =~= dir + sep + name);
    if ends(dir, "/"@) {
        assert(dir.subrange(dir.len() - 1, dir.len() as int)[0] == '/');
        assert(dir.last() == '/');
    }
    assert(prefix_len(full) == 0) by {
        lemma_no_prefix(full);
        if dir.len() >= 2 {
            assert(full[0] == path[0] && full[1] == path[1]);
            if begins(full, "\\\\"@) {
                assert(full.subrange(0, 2) == "\\\\"@);
                assert(path.subrange(0, 2) =~= full.subrange(0, 2));
            }
        } else if dir.len() == 1 {
            if begins(full, "\\\\"@) {
                assert(full.subrange(0, 2)[0] == '\\' && full.subrange(0, 2)[1] == '\\');
                assert(full[0] == '\\' && full[1] == '\\');
            }
            if has_drive(full) {
                assert(full[1] == ':');
            }
            if dir.last() != '/' {
                assert(full[1] == '/');
            } else {
                assert(full[0] == '/');
            }
        } else {
            assert(full =~= name);
        }
    }
    assert(full.last() == name.last());
    assert(name.last() != '/') by {
        assert(name[name.len() - 1] == name.last());
    }
    assert(!ends(full, "/"@)) by {
        if ends(full, "/"@) {
            assert(full.subrange(full.len() - 1, full.len() as int)[0] == '/');
        }
    }
    assert(!ends(full, "/."@)) by {
        if ends(full, "/."@) {
            assert(full.subrange(full.len() - 2, full.len() as int)[1] == '.');
        }
    }
    assert(core_of(full) == full);
    if dir.len() > 0 {
        let head = (dir + sep).drop_last();
        assert((dir + sep).last() == '/');
        assert(full =~= head + "/"@ + name);
        lemma_cut_last_slash(head, name);
    } else {
        lemma_last_index(full, '/', full.len() as int);
        if let Some(i) = last_index(full, '/', full.len() as int) {
            assert(name[i] == '/');
        }
    }
    assert(name != "."@ && name != ".."@) by {
        assert("."@.last() == '.');
        assert(".."@.last() == '.');
    }
}

proof fn lemma_separator(path: Seq<char>, i: int)
    ensures
        next_separator(path, i) >= i,
    decreases path.len() - i,
{
    if 0 <= i < path.len() && !is_separator(path[i]) {
        lemma_separator(path, i + 1);
    }
}

proof fn lemma_no_prefix(path: Seq<char>)
    ensures
        prefix_len(path) == 0 <==> !has_drive(path) && !begins(path, "\\\\"@),
{
    reveal_strlit("\\\\");
    lemma_separator(path, 2);
    lemma_separator(path, next_separator(path, 2) + 1);
}

proof fn lemma_cut_last_slash(head: Seq<char>, leaf: Seq<char>)
    requires
        !leaf.contains('/'),
    ensures
        cut_last(head + "/"@ + leaf, '/') == Some((head, leaf)),
{
    reveal_strlit("/");
    let s = head + "/"@ + leaf;
    lemma_last_index(s, '/', s.len() as int);
    assert(s[head.len() as int] == '/');
    let i = last_index(s, '/', s.len() as int).unwrap();
    if i > head.len() {
        assert(leaf[i - head.len() - 1] == '/');
    }
    assert(s.take(i) =~= head);
    assert(s.skip(i + 1) =~= leaf);
}

proof fn lemma_core_len(path: Seq<char>)
    ensures
        core_of(path).len() <= path.len(),
    decreases path.len(),
{
    if path.len() > 0 && ends(path, "/"@) {
        lemma_core_len(path.drop_last());
    } else if path.len() > 1 && ends(path, "/."@) {
        lemma_core_len(path.drop_last());
    }
}

proof fn lemma_depth_lost(parts: Seq<Seq<char>>, i: int, k: int)
    requires
        0 <= i <= k,
        depth_upto(parts, i) is None,
    ensures
        depth_upto(parts, k) is None,
    decreases k - i,
{
    if i < k {
        lemma_depth_lost(parts, i, k - 1);
    }
}

/// A name without a separator stays in the directory, unless it leads to what holds it.
pub proof fn names_stay_in_the_directory(name: Seq<char>)
    requires
        !name.contains('/'),
    ensures
        stays_inside(name) <==> name != ".."@,
{
    reveal_strlit("/");
    reveal_strlit(".");
    reveal_strlit("..");
    lemma_one_segment(name, '/');
    let parts = split(name, '/');
    assert(parts.len() == 1 && parts[0] == name);
    assert(depth_upto(parts, 0) == Some(0nat));
    assert("."@.len() != ".."@.len());
    if begins(name, "/"@) {
        assert(name.subrange(0, 1)[0] == '/');
        assert(name[0] == '/');
    }
    if name == ".."@ {
        assert(depth_upto(parts, 1) is None);
    }
}

/// A path that starts at the root, or with the way up, leads out of the directory.
pub proof fn paths_upwards_lead_out(rest: Seq<char>)
    ensures
        !stays_inside("/"@ + rest),
        !stays_inside("../"@ + rest),
{
    reveal_strlit("/");
    reveal_strlit(".");
    reveal_strlit("..");
    reveal_strlit("../");
    let a = "/"@ + rest;
    assert(a.subrange(0, 1) =~= "/"@);
    let b = "../"@ + rest;
    assert(b =~= ".."@ + seq!['/'] + rest);
    segments_add_up(".."@, '/', rest);
    assert(!".."@.contains('/'));
    lemma_one_segment(".."@, '/');
    let parts = split(b, '/');
    assert(parts[0] == ".."@);
    assert(depth_upto(parts, 0) == Some(0nat));
    assert("."@.len() != ".."@.len());
    assert(depth_upto(parts, 1) is None);
    lemma_depth_lost(parts, 1, parts.len() as int);
}

/// On a machine without drives, containment is to stay in the directory.
pub proof fn containment_is_to_stay_inside(root: Seq<char>, rel: Seq<char>)
    requires
        prefix_len(root) == 0,
    ensures
        is_contained(root, rel) <==> stays_inside(rel),
{
}

} // verus!
