//! Notes in the source that silence a diagnostic.
use crate::completion::line_begin;
use crate::edits::{TextEdit, TextEditView};
use crate::goto::{at_line, line_range};
use crate::line_index::{
    lemma_floor_boundary, lemma_line_start, lemma_position_fits, line_start, LineIndex,
    lines_before, offset_of, Position, position_of, PositionEncoding, Range, range_of,
};
use crate::locate::{deepest, first_covering, node_at, node_at_byte};
use crate::rename::apply::{edited, one_edit_replaces_its_range};
use crate::search::{
    concat, find_char, first_index, lemma_first_index, lemma_skip_space, lemma_split,
    lemma_trimmed_id, past_space, skip_space, skip_space_back, split, split_on, trim, trimmed,
    trimmed_end,
};
use crate::syntax::{Kind, SyntaxTree, Tree};
use crate::text::{
    byte_at, byte_len, bytes_before, char_at, char_is_digit, chars, holds_at, is_ascii_digit,
    is_space, lemma_byte_at_ends, lemma_byte_at_monotone, matches_at, part, same, string,
    substring,
};
use vstd::prelude::*;
use vstd::string::*;

verus! {

/// The statement that `n` belongs to: the child of a block, or of the script.
pub open spec fn statement_of(t: Tree, n: usize) -> usize
    decreases n,
{
    match t.parent(n) {
        Some(p) if p < n => if t.kind(p) == Kind::SourceFile || t.kind(p) == Kind::Block {
            n
        } else {
            statement_of(t, p)
        },
        _ => n,
    }
}

/// The statement that `n` belongs to.
pub fn enclosing_statement(tree: &SyntaxTree, n: usize) -> (r: usize)
    requires
        tree@.has(n),
    ensures
        r == statement_of(tree@, n),
        tree@.has(r),
{
    let mut cur: usize = n;
    loop
        invariant
            tree@.has(cur),
            statement_of(tree@, n) == statement_of(tree@, cur),
        decreases cur,
    {
        match tree.parent(cur) {
            Some(p) => match tree.kind(p) {
                Kind::SourceFile | Kind::Block => {
                    return cur;
                },
                _ => {
                    cur = p;
                },
            },
            None => {
                return cur;
            },
        }
    }
}

/// A code of a rule: `L` or `T`, and three digits.
pub open spec fn is_rule_code(c: Seq<char>) -> bool {
    c.len() == 4 && (c[0] == 'L' || c[0] == 'T') && is_ascii_digit(c[1]) && is_ascii_digit(c[2])
        && is_ascii_digit(c[3])
}

/// The code, if a note can silence it.
pub open spec fn suppressible(code: Option<Seq<char>>) -> Option<Seq<char>> {
    match code {
        Some(c) => if is_rule_code(c) {
            Some(c)
        } else {
            None
        },
        None => None,
    }
}

/// The code, if a note can silence it.
pub fn suppress_code(code: &Option<String>) -> (r: Option<&str>)
    ensures
        r.deep_view() == suppressible(code.deep_view()),
{
    match code {
        Some(c) => {
            let v = chars(c.as_str());
            if v.len() == 4 && (v[0] == 'L' || v[0] == 'T') && char_is_digit(v[1])
                && char_is_digit(v[2]) && char_is_digit(v[3]) {
                Some(c.as_str())
            } else {
                None
            }
        },
        None => None,
    }
}

/// The characters from `a` up to `z` are blanks and tabs.
pub open spec fn is_indent(s: Seq<char>, a: int, z: int) -> bool {
    forall|i: int| a <= i < z ==> (#[trigger] s[i]) == ' ' || s[i] == '\t'
}

/// What a line lists in a note: where the list starts and where it ends.
pub open spec fn allow_list(line: Seq<char>) -> Option<(int, int)> {
    let a = skip_space(line, 0);
    let b = skip_space(line, a + 2);
    if matches_at(line, "//"@, a) && matches_at(line, "@m1:allow("@, b) {
        match first_index(line, ')', b + 10) {
            Some(z) => Some((b + 10, z)),
            None => None,
        }
    } else {
        None
    }
}

/// One of the first `k` codes is that one.
pub open spec fn is_listed(codes: Seq<Seq<char>>, code: Seq<char>, k: int) -> bool {
    exists|i: int| 0 <= i < k && trimmed(#[trigger] codes[i]) == code
}

/// The note for a statement that starts at index `i` of `s`: added to the list of a note on
/// the line above, or on a line of its own. None where that note has the code already, or
/// where something else stands on the line in front of the statement.
pub open spec fn allow_edit_at(
    s: Seq<char>,
    i: int,
    enc: PositionEncoding,
    code: Seq<char>,
) -> Option<TextEditView> {
    let ls = line_start(s, i);
    let indent = s.subrange(ls, i);
    let own_line = Some(
        TextEditView {
            range: line_range(lines_before(s, i) as u32),
            new_text: indent + "// @m1:allow("@ + code + ")\n"@,
        },
    );
    if !is_indent(s, ls, i) {
        None
    } else if ls == 0 {
        own_line
    } else {
        let ps = line_start(s, ls - 1);
        let line = s.subrange(ps, ls - 1);
        match allow_list(line) {
            Some((a, z)) => {
                let codes = split(line.subrange(a, z), ',');
                let p = position_of(s, byte_at(s, ps + z) as int, enc);
                if is_listed(codes, code, codes.len() as int) {
                    None
                } else {
                    Some(
                        TextEditView { range: Range { start: p, end: p }, new_text: ", "@ + code },
                    )
                }
            },
            None => own_line,
        }
    }
}

/// The statement that byte `b` belongs to.
pub open spec fn statement_at(t: Tree, b: int) -> usize {
    statement_of(
        t,
        match node_at(t, b) {
            Some(n) => n,
            None => 0,
        },
    )
}

/// The note that silences the code at position `at`: none in a comment, or outside of a
/// statement.
pub open spec fn allow_edit(
    t: Tree,
    s: Seq<char>,
    enc: PositionEncoding,
    at: Position,
    code: Seq<char>,
) -> Option<TextEditView> {
    let b = offset_of(s, at, enc);
    let stmt = statement_at(t, b);
    if t.kind(stmt) == Kind::LineComment || t.kind(stmt) == Kind::BlockComment {
        None
    } else if t.start(stmt) <= b <= t.end(stmt) {
        allow_edit_at(s, char_at(t.text, t.start(stmt)), enc, code)
    } else {
        None
    }
}

fn find_allow_list(line: &Vec<char>) -> (r: Option<(usize, usize)>)
    ensures
        match r {
            Some((a, z)) => allow_list(line@) == Some((a as int, z as int)) && a <= z
                < line@.len(),
            None => allow_list(line@) is None,
        },
{
    proof {
        reveal_strlit("//");
        reveal_strlit("@m1:allow(");
    }
    let n: usize = line.len();
    let a: usize = past_space(line, 0);
    let slashes = chars("//");
    if !holds_at(line, &slashes, a) {
        return None;
    }
    assert(a + 2 <= n);
    let b: usize = past_space(line, a + 2);
    let word = chars("@m1:allow(");
    if !holds_at(line, &word, b) {
        return None;
    }
    assert(b + 10 <= n);
    match find_char(line, ')', b + 10) {
        Some(z) => Some((b + 10, z)),
        None => None,
    }
}

fn lists_code(list: &str, code: &str) -> (r: bool)
    ensures
        r == is_listed(split(list@, ','), code@, split(list@, ',').len() as int),
{
    let codes = split_on(list, ',');
    let ghost cs = codes.deep_view();
    let mut k: usize = 0;
    while k < codes.len()
        invariant
            k <= codes@.len(),
            cs == codes.deep_view(),
            cs == split(list@, ','),
            !is_listed(cs, code@, k as int),
        decreases codes@.len() - k,
    {
        assert(cs[k as int] == codes@[k as int]@);
        let c = string(&trim(&chars(codes[k].as_str())));
        if same(c.as_str(), code) {
            return true;
        }
        k = k + 1;
    }
    false
}

fn only_indent(v: &Vec<char>, a: usize, z: usize) -> (r: bool)
    requires
        a <= z <= v@.len(),
    ensures
        r == is_indent(v@, a as int, z as int),
{
    let mut k: usize = a;
    while k < z
        invariant
            a <= k <= z <= v@.len(),
            is_indent(v@, a as int, k as int),
        decreases z - k,
    {
        if v[k] != ' ' && v[k] != '\t' {
            return false;
        }
        k = k + 1;
    }
    true
}

fn edit_at(li: &LineIndex, i: usize, enc: PositionEncoding, code: &str) -> (r: Option<TextEdit>)
    requires
        i <= li@.len(),
    ensures
        r.deep_view() == allow_edit_at(li@, i as int, enc, code@),
{
    let v = li.characters();
    let ls: usize = line_begin(v, i);
    if !only_indent(v, ls, i) {
        return None;
    }
    if ls > 0 {
        let ps: usize = line_begin(v, ls - 1);
        let line = part(v, ps, ls - 1);
        if let Some((a, z)) = find_allow_list(&line) {
            if lists_code(substring(&line, a, z).as_str(), code) {
                return None;
            }
            proof {
                lemma_byte_at_monotone(v@, ps + z, v@.len() as int);
                lemma_byte_at_ends(v@);
            }
            let p = li.position(bytes_before(v, ps + z), enc);
            let range = Range { start: p, end: p };
            return Some(TextEdit { range, new_text: concat(", ", code) });
        }
    }
    proof {
        lemma_floor_boundary(v@, i as int);
        lemma_byte_at_monotone(v@, i as int, v@.len() as int);
        lemma_byte_at_ends(v@);
    }
    let line: u32 = li.position(bytes_before(v, i), enc).line;
    let mut new_text = substring(v, ls, i);
    new_text.append("// @m1:allow(");
    new_text.append(code);
    new_text.append(")\n");
    Some(TextEdit { range: at_line(line), new_text })
}

/// The note that silences the code at position `at`.
pub fn suppress_edit(
    tree: &SyntaxTree,
    li: &LineIndex,
    enc: PositionEncoding,
    at: Position,
    code: &str,
) -> (r: Option<TextEdit>)
    requires
        li@ == tree@.text,
    ensures
        r.deep_view() == allow_edit(tree@, li@, enc, at, code@),
{
    let size: usize = tree.len();
    let b: usize = li.offset(at, enc);
    let n: usize = match node_at_byte(tree, b) {
        Some(n) => n,
        None => 0,
    };
    let stmt: usize = enclosing_statement(tree, n);
    match tree.kind(stmt) {
        Kind::LineComment | Kind::BlockComment => {
            return None;
        },
        _ => {},
    }
    let d = tree.node(stmt);
    if !(d.start <= b && b <= d.end) {
        return None;
    }
    let (i, z) = tree.char_span(stmt);
    edit_at(li, i, enc, code)
}

// ---------------------------------------------------------------------------
// Laws
// ---------------------------------------------------------------------------

proof fn lemma_starts_at(s: Seq<char>, a: int, i: int)
    requires
        0 <= a <= i <= s.len(),
        a == 0 || s[a - 1] == '\n',
        forall|k: int| a <= k < i ==> s[k] != '\n',
    ensures
        line_start(s, i) == a,
    decreases i,
{
    if a < i {
        lemma_starts_at(s, a, i - 1);
    }
}

/// A line that does not start the text starts behind a line break.
proof fn lemma_break_before(s: Seq<char>, i: int)
    requires
        0 <= i <= s.len(),
        line_start(s, i) > 0,
    ensures
        s[line_start(s, i) - 1] == '\n',
    decreases i,
{
    if i > 0 && s[i - 1] != '\n' {
        lemma_break_before(s, i - 1);
    }
}

proof fn lemma_skips_to(s: Seq<char>, i: int, k: int)
    requires
        0 <= i <= k < s.len(),
        forall|j: int| i <= j < k ==> is_space(#[trigger] s[j]),
        !is_space(s[k]),
    ensures
        skip_space(s, i) == k,
    decreases k - i,
{
    if i < k {
        assert(is_space(s[i]));
        lemma_skips_to(s, i + 1, k);
    }
}

proof fn lemma_first_at(s: Seq<char>, c: char, i: int, k: int)
    requires
        0 <= i <= k < s.len(),
        forall|j: int| i <= j < k ==> s[j] != c,
        s[k] == c,
    ensures
        first_index(s, c, i) == Some(k),
    decreases k - i,
{
    if i < k {
        lemma_first_at(s, c, i + 1, k);
    }
}

/// A list of codes can hold the code: it has neither a comma, nor a closing parenthesis, nor
/// a line break, nor white space at its ends.
pub open spec fn can_be_listed(code: Seq<char>) -> bool {
    &&& trimmed(code) == code
    &&& !code.contains(',') && !code.contains(')') && !code.contains('\n')
}

/// A list can hold every code of a rule.
pub proof fn rule_codes_can_be_listed(code: Seq<char>)
    requires
        is_rule_code(code),
    ensures
        can_be_listed(code),
{
    assert forall|j: int| 0 <= j < code.len() implies (#[trigger] code[j]) != ',' && code[j] != ')'
        && code[j] != '\n' && !is_space(code[j]) by {
        assert(j == 0 || j == 1 || j == 2 || j == 3);
    }
    lemma_trimmed_id(code);
}

proof fn lemma_listed_code(code: Seq<char>)
    requires
        can_be_listed(code),
    ensures
        forall|j: int|
            0 <= j < code.len() ==> (#[trigger] code[j]) != ',' && code[j] != ')' && code[j] != '\n',
        trimmed(" "@ + code) == code,
{
    reveal_strlit(" ");
    assert forall|j: int| 0 <= j < code.len() implies (#[trigger] code[j]) != ',' && code[j] != ')'
        && code[j] != '\n' by {
        assert(code.contains(code[j]));
    }
    lemma_trimmed_id(code);
    let s = " "@ + code;
    if code.len() == 0 {
        assert(s =~= " "@);
        assert(skip_space_back(s, 1) == skip_space_back(s, 0));
        assert(trimmed_end(s) =~= Seq::empty());
        assert(trimmed(s) =~= code);
    } else {
        assert(s.last() == code.last());
        assert(skip_space_back(s, s.len() as int) == s.len());
        assert(trimmed_end(s) =~= s);
        assert(s[0] == ' ');
        assert(s[1] == code[0]);
        lemma_skips_to(s, 0, 1);
        assert(s.skip(1) =~= code);
    }
}

/// The note on the line above lists the code.
spec fn listed_above(s: Seq<char>, i: int, code: Seq<char>) -> bool {
    let ls = line_start(s, i);
    let ps = line_start(s, ls - 1);
    let line = s.subrange(ps, ls - 1);
    ls > 0 && match allow_list(line) {
        Some((a, z)) => {
            let codes = split(line.subrange(a, z), ',');
            is_listed(codes, code, codes.len() as int)
        },
        None => false,
    }
}

proof fn lemma_own_line(s: Seq<char>, i: int, code: Seq<char>)
    requires
        0 <= i <= s.len(),
        can_be_listed(code),
        is_indent(s, line_start(s, i), i),
    ensures
        ({
            let ls = line_start(s, i);
            let note = s.subrange(ls, i) + "// @m1:allow("@ + code + ")\n"@;
            listed_above(s.take(ls) + note + s.skip(ls), i + note.len(), code)
        }),
{
    reveal_strlit("//");
    reveal_strlit("// @m1:allow(");
    reveal_strlit("@m1:allow(");
    reveal_strlit(")\n");
    lemma_listed_code(code);
    let c = code.len() as int;
    lemma_line_start(s, i);
    let ls = line_start(s, i);
    let indent = s.subrange(ls, i);
    let d = indent.len() as int;
    let note = indent + "// @m1:allow("@ + code + ")\n"@;
    let n = note.len() as int;
    let t = s.take(ls) + note + s.skip(ls);
    let line = note.take(n - 1);
    assert forall|k: int| 0 <= k < d implies is_space(#[trigger] line[k]) && line[k] != '\n' by {
        assert(line[k] == s[ls + k]);
    }
    assert forall|k: int| d + 13 <= k < d + 13 + c implies #[trigger] line[k] == code[k - d - 13] by {}
    assert forall|k: int| 0 <= k < n - 1 implies #[trigger] line[k] != '\n' by {
        if d + 13 <= k < d + 13 + c {
            assert(code[k - d - 13] != '\n');
        }
    }
    if ls > 0 {
        lemma_break_before(s, i);
    }
    assert(t.subrange(ls, ls + n) =~= note);
    assert(t[ls + n - 1] == '\n');
    assert forall|k: int| ls <= k < ls + n - 1 implies t[k] != '\n' by {
        assert(t[k] == line[k - ls]);
    }
    lemma_starts_at(t, ls, ls + n - 1);
    assert forall|k: int| ls + n <= k < i + n implies t[k] != '\n' by {
        assert(t[k] == s[k - n]);
    }
    lemma_starts_at(t, ls + n, i + n);
    assert(t.subrange(ls, ls + n - 1) =~= line);
    lemma_skips_to(line, 0, d);
    lemma_skips_to(line, d + 2, d + 3);
    assert(line.subrange(d, d + 2) =~= "//"@);
    assert(line.subrange(d + 3, d + 13) =~= "@m1:allow("@);
    assert forall|k: int| d + 13 <= k < d + 13 + c implies line[k] != ')' by {
        assert(code[k - d - 13] != ')');
    }
    lemma_first_at(line, ')', d + 13, d + 13 + c);
    assert(line.subrange(d + 13, d + 13 + c) =~= code);
    lemma_split(code, ',', 0);
    assert(split(code, ',')[0] == code);
}

proof fn lemma_wider_line(line: Seq<char>, code: Seq<char>, a: int, z: int)
    requires
        can_be_listed(code),
        allow_list(line) == Some((a, z)),
    ensures
        0 <= a <= z < line.len(),
        ({
            let wide = line.take(z) + (", "@ + code) + line.skip(z);
            let end = z + 2 + code.len();
            let codes = split(wide.subrange(a, end), ',');
            &&& allow_list(wide) == Some((a, end))
            &&& is_listed(codes, code, codes.len() as int)
        }),
{
    reveal_strlit(", ");
    reveal_strlit(" ");
    reveal_strlit("//");
    reveal_strlit("@m1:allow(");
    lemma_listed_code(code);
    let c = code.len() as int;
    let a0 = skip_space(line, 0);
    let b = skip_space(line, a0 + 2);
    lemma_skip_space(line, 0);
    lemma_skip_space(line, a0 + 2);
    lemma_first_index(line, ')', b + 10);
    assert(line.subrange(a0, a0 + 2)[0] == '/');
    assert(line.subrange(b, b + 10)[0] == '@');
    let more = ", "@ + code;
    let wide = line.take(z) + more + line.skip(z);
    assert forall|j: int| 0 <= j < z implies #[trigger] wide[j] == line[j] by {}
    assert(wide.subrange(a0, a0 + 2) =~= line.subrange(a0, a0 + 2));
    assert(wide.subrange(b, b + 10) =~= line.subrange(b, b + 10));
    lemma_skips_to(wide, 0, a0);
    lemma_skips_to(wide, a0 + 2, b);
    assert forall|j: int| a <= j < z + 2 + c implies wide[j] != ')' by {
        if j >= z + 2 {
            assert(wide[j] == code[j - z - 2]);
        }
    }
    assert(wide[z + 2 + c] == line[z]);
    lemma_first_at(wide, ')', a, z + 2 + c);
    let list = wide.subrange(a, z + 2 + c);
    let st = z - a + 1;
    assert forall|j: int| st <= j < list.len() implies list[j] != ',' by {
        if j > st {
            assert(list[j] == code[j - st - 1]);
        }
    }
    lemma_split(list, ',', st);
    assert(list.skip(st) =~= " "@ + code);
    let codes = split(list, ',');
    assert(codes[codes.len() - 1] == list.skip(st));
}

proof fn lemma_longer_list(s: Seq<char>, i: int, code: Seq<char>, a: int, z: int)
    requires
        0 <= i <= s.len(),
        can_be_listed(code),
        line_start(s, i) > 0,
        ({
            let ls = line_start(s, i);
            let ps = line_start(s, ls - 1);
            allow_list(s.subrange(ps, ls - 1)) == Some((a, z))
        }),
    ensures
        ({
            let k = line_start(s, line_start(s, i) - 1) + z;
            let more = ", "@ + code;
            &&& 0 <= k <= s.len()
            &&& listed_above(s.take(k) + more + s.skip(k), i + more.len(), code)
        }),
{
    reveal_strlit(", ");
    lemma_listed_code(code);
    let c = code.len() as int;
    lemma_line_start(s, i);
    lemma_break_before(s, i);
    let ls = line_start(s, i);
    lemma_line_start(s, ls - 1);
    let ps = line_start(s, ls - 1);
    if ps > 0 {
        lemma_break_before(s, ls - 1);
    }
    let line = s.subrange(ps, ls - 1);
    lemma_wider_line(line, code, a, z);
    let more = ", "@ + code;
    let k = ps + z;
    let t = s.take(k) + more + s.skip(k);
    assert forall|j: int| ps <= j < ls + 1 + c implies t[j] != '\n' by {
        if j < k {
            assert(t[j] == s[j]);
        } else if j < k + 2 {
            assert(t[j] == ", "@[j - k]);
        } else if j < k + 2 + c {
            assert(t[j] == code[j - k - 2]);
        } else {
            assert(t[j] == s[j - 2 - c]);
        }
    }
    assert(ps > 0 ==> t[ps - 1] == s[ps - 1]);
    lemma_starts_at(t, ps, ls + 1 + c);
    assert(t[ls + 1 + c] == s[ls - 1]);
    assert forall|j: int| ls + 2 + c <= j < i + 2 + c implies t[j] != '\n' by {
        assert(t[j] == s[j - 2 - c]);
    }
    lemma_starts_at(t, ls + 2 + c, i + 2 + c);
    assert(t.subrange(ps, ls + 1 + c) =~= line.take(z) + more + line.skip(z));
}

/// A note is offered once: in the text with the note, no note for that code is offered for
/// that statement.
pub proof fn note_is_offered_once(
    s: Seq<char>,
    i: int,
    enc: PositionEncoding,
    code: Seq<char>,
    edit: TextEditView,
)
    requires
        byte_len(s) <= u32::MAX,
        0 <= i <= s.len(),
        can_be_listed(code),
        allow_edit_at(s, i, enc, code) == Some(edit),
    ensures
        ({
            let t = edited(s, seq![edit], enc);
            allow_edit_at(t, i + (t.len() - s.len()), enc, code) is None
        }),
{
    lemma_line_start(s, i);
    let ls = line_start(s, i);
    let ps = line_start(s, ls - 1);
    let line = s.subrange(ps, ls - 1);
    if ls > 0 && allow_list(line) is Some {
        let (a, z) = allow_list(line).unwrap();
        lemma_longer_list(s, i, code, a, z);
        let k = ps + z;
        one_edit_replaces_its_range(s, k, k, ", "@ + code, enc);
    } else {
        let note = s.subrange(ls, i) + "// @m1:allow("@ + code + ")\n"@;
        lemma_own_line(s, i, code);
        lemma_position_fits(s, i, enc);
        lemma_floor_boundary(s, ls);
        assert(s.subrange(ls, ls) =~= Seq::empty());
        assert(range_of(s, byte_at(s, ls) as int, byte_at(s, ls) as int, enc) == edit.range);
        one_edit_replaces_its_range(s, ls, ls, note, enc);
    }
}

proof fn lemma_deepest(t: Tree, n: usize, b: int)
    requires
        t.has(n),
    ensures
        t.has(deepest(t, n, b)),
    decreases t.size() - n,
{
    match first_covering(t, t.kids(n), b, 0) {
        Some(c) if n < c && t.has(c) => {
            lemma_deepest(t, c, b);
        },
        _ => {},
    }
}

proof fn lemma_statement(t: Tree, n: usize)
    requires
        t.has(n),
    ensures
        t.has(statement_of(t, n)),
    decreases n,
{
    match t.parent(n) {
        Some(p) if p < n => {
            lemma_statement(t, p);
        },
        _ => {},
    }
}

/// A note that was offered only adds text, and is not offered again: not in the tree of the
/// text with the note, at a place in the same statement.
pub proof fn suppression_is_offered_once(
    t: Tree,
    at: Position,
    enc: PositionEncoding,
    code: Seq<char>,
    edit: TextEditView,
    noted: Tree,
    then: Position,
)
    requires
        t.wf(),
        byte_len(t.text) <= u32::MAX,
        can_be_listed(code),
        allow_edit(t, t.text, enc, at, code) == Some(edit),
        noted.text == edited(t.text, seq![edit], enc),
        ({
            let a = statement_at(t, offset_of(t.text, at, enc));
            let b = statement_at(noted, offset_of(noted.text, then, enc));
            char_at(noted.text, noted.start(b)) == char_at(t.text, t.start(a)) + (noted.text.len()
                - t.text.len())
        }),
    ensures
        edit.range.start == edit.range.end,
        allow_edit(noted, noted.text, enc, then, code) is None,
{
    let b = offset_of(t.text, at, enc);
    assert(t.has(0));
    lemma_deepest(t, 0, b);
    let n = match node_at(t, b) {
        Some(n) => n,
        None => 0,
    };
    lemma_statement(t, n);
    let stmt = statement_at(t, b);
    assert(t.spans_text(stmt));
    note_is_offered_once(t.text, char_at(t.text, t.start(stmt)), enc, code, edit);
}

} // verus!
