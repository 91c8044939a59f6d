//! Byte offsets of a text as line and column positions, and back.
use crate::text::{
    byte_at, byte_len, bytes_before, bytes_of, char_at, char_width, chars, is_boundary,
    lemma_byte_at_ends, lemma_byte_at_monotone, lemma_byte_at_step, lemma_byte_len_bounds,
    lemma_byte_len_subrange, width,
};
use vstd::prelude::*;

verus! {

/// A zero-based line, and a column in the units of a [`PositionEncoding`].
#[derive(Clone, Copy, Debug, PartialEq, Eq, Structural)]
pub struct Position {
    pub line: u32,
    pub character: u32,
}

/// Two positions, the end not included.
#[derive(Clone, Copy, Debug, PartialEq, Eq, Structural)]
pub struct Range {
    pub start: Position,
    pub end: Position,
}

impl DeepView for Range {
    type V = Range;

    open spec fn deep_view(&self) -> Range {
        *self
    }
}

/// The unit in which columns count.
#[derive(Clone, Copy, Debug, PartialEq, Eq, Structural)]
pub enum PositionEncoding {
    Utf8,
    Utf16,
}

/// The columns that one character takes.
pub open spec fn unit(c: char, enc: PositionEncoding) -> nat {
    match enc {
        PositionEncoding::Utf8 => width(c),
        PositionEncoding::Utf16 => if (c as u32) < 0x10000 {
            1
        } else {
            2
        },
    }
}

/// The columns that a text takes.
pub open spec fn units(s: Seq<char>, enc: PositionEncoding) -> nat
    decreases s.len(),
{
    if s.len() == 0 {
        0
    } else {
        units(s.drop_last(), enc) + unit(s.last(), enc)
    }
}

/// The number of line breaks among the first `i` characters.
pub open spec fn lines_before(s: Seq<char>, i: int) -> nat
    decreases i,
{
    if i <= 0 || i > s.len() {
        0
    } else {
        lines_before(s, i - 1) + if s[i - 1] == '\n' {
            1nat
        } else {
            0nat
        }
    }
}

/// The index of the first character of the line that index `i` stands in.
pub open spec fn line_start(s: Seq<char>, i: int) -> int
    decreases i,
{
    if i <= 0 || i > s.len() {
        0
    } else if s[i - 1] == '\n' {
        i
    } else {
        line_start(s, i - 1)
    }
}

/// The index of the line break that ends the line of index `i`, or the text's end.
pub open spec fn line_end(s: Seq<char>, i: int) -> int
    decreases s.len() - i,
{
    if 0 <= i < s.len() && s[i] != '\n' {
        line_end(s, i + 1)
    } else {
        i
    }
}

/// The last index, up to `i`, whose byte offset is at most `b`.
pub open spec fn floor_from(s: Seq<char>, b: int, i: int) -> int
    decreases i,
{
    if i <= 0 {
        0
    } else if byte_at(s, i) <= b {
        i
    } else {
        floor_from(s, b, i - 1)
    }
}

/// The index of the character that byte `b` belongs to; the text's end beyond it.
pub open spec fn floor_index(s: Seq<char>, b: int) -> int {
    floor_from(s, b, s.len() as int)
}

/// The position of the character with index `i`.
pub open spec fn position_at(s: Seq<char>, i: int, enc: PositionEncoding) -> Position {
    Position {
        line: lines_before(s, i) as u32,
        character: units(s.subrange(line_start(s, i), i), enc) as u32,
    }
}

/// The position of byte `b`.
pub open spec fn position_of(s: Seq<char>, b: int, enc: PositionEncoding) -> Position {
    position_at(s, floor_index(s, b), enc)
}

/// The range between two byte offsets.
pub open spec fn range_of(s: Seq<char>, a: int, b: int, enc: PositionEncoding) -> Range {
    Range { start: position_of(s, a, enc), end: position_of(s, b, enc) }
}

/// The index of the first character of line `line`, if there is such a line.
pub open spec fn start_of_line(s: Seq<char>, line: int) -> Option<int> {
    start_of_line_upto(s, line, s.len() as int)
}

pub open spec fn start_of_line_upto(s: Seq<char>, line: int, i: int) -> Option<int>
    decreases i + 1,
{
    if i < 0 || i > s.len() {
        None
    } else if lines_before(s, i) == line && line_start(s, i) == i {
        Some(i)
    } else {
        start_of_line_upto(s, line, i - 1)
    }
}

/// The last index, from `i` on and up to `e`, whose columns from `i` on are at most `n`.
pub open spec fn advance(s: Seq<char>, i: int, e: int, n: int, enc: PositionEncoding) -> int
    decreases e - i,
{
    if i < e && unit(s[i], enc) <= n {
        advance(s, i + 1, e, n - unit(s[i], enc), enc)
    } else {
        i
    }
}

/// The byte offset of a position. A line beyond the last stands for the text's end, a
/// column beyond the line's end for that end. A byte column is taken as it is, so it
/// may point into a character.
pub open spec fn offset_of(s: Seq<char>, p: Position, enc: PositionEncoding) -> int {
    match start_of_line(s, p.line as int) {
        None => byte_len(s) as int,
        Some(i) => match enc {
            PositionEncoding::Utf8 => {
                let b = byte_at(s, i) + p.character;
                let e = byte_at(s, line_end(s, i));
                if b < e {
                    b as int
                } else {
                    e as int
                }
            },
            PositionEncoding::Utf16 => byte_at(
                s,
                advance(s, i, line_end(s, i), p.character as int, enc),
            ) as int,
        },
    }
}

// ---------------------------------------------------------------------------
// Lemmas
// ---------------------------------------------------------------------------

pub proof fn lemma_lines_before(s: Seq<char>, i: int, j: int)
    requires
        0 <= i <= j <= s.len(),
    ensures
        lines_before(s, i) <= lines_before(s, j) <= lines_before(s, i) + (j - i),
    decreases j - i,
{
    if i < j {
        lemma_lines_before(s, i, j - 1);
    }
}

pub proof fn lemma_line_start(s: Seq<char>, i: int)
    requires
        0 <= i <= s.len(),
    ensures
        0 <= line_start(s, i) <= i,
        lines_before(s, line_start(s, i)) == lines_before(s, i),
        line_start(s, line_start(s, i)) == line_start(s, i),
        forall|k: int| line_start(s, i) <= k < i ==> s[k] != '\n',
    decreases i,
{
    if i > 0 && s[i - 1] != '\n' {
        lemma_line_start(s, i - 1);
    }
}

pub proof fn lemma_line_end(s: Seq<char>, i: int)
    requires
        0 <= i <= s.len(),
    ensures
        i <= line_end(s, i) <= s.len(),
        forall|k: int| i <= k < line_end(s, i) ==> s[k] != '\n',
        line_end(s, i) < s.len() ==> s[line_end(s, i)] == '\n',
    decreases s.len() - i,
{
    if i < s.len() && s[i] != '\n' {
        lemma_line_end(s, i + 1);
    }
}

pub proof fn lemma_line_end_same(s: Seq<char>, i: int, j: int)
    requires
        0 <= i <= j <= s.len(),
        forall|k: int| i <= k < j ==> s[k] != '\n',
    ensures
        line_end(s, i) == line_end(s, j),
    decreases j - i,
{
    if i < j {
        lemma_line_end_same(s, i + 1, j);
    }
}

/// Two starts of one line are the same index.
pub proof fn lemma_line_start_unique(s: Seq<char>, i: int, j: int)
    requires
        0 <= i <= j <= s.len(),
        line_start(s, i) == i,
        line_start(s, j) == j,
        lines_before(s, i) == lines_before(s, j),
    ensures
        i == j,
{
    if i < j {
        lemma_line_start(s, j - 1);
        assert(s[j - 1] == '\n');
        lemma_lines_before(s, i, j - 1);
    }
}

pub proof fn lemma_start_of_line_found(s: Seq<char>, line: int, i: int, k: int)
    requires
        0 <= k <= i <= s.len(),
        lines_before(s, k) == line,
        line_start(s, k) == k,
    ensures
        start_of_line_upto(s, line, i) == Some(k),
    decreases i,
{
    if lines_before(s, i) == line && line_start(s, i) == i {
        lemma_line_start_unique(s, k, i);
    } else {
        lemma_start_of_line_found(s, line, i - 1, k);
    }
}

pub proof fn lemma_start_of_line(s: Seq<char>, line: int, i: int)
    requires
        i <= s.len(),
    ensures
        match start_of_line_upto(s, line, i) {
            Some(k) => 0 <= k <= i && lines_before(s, k) == line && line_start(s, k) == k,
            None => true,
        },
    decreases i + 1,
{
    if 0 <= i && !(lines_before(s, i) == line && line_start(s, i) == i) {
        lemma_start_of_line(s, line, i - 1);
    }
}

pub proof fn lemma_floor(s: Seq<char>, b: int, i: int)
    requires
        0 <= i <= s.len(),
        0 <= b,
    ensures
        0 <= floor_from(s, b, i) <= i,
        byte_at(s, floor_from(s, b, i)) <= b,
        floor_from(s, b, i) < i ==> b < byte_at(s, floor_from(s, b, i) + 1),
    decreases i,
{
    lemma_byte_at_ends(s);
    if i > 0 && byte_at(s, i) > b {
        lemma_floor(s, b, i - 1);
    }
}

/// The floor of a boundary is the character it stands in front of.
pub proof fn lemma_floor_boundary(s: Seq<char>, k: int)
    requires
        0 <= k <= s.len(),
    ensures
        floor_index(s, byte_at(s, k) as int) == k,
{
    let b = byte_at(s, k) as int;
    let f = floor_index(s, b);
    lemma_floor(s, b, s.len() as int);
    if f < k {
        lemma_byte_at_monotone(s, f + 1, k);
    } else if k < f {
        lemma_byte_at_monotone(s, k, f);
    }
}

pub proof fn lemma_units_step(s: Seq<char>, i: int, j: int, enc: PositionEncoding)
    requires
        0 <= i <= j < s.len(),
    ensures
        units(s.subrange(i, j + 1), enc) == units(s.subrange(i, j), enc) + unit(s[j], enc),
{
    assert(s.subrange(i, j + 1).drop_last() =~= s.subrange(i, j));
}

/// A text has at most as many columns as bytes.
pub proof fn lemma_units_bytes(s: Seq<char>, enc: PositionEncoding)
    ensures
        units(s, enc) <= byte_len(s),
        enc == PositionEncoding::Utf8 ==> units(s, enc) == byte_len(s),
    decreases s.len(),
{
    if s.len() > 0 {
        lemma_units_bytes(s.drop_last(), enc);
    }
}

/// Positions of a text of at most `u32::MAX` bytes fit.
pub proof fn lemma_position_fits(s: Seq<char>, i: int, enc: PositionEncoding)
    requires
        0 <= i <= s.len(),
        byte_len(s) <= u32::MAX,
    ensures
        lines_before(s, i) <= u32::MAX,
        units(s.subrange(line_start(s, i), i), enc) <= u32::MAX,
{
    lemma_byte_len_bounds(s);
    lemma_lines_before(s, 0, i);
    lemma_line_start(s, i);
    lemma_units_bytes(s.subrange(line_start(s, i), i), enc);
    lemma_byte_len_subrange(s, line_start(s, i), i);
    lemma_byte_at_monotone(s, i, s.len() as int);
    lemma_byte_at_ends(s);
}

pub proof fn lemma_advance(s: Seq<char>, i: int, k: int, e: int, enc: PositionEncoding)
    requires
        0 <= i <= k <= e <= s.len(),
    ensures
        advance(s, i, e, units(s.subrange(i, k), enc) as int, enc) == k,
    decreases k - i,
{
    if i == k {
        assert(s.subrange(i, k) =~= Seq::empty());
        assert(units(s.subrange(i, k), enc) == 0);
    } else {
        lemma_units_front(s, i, k, enc);
        lemma_advance(s, i + 1, k, e, enc);
    }
}

pub proof fn lemma_units_front(s: Seq<char>, i: int, k: int, enc: PositionEncoding)
    requires
        0 <= i < k <= s.len(),
    ensures
        units(s.subrange(i, k), enc) == unit(s[i], enc) + units(s.subrange(i + 1, k), enc),
    decreases k - i,
{
    if k == i + 1 {
        assert(s.subrange(i, k).drop_last() =~= Seq::empty());
        assert(s.subrange(i + 1, k) =~= Seq::empty());
        assert(units(s.subrange(i, k).drop_last(), enc) == 0);
    } else {
        lemma_units_front(s, i, k - 1, enc);
        assert(s.subrange(i, k).drop_last() =~= s.subrange(i, k - 1));
        assert(s.subrange(i + 1, k).drop_last() =~= s.subrange(i + 1, k - 1));
    }
}

/// The position of a boundary leads back to it.
pub proof fn offset_inverts_position(s: Seq<char>, b: int, enc: PositionEncoding)
    requires
        byte_len(s) <= u32::MAX,
        is_boundary(s, b),
    ensures
        offset_of(s, position_of(s, b, enc), enc) == b,
{
    let k = char_at(s, b);
    assert(0 <= k <= s.len() && byte_at(s, k) == b);
    lemma_floor_boundary(s, k);
    lemma_position_fits(s, k, enc);
    lemma_line_start(s, k);
    let i = line_start(s, k);
    lemma_start_of_line_found(s, lines_before(s, k) as int, s.len() as int, i);
    lemma_line_end(s, k);
    lemma_line_end_same(s, i, k);
    let e = line_end(s, i);
    lemma_byte_len_subrange(s, i, k);
    lemma_units_bytes(s.subrange(i, k), enc);
    lemma_byte_at_monotone(s, k, e);
    lemma_advance(s, i, k, e, enc);
}

/// Positions keep the order of the offsets they come from.
pub proof fn positions_keep_order(s: Seq<char>, a: int, b: int, enc: PositionEncoding)
    requires
        byte_len(s) <= u32::MAX,
        0 <= a <= b,
    ensures
        position_of(s, a, enc).line <= position_of(s, b, enc).line,
        position_of(s, a, enc).line == position_of(s, b, enc).line ==> position_of(
            s,
            a,
            enc,
        ).character <= position_of(s, b, enc).character,
{
    let n = s.len() as int;
    let i = floor_index(s, a);
    let j = floor_index(s, b);
    lemma_floor(s, a, n);
    lemma_floor(s, b, n);
    if j < i {
        lemma_byte_at_monotone(s, j + 1, i);
    }
    lemma_position_fits(s, i, enc);
    lemma_position_fits(s, j, enc);
    lemma_lines_before(s, i, j);
    if lines_before(s, i) == lines_before(s, j) {
        lemma_line_start(s, i);
        lemma_line_start(s, j);
        let k = line_start(s, i);
        let l = line_start(s, j);
        if k <= l {
            lemma_line_start_unique(s, k, l);
        } else {
            lemma_line_start_unique(s, l, k);
        }
        lemma_units_monotone(s, k, i, j, enc);
    }
}

pub proof fn lemma_units_monotone(s: Seq<char>, k: int, i: int, j: int, enc: PositionEncoding)
    requires
        0 <= k <= i <= j <= s.len(),
    ensures
        units(s.subrange(k, i), enc) <= units(s.subrange(k, j), enc),
    decreases j - i,
{
    if i < j {
        lemma_units_monotone(s, k, i, j - 1, enc);
        lemma_units_step(s, k, j - 1, enc);
    }
}

// ---------------------------------------------------------------------------
// The index
// ---------------------------------------------------------------------------

/// A text of at most `u32::MAX` bytes, whose offsets can be asked for as positions.
pub struct LineIndex {
    text: Vec<char>,
}

impl View for LineIndex {
    type V = Seq<char>;

    closed spec fn view(&self) -> Seq<char> {
        self.text@
    }
}

pub fn char_units(c: char, enc: PositionEncoding) -> (n: usize)
    ensures
        n == unit(c, enc),
        1 <= n <= 4,
{
    match enc {
        PositionEncoding::Utf8 => char_width(c),
        PositionEncoding::Utf16 => if (c as u32) < 0x10000 {
            1
        } else {
            2
        },
    }
}

impl LineIndex {
    #[verifier::type_invariant]
    pub closed spec fn wf(&self) -> bool {
        byte_len(self.text@) <= u32::MAX
    }

    pub fn new(text: &str) -> (li: LineIndex)
        requires
            byte_len(text@) <= u32::MAX,
        ensures
            li@ == text@,
    {
        LineIndex { text: chars(text) }
    }

    /// The characters of the text.
    pub fn characters(&self) -> (v: &Vec<char>)
        ensures
            v@ == self@,
            byte_len(v@) <= u32::MAX,
    {
        proof {
            use_type_invariant(self);
        }
        &self.text
    }

    fn floor(&self, byte: usize) -> (i: usize)
        ensures
            i == floor_index(self@, byte as int),
            i <= self@.len(),
    {
        proof {
            use_type_invariant(self);
            lemma_byte_at_ends(self@);
            lemma_floor(self@, byte as int, self@.len() as int);
        }
        let mut n: usize = 0;
        let mut k: usize = 0;
        while k < self.text.len()
            invariant
                k <= self@.len(),
                self@ == self.text@,
                n == byte_at(self@, k as int),
                n <= byte,
                floor_index(self@, byte as int) >= k,
                floor_index(self@, byte as int) <= self@.len(),
                byte_at(self@, floor_index(self@, byte as int)) <= byte,
                floor_index(self@, byte as int) < self@.len() ==> byte < byte_at(
                    self@,
                    floor_index(self@, byte as int) + 1,
                ),
            decreases self@.len() - k,
        {
            let w: usize = char_width(self.text[k]);
            proof {
                lemma_byte_at_step(self@, k as int);
                if w > byte - n && floor_index(self@, byte as int) > k {
                    lemma_byte_at_monotone(self@, k + 1, floor_index(self@, byte as int));
                }
            }
            if w > byte - n {
                return k;
            }
            proof {
                if floor_index(self@, byte as int) == k {
                    assert(byte_at(self@, k + 1) <= byte);
                }
            }
            n = n + w;
            k = k + 1;
        }
        k
    }

    /// The position of byte `byte`; beyond the text, of its end.
    pub fn position(&self, byte: usize, enc: PositionEncoding) -> (p: Position)
        ensures
            p == position_of(self@, byte as int, enc),
    {
        let i: usize = self.floor(byte);
        proof {
            use_type_invariant(self);
            lemma_byte_len_bounds(self@);
            assert(self@.subrange(0, 0) =~= Seq::empty());
        }
        let mut line: u32 = 0;
        let mut character: u32 = 0;
        let mut k: usize = 0;
        while k < i
            invariant
                k <= i <= self@.len(),
                self@ == self.text@,
                byte_len(self@) <= u32::MAX,
                line == lines_before(self@, k as int),
                character == units(self@.subrange(line_start(self@, k as int), k as int), enc),
            decreases i - k,
        {
            let c = self.text[k];
            proof {
                lemma_position_fits(self@, k + 1, enc);
                lemma_line_start(self@, k as int);
                lemma_units_step(self@, line_start(self@, k as int), k as int, enc);
            }
            if c == '\n' {
                line = line + 1;
                character = 0;
                proof {
                    assert(self@.subrange(k + 1, k + 1) =~= Seq::empty());
                }
            } else {
                character = character + char_units(c, enc) as u32;
            }
            k = k + 1;
        }
        Position { line, character }
    }

    /// The index of the first character of a line.
    pub fn line_start_index(&self, wanted: u32) -> (r: Option<usize>)
        ensures
            match r {
                Some(i) => i <= self@.len() && start_of_line(self@, wanted as int) == Some(
                    i as int,
                ),
                None => start_of_line(self@, wanted as int) is None,
            },
    {
        proof {
            use_type_invariant(self);
            lemma_byte_len_bounds(self@);
            lemma_start_of_line(self@, wanted as int, self@.len() as int);
        }
        let mut line: u32 = 0;
        let mut k: usize = 0;
        while k < self.text.len() && line < wanted
            invariant
                k <= self@.len(),
                self@ == self.text@,
                line == lines_before(self@, k as int),
                byte_len(self@) <= u32::MAX,
                self@.len() <= byte_len(self@),
                line <= wanted,
                line == wanted ==> line_start(self@, k as int) == k,
            decreases self@.len() - k,
        {
            proof {
                lemma_lines_before(self@, 0, k + 1);
            }
            if self.text[k] == '\n' {
                line = line + 1;
            }
            k = k + 1;
        }
        if line < wanted {
            proof {
                if let Some(j) = start_of_line(self@, wanted as int) {
                    lemma_lines_before(self@, j, self@.len() as int);
                }
            }
            return None;
        }
        proof {
            lemma_start_of_line_found(self@, wanted as int, self@.len() as int, k as int);
        }
        Some(k)
    }

    /// The byte offset of a position.
    pub fn offset(&self, p: Position, enc: PositionEncoding) -> (b: usize)
        ensures
            b == offset_of(self@, p, enc),
    {
        proof {
            use_type_invariant(self);
        }
        let i: usize = match self.line_start_index(p.line) {
            Some(i) => i,
            None => {
                return bytes_of(&self.text);
            },
        };
        proof {
            lemma_line_end(self@, i as int);
        }
        let mut e: usize = i;
        while e < self.text.len() && self.text[e] != '\n'
            invariant
                i <= e <= self@.len(),
                self@ == self.text@,
                line_end(self@, i as int) == line_end(self@, e as int),
            decreases self@.len() - e,
        {
            e = e + 1;
        }
        proof {
            lemma_byte_at_monotone(self@, i as int, e as int);
            lemma_byte_at_monotone(self@, e as int, self@.len() as int);
            lemma_byte_at_ends(self@);
        }
        match enc {
            PositionEncoding::Utf8 => {
                let a: usize = bytes_before(&self.text, i);
                let z: usize = bytes_before(&self.text, e);
                if (p.character as usize) < z - a {
                    a + p.character as usize
                } else {
                    z
                }
            },
            PositionEncoding::Utf16 => {
                let mut j: usize = i;
                let mut n: usize = p.character as usize;
                while j < e && char_units(self.text[j], enc) <= n
                    invariant
                        i <= j <= e <= self@.len(),
                        self@ == self.text@,
                        advance(self@, i as int, e as int, p.character as int, enc) == advance(
                            self@,
                            j as int,
                            e as int,
                            n as int,
                            enc,
                        ),
                    decreases e - j,
                {
                    n = n - char_units(self.text[j], enc);
                    j = j + 1;
                }
                proof {
                    lemma_byte_at_monotone(self@, j as int, e as int);
                }
                bytes_before(&self.text, j)
            },
        }
    }
}

/// The range between two byte offsets.
pub fn range(start: usize, end: usize, li: &LineIndex, enc: PositionEncoding) -> (r: Range)
    ensures
        r == range_of(li@, start as int, end as int, enc),
{
    Range { start: li.position(start, enc), end: li.position(end, enc) }
}

} // verus!
