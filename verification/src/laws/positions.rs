//! How places in a text are counted.
use crate::line_index::{
    lemma_line_start, lemma_position_fits, line_start, Position, position_at, PositionEncoding,
    unit,
};
use crate::text::byte_len;
use vstd::prelude::*;

verus! {

/// A character takes as many columns as it has units in the encoding.
pub proof fn characters_take_columns(c: char)
    ensures
        unit(c, PositionEncoding::Utf16) == (if (c as u32) < 0x10000 {
            1nat
        } else {
            2nat
        }),
        unit(c, PositionEncoding::Utf8) == (if (c as u32) < 0x80 {
            1nat
        } else if (c as u32) < 0x800 {
            2nat
        } else if (c as u32) < 0x10000 {
            3nat
        } else {
            4nat
        }),
{
}

/// A text starts at the first column of the first line.
pub proof fn texts_start_at_the_first_column(s: Seq<char>, enc: PositionEncoding)
    ensures
        position_at(s, 0, enc) == (Position { line: 0, character: 0 }),
{
    assert(s.subrange(0, 0) =~= Seq::empty());
}

/// Behind a line break the next line starts; behind any other character the column is further
/// by the units of that character.
pub proof fn positions_go_on(s: Seq<char>, i: int, enc: PositionEncoding)
    requires
        byte_len(s) <= u32::MAX,
        0 <= i < s.len(),
    ensures
        s[i] == '\n' ==> position_at(s, i + 1, enc).line == position_at(s, i, enc).line + 1
            && position_at(s, i + 1, enc).character == 0,
        s[i] != '\n' ==> position_at(s, i + 1, enc).line == position_at(s, i, enc).line
            && position_at(s, i + 1, enc).character == position_at(s, i, enc).character + unit(
            s[i],
            enc,
        ),
{
    lemma_position_fits(s, i, enc);
    lemma_position_fits(s, i + 1, enc);
    lemma_line_start(s, i);
    lemma_line_start(s, i + 1);
    let a = line_start(s, i);
    if s[i] == '\n' {
        assert(line_start(s, i + 1) == i + 1);
        assert(s.subrange(i + 1, i + 1) =~= Seq::empty());
    } else {
        assert(line_start(s, i + 1) == a);
        let now = s.subrange(a, i + 1);
        assert(now.drop_last() =~= s.subrange(a, i));
        assert(now.last() == s[i]);
    }
}

} // verus!
