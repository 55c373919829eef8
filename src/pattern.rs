//! The plain-text pattern format: one row per line, `#` for a live cell.
use vstd::prelude::*;
use crate::cells::LiveSet;
use crate::pos::Pos;

verus! {

/// The row of character `i` of `s`: the line breaks before it.
pub open spec fn row_of(s: Seq<char>, i: int) -> int
    decreases i,
{
    if i <= 0 {
        0
    } else {
        row_of(s, i - 1) + if s[i - 1] == '\n' {
            1int
        } else {
            0int
        }
    }
}

/// The column of character `i` of `s`: the characters between the last line
/// break before it and it.
pub open spec fn col_of(s: Seq<char>, i: int) -> int
    decreases i,
{
    if i <= 0 {
        0
    } else if s[i - 1] == '\n' {
        0
    } else {
        col_of(s, i - 1) + 1
    }
}

/// The live cells that the text `s` describes.
pub open spec fn pattern_cells(s: Seq<char>) -> Set<Pos> {
    Set::new(|p: Pos| exists|i: int| #![trigger s[i]]
        0 <= i < s.len() && s[i] == '#' && p == Pos(col_of(s, i) as i32, row_of(s, i) as i32))
}

proof fn lemma_position_bounds(s: Seq<char>, i: int)
    requires
        0 <= i,
    ensures
        0 <= row_of(s, i) <= i,
        0 <= col_of(s, i) <= i,
    decreases i,
{
    if i > 0 {
        lemma_position_bounds(s, i - 1);
    }
}

/// Reads a pattern: a `#` in column `i` of line `j` makes `(i, j)` alive, and
/// every other character is ignored.
pub fn parse_pattern(text: &str) -> (r: LiveSet)
    requires
        text@.len() <= i32::MAX,
    ensures
        r@ == pattern_cells(text@),
{
    let mut r = LiveSet::new();
    let mut row: i32 = 0;
    let mut col: i32 = 0;
    let ghost s = text@;
    for c in it: text.chars()
        invariant
            it.seq() == s,
            s.len() <= i32::MAX,
            row == row_of(s, it.index() as int),
            col == col_of(s, it.index() as int),
            r@ == Set::new(|p: Pos| exists|i: int| #![trigger s[i]]
                0 <= i < it.index() && s[i] == '#' && p == Pos(col_of(s, i) as i32, row_of(s, i) as i32)),
    {
        let ghost i = it.index() as int;
        proof {
            lemma_position_bounds(s, i + 1);
        }
        if c == '#' {
            r.insert(Pos(col, row));
        }
        if c == '\n' {
            row = row + 1;
            col = 0;
        } else {
            col = col + 1;
        }
        proof {
            assert(r@ =~= Set::new(|p: Pos| exists|j: int| #![trigger s[j]]
                0 <= j < i + 1 && s[j] == '#' && p == Pos(col_of(s, j) as i32, row_of(s, j) as i32)));
        }
    }
    assert(r@ =~= pattern_cells(s));
    r
}

} // verus!
