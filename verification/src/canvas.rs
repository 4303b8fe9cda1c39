//! The forest as text: one line per row, one character per cell.

use vstd::prelude::*;
use vstd::string::StringExecFns;
use crate::forest::Trees;
use crate::grid::{CELLS, FOREST_X, FOREST_Y, column_of, row_of};
use crate::tree::TreeState;

verus! {

/// The character that stands for a cell in the picture.
pub open spec fn glyph(state: TreeState) -> char {
    match state {
        TreeState::Clear => ' ',
        TreeState::Living => 'T',
        TreeState::Ignited => '#',
        TreeState::Burning => '%',
        TreeState::Burned => 'X',
    }
}

/// The glyphs of the first `columns` cells of row `row`.
pub open spec fn row_glyphs(states: Seq<TreeState>, row: int, columns: int) -> Seq<char> {
    Seq::new(columns as nat, |c: int| glyph(states[row * FOREST_X + c]))
}

/// The line that shows row `row`: a border, the glyph of each cell, a border
/// and a line break.
pub open spec fn row_line(states: Seq<TreeState>, row: int) -> Seq<char> {
    seq!['|'] + row_glyphs(states, row, FOREST_X as int) + seq!['|', '\n']
}

/// The lines of the first `rows` rows, one after the other.
pub open spec fn picture_rows(states: Seq<TreeState>, rows: int) -> Seq<char>
    decreases rows,
{
    if rows <= 0 {
        Seq::empty()
    } else {
        picture_rows(states, rows - 1) + row_line(states, rows - 1)
    }
}

/// The picture of the whole forest.
pub open spec fn picture(states: Seq<TreeState>) -> Seq<char> {
    picture_rows(states, FOREST_Y as int)
}

/// The width of a line of the picture: the cells of a row, two borders and
/// the line break.
pub const LINE_WIDTH: usize = 93;

/// Every line of the picture has the same width.
pub proof fn lemma_picture_rows_len(states: Seq<TreeState>, rows: int)
    requires
        0 <= rows,
    ensures
        picture_rows(states, rows).len() == rows * LINE_WIDTH,
    decreases rows,
{
    if rows > 0 {
        lemma_picture_rows_len(states, rows - 1);
    }
}

/// Later rows do not change what earlier rows look like.
proof fn lemma_picture_rows_prefix(states: Seq<TreeState>, rows: int, more: int, at: int)
    requires
        0 <= rows <= more,
        0 <= at < rows * LINE_WIDTH,
    ensures
        picture_rows(states, more).len() == more * LINE_WIDTH,
        picture_rows(states, more)[at] == picture_rows(states, rows)[at],
    decreases more,
{
    lemma_picture_rows_len(states, more);
    if rows < more {
        lemma_picture_rows_prefix(states, rows, more - 1, at);
    }
}

/// Where each character of the picture stands. The picture has one line per
/// row. In the line of row `row`, the first character is a border, the
/// character after that is the glyph of the cell in column 0, and so on; the
/// last two are a border and a line break.
pub proof fn lemma_picture_layout(states: Seq<TreeState>, row: int, column: int)
    requires
        0 <= row < FOREST_Y,
        0 <= column < FOREST_X,
    ensures
        picture(states).len() == FOREST_Y * LINE_WIDTH,
        picture(states)[row * LINE_WIDTH] == '|',
        picture(states)[row * LINE_WIDTH + 1 + column] == glyph(states[row * FOREST_X + column]),
        picture(states)[row * LINE_WIDTH + FOREST_X + 1] == '|',
        picture(states)[row * LINE_WIDTH + FOREST_X + 2] == '\n',
{
    let start = row * LINE_WIDTH;
    let upto = picture_rows(states, row + 1);
    lemma_picture_rows_len(states, row);
    lemma_picture_rows_len(states, row + 1);
    lemma_picture_rows_prefix(states, row + 1, FOREST_Y as int, start);
    lemma_picture_rows_prefix(states, row + 1, FOREST_Y as int, start + 1 + column);
    lemma_picture_rows_prefix(states, row + 1, FOREST_Y as int, start + FOREST_X + 1);
    lemma_picture_rows_prefix(states, row + 1, FOREST_Y as int, start + FOREST_X + 2);
    let line = row_line(states, row);
    assert(upto == picture_rows(states, row) + line);
    assert(line.len() == LINE_WIDTH);
    assert(upto[start] == line[0]);
    assert(upto[start + 1 + column] == line[1 + column]);
    assert(upto[start + FOREST_X + 1] == line[FOREST_X + 1]);
    assert(upto[start + FOREST_X + 2] == line[FOREST_X + 2]);
}

/// The start of the line of row `row`, up to and without its cell in column
/// `column`. Before the first cell nothing has been drawn, not even the
/// border.
spec fn row_begun(states: Seq<TreeState>, row: int, column: int) -> Seq<char> {
    if column == 0 {
        Seq::empty()
    } else {
        seq!['|'] + row_glyphs(states, row, column)
    }
}

/// The text that stands for a cell.
fn glyph_text(state: TreeState) -> (text: &'static str)
    ensures
        text@ == seq![glyph(state)],
{
    proof {
        reveal_strlit(" ");
        reveal_strlit("T");
        reveal_strlit("#");
        reveal_strlit("%");
        reveal_strlit("X");
    }
    let text = match state {
        TreeState::Clear => " ",
        TreeState::Living => "T",
        TreeState::Ignited => "#",
        TreeState::Burning => "%",
        TreeState::Burned => "X",
    };
    assert(text@ =~= seq![glyph(state)]);
    text
}

/// Draws the forest as text: one line per row from top to bottom, each made
/// of a border, one glyph per cell from left to right, a border and a line
/// break.
pub fn render_forest(forest: &Trees) -> (out: String)
    ensures
        out@ == picture(forest@),
{
    let states = forest.states();
    let mut out = String::new();
    proof {
        reveal_strlit("|");
        reveal_strlit("|\n");
    }
    for i in 0..CELLS
        invariant
            states@.len() == CELLS,
            "|"@ == seq!['|'],
            "|\n"@ == seq!['|', '\n'],
            out@ == picture_rows(states@, row_of(i as int)) + row_begun(
                states@,
                row_of(i as int),
                column_of(i as int),
            ),
    {
        let ghost row = row_of(i as int);
        let ghost column = column_of(i as int);
        if i % FOREST_X == 0 {
            out.append("|");  // border character
        }
        out.append(glyph_text(states[i]));
        assert(out@ == picture_rows(states@, row) + (seq!['|'] + row_glyphs(
            states@,
            row,
            column + 1,
        ))) by {
            assert(row_glyphs(states@, row, column + 1) == row_glyphs(states@, row, column).push(
                glyph(states@[i as int]),
            ));
        }
        if i % FOREST_X == (FOREST_X - 1) {
            out.append("|\n");
            assert(out@ == picture_rows(states@, row + 1));
        }
    }
    out
}

} // verus!
