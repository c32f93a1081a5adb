//! The text of a level: one line per row of the board, one character per
//! square.
use vstd::prelude::*;
use crate::cell::State;
use crate::grid::Grid;
use crate::stage::ParseStageError;

verus! {

/// The lines of a text: what stands between its line feeds. A text without
/// a line feed is one line, and so is the empty text.
pub open spec fn rows(text: Seq<char>) -> Seq<Seq<char>>
    decreases text.len(),
{
    if text.len() == 0 {
        seq![Seq::<char>::empty()]
    } else {
        let before = rows(text.drop_last());
        if text.last() == '\n' {
            before.push(Seq::<char>::empty())
        } else {
            before.update(before.len() - 1, before.last().push(text.last()))
        }
    }
}

/// The characters of a text without its line feeds: its lines, one after
/// the other.
pub open spec fn glyphs(text: Seq<char>) -> Seq<char>
    decreases text.len(),
{
    if text.len() == 0 {
        text
    } else if text.last() == '\n' {
        glyphs(text.drop_last())
    } else {
        glyphs(text.drop_last()).push(text.last())
    }
}

/// Every line is as long as the first.
pub open spec fn rectangular(text: Seq<char>) -> bool {
    forall|k: int|
        0 <= k < rows(text).len() ==> (#[trigger] rows(text)[k]).len() == rows(text)[0].len()
}

/// Every character stands for a square.
pub open spec fn known(glyphs: Seq<char>) -> bool {
    forall|i: int| 0 <= i < glyphs.len() ==> State::of_glyph(#[trigger] glyphs[i]) is Some
}

/// The squares that the characters stand for.
pub open spec fn squares(glyphs: Seq<char>) -> Seq<State> {
    Seq::new(glyphs.len(), |i: int| State::of_glyph(glyphs[i])->0)
}

/// The board that a level text describes, or why it describes none.
///
/// The lines are the rows. A line that is not as long as the first is
/// reported before a character that stands for no square. Nothing else is
/// asked of the text: not that the player is there, nor that walls close
/// the board.
pub open spec fn parse_text(text: Seq<char>) -> Result<Grid, ParseStageError> {
    let width = rows(text)[0].len();
    if !rectangular(text) {
        Err(ParseStageError::StageWidthValidationError(width as usize))
    } else if !known(glyphs(text)) {
        Err(ParseStageError::UnknownObjectError)
    } else {
        Ok(Grid { cells: squares(glyphs(text)), width, height: rows(text).len() })
    }
}

/// A text without the line feed at its end, if it ends in one.
pub open spec fn trimmed(text: Seq<char>) -> Seq<char> {
    if text.len() > 0 && text.last() == '\n' {
        text.drop_last()
    } else {
        text
    }
}

/// Takes the line feed off the end of what was read from a file, so that it
/// does not count as an empty last row. A text that does not end in a line
/// feed is the level text as it is.
pub fn trim_line_end(contents: &str) -> (text: &str)
    ensures
        text@ == trimmed(contents@),
{
    let n = contents.unicode_len();
    if n > 0 && contents.get_char(n - 1) == '\n' {
        contents.substring_char(0, n - 1)
    } else {
        contents
    }
}

/// The lengths of some lines, added up.
pub open spec fn total_len(lines: Seq<Seq<char>>) -> nat
    decreases lines.len(),
{
    if lines.len() == 0 {
        0
    } else {
        total_len(lines.drop_last()) + lines.last().len()
    }
}

/// What one more character does to the lines and to the characters kept.
pub proof fn lemma_append(text: Seq<char>, c: char)
    ensures
        rows(text).len() >= 1,
        c == '\n' ==> rows(text.push(c)) == rows(text).push(Seq::<char>::empty()),
        c == '\n' ==> glyphs(text.push(c)) == glyphs(text),
        c != '\n' ==> rows(text.push(c)) == rows(text).update(
            rows(text).len() - 1,
            rows(text).last().push(c),
        ),
        c != '\n' ==> glyphs(text.push(c)) == glyphs(text).push(c),
    decreases text.len(),
{
    assert(text.push(c).drop_last() =~= text);
    if text.len() > 0 {
        lemma_append(text.drop_last(), text.last());
    }
}

/// A text has one line more than it has line feeds, and the lines hold
/// every other character.
pub proof fn lemma_sizes(text: Seq<char>)
    ensures
        rows(text).len() >= 1,
        rows(text).len() + glyphs(text).len() == text.len() + 1,
        total_len(rows(text)) == glyphs(text).len(),
    decreases text.len(),
{
    if text.len() == 0 {
        assert(rows(text).drop_last() =~= Seq::<Seq<char>>::empty());
        assert(total_len(rows(text).drop_last()) == 0);
    } else {
        let before = rows(text.drop_last());
        lemma_sizes(text.drop_last());
        if text.last() == '\n' {
            assert(rows(text).drop_last() =~= before);
        } else {
            assert(rows(text).drop_last() =~= before.drop_last());
        }
    }
}

/// Lines of one length hold that length times their number of characters.
pub proof fn lemma_total_len_even(lines: Seq<Seq<char>>, width: nat)
    requires
        forall|k: int| 0 <= k < lines.len() ==> (#[trigger] lines[k]).len() == width,
    ensures
        total_len(lines) == width * lines.len(),
    decreases lines.len(),
{
    if lines.len() > 0 {
        lemma_total_len_even(lines.drop_last(), width);
        assert(width * (lines.len() - 1) + width == width * lines.len()) by (nonlinear_arith);
    } else {
        assert(width * 0 == 0) by (nonlinear_arith);
    }
}

/// The characters of a rectangular text fill its rows exactly.
pub proof fn lemma_rectangle(text: Seq<char>)
    requires
        rectangular(text),
    ensures
        rows(text).len() >= 1,
        glyphs(text).len() == rows(text)[0].len() * rows(text).len(),
{
    lemma_sizes(text);
    lemma_total_len_even(rows(text), rows(text)[0].len());
}

} // verus!
