//! What holds of every level text, every board and every step.
use vstd::prelude::*;
use vstd::multiset::group_multiset_axioms;
use vstd::seq_lib::{to_multiset_contains, to_multiset_update};
use crate::cell::{lemma_glyph_drawn_back, State};
use crate::grid::{block_count, unit_step, Grid};
use crate::level::{glyphs, lemma_rectangle, parse_text, rectangular, rows};
use crate::stage::{outcome, ParseStageError, Stage};

verus! {

/// Lines put together again, with a line feed between each two.
pub open spec fn joined(lines: Seq<Seq<char>>) -> Seq<char>
    decreases lines.len(),
{
    if lines.len() == 0 {
        Seq::<char>::empty()
    } else if lines.len() == 1 {
        lines[0]
    } else {
        joined(lines.drop_last()) + seq!['\n'] + lines.last()
    }
}

/// The lines of a text are what splitting it at its line feeds gives: no
/// line holds a line feed, and the lines with a line feed between each two
/// are the text again.
pub proof fn lemma_rows_split(text: Seq<char>)
    ensures
        rows(text).len() >= 1,
        joined(rows(text)) == text,
        forall|k: int, j: int|
            0 <= k < rows(text).len() && 0 <= j < rows(text)[k].len() ==> #[trigger] rows(
                text,
            )[k][j] != '\n',
    decreases text.len(),
{
    if text.len() == 0 {
        assert(joined(rows(text)) =~= text);
    } else {
        let before = rows(text.drop_last());
        let after = rows(text);
        lemma_rows_split(text.drop_last());
        assert(text.drop_last().push(text.last()) =~= text);
        if text.last() == '\n' {
            assert(after.drop_last() =~= before);
            assert(joined(after) =~= text);
        } else if before.len() == 1 {
            assert(joined(after) =~= text);
        } else {
            assert(after.drop_last() =~= before.drop_last());
            assert(joined(after) =~= text);
        }
    }
}

/// The characters kept of a text are its lines, one after the other.
pub proof fn lemma_glyphs_are_rows(text: Seq<char>)
    ensures
        glyphs(text) == rows(text).flatten(),
    decreases text.len(),
{
    let after = rows(text);
    after.lemma_flatten_and_flatten_alt_are_equivalent();
    if text.len() == 0 {
        assert(after.drop_last() =~= Seq::<Seq<char>>::empty());
        assert(after.drop_last().flatten_alt() =~= Seq::<char>::empty());
        assert(after.flatten_alt() =~= glyphs(text));
    } else {
        let before = rows(text.drop_last());
        lemma_glyphs_are_rows(text.drop_last());
        lemma_rows_split(text.drop_last());
        before.lemma_flatten_and_flatten_alt_are_equivalent();
        if text.last() == '\n' {
            assert(after.drop_last() =~= before);
            assert(after.flatten_alt() =~= glyphs(text));
        } else {
            assert(after.drop_last() =~= before.drop_last());
            assert(after.flatten_alt() =~= glyphs(text));
        }
    }
}

/// Reading is a function of the text: whatever two readings of one text
/// give, they give the same board or the same error.
pub proof fn lemma_read_again(
    text: Seq<char>,
    first: Result<Stage, ParseStageError>,
    second: Result<Stage, ParseStageError>,
)
    requires
        outcome(first) == parse_text(text),
        outcome(second) == parse_text(text),
    ensures
        outcome(first) == outcome(second),
        first is Ok <==> second is Ok,
{
}

/// A board that was read has as many squares as its sides say: its width
/// is the length of the first line, its height the number of lines.
pub proof fn lemma_read_well_formed(text: Seq<char>)
    requires
        parse_text(text) is Ok,
    ensures
        parse_text(text)->Ok_0.well_formed(),
        parse_text(text)->Ok_0.width == rows(text)[0].len(),
        parse_text(text)->Ok_0.height == rows(text).len(),
        forall|k: int|
            0 <= k < rows(text).len() ==> (#[trigger] rows(text)[k]).len() == rows(text)[0].len(),
{
    lemma_rectangle(text);
}

/// Drawing a board that was read gives the text back, but for its line
/// feeds.
pub proof fn lemma_draw_what_was_read(text: Seq<char>)
    requires
        parse_text(text) is Ok,
    ensures
        parse_text(text)->Ok_0.text() == glyphs(text),
{
    let g = glyphs(text);
    let board = parse_text(text)->Ok_0;
    assert forall|i: int| 0 <= i < g.len() implies #[trigger] board.text()[i] == g[i] by {
        assert(State::of_glyph(g[i]) is Some);
        lemma_glyph_drawn_back(g[i]);
    }
    assert(board.text() =~= g);
}

/// Character `i` is one of the two that stand for the player.
pub open spec fn player_glyph_at(glyphs: Seq<char>, i: int) -> bool {
    0 <= i < glyphs.len() && (glyphs[i] == 'p' || glyphs[i] == 'P')
}

/// Exactly one of the characters stands for the player.
pub open spec fn has_unique_player_glyph(glyphs: Seq<char>) -> bool {
    exists|i: int| #[trigger]
        player_glyph_at(glyphs, i) && forall|j: int| #[trigger]
            player_glyph_at(glyphs, j) ==> j == i
}

/// A board that was read holds exactly one player if and only if the text
/// holds exactly one character that stands for the player. Reading does not
/// ask for one.
pub proof fn lemma_read_player(text: Seq<char>)
    requires
        parse_text(text) is Ok,
    ensures
        parse_text(text)->Ok_0.has_unique_player() <==> has_unique_player_glyph(glyphs(text)),
{
    let g = glyphs(text);
    let board = parse_text(text)->Ok_0;
    assert forall|i: int| #[trigger] board.player_at(i) <==> player_glyph_at(g, i) by {
        if 0 <= i < g.len() {
            assert(State::of_glyph(g[i]) is Some);
        }
    }
    if board.has_unique_player() {
        let i = choose|i: int| #[trigger]
            board.player_at(i) && forall|j: int| #[trigger] board.player_at(j) ==> j == i;
        assert(player_glyph_at(g, i));
        assert forall|j: int| #[trigger] player_glyph_at(g, j) implies j == i by {
            assert(board.player_at(j));
        }
    }
    if has_unique_player_glyph(g) {
        let i = choose|i: int| #[trigger]
            player_glyph_at(g, i) && forall|j: int| #[trigger] player_glyph_at(g, j) ==> j == i;
        assert(board.player_at(i));
        assert forall|j: int| #[trigger] board.player_at(j) implies j == i by {
            assert(player_glyph_at(g, j));
        }
    }
}

/// A text with a line that is not as long as the first is no board: the
/// error names the length of the first line.
pub proof fn lemma_ragged_text_fails(text: Seq<char>, k: int)
    requires
        0 <= k < rows(text).len(),
        rows(text)[k].len() != rows(text)[0].len(),
    ensures
        parse_text(text) == Err::<Grid, ParseStageError>(
            ParseStageError::StageWidthValidationError(rows(text)[0].len() as usize),
        ),
{
}

/// Every character of a text but a line feed is among the characters kept.
pub proof fn lemma_glyph_kept(text: Seq<char>, i: int)
    requires
        0 <= i < text.len(),
        text[i] != '\n',
    ensures
        exists|j: int| 0 <= j < glyphs(text).len() && #[trigger] glyphs(text)[j] == text[i],
    decreases text.len(),
{
    let before = text.drop_last();
    if i == text.len() - 1 {
        let j = glyphs(before).len() as int;
        assert(glyphs(text)[j] == text[i]);
    } else {
        lemma_glyph_kept(before, i);
        let j = choose|j: int| 0 <= j < glyphs(before).len() && #[trigger] glyphs(before)[j] == before[i];
        assert(glyphs(text)[j] == text[i]);
    }
}

/// A text whose lines are of one length, with a character that stands for
/// no square, is no board.
pub proof fn lemma_unknown_glyph_fails(text: Seq<char>, i: int)
    requires
        rectangular(text),
        0 <= i < text.len(),
        text[i] != '\n',
        State::of_glyph(text[i]) is None,
    ensures
        parse_text(text) == Err::<Grid, ParseStageError>(ParseStageError::UnknownObjectError),
{
    lemma_glyph_kept(text, i);
    let j = choose|j: int| 0 <= j < glyphs(text).len() && #[trigger] glyphs(text)[j] == text[i];
    assert(State::of_glyph(glyphs(text)[j]) is None);
}

/// A step keeps the sides of the board and leaves exactly one player on
/// it.
pub proof fn lemma_step_keeps_player(board: Grid, dx: int, dy: int)
    requires
        board.well_formed(),
        board.has_unique_player(),
        unit_step(dx, dy),
    ensures
        board.moved(dx, dy).well_formed(),
        board.moved(dx, dy).width == board.width,
        board.moved(dx, dy).height == board.height,
        board.moved(dx, dy).has_unique_player(),
{
    let from = board.player_index();
    let after = board.moved(dx, dy);
    board.lemma_player();
    board.lemma_coordinates(from);
    let x = board.player_x();
    let y = board.player_y();
    board.lemma_index(x, y);
    if after != board {
        let to = board.ahead(dx, dy)->0;
        board.lemma_index(x + dx, y + dy);
        if !board.cells[to].is_free() {
            let far = board.beyond(dx, dy)->0;
            board.lemma_index(x + 2 * dx, y + 2 * dy);
            assert(far != from && far != to);
        }
        assert(to != from);
        assert(after.player_at(to));
        assert forall|j: int| #[trigger] after.player_at(j) implies j == to by {
            if j != to {
                assert(board.player_at(j));
            }
        }
    }
}

/// A step changes no floor: walls stay walls, halls stay halls, and plain
/// floor stays plain.
pub proof fn lemma_step_keeps_floor(board: Grid, dx: int, dy: int)
    requires
        board.well_formed(),
        board.has_unique_player(),
        unit_step(dx, dy),
    ensures
        board.moved(dx, dy).cells.len() == board.cells.len(),
        forall|i: int|
            0 <= i < board.cells.len() ==> (#[trigger] board.moved(dx, dy).cells[i]).floor()
                == board.cells[i].floor(),
{
    let from = board.player_index();
    board.lemma_player();
    board.lemma_coordinates(from);
    let x = board.player_x();
    let y = board.player_y();
    board.lemma_index(x, y);
    if board.moved(dx, dy) != board {
        board.lemma_index(x + dx, y + dy);
        if !board.cells[board.ahead(dx, dy)->0].is_free() {
            board.lemma_index(x + 2 * dx, y + 2 * dy);
        }
    }
}

/// What changing one square does to the number of blocks.
pub proof fn lemma_block_count_update(cells: Seq<State>, i: int, square: State)
    requires
        0 <= i < cells.len(),
    ensures
        block_count(cells.update(i, square)) + (if cells[i].is_block() {
            1nat
        } else {
            0nat
        }) == block_count(cells) + (if square.is_block() {
            1nat
        } else {
            0nat
        }),
{
    broadcast use group_multiset_axioms;

    to_multiset_update(cells, i, square);
    to_multiset_contains(cells, cells[i]);
    assert(cells.contains(cells[i]));
}

/// A step neither makes nor loses a block.
pub proof fn lemma_step_keeps_blocks(board: Grid, dx: int, dy: int)
    requires
        board.well_formed(),
        board.has_unique_player(),
        unit_step(dx, dy),
    ensures
        board.moved(dx, dy).blocks() == board.blocks(),
{
    let from = board.player_index();
    board.lemma_player();
    board.lemma_coordinates(from);
    let x = board.player_x();
    let y = board.player_y();
    board.lemma_index(x, y);
    if board.moved(dx, dy) != board {
        let to = board.ahead(dx, dy)->0;
        board.lemma_index(x + dx, y + dy);
        assert(to != from);
        if board.cells[to].is_free() {
            let entered = board.cells.update(to, board.cells[to].with_player());
            lemma_block_count_update(board.cells, to, board.cells[to].with_player());
            lemma_block_count_update(entered, from, board.cells[from].floor());
        } else {
            let far = board.beyond(dx, dy)->0;
            board.lemma_index(x + 2 * dx, y + 2 * dy);
            assert(far != from && far != to);
            let pushed = board.cells.update(far, board.cells[far].with_block());
            let entered = pushed.update(to, board.cells[to].with_player());
            lemma_block_count_update(board.cells, far, board.cells[far].with_block());
            lemma_block_count_update(pushed, to, board.cells[to].with_player());
            lemma_block_count_update(entered, from, board.cells[from].floor());
        }
    }
}

/// A wall ahead stops the player: the board stays as it is.
pub proof fn lemma_wall_stops(board: Grid, dx: int, dy: int)
    requires
        board.well_formed(),
        board.has_unique_player(),
        unit_step(dx, dy),
        board.contains(board.player_x() + dx, board.player_y() + dy),
        board.cells[board.index(board.player_x() + dx, board.player_y() + dy)] is Wall,
    ensures
        board.moved(dx, dy) == board,
{
}

/// A block ahead that cannot give way stops the player: where the square
/// behind the block is off the board, or holds a wall or another block, the
/// board stays as it is.
pub proof fn lemma_stuck_block_stops(board: Grid, dx: int, dy: int)
    requires
        board.well_formed(),
        board.has_unique_player(),
        unit_step(dx, dy),
        board.contains(board.player_x() + dx, board.player_y() + dy),
        board.cells[board.index(board.player_x() + dx, board.player_y() + dy)].is_block(),
        !board.contains(board.player_x() + 2 * dx, board.player_y() + 2 * dy) || {
            let far = board.cells[board.index(
                board.player_x() + 2 * dx,
                board.player_y() + 2 * dy,
            )];
            far is Wall || far.is_block()
        },
    ensures
        board.moved(dx, dy) == board,
{
}

} // verus!
