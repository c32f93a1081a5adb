//! The board that the game is played on.
use vstd::prelude::*;
use crate::cell::State;
use crate::grid::{unit_step, Grid};
use crate::laws::lemma_step_keeps_player;
use crate::level::{
    glyphs, known, lemma_append, lemma_rectangle, parse_text, rectangular, rows, squares,
};

verus! {

/// Why a level text is not a board.
#[derive(Clone, Copy, Debug, PartialEq, Eq, Structural)]
pub enum ParseStageError {
    /// A row is not as long as the first row, whose length is given.
    StageWidthValidationError(usize),
    /// A character stands for no square.
    UnknownObjectError,
}

/// A board in play: its squares row after row, and its two sides.
pub struct Stage {
    stage: Vec<State>,
    w: usize,
    h: usize,
}

impl View for Stage {
    type V = Grid;

    closed spec fn view(&self) -> Grid {
        Grid { cells: self.stage@, width: self.w as nat, height: self.h as nat }
    }
}

/// What reading a level text gave, with the board taken as a mathematical
/// value.
pub open spec fn outcome(r: Result<Stage, ParseStageError>) -> Result<Grid, ParseStageError> {
    match r {
        Ok(stage) => Ok(stage@),
        Err(e) => Err(e),
    }
}

/// `v + d`, if that is at least 0 and less than `limit`.
fn shifted(v: usize, d: i32, limit: usize) -> (r: Option<usize>)
    requires
        -1 <= d <= 1,
    ensures
        match r {
            Some(u) => 0 <= v + d < limit && u == v + d,
            None => !(0 <= v + d < limit),
        },
{
    if d == 0 {
        if v < limit {
            Some(v)
        } else {
            None
        }
    } else if d == 1 {
        if limit >= 1 && v < limit - 1 {
            Some(v + 1)
        } else {
            None
        }
    } else {
        if v >= 1 && v - 1 < limit {
            Some(v - 1)
        } else {
            None
        }
    }
}

impl Stage {
    /// There are as many squares as the sides say.
    #[verifier::type_invariant]
    spec fn squares_match_sides(self) -> bool {
        self.stage.len() == self.w * self.h
    }

    /// The number of squares in a row.
    pub fn width(&self) -> (w: usize)
        ensures
            w == self@.width,
            self@.well_formed(),
    {
        proof {
            use_type_invariant(self);
        }
        self.w
    }

    /// The number of rows.
    pub fn height(&self) -> (h: usize)
        ensures
            h == self@.height,
            self@.well_formed(),
    {
        proof {
            use_type_invariant(self);
        }
        self.h
    }

    /// Whether the level is cleared: no hall is left without a block on it.
    /// The player standing on a hall does not clear it.
    pub fn check_clear(&self) -> (clear: bool)
        ensures
            clear == self@.solved(),
    {
        let mut i: usize = 0;
        while i < self.stage.len()
            invariant
                i <= self.stage@.len(),
                forall|j: int| 0 <= j < i ==> !(#[trigger] self.stage@[j]).is_open_hall(),
            decreases self.stage@.len() - i,
        {
            match self.stage[i] {
                State::Hall | State::PlayerOnHall => {
                    assert(self@.cells[i as int].is_open_hall());
                    return false;
                },
                _ => {},
            }
            i += 1;
        }
        true
    }

    /// Whether exactly one square holds the player, as `update` asks.
    pub fn has_unique_player(&self) -> (unique: bool)
        ensures
            unique == self@.has_unique_player(),
    {
        let mut found: Option<usize> = None;
        let mut i: usize = 0;
        while i < self.stage.len()
            invariant
                i <= self.stage.len(),
                match found {
                    None => forall|j: int| 0 <= j < i ==> !(#[trigger] self@.player_at(j)),
                    Some(p) => p < i && self@.player_at(p as int) && forall|j: int|
                        0 <= j < i && #[trigger] self@.player_at(j) ==> j == p,
                },
            decreases self.stage.len() - i,
        {
            match self.stage[i] {
                State::Player | State::PlayerOnHall => {
                    assert(self@.player_at(i as int));
                    if found.is_some() {
                        return false;
                    }
                    found = Some(i);
                },
                _ => {},
            }
            i += 1;
        }
        match found {
            Some(p) => {
                assert(self@.player_at(p as int));
                true
            },
            None => false,
        }
    }

    /// The board drawn row by row: one text of `width` characters for each
    /// row, from the top.
    pub fn rows(&self) -> (lines: Vec<String>)
        ensures
            lines@.len() == self@.height,
            forall|y: int| 0 <= y < lines@.len() ==> (#[trigger] lines@[y])@ == self@.row_text(y),
    {
        proof {
            use_type_invariant(self);
        }
        let mut lines: Vec<String> = Vec::new();
        let mut i: usize = 0;
        let mut y: usize = 0;
        while y < self.h
            invariant
                self.stage.len() == self.w * self.h,
                y <= self.h,
                i == y * self.w,
                lines@.len() == y,
                forall|r: int| 0 <= r < y ==> (#[trigger] lines@[r])@ == self@.row_text(r),
            decreases self.h - y,
        {
            let mut line = String::new();
            let mut x: usize = 0;
            assert(y * self.w + self.w <= self.w * self.h) by (nonlinear_arith)
                requires
                    y < self.h,
            ;
            while x < self.w
                invariant
                    self.stage.len() == self.w * self.h,
                    y * self.w + self.w <= self.stage.len(),
                    y < self.h,
                    x <= self.w,
                    i == y * self.w + x,
                    line@ == self@.text().subrange(y * self.w, y * self.w + x),
                decreases self.w - x,
            {
                proof {
                    self@.lemma_index(x as int, y as int);
                }
                line.append(self.stage[i].glyph_str());
                assert(line@ =~= self@.text().subrange(y * self.w, y * self.w + x + 1));
                i += 1;
                x += 1;
            }
            assert((y + 1) * self.w == y * self.w + self.w) by (nonlinear_arith);
            assert(line@ == self@.row_text(y as int));
            lines.push(line);
            y += 1;
        }
        lines
    }

    /// The square on which the player stands.
    fn player_position(&self) -> (p: usize)
        requires
            self@.has_unique_player(),
        ensures
            p == self@.player_index(),
            p < self.stage@.len(),
    {
        proof {
            self@.lemma_player();
        }
        let mut i: usize = 0;
        while i < self.stage.len()
            invariant
                i <= self.stage@.len(),
                forall|j: int| 0 <= j < i ==> !(#[trigger] self@.player_at(j)),
                self@.player_at(self@.player_index()),
                forall|j: int| #[trigger] self@.player_at(j) ==> j == self@.player_index(),
            decreases self.stage@.len() - i,
        {
            match self.stage[i] {
                State::Player | State::PlayerOnHall => {
                    assert(self@.player_at(i as int));
                    return i;
                },
                _ => {},
            }
            i += 1;
        }
        // Not reached: the search stops at the player, who is on the board.
        i
    }

    /// Moves the player one step by `(dx, dy)`: `(0, -1)` is up, `(0, 1)`
    /// down, `(-1, 0)` left and `(1, 0)` right.
    ///
    /// The player walks onto free floor, or pushes the block ahead one
    /// square on and takes its place. Where a wall, a block that cannot
    /// give way, or the border is ahead, the board stays as it is.
    ///
    /// The board must hold exactly one player, which `has_unique_player`
    /// tells; a step keeps it so.
    pub fn update(&mut self, dx: i32, dy: i32)
        requires
            old(self)@.has_unique_player(),
            unit_step(dx as int, dy as int),
        ensures
            final(self)@ == old(self)@.moved(dx as int, dy as int),
            final(self)@.well_formed(),
            final(self)@.has_unique_player(),
    {
        proof {
            use_type_invariant(&*self);
            lemma_step_keeps_player(self@, dx as int, dy as int);
        }
        let from = self.player_position();
        proof {
            self@.lemma_coordinates(from as int);
        }
        let x = from % self.w;
        let y = from / self.w;
        let tx = match shifted(x, dx, self.w - 1) {
            Some(v) => v,
            None => {
                return ;
            },
        };
        let ty = match shifted(y, dy, self.h - 1) {
            Some(v) => v,
            None => {
                return ;
            },
        };
        proof {
            self@.lemma_index(tx as int, ty as int);
            self@.lemma_index(x as int, y as int);
        }
        let to = ty * self.w + tx;
        let here = self.stage[from];
        let ahead = self.stage[to];
        match ahead {
            State::Nothing | State::Hall => {
                self.stage[to] = ahead.entered();
                self.stage[from] = here.emptied();
                assert(self@.cells =~= old(self)@.walk(to as int).cells);
            },
            State::Block | State::BlockOnHall => {
                let fx = match shifted(tx, dx, self.w) {
                    Some(v) => v,
                    None => {
                        return ;
                    },
                };
                let fy = match shifted(ty, dy, self.h) {
                    Some(v) => v,
                    None => {
                        return ;
                    },
                };
                proof {
                    self@.lemma_index(fx as int, fy as int);
                }
                let far = fy * self.w + fx;
                let beyond = self.stage[far];
                match beyond {
                    State::Nothing | State::Hall => {
                        self.stage[far] = beyond.loaded();
                        self.stage[to] = ahead.entered();
                        self.stage[from] = here.emptied();
                        assert(self@.cells =~= old(self)@.push(to as int, far as int).cells);
                    },
                    _ => {},
                }
            },
            _ => {},
        }
    }
}

impl ToString for Stage {
    /// The board drawn as one text, row after row, with nothing between the
    /// rows.
    fn to_string(&self) -> (text: String)
        ensures
            text@ == self@.text(),
    {
        let mut text = String::new();
        let mut i: usize = 0;
        while i < self.stage.len()
            invariant
                i <= self.stage.len(),
                text@ == self@.text().take(i as int),
            decreases self.stage.len() - i,
        {
            text.append(self.stage[i].glyph_str());
            assert(text@ =~= self@.text().take(i + 1));
            i += 1;
        }
        assert(self@.text().take(self.stage.len() as int) =~= self@.text());
        text
    }
}

impl std::str::FromStr for Stage {
    type Err = ParseStageError;

    /// Reads a level text: one line per row, one character per square.
    ///
    /// Fails with the length of the first line where another line differs
    /// from it in length, and else with `UnknownObjectError` where a
    /// character stands for no square.
    fn from_str(s: &str) -> (r: Result<Stage, ParseStageError>)
        ensures
            outcome(r) == parse_text(s@),
            r matches Ok(stage) ==> stage@.well_formed(),
    {
        let mut widths: Vec<usize> = Vec::new();
        let mut flat: Vec<char> = Vec::new();
        let mut start: usize = 0;
        for c in it: s.chars()
            invariant
                it.seq() == s@,
                rows(s@.take(it.index())).len() == widths@.len() + 1,
                forall|k: int|
                    0 <= k < widths@.len() ==> widths@[k] == (#[trigger] rows(
                        s@.take(it.index()),
                    )[k]).len(),
                start <= flat.len(),
                rows(s@.take(it.index())).last().len() == flat.len() - start,
                flat@ == glyphs(s@.take(it.index())),
        {
            proof {
                lemma_append(s@.take(it.index()), c);
                assert(s@.take(it.index() + 1) =~= s@.take(it.index()).push(c));
            }
            if c == '\n' {
                widths.push(flat.len() - start);
                start = flat.len();
            } else {
                flat.push(c);
            }
        }
        assert(s@.take(s@.len() as int) =~= s@);
        widths.push(flat.len() - start);
        let w = widths[0];
        let mut k: usize = 0;
        while k < widths.len()
            invariant
                k <= widths@.len(),
                widths@.len() == rows(s@).len(),
                w == rows(s@)[0].len(),
                forall|j: int|
                    0 <= j < widths@.len() ==> widths@[j] == (#[trigger] rows(s@)[j]).len(),
                forall|j: int| 0 <= j < k ==> (#[trigger] rows(s@)[j]).len() == w,
            decreases widths@.len() - k,
        {
            if widths[k] != w {
                assert(rows(s@)[k as int].len() != rows(s@)[0].len());
                return Err(ParseStageError::StageWidthValidationError(w));
            }
            k += 1;
        }
        let mut cells: Vec<State> = Vec::new();
        let mut i: usize = 0;
        while i < flat.len()
            invariant
                i <= flat.len(),
                rectangular(s@),
                flat@ == glyphs(s@),
                known(flat@.take(i as int)),
                cells@ == squares(flat@.take(i as int)),
            decreases flat.len() - i,
        {
            match State::from_glyph(flat[i]) {
                Some(square) => {
                    cells.push(square);
                },
                None => {
                    return Err(ParseStageError::UnknownObjectError);
                },
            }
            assert(flat@.take(i + 1) =~= flat@.take(i as int).push(flat@[i as int]));
            assert(cells@ =~= squares(flat@.take(i + 1)));
            i += 1;
        }
        assert(flat@.take(flat.len() as int) =~= flat@);
        proof {
            lemma_rectangle(s@);
        }
        let h = widths.len();
        Ok(Stage { stage: cells, w, h })
    }
}

} // verus!
