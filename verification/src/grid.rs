//! The board as a mathematical value, and the rule by which one step of the
//! player changes it.
use vstd::prelude::*;
use vstd::arithmetic::div_mod::{
    lemma_div_pos_is_pos, lemma_fundamental_div_mod, lemma_fundamental_div_mod_converse,
    lemma_mod_bound, lemma_multiply_divide_lt,
};
use crate::cell::State;

verus! {

/// A board: `height` rows of `width` squares each, row after row in `cells`.
pub struct Grid {
    /// The squares, the top row first, each row from left to right.
    pub cells: Seq<State>,
    /// The number of squares in a row.
    pub width: nat,
    /// The number of rows.
    pub height: nat,
}

/// A step to a neighbouring square: up, down, left or right.
pub open spec fn unit_step(dx: int, dy: int) -> bool {
    ||| dx == 0 && dy == -1
    ||| dx == 0 && dy == 1
    ||| dx == -1 && dy == 0
    ||| dx == 1 && dy == 0
}

/// How many of the squares hold a block.
pub open spec fn block_count(cells: Seq<State>) -> nat {
    cells.to_multiset().count(State::Block) + cells.to_multiset().count(State::BlockOnHall)
}

impl Grid {
    /// There are as many squares as the sides say.
    pub open spec fn well_formed(self) -> bool {
        self.cells.len() == self.width * self.height
    }

    /// Column `x` of row `y` lies on the board.
    pub open spec fn contains(self, x: int, y: int) -> bool {
        0 <= x < self.width && 0 <= y < self.height
    }

    /// Where column `x` of row `y` stands in `cells`.
    pub open spec fn index(self, x: int, y: int) -> int {
        y * self.width + x
    }

    /// The player stands on square `i`.
    pub open spec fn player_at(self, i: int) -> bool {
        0 <= i < self.cells.len() && self.cells[i].is_player()
    }

    /// Exactly one square holds the player.
    pub open spec fn has_unique_player(self) -> bool {
        exists|i: int| #[trigger]
            self.player_at(i) && forall|j: int| #[trigger] self.player_at(j) ==> j == i
    }

    /// The square that holds the player.
    pub open spec fn player_index(self) -> int {
        choose|i: int| self.player_at(i)
    }

    /// The player's column.
    pub open spec fn player_x(self) -> int {
        self.player_index() % (self.width as int)
    }

    /// The player's row.
    pub open spec fn player_y(self) -> int {
        self.player_index() / (self.width as int)
    }

    /// How many squares hold a block.
    pub open spec fn blocks(self) -> nat {
        block_count(self.cells)
    }

    /// No hall is left without a block on it.
    pub open spec fn solved(self) -> bool {
        forall|i: int| 0 <= i < self.cells.len() ==> !(#[trigger] self.cells[i]).is_open_hall()
    }

    /// The board drawn as one run of characters, row after row, with nothing
    /// between the rows.
    pub open spec fn text(self) -> Seq<char> {
        Seq::new(self.cells.len(), |i: int| self.cells[i].glyph_of())
    }

    /// Row `y` of the drawn board.
    pub open spec fn row_text(self, y: int) -> Seq<char> {
        self.text().subrange(y * self.width, (y + 1) * self.width)
    }

    /// The square one step ahead of the player, if the player may stand
    /// there at all: the last column and the last row are kept for the
    /// border, and so is everything off the board.
    pub open spec fn ahead(self, dx: int, dy: int) -> Option<int> {
        let x = self.player_x() + dx;
        let y = self.player_y() + dy;
        if 0 <= x < self.width - 1 && 0 <= y < self.height - 1 {
            Some(self.index(x, y))
        } else {
            None
        }
    }

    /// The square two steps ahead of the player, if it lies on the board.
    pub open spec fn beyond(self, dx: int, dy: int) -> Option<int> {
        let x = self.player_x() + 2 * dx;
        let y = self.player_y() + 2 * dy;
        if self.contains(x, y) {
            Some(self.index(x, y))
        } else {
            None
        }
    }

    /// The board after the player has stepped onto square `to`.
    pub open spec fn walk(self, to: int) -> Grid {
        let from = self.player_index();
        Grid {
            cells: self.cells.update(to, self.cells[to].with_player()).update(
                from,
                self.cells[from].floor(),
            ),
            ..self
        }
    }

    /// The board after the player has stepped onto square `to` and pushed
    /// the block that stood there onto square `far`.
    pub open spec fn push(self, to: int, far: int) -> Grid {
        let from = self.player_index();
        Grid {
            cells: self.cells.update(far, self.cells[far].with_block()).update(
                to,
                self.cells[to].with_player(),
            ).update(from, self.cells[from].floor()),
            ..self
        }
    }

    /// The board after the player has tried one step by `(dx, dy)`.
    ///
    /// The player walks onto free floor. A block ahead is pushed one square
    /// on, if that square is on the board and free. In every other case
    /// nothing moves.
    pub open spec fn moved(self, dx: int, dy: int) -> Grid {
        match self.ahead(dx, dy) {
            None => self,
            Some(to) => {
                if self.cells[to].is_free() {
                    self.walk(to)
                } else if self.cells[to].is_block() {
                    match self.beyond(dx, dy) {
                        None => self,
                        Some(far) => if self.cells[far].is_free() {
                            self.push(to, far)
                        } else {
                            self
                        },
                    }
                } else {
                    self
                }
            },
        }
    }
}

impl Grid {
    /// A coordinate on the board names one square, and the square gives the
    /// coordinate back.
    pub proof fn lemma_index(self, x: int, y: int)
        requires
            self.well_formed(),
            self.contains(x, y),
        ensures
            0 <= self.index(x, y) < self.cells.len(),
            self.index(x, y) % (self.width as int) == x,
            self.index(x, y) / (self.width as int) == y,
    {
        let w = self.width as int;
        let h = self.height as int;
        assert(0 <= y * w + x < w * h) by (nonlinear_arith)
            requires
                0 <= x < w,
                0 <= y < h,
        ;
        lemma_fundamental_div_mod_converse(y * w + x, w, y, x);
    }

    /// Every square has a coordinate on the board.
    pub proof fn lemma_coordinates(self, i: int)
        requires
            self.well_formed(),
            0 <= i < self.cells.len(),
        ensures
            self.width > 0,
            self.height > 0,
            self.contains(i % (self.width as int), i / (self.width as int)),
            self.index(i % (self.width as int), i / (self.width as int)) == i,
    {
        let w = self.width as int;
        let h = self.height as int;
        assert(w > 0 && h > 0) by (nonlinear_arith)
            requires
                0 < w * h,
                0 <= w,
                0 <= h,
        ;
        lemma_fundamental_div_mod(i, w);
        lemma_mod_bound(i, w);
        lemma_div_pos_is_pos(i, w);
        lemma_multiply_divide_lt(i, w, h);
        assert((i / w) * w == w * (i / w)) by (nonlinear_arith);
    }

    /// Where exactly one square holds the player, `player_index` is that
    /// square.
    pub proof fn lemma_player(self)
        requires
            self.has_unique_player(),
        ensures
            self.player_at(self.player_index()),
            forall|j: int| #[trigger] self.player_at(j) ==> j == self.player_index(),
    {
    }
}

} // verus!
