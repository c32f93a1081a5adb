//! One turn of a game: what a key press does to the board, and what the
//! screen has to do next.
use vstd::prelude::*;
use crate::grid::Grid;
use crate::stage::Stage;

verus! {

/// What the player asked for with one key.
#[derive(Clone, Copy, Debug, PartialEq, Eq, Structural)]
pub enum Input {
    /// Leave the game.
    Quit,
    /// One step up.
    Up,
    /// One step left.
    Left,
    /// One step down.
    Down,
    /// One step right.
    Right,
    /// Any other key: nothing happens.
    Other,
}

/// What is to be done after a turn.
#[derive(Clone, Copy, Debug, PartialEq, Eq, Structural)]
pub enum Action {
    /// Leave the game without drawing.
    Quit,
    /// Draw the board and wait for the next key.
    Draw,
    /// Draw the board and end the game: the level is cleared.
    Finish,
    /// Give up: the board does not hold exactly one player, so no step can
    /// be taken on it.
    Abort,
}

impl Input {
    /// The meaning of a key that gives a character: `q` leaves, `w`, `a`,
    /// `s` and `d` step up, left, down and right.
    pub open spec fn of_char(c: char) -> Input {
        if c == 'q' {
            Input::Quit
        } else if c == 'w' {
            Input::Up
        } else if c == 'a' {
            Input::Left
        } else if c == 's' {
            Input::Down
        } else if c == 'd' {
            Input::Right
        } else {
            Input::Other
        }
    }

    /// The step that the input asks for, if it asks for one.
    pub open spec fn step(self) -> Option<(int, int)> {
        match self {
            Input::Up => Some((0int, -1int)),
            Input::Left => Some((-1int, 0int)),
            Input::Down => Some((0int, 1int)),
            Input::Right => Some((1int, 0int)),
            _ => None,
        }
    }

    /// The meaning of a key: of the character it gives or, for a key that
    /// gives none, `Other`.
    pub fn from_key(key: Option<char>) -> (input: Input)
        ensures
            input == match key {
                Some(c) => Input::of_char(c),
                None => Input::Other,
            },
    {
        match key {
            Some('q') => Input::Quit,
            Some('w') => Input::Up,
            Some('a') => Input::Left,
            Some('s') => Input::Down,
            Some('d') => Input::Right,
            _ => Input::Other,
        }
    }

    /// The step that the input asks for, if it asks for one.
    pub fn direction(self) -> (d: Option<(i32, i32)>)
        ensures
            match d {
                Some((dx, dy)) => self.step() == Some((dx as int, dy as int)),
                None => self.step() is None,
            },
    {
        match self {
            Input::Up => Some((0, -1)),
            Input::Left => Some((-1, 0)),
            Input::Down => Some((0, 1)),
            Input::Right => Some((1, 0)),
            _ => None,
        }
    }
}

/// What a board on the screen calls for: the end of the game once the
/// level is cleared, the next key until then.
pub open spec fn shown(board: Grid) -> Action {
    if board.solved() {
        Action::Finish
    } else {
        Action::Draw
    }
}

/// The board after one turn, and what is to be done then.
///
/// `Quit` leaves the board alone. A step is taken as the board's rule
/// says, if exactly one player is on the board; else the turn gives up.
/// Any other key changes nothing.
pub open spec fn played(board: Grid, input: Input) -> (Grid, Action) {
    match input.step() {
        Some((dx, dy)) => if board.has_unique_player() {
            (board.moved(dx, dy), shown(board.moved(dx, dy)))
        } else {
            (board, Action::Abort)
        },
        None => if input is Quit {
            (board, Action::Quit)
        } else {
            (board, shown(board))
        },
    }
}

/// What to do with a board before the first key: draw it, and end the game
/// at once if the level is cleared already.
pub fn begin(stage: &Stage) -> (action: Action)
    ensures
        action == shown(stage@),
{
    if stage.check_clear() {
        Action::Finish
    } else {
        Action::Draw
    }
}

/// Plays one turn on the board.
pub fn turn(stage: &mut Stage, input: Input) -> (action: Action)
    ensures
        (final(stage)@, action) == played(old(stage)@, input),
{
    match input.direction() {
        Some((dx, dy)) => {
            if !stage.has_unique_player() {
                return Action::Abort;
            }
            stage.update(dx, dy);
            begin(stage)
        },
        None => match input {
            Input::Quit => Action::Quit,
            _ => begin(stage),
        },
    }
}

} // verus!
